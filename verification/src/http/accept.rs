//! The media types that a request accepts, and the one that it likes best.

use vstd::prelude::*;

verus! {

broadcast use vstd::string::group_string_axioms;

/// The weight of a media type that is given no weight, in thousandths.
pub const FULL_WEIGHT: u16 = 1000;

/// A media type: a top-level type, a subtype and parameters.
pub struct MediaType {
    pub top: String,
    pub sub: String,
    pub params: Vec<(String, String)>,
}

/// The number of parameters in `params` whose name is not `q`.
pub open spec fn plain_params(params: Seq<(String, String)>) -> nat
    decreases params.len(),
{
    if params.len() == 0 {
        0
    } else if params.last().0@ == seq!['q'] {
        plain_params(params.drop_last())
    } else {
        plain_params(params.drop_last()) + 1
    }
}

impl MediaType {
    /// The media type `top/sub` without parameters.
    pub fn new(top: &str, sub: &str) -> (media_type: MediaType)
        ensures
            media_type.top@ == top@,
            media_type.sub@ == sub@,
            media_type.params@.len() == 0,
    {
        MediaType { top: String::from_str(top), sub: String::from_str(sub), params: Vec::new() }
    }

    /// This media type with one more parameter behind the others.
    pub fn with_param(self, name: &str, value: &str) -> (media_type: MediaType)
        ensures
            media_type.top == self.top,
            media_type.sub == self.sub,
            media_type.params@.len() == self.params@.len() + 1,
            media_type.params@.drop_last() == self.params@,
            media_type.params@.last().0@ == name@,
            media_type.params@.last().1@ == value@,
    {
        let mut media_type = self;
        media_type.params.push((String::from_str(name), String::from_str(value)));
        media_type
    }

    /// Whether two media types have the same top-level type and subtype,
    /// whatever their parameters.
    pub open spec fn same_type(&self, other: &MediaType) -> bool {
        self.top@ == other.top@ && self.sub@ == other.sub@
    }

    /// Decides whether two media types have the same top-level type and
    /// subtype.
    pub fn is_same_type(&self, other: &MediaType) -> (same: bool)
        ensures
            same == self.same_type(other),
    {
        self.top == other.top && self.sub == other.sub
    }

    /// The number of parameters whose name is not `q`.
    pub fn plain_param_count(&self) -> (count: usize)
        ensures
            count == plain_params(self.params@),
    {
        let q = String::from_str("q");
        proof {
            reveal_strlit("q");
            assert(q@ =~= seq!['q']);
        }
        let mut count: usize = 0;
        let mut k: usize = 0;
        while k < self.params.len()
            invariant
                k <= self.params.len(),
                q@ == seq!['q'],
                count <= k,
                count == plain_params(self.params@.take(k as int)),
            decreases self.params.len() - k,
        {
            assert(self.params@.take(k + 1).drop_last() == self.params@.take(k as int));
            if self.params[k].0 != q {
                count = count + 1;
            }
            k = k + 1;
        }
        assert(self.params@.take(k as int) == self.params@);
        count
    }

    /// The text of the media type: `top/sub`, and behind it `; name=value`
    /// for each parameter.
    pub open spec fn text(&self) -> Seq<char> {
        self.top@ + seq!['/'] + self.sub@ + params_text(self.params@)
    }

    /// Writes the media type as text.
    pub fn to_string(&self) -> (text: String)
        ensures
            text@ == self.text(),
    {
        proof {
            reveal_strlit("/");
            reveal_strlit("; ");
            reveal_strlit("=");
        }
        let mut text = self.top.clone();
        text.append("/");
        text.append(self.sub.as_str());
        assert(text@ =~= self.top@ + seq!['/'] + self.sub@);
        let ghost head = text@;
        let mut k: usize = 0;
        assert(params_text(self.params@.take(0)) =~= Seq::<char>::empty());
        while k < self.params.len()
            invariant
                k <= self.params.len(),
                text@ == head + params_text(self.params@.take(k as int)),
            decreases self.params.len() - k,
        {
            assert(self.params@.take(k + 1).drop_last() == self.params@.take(k as int));
            let ghost before = text@;
            text.append("; ");
            text.append(self.params[k].0.as_str());
            text.append("=");
            text.append(self.params[k].1.as_str());
            assert(text@ =~= before + (seq![';', ' '] + self.params@[k as int].0@ + seq!['=']
                + self.params@[k as int].1@)) by {
                reveal_strlit("; ");
                reveal_strlit("=");
                assert("; "@ =~= seq![';', ' ']);
                assert("="@ =~= seq!['=']);
            }
            assert(text@ =~= head + params_text(self.params@.take(k + 1)));
            k = k + 1;
        }
        assert(self.params@.take(k as int) == self.params@);
        text
    }
}

/// The text of a list of parameters: `; name=value` for each of them.
pub open spec fn params_text(params: Seq<(String, String)>) -> Seq<char>
    decreases params.len(),
{
    if params.len() == 0 {
        Seq::empty()
    } else {
        params_text(params.drop_last()) + (seq![';', ' '] + params.last().0@ + seq!['=']
            + params.last().1@)
    }
}

/// A media type with the weight that a request gives it, in thousandths from
/// 0 to 1000; `None` when the request gives it no weight.
pub struct WeightedMediaType(pub MediaType, pub Option<u16>);

impl WeightedMediaType {
    /// The media type.
    pub fn media_type(&self) -> (media_type: &MediaType)
        ensures
            *media_type == self.0,
    {
        &self.0
    }

    /// The weight, in thousandths.
    pub fn weight(&self) -> (weight: Option<u16>)
        ensures
            weight == self.1,
    {
        self.1
    }

    /// The weight in thousandths, or `default` when there is none.
    pub fn weight_or(&self, default: u16) -> (weight: u16)
        ensures
            weight == match self.1 {
                Some(w) => w,
                None => default,
            },
    {
        match self.1 {
            Some(w) => w,
            None => default,
        }
    }

    /// The media type without its weight.
    pub fn into_inner(self) -> (media_type: MediaType)
        ensures
            media_type == self.0,
    {
        self.0
    }
}

/// The weight of `item` in thousandths, or `default` when it has none.
pub open spec fn weight_or(item: WeightedMediaType, default: int) -> int {
    match item.1 {
        Some(w) => w as int,
        None => default,
    }
}

/// Whether `current` is liked better than `preferred`, which stands before it
/// in the list: it has no weight while `preferred` has one, or its weight is
/// higher, or it is the same type with the same weight and more parameters.
pub open spec fn better(current: WeightedMediaType, preferred: WeightedMediaType) -> bool {
    ||| current.1 is None && preferred.1 is Some
    ||| weight_or(current, 0) > weight_or(preferred, FULL_WEIGHT as int)
    ||| current.0.same_type(&preferred.0) && current.1 == preferred.1 && plain_params(
        current.0.params@,
    ) > plain_params(preferred.0.params@)
}

/// The position of the media type that is liked best among the first `n` of
/// `items`: the first item, unless a later one is liked better than the one
/// that was liked best before it.
pub open spec fn preferred_below(items: Seq<WeightedMediaType>, n: int) -> int
    decreases n,
{
    if n <= 1 {
        0
    } else if better(items[n - 1], items[preferred_below(items, n - 1)]) {
        n - 1
    } else {
        preferred_below(items, n - 1)
    }
}

/// The media types that a request accepts, in the order in which it names
/// them.
pub struct Accept(pub Vec<WeightedMediaType>);

impl Accept {
    /// The media type that the request likes best, or `None` when it names
    /// none and so accepts any.
    pub fn preferred(&self) -> (preferred: Option<&WeightedMediaType>)
        ensures
            self.0@.len() == 0 ==> preferred is None,
            self.0@.len() > 0 ==> preferred == Some(
                &self.0@[preferred_below(self.0@, self.0@.len() as int)],
            ),
    {
        if self.0.len() == 0 {
            return None;
        }
        let mut best: usize = 0;
        let mut k: usize = 1;
        while k < self.0.len()
            invariant
                1 <= k <= self.0.len(),
                best < k,
                best == preferred_below(self.0@, k as int),
            decreases self.0.len() - k,
        {
            let current = &self.0[k];
            let preferred = &self.0[best];
            let liked = if current.weight().is_none() && preferred.weight().is_some() {
                true
            } else if current.weight_or(0) > preferred.weight_or(FULL_WEIGHT) {
                true
            } else if current.media_type().is_same_type(preferred.media_type()) {
                let same_weight = match (current.weight(), preferred.weight()) {
                    (Some(a), Some(b)) => a == b,
                    (None, None) => true,
                    _ => false,
                };
                same_weight && current.media_type().plain_param_count()
                    > preferred.media_type().plain_param_count()
            } else {
                false
            };
            assert(liked == better(self.0@[k as int], self.0@[best as int]));
            if liked {
                best = k;
            }
            k = k + 1;
        }
        Some(&self.0[best])
    }

    /// The media type that the request names first.
    pub fn first(&self) -> (first: Option<&WeightedMediaType>)
        ensures
            self.0@.len() == 0 ==> first is None,
            self.0@.len() > 0 ==> first == Some(&self.0@[0]),
    {
        if self.0.len() > 0 {
            Some(&self.0[0])
        } else {
            None
        }
    }

    /// The weighted media types, in order.
    pub fn iter(&self) -> (items: &Vec<WeightedMediaType>)
        ensures
            *items == self.0,
    {
        &self.0
    }

    /// The media types without their weights, in order.
    pub fn media_types(&self) -> (media_types: Vec<&MediaType>)
        ensures
            media_types@.len() == self.0@.len(),
            forall|k: int| 0 <= k < self.0@.len() ==> *#[trigger] media_types@[k] == self.0@[k].0,
    {
        let mut media_types: Vec<&MediaType> = Vec::new();
        let mut k: usize = 0;
        while k < self.0.len()
            invariant
                k <= self.0.len(),
                media_types@.len() == k,
                forall|j: int| 0 <= j < k ==> *#[trigger] media_types@[j] == self.0@[j].0,
            decreases self.0.len() - k,
        {
            media_types.push(self.0[k].media_type());
            k = k + 1;
        }
        media_types
    }
}

} // verus!
