//! Which texts are mount points and which are templates.
//!
//! A path is written in the characters that a path of a request can hold:
//! the letters and digits of the basic alphabet, the marks `-._~`, the marks
//! `!$&'()*+,;=`, the marks `:` and `@`, the percent sign and the separator.
//! A mount point is such a path that starts at the root. A template is a
//! mount point that may also hold dynamic spans: a span opens with `<`, holds
//! a name of at least one letter, digit or underscore, and closes with `>`.

use crate::router::uri::{chars_of, collapsed, SEPARATOR};
use vstd::prelude::*;

verus! {

/// Whether `c` is a letter or a digit of the basic alphabet.
pub open spec fn is_alphanumeric(c: char) -> bool {
    ('a' <= c && c <= 'z') || ('A' <= c && c <= 'Z') || ('0' <= c && c <= '9')
}

/// Whether `c` can stand in the name of a dynamic span.
pub open spec fn is_name_char(c: char) -> bool {
    is_alphanumeric(c) || c == '_'
}

/// Whether `c` can stand in a path.
pub open spec fn is_path_char(c: char) -> bool {
    ||| is_alphanumeric(c)
    ||| c == '-' || c == '.' || c == '_' || c == '~'
    ||| c == '!' || c == '$' || c == '&' || c == '\'' || c == '(' || c == ')' || c == '*' || c
        == '+' || c == ',' || c == ';' || c == '='
    ||| c == ':' || c == '@' || c == '%' || c == SEPARATOR
}

/// Where the reading of a template stands.
#[derive(Debug, Clone, Copy, PartialEq, Eq, Structural)]
pub enum Scan {
    /// Outside of every span.
    Outside,
    /// In a span that has no name yet.
    Opened,
    /// In a span that has a name.
    Named,
    /// Behind a character that cannot stand where it stands.
    Broken,
}

/// Where the reading stands after one more character.
pub open spec fn step(before: Scan, c: char) -> Scan {
    match before {
        Scan::Broken => Scan::Broken,
        Scan::Outside => if c == '<' {
            Scan::Opened
        } else if is_path_char(c) {
            Scan::Outside
        } else {
            Scan::Broken
        },
        Scan::Opened => if is_name_char(c) {
            Scan::Named
        } else {
            Scan::Broken
        },
        Scan::Named => if is_name_char(c) {
            Scan::Named
        } else if c == '>' {
            Scan::Outside
        } else {
            Scan::Broken
        },
    }
}

/// Where the reading of `s` stands at its end.
pub open spec fn scanned(s: Seq<char>) -> Scan
    decreases s.len(),
{
    if s.len() == 0 {
        Scan::Outside
    } else {
        step(scanned(s.drop_last()), s.last())
    }
}

/// Whether `s` is a template: it starts at the root, and it reads as path
/// characters and whole dynamic spans from its first character to its last.
pub open spec fn parsable_template(s: Seq<char>) -> bool {
    s.len() > 0 && s[0] == SEPARATOR && scanned(s) == Scan::Outside
}

/// Whether `s` is a mount point: it starts at the root and holds path
/// characters only, so neither a query nor a dynamic span.
pub open spec fn valid_mount_point(s: Seq<char>) -> bool {
    &&& s.len() > 0
    &&& s[0] == SEPARATOR
    &&& forall|k: int| 0 <= k < s.len() ==> is_path_char(#[trigger] s[k])
}

/// Decides whether `c` is a letter or a digit of the basic alphabet.
pub fn alphanumeric(c: char) -> (is: bool)
    ensures
        is == is_alphanumeric(c),
{
    ('a' <= c && c <= 'z') || ('A' <= c && c <= 'Z') || ('0' <= c && c <= '9')
}

/// Decides whether `c` can stand in a path.
pub fn path_char(c: char) -> (is: bool)
    ensures
        is == is_path_char(c),
{
    alphanumeric(c) || c == '-' || c == '.' || c == '_' || c == '~' || c == '!' || c == '$' || c
        == '&' || c == '\'' || c == '(' || c == ')' || c == '*' || c == '+' || c == ',' || c == ';'
        || c == '=' || c == ':' || c == '@' || c == '%' || c == SEPARATOR
}

/// Reads one more character of a template.
pub fn advance(before: Scan, c: char) -> (after: Scan)
    ensures
        after == step(before, c),
{
    match before {
        Scan::Broken => Scan::Broken,
        Scan::Outside => {
            if c == '<' {
                Scan::Opened
            } else if path_char(c) {
                Scan::Outside
            } else {
                Scan::Broken
            }
        },
        Scan::Opened => {
            if alphanumeric(c) || c == '_' {
                Scan::Named
            } else {
                Scan::Broken
            }
        },
        Scan::Named => {
            if alphanumeric(c) || c == '_' {
                Scan::Named
            } else if c == '>' {
                Scan::Outside
            } else {
                Scan::Broken
            }
        },
    }
}

/// Decides whether `path` is a template.
pub fn is_parsable_template(path: &str) -> (parsable: bool)
    ensures
        parsable == parsable_template(path@),
{
    let chars = chars_of(path);
    if chars.len() == 0 || chars[0] != SEPARATOR {
        return false;
    }
    let mut state = Scan::Outside;
    let mut k: usize = 0;
    while k < chars.len()
        invariant
            k <= chars.len(),
            chars@ == path@,
            chars@.len() > 0,
            chars@[0] == SEPARATOR,
            state == scanned(chars@.take(k as int)),
        decreases chars.len() - k,
    {
        assert(chars@.take(k + 1).drop_last() == chars@.take(k as int));
        state = advance(state, chars[k]);
        k = k + 1;
    }
    assert(chars@.take(k as int) == chars@);
    state == Scan::Outside
}

/// Decides whether `base` is a mount point.
pub fn is_valid_mount_point(base: &str) -> (valid: bool)
    ensures
        valid == valid_mount_point(base@),
{
    let chars = chars_of(base);
    if chars.len() == 0 || chars[0] != SEPARATOR {
        return false;
    }
    let mut k: usize = 0;
    while k < chars.len()
        invariant
            k <= chars.len(),
            chars@ == base@,
            chars@.len() > 0,
            chars@[0] == SEPARATOR,
            forall|j: int| 0 <= j < k ==> is_path_char(#[trigger] chars@[j]),
        decreases chars.len() - k,
    {
        if !path_char(chars[k]) {
            return false;
        }
        k = k + 1;
    }
    true
}

/// A text of path characters reads as lying outside of every span.
pub proof fn lemma_plain_scanned(s: Seq<char>)
    requires
        forall|k: int| 0 <= k < s.len() ==> is_path_char(#[trigger] s[k]),
    ensures
        scanned(s) == Scan::Outside,
    decreases s.len(),
{
    if s.len() > 0 {
        assert forall|k: int| 0 <= k < s.drop_last().len() implies is_path_char(
            #[trigger] s.drop_last()[k],
        ) by {
            assert(s.drop_last()[k] == s[k]);
        }
        lemma_plain_scanned(s.drop_last());
        assert(is_path_char(s[s.len() - 1]));
    }
}

/// Behind a text that reads as lying outside of every span, a text reads as
/// it reads alone.
pub proof fn lemma_scanned_behind(a: Seq<char>, b: Seq<char>)
    requires
        scanned(a) == Scan::Outside,
    ensures
        scanned(a + b) == scanned(b),
    decreases b.len(),
{
    if b.len() == 0 {
        assert(a + b == a);
    } else {
        assert((a + b).drop_last() == a + b.drop_last());
        lemma_scanned_behind(a, b.drop_last());
    }
}

/// Collapsing the separator runs of a text changes neither how it reads nor
/// its first character.
pub proof fn lemma_collapsed_scanned(s: Seq<char>)
    ensures
        scanned(collapsed(s)) == scanned(s),
        s.len() > 0 ==> collapsed(s).len() > 0 && collapsed(s)[0] == s[0],
    decreases s.len(),
{
    if s.len() > 0 {
        let before = s.drop_last();
        lemma_collapsed_scanned(before);
        if s.last() == SEPARATOR && s.len() >= 2 && s[s.len() - 2] == SEPARATOR {
            assert(before.last() == SEPARATOR);
            assert(scanned(before) == step(scanned(before.drop_last()), SEPARATOR));
        } else {
            assert(collapsed(before).push(s.last()).drop_last() == collapsed(before));
            if before.len() > 0 {
                assert(before[0] == s[0]);
            }
        }
    }
}

/// Mounting keeps templates: a template that is joined to a mount point by a
/// separator, with every run of separators collapsed, is a template.
pub proof fn lemma_mounted_parsable(base: Seq<char>, path: Seq<char>)
    requires
        valid_mount_point(base),
        parsable_template(path),
    ensures
        parsable_template(collapsed(base + seq![SEPARATOR] + path)),
{
    let head = base + seq![SEPARATOR];
    assert forall|k: int| 0 <= k < head.len() implies is_path_char(#[trigger] head[k]) by {
        if k < base.len() {
            assert(head[k] == base[k]);
        }
    }
    lemma_plain_scanned(head);
    lemma_scanned_behind(head, path);
    lemma_collapsed_scanned(head + path);
    assert((head + path)[0] == base[0]);
}

} // verus!
