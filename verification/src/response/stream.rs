//! A body that is read from a reader piece by piece.

use vstd::prelude::*;

verus! {

/// The size of each piece of a streamed body, in bytes.
pub const CHUNK_SIZE: usize = 4096;

/// A reader whose content is sent as the body of a response.
pub struct Stream<T>(pub Box<T>);

impl<T> Stream<T> {
    /// Wraps `reader`.
    pub fn from(reader: T) -> (stream: Stream<T>)
        ensures
            *stream.0 == reader,
    {
        Stream(Box::new(reader))
    }

    /// Gives the reader back.
    pub fn into_inner(self) -> (reader: T)
        ensures
            reader == *self.0,
    {
        *self.0
    }
}

/// How one attempt to read from the reader ended.
#[derive(Debug, Clone, Copy, PartialEq, Eq, Structural)]
pub enum ReadResult {
    /// So many bytes were read; none when the reader is at its end.
    Read(usize),
    /// The attempt was interrupted before anything was read.
    Interrupted,
    /// The reader failed.
    Failed,
}

/// What is to be done next with the piece that is being filled.
#[derive(Debug, Clone, Copy, PartialEq, Eq, Structural)]
pub enum Next {
    /// Read on into the piece, from the given position.
    Fill { from: usize },
    /// Send the first `len` bytes of the piece; `last` tells whether the
    /// reader is at its end, so that nothing follows.
    Send { len: usize, last: bool },
    /// Give up.
    Abort,
}

/// Decides what follows an attempt to read into a piece of `capacity` bytes
/// of which `filled` were filled before: a piece is sent when it is full or
/// when the reader is at its end, an interrupted attempt is made again, and
/// a failure ends the stream.
pub fn after_read(filled: usize, capacity: usize, result: ReadResult) -> (next: Next)
    requires
        filled < capacity,
        result matches ReadResult::Read(n) ==> filled + n <= capacity,
    ensures
        next == match result {
            ReadResult::Read(n) => if n == 0 {
                Next::Send { len: filled, last: true }
            } else if filled + n == capacity {
                Next::Send { len: capacity, last: false }
            } else {
                Next::Fill { from: (filled + n) as usize }
            },
            ReadResult::Interrupted => Next::Fill { from: filled },
            ReadResult::Failed => Next::Abort,
        },
{
    match result {
        ReadResult::Read(n) => {
            if n == 0 {
                Next::Send { len: filled, last: true }
            } else if filled + n == capacity {
                Next::Send { len: capacity, last: false }
            } else {
                Next::Fill { from: filled + n }
            }
        },
        ReadResult::Interrupted => Next::Fill { from: filled },
        ReadResult::Failed => Next::Abort,
    }
}

} // verus!
