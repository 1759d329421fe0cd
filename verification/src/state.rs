//! The cursor that every codec operates on: an optional owned byte buffer
//! and two offsets, the read/write position `start` and the allocation
//! boundary `end`.

use crate::error::DecodeError;
use crate::error::DecodeResultT;
use crate::error::EncodeError;
use crate::error::EncodeResult;
use vstd::prelude::*;

verus! {

/// State contains the en-/decode buffer and index metadata.
///
/// State is an object that looks like this `{ start, end, buffer }`.
///
/// A blank state object is created using `State::new()`.
///
/// * `start` is the byte offset to start encoding/decoding at.
/// * `end` is the byte offset indicating the end of the buffer.
/// * `buffer` is an optional owned `Vec<u8>`.
#[derive(Debug, PartialEq)]
pub struct State {
    pub start: usize,
    pub end: usize,
    pub buffer: Option<Vec<u8>>,
}

impl State {
    /// Well-formedness: the position never passes the boundary, and an
    /// allocated buffer holds exactly `end` bytes.
    pub open spec fn wf(&self) -> bool {
        &&& self.start <= self.end
        &&& (self.buffer matches Some(b) ==> b@.len() == self.end)
    }

    /// Whether a buffer is attached.
    pub open spec fn has_buffer(&self) -> bool {
        self.buffer is Some
    }

    /// The full contents of the attached buffer; empty if none is attached.
    pub open spec fn bytes(&self) -> Seq<u8> {
        match self.buffer {
            Some(b) => b@,
            None => Seq::empty(),
        }
    }

    /// The bytes still ahead of the cursor, `[start, end)`; empty if no
    /// buffer is attached.
    pub open spec fn window(&self) -> Seq<u8>
        recommends
            self.wf(),
    {
        if self.has_buffer() {
            self.bytes().subrange(self.start as int, self.end as int)
        } else {
            Seq::empty()
        }
    }

    /// create a new and empty State instance
    pub fn new() -> (r: Self)
        ensures
            r == (State { start: 0, end: 0, buffer: None::<Vec<u8>> }),
    {
        Self { start: 0, end: 0, buffer: None }
    }

    /// allocate an internal buffer of exactly `self.end` zero bytes;
    /// does not reset `self.start`
    pub fn allocate(&mut self)
        ensures
            final(self).start == old(self).start,
            final(self).end == old(self).end,
            final(self).buffer matches Some(b) && b@ == Seq::new(
                old(self).end as nat,
                |i: int| 0u8,
            ),
    {
        let mut zeroed: Vec<u8> = Vec::new();
        let mut i: usize = 0;
        while i < self.end
            invariant
                i <= self.end,
                zeroed@ == Seq::new(i as nat, |j: int| 0u8),
            decreases self.end - i,
        {
            zeroed.push(0);
            i = i + 1;
            proof {
                assert(zeroed@ =~= Seq::new(i as nat, |j: int| 0u8));
            }
        }
        self.buffer = Some(zeroed);
    }

    /// reset both offsets to 0 and release the buffer, enabling cursor
    /// reuse without per-cycle allocation churn
    pub fn dealloc(&mut self)
        ensures
            *final(self) == (State { start: 0, end: 0, buffer: None::<Vec<u8>> }),
    {
        self.start = 0;
        self.end = 0;
        self.buffer = None;
    }
}

// ---------------------------------------------------------------------
// Writing
// ---------------------------------------------------------------------

/// `data` with the bytes `rep` spliced in at position `i`, everything else
/// unchanged.
pub open spec fn splice_bytes(data: Seq<u8>, i: int, rep: Seq<u8>) -> Seq<u8>
    recommends
        0 <= i,
        i + rep.len() <= data.len(),
{
    data.subrange(0, i) + rep + data.subrange(i + rep.len(), data.len() as int)
}

/// Splicing in no bytes changes nothing.
pub proof fn lemma_splice_empty(data: Seq<u8>, i: int)
    requires
        0 <= i <= data.len(),
    ensures
        splice_bytes(data, i, Seq::empty()) == data,
{
    assert(splice_bytes(data, i, Seq::empty()) =~= data);
}

/// Two adjacent splices amount to one splice of the concatenation.
pub proof fn lemma_splice_adjacent(data: Seq<u8>, i: int, a: Seq<u8>, b: Seq<u8>)
    requires
        0 <= i,
        i + a.len() + b.len() <= data.len(),
    ensures
        splice_bytes(splice_bytes(data, i, a), i + a.len(), b) == splice_bytes(data, i, a + b),
{
    assert(splice_bytes(splice_bytes(data, i, a), i + a.len(), b) =~= splice_bytes(
        data,
        i,
        a + b,
    ));
}

/// The exact outcome of writing `len` bytes at position `pos` into a cursor
/// with boundary `end` and buffer contents `data`: too little room before
/// the boundary or behind the buffer fails `BufferTooSmall`, a missing
/// buffer fails `NoBuffer`.
pub open spec fn spec_write_result(pos: int, end: int, data: Option<Seq<u8>>, len: int) -> Result<
    (),
    EncodeError,
> {
    if end - pos < len {
        Err(EncodeError::BufferTooSmall)
    } else {
        match data {
            None => Err(EncodeError::NoBuffer),
            Some(d) => if pos + len > d.len() {
                Err(EncodeError::BufferTooSmall)
            } else {
                Ok(())
            },
        }
    }
}

/// Trait that indicates that a struct can be used as a destination to encode data to.
/// Used by [`crate::codec::Encode`].
pub trait Writer: Sized {
    /// Abstract cursor: the write position.
    spec fn wpos(&self) -> int;

    /// Abstract cursor: the allocation boundary.
    spec fn wend(&self) -> int;

    /// Abstract cursor: the buffer contents, if a buffer is attached.
    spec fn wdata(&self) -> Option<Seq<u8>>;

    /// Write `bytes` to the underlying writer.
    /// Exactly `bytes.len()` bytes are written at the current position, or
    /// an error is returned and nothing changes.
    fn write(&mut self, bytes: &[u8]) -> (r: EncodeResult)
        ensures
            r == spec_write_result(
                old(self).wpos(),
                old(self).wend(),
                old(self).wdata(),
                bytes@.len() as int,
            ),
            r is Ok ==> {
                &&& final(self).wpos() == old(self).wpos() + bytes@.len()
                &&& final(self).wend() == old(self).wend()
                &&& final(self).wdata() == Some(
                    splice_bytes(old(self).wdata()->Some_0, old(self).wpos(), bytes@),
                )
            },
            r is Err ==> *final(self) == *old(self),
    ;
}

/// State implements the Writer trait for writing to a binary buffer.
impl Writer for State {
    open spec fn wpos(&self) -> int {
        self.start as int
    }

    open spec fn wend(&self) -> int {
        self.end as int
    }

    open spec fn wdata(&self) -> Option<Seq<u8>> {
        match self.buffer {
            Some(b) => Some(b@),
            None => None,
        }
    }

    /// write `bytes` to self.buffer at `self.start`
    fn write(&mut self, bytes: &[u8]) -> (r: EncodeResult) {
        if self.start > self.end || self.end - self.start < bytes.len() {
            return Err(EncodeError::BufferTooSmall);
        }
        match &mut self.buffer {
            None => Err(EncodeError::NoBuffer),
            Some(buffer) => {
                if bytes.len() > buffer.len() || self.start > buffer.len() - bytes.len() {
                    return Err(EncodeError::BufferTooSmall);
                }
                let mut i: usize = 0;
                while i < bytes.len()
                    invariant
                        i <= bytes@.len(),
                        self.start + bytes@.len() <= buffer@.len(),
                        buffer@.len() <= usize::MAX,
                        buffer@.len() == old(self).wdata()->Some_0.len(),
                        self.start == old(self).start,
                        forall|j: int|
                            0 <= j < buffer@.len() ==> buffer@[j] == (if self.start <= j
                                < self.start + i {
                                bytes@[j - self.start]
                            } else {
                                old(self).wdata()->Some_0[j]
                            }),
                    decreases bytes@.len() - i,
                {
                    buffer.set(self.start + i, bytes[i]);
                    i = i + 1;
                }
                proof {
                    assert(buffer@ =~= splice_bytes(
                        old(self).wdata()->Some_0,
                        old(self).start as int,
                        bytes@,
                    ));
                }
                self.start = self.start + bytes.len();
                Ok(())
            },
        }
    }
}

// ---------------------------------------------------------------------
// Reading
// ---------------------------------------------------------------------

/// The exact outcome of reading `size` bytes at position `pos` from a
/// cursor with boundary `end` and buffer contents `data`: a cursor at or
/// past the boundary or a buffer with too few bytes behind it fails
/// `BufferTooSmall`, a missing buffer fails `NoBuffer`.
pub open spec fn spec_read_next(pos: int, end: int, data: Option<Seq<u8>>, size: int) -> Result<
    Seq<u8>,
    DecodeError,
> {
    if pos >= end {
        Err(DecodeError::BufferTooSmall)
    } else {
        match data {
            None => Err(DecodeError::NoBuffer),
            Some(d) => if pos + size > d.len() {
                Err(DecodeError::BufferTooSmall)
            } else {
                Ok(d.subrange(pos, pos + size))
            },
        }
    }
}

/// The exact outcome of looking at the byte at position `pos` without
/// advancing.
pub open spec fn spec_peek_u8(pos: int, end: int, data: Option<Seq<u8>>) -> Result<
    u8,
    DecodeError,
> {
    if pos >= end {
        Err(DecodeError::BufferTooSmall)
    } else {
        match data {
            None => Err(DecodeError::NoBuffer),
            Some(d) => if pos >= d.len() {
                Err(DecodeError::BufferTooSmall)
            } else {
                Ok(d[pos])
            },
        }
    }
}

/// Trait that is used for reading from a buffer.
/// Used by [`crate::codec::Decode`].
pub trait Reader: Sized {
    /// Abstract cursor: the read position.
    spec fn rpos(&self) -> int;

    /// Abstract cursor: the allocation boundary.
    spec fn rend(&self) -> int;

    /// Abstract cursor: the buffer contents, if a buffer is attached.
    spec fn rdata(&self) -> Option<Seq<u8>>;

    /// Return a copy of the next `size` bytes of the underlying buffer and
    /// advance over them. If fewer than `size` bytes remain an error is
    /// returned and nothing changes.
    fn read_next(&mut self, size: usize) -> (r: DecodeResultT<Vec<u8>>)
        ensures
            final(self).rend() == old(self).rend(),
            final(self).rdata() == old(self).rdata(),
            match r {
                Ok(v) => spec_read_next(
                    old(self).rpos(),
                    old(self).rend(),
                    old(self).rdata(),
                    size as int,
                ) == Ok::<Seq<u8>, DecodeError>(v@) && final(self).rpos() == old(self).rpos()
                    + size,
                Err(e) => spec_read_next(
                    old(self).rpos(),
                    old(self).rend(),
                    old(self).rdata(),
                    size as int,
                ) == Err::<Seq<u8>, DecodeError>(e) && *final(self) == *old(self),
            },
    ;

    /// get the next u8 value, without advancing, if one exists
    fn peek_u8(&self) -> (r: DecodeResultT<u8>)
        ensures
            r == spec_peek_u8(self.rpos(), self.rend(), self.rdata()),
    ;
}

/// State implements Reader for extracting data from its binary buffer.
impl Reader for State {
    open spec fn rpos(&self) -> int {
        self.start as int
    }

    open spec fn rend(&self) -> int {
        self.end as int
    }

    open spec fn rdata(&self) -> Option<Seq<u8>> {
        match self.buffer {
            Some(b) => Some(b@),
            None => None,
        }
    }

    fn read_next(&mut self, size: usize) -> (r: DecodeResultT<Vec<u8>>) {
        if self.start >= self.end {
            return Err(DecodeError::BufferTooSmall);
        }
        match &self.buffer {
            None => Err(DecodeError::NoBuffer),
            Some(buffer) => {
                if size > buffer.len() || self.start > buffer.len() - size {
                    return Err(DecodeError::BufferTooSmall);
                }
                let mut view: Vec<u8> = Vec::new();
                let mut i: usize = 0;
                while i < size
                    invariant
                        i <= size,
                        self.start + size <= buffer@.len(),
                        buffer@.len() <= usize::MAX,
                        view@ == buffer@.subrange(self.start as int, self.start + i),
                    decreases size - i,
                {
                    view.push(buffer[self.start + i]);
                    i = i + 1;
                    proof {
                        assert(view@ =~= buffer@.subrange(self.start as int, self.start + i));
                    }
                }
                self.start = self.start + size;
                Ok(view)
            },
        }
    }

    fn peek_u8(&self) -> (r: DecodeResultT<u8>) {
        if self.start >= self.end {
            return Err(DecodeError::BufferTooSmall);
        }
        match &self.buffer {
            None => Err(DecodeError::NoBuffer),
            Some(buffer) => {
                if self.start >= buffer.len() {
                    Err(DecodeError::BufferTooSmall)
                } else {
                    Ok(buffer[self.start])
                }
            },
        }
    }
}

} // verus!
