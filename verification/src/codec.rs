//! The encoding and decoding traits, the zigzag transform, and the codecs
//! for bool and the unsigned integers.
//!
//! The sizing pass and the fill pass are driven by the identical policy
//! applied to the identical value: `pre_encode` grows `state.end` by exactly
//! `self.enc().len()`, and `encode` writes exactly those bytes at
//! `state.start`. That coupling is the scheme's central invariant.

use crate::error::DecodeError;
use crate::error::DecodeResultT;
use crate::error::EncodeError;
use crate::error::EncodeResult;
use crate::state::Reader;
use crate::state::State;
use crate::state::Writer;
use crate::state::lemma_splice_adjacent;
use crate::state::lemma_splice_empty;
use crate::state::splice_bytes;
use crate::wire::DecSpec;
use crate::wire::U16_PREFIX;
use crate::wire::U32_PREFIX;
use crate::wire::U64_PREFIX;
use crate::wire::U8_MAX_VALUE;
use crate::wire::dec_bool;
use crate::wire::dec_u16;
use crate::wire::dec_u32;
use crate::wire::dec_u64;
use crate::wire::dec_u8;
use crate::wire::dec_uint;
use crate::wire::enc_bool;
use crate::wire::dec_i16;
use crate::wire::dec_i32;
use crate::wire::dec_i64;
use crate::wire::dec_i8;
use crate::wire::enc_i16;
use crate::wire::enc_i32;
use crate::wire::enc_i64;
use crate::wire::enc_i8;
use crate::wire::enc_u16;
use crate::wire::enc_u32;
use crate::wire::enc_u64;
use crate::wire::enc_u8;
use crate::wire::enc_uint;
use crate::wire::le4_bytes;
use crate::wire::le4_value;
use crate::wire::zig_zag;
use crate::wire::zig_zag_back;
use vstd::prelude::*;

verus! {

// ---------------------------------------------------------------------
// The zigzag transform
// ---------------------------------------------------------------------

/// encode value from signed i64 into u64
pub fn zig_zag_encode(value: i64) -> (r: u64)
    ensures
        r == zig_zag(value as int),
{
    if value < 0 {
        // 2 * |value| - 1, computed as 2 * (|value| - 1) + 1 so that the
        // magnitude of i64::MIN never has to exist as an i64
        let m: u64 = (-(value + 1)) as u64;
        2 * m + 1
    } else {
        (value as u64) * 2
    }
}

/// decode value from u64 to i64
pub fn zig_zag_decode(value: u64) -> (r: i64)
    ensures
        r == zig_zag_back(value as int),
{
    if value & 1 == 0 {
        proof {
            assert(value & 1 == 0 ==> value % 2 == 0 && value / 2 <= 0x7FFFFFFFFFFFFFFF)
                by (bit_vector);
        }
        (value / 2) as i64
    } else {
        proof {
            assert(value & 1 != 0 ==> value % 2 == 1) by (bit_vector);
            assert(value % 2 == 1 ==> -((value + 1) as int / 2) == -((value / 2) as int) - 1);
        }
        -((value / 2) as i64) - 1
    }
}

// ---------------------------------------------------------------------
// The two codec traits
// ---------------------------------------------------------------------

/// Trait which defines the required encoding functions.
///
/// `enc` is the exact byte sequence the value encodes to; both passes are
/// contracted against it.
pub trait Encode {
    /// The exact byte sequence this value encodes to.
    spec fn enc(&self) -> Seq<u8>;

    /// The length of the first contiguous write that `encode` issues. It
    /// decides whether encoding into an unallocated cursor surfaces the
    /// missing buffer (`NoBuffer`) or fails the room check first
    /// (`BufferTooSmall`).
    spec fn enc_first_len(&self) -> int;

    /// allocate the required size in State for the current value:
    /// grows `state.end` by exactly the number of bytes `encode` will write
    fn pre_encode(&self, state: &mut State)
        requires
            old(state).end + self.enc().len() <= usize::MAX,
        ensures
            final(state).start == old(state).start,
            final(state).buffer == old(state).buffer,
            final(state).end == old(state).end + self.enc().len(),
    ;

    /// encode the value into state.buffer, which requires state.buffer to
    /// be allocated first; on success exactly `self.enc()` stands at
    /// `state.start` and the cursor has advanced over it
    fn encode(&self, state: &mut State) -> (r: EncodeResult)
        requires
            old(state).wf(),
        ensures
            final(state).wf(),
            final(state).end == old(state).end,
            final(state).has_buffer() == old(state).has_buffer(),
            old(state).start <= final(state).start,
            final(state).start - old(state).start <= self.enc().len(),
            r is Ok <==> old(state).has_buffer() && old(state).start + self.enc().len()
                <= old(state).end,
            r is Ok ==> final(state).start == old(state).start + self.enc().len(),
            old(state).has_buffer() ==> final(state).bytes() == splice_bytes(
                old(state).bytes(),
                old(state).start as int,
                self.enc().take(final(state).start - old(state).start),
            ),
            !old(state).has_buffer() ==> *final(state) == *old(state),
            r == Err::<(), EncodeError>(EncodeError::NoBuffer) <==> !old(state).has_buffer()
                && old(state).end - old(state).start >= self.enc_first_len(),
            r == Err::<(), EncodeError>(EncodeError::BufferTooSmall) <==> (!old(
                state,
            ).has_buffer() && old(state).end - old(state).start < self.enc_first_len()) || (old(
                state,
            ).has_buffer() && old(state).start + self.enc().len() > old(state).end),
    ;
}

/// Trait which defines the required decoding functions.
///
/// `dec` says, for the bytes remaining ahead of the cursor, which value
/// decoding returns, how many bytes it consumes, or which error it fails
/// with. A cursor without a buffer fails `NoBuffer` as soon as a read is
/// due; the buffer contents are never touched.
pub trait Decode: Sized + DeepView {
    /// What decoding yields on the bytes remaining ahead of the cursor.
    spec fn dec(w: Seq<u8>) -> DecSpec<<Self as DeepView>::V>;

    /// return the decoded value at the current buffer position, advancing
    /// the cursor by exactly the bytes consumed;
    /// return an error if the remaining bytes do not hold one value of this
    /// type, leaving the buffer contents untouched
    fn decode(state: &mut State) -> (r: DecodeResultT<Self>)
        requires
            old(state).wf(),
        ensures
            final(state).wf(),
            final(state).end == old(state).end,
            final(state).has_buffer() == old(state).has_buffer(),
            final(state).bytes() == old(state).bytes(),
            old(state).start <= final(state).start,
            (old(state).has_buffer() || old(state).start == old(state).end) ==> (match r {
                Ok(v) => Self::dec(old(state).window()) matches Ok(p) && p.0 == v.deep_view()
                    && final(state).start == old(state).start + p.1,
                Err(e) => Self::dec(old(state).window()) matches Err(e2) && e2 == e,
            }),
            !old(state).has_buffer() ==> *final(state) == *old(state),
            !old(state).has_buffer() && old(state).start < old(state).end ==> (r matches Err(e)
                && e == DecodeError::NoBuffer),
    ;
}

// ---------------------------------------------------------------------
// bool
// ---------------------------------------------------------------------

/// compact encoding for bool: one byte, 1 for true and 0 for false
impl Encode for bool {
    open spec fn enc(&self) -> Seq<u8> {
        enc_bool(*self)
    }

    open spec fn enc_first_len(&self) -> int {
        1
    }

    fn pre_encode(&self, state: &mut State) {
        state.end = state.end + 1;
    }

    fn encode(&self, state: &mut State) -> (r: EncodeResult) {
        let byte: [u8; 1] = [if *self {
            1u8
        } else {
            0u8
        }];
        let r = state.write(byte.as_slice());
        proof {
            assert(byte@ =~= enc_bool(*self));
            if old(state).has_buffer() {
                if r is Ok {
                    assert(enc_bool(*self).take(1) =~= enc_bool(*self));
                } else {
                    lemma_splice_empty(old(state).bytes(), old(state).start as int);
                    assert(enc_bool(*self).take(0) =~= Seq::<u8>::empty());
                }
            }
        }
        r
    }
}

/// compact decoding for bool: the byte value 1 reads back as true and
/// every other byte as false
impl Decode for bool {
    open spec fn dec(w: Seq<u8>) -> DecSpec<bool> {
        dec_bool(w)
    }

    fn decode(state: &mut State) -> (r: DecodeResultT<Self>) {
        match state.read_next(1) {
            Ok(value) => Ok(value[0] == 1),
            Err(e) => Err(e),
        }
    }
}

// ---------------------------------------------------------------------
// unsigned integers
// ---------------------------------------------------------------------

/// compact encoding for u8: the literal byte up to `U8_MAX_VALUE`, the u16
/// layout above it
impl Encode for u8 {
    open spec fn enc(&self) -> Seq<u8> {
        enc_u8(*self)
    }

    open spec fn enc_first_len(&self) -> int {
        if *self <= U8_MAX_VALUE {
            1
        } else {
            3
        }
    }

    fn pre_encode(&self, state: &mut State) {
        if *self <= U8_MAX_VALUE {
            state.end = state.end + 1;
        } else {
            let wide: u16 = *self as u16;
            wide.pre_encode(state);
        }
    }

    fn encode(&self, state: &mut State) -> (r: EncodeResult) {
        if *self <= U8_MAX_VALUE {
            let byte: [u8; 1] = [*self];
            let r = state.write(byte.as_slice());
            proof {
                assert(byte@ =~= enc_u8(*self));
                if old(state).has_buffer() {
                    if r is Ok {
                        assert(enc_u8(*self).take(1) =~= enc_u8(*self));
                    } else {
                        lemma_splice_empty(old(state).bytes(), old(state).start as int);
                        assert(enc_u8(*self).take(0) =~= Seq::<u8>::empty());
                    }
                }
            }
            r
        } else {
            let wide: u16 = *self as u16;
            wide.encode(state)
        }
    }
}

/// compact decoding for u8
impl Decode for u8 {
    open spec fn dec(w: Seq<u8>) -> DecSpec<u8> {
        dec_u8(w)
    }

    fn decode(state: &mut State) -> (r: DecodeResultT<Self>) {
        let header = match state.peek_u8() {
            Ok(h) => h,
            Err(e) => {
                return Err(e);
            },
        };
        if header <= U8_MAX_VALUE {
            match state.read_next(1) {
                Ok(value) => Ok(value[0]),
                Err(e) => Err(e),
            }
        } else {
            match u16::decode(state) {
                Ok(v) => {
                    proof {
                        let w = old(state).window();
                        assert(v & 0xFF < 256) by (bit_vector);
                    }
                    Ok((v & 0xFF) as u8)
                },
                Err(e) => Err(e),
            }
        }
    }
}

/// compact encoding for u16: always the marker plus two little-endian bytes
impl Encode for u16 {
    open spec fn enc(&self) -> Seq<u8> {
        enc_u16(*self)
    }

    open spec fn enc_first_len(&self) -> int {
        3
    }

    fn pre_encode(&self, state: &mut State) {
        state.end = state.end + 3;
    }

    fn encode(&self, state: &mut State) -> (r: EncodeResult) {
        let v = *self;
        proof {
            assert(v & 0xFF < 256 && (v >> 8) & 0xFF < 256) by (bit_vector);
        }
        let bytes: [u8; 3] = [U16_PREFIX, (v & 0xFF) as u8, ((v >> 8) & 0xFF) as u8];
        let r = state.write(bytes.as_slice());
        proof {
            assert(bytes@ =~= enc_u16(v));
            if old(state).has_buffer() {
                if r is Ok {
                    assert(enc_u16(v).take(3) =~= enc_u16(v));
                } else {
                    lemma_splice_empty(old(state).bytes(), old(state).start as int);
                    assert(enc_u16(v).take(0) =~= Seq::<u8>::empty());
                }
            }
        }
        r
    }
}

/// compact decoding for u16: the marker must match exactly
impl Decode for u16 {
    open spec fn dec(w: Seq<u8>) -> DecSpec<u16> {
        dec_u16(w)
    }

    fn decode(state: &mut State) -> (r: DecodeResultT<Self>) {
        let buffer = match state.read_next(3) {
            Ok(b) => b,
            Err(e) => {
                return Err(e);
            },
        };
        if buffer[0] == U16_PREFIX {
            let value: u16 = (buffer[1] as u16) | ((buffer[2] as u16) << 8);
            proof {
                let w = old(state).window();
                assert(w.skip(1)[0] == w[1] && w.skip(1)[1] == w[2]);
            }
            Ok(value)
        } else {
            Err(DecodeError::TypeMismatch)
        }
    }
}

/// compact encoding for a u32 number to its four little-endian bytes
#[inline(always)]
pub fn encode_u32(value: u32) -> (r: [u8; 4])
    ensures
        r@ == le4_bytes(value),
{
    proof {
        assert(value & 0xFF < 256 && (value >> 8) & 0xFF < 256 && (value >> 16) & 0xFF < 256 && (
        value >> 24) & 0xFF < 256) by (bit_vector);
    }
    let r: [u8; 4] = [
        (value & 0xFF) as u8,
        ((value >> 8) & 0xFF) as u8,
        ((value >> 16) & 0xFF) as u8,
        ((value >> 24) & 0xFF) as u8,
    ];
    proof {
        assert(r@ =~= le4_bytes(value));
    }
    r
}

/// compact decoding of a u32 number from four little-endian bytes
#[inline(always)]
pub fn decode_u32(buffer: &[u8]) -> (r: DecodeResultT<u32>)
    ensures
        buffer@.len() < 4 ==> r == Err::<u32, DecodeError>(DecodeError::BufferTooSmall),
        buffer@.len() >= 4 ==> r == Ok::<u32, DecodeError>(le4_value(buffer@)),
{
    if buffer.len() < 4 {
        return Err(DecodeError::BufferTooSmall);
    }
    let value: u32 = (buffer[0] as u32) | ((buffer[1] as u32) << 8) | ((buffer[2] as u32) << 16) | (
    (buffer[3] as u32) << 24);
    Ok(value)
}

/// compact encoding for u32: always the marker plus four little-endian bytes
impl Encode for u32 {
    open spec fn enc(&self) -> Seq<u8> {
        enc_u32(*self)
    }

    open spec fn enc_first_len(&self) -> int {
        1
    }

    fn pre_encode(&self, state: &mut State) {
        state.end = state.end + 5;
    }

    fn encode(&self, state: &mut State) -> (r: EncodeResult) {
        let header: [u8; 1] = [U32_PREFIX];
        let r1 = state.write(header.as_slice());
        if let Err(e) = r1 {
            proof {
                if old(state).has_buffer() {
                    lemma_splice_empty(old(state).bytes(), old(state).start as int);
                    assert(enc_u32(*self).take(0) =~= Seq::<u8>::empty());
                }
            }
            return Err(e);
        }
        let payload = encode_u32(*self);
        let r2 = state.write(payload.as_slice());
        proof {
            lemma_splice_adjacent(
                old(state).bytes(),
                old(state).start as int,
                header@,
                if r2 is Ok {
                    payload@
                } else {
                    Seq::empty()
                },
            );
            if r2 is Ok {
                assert(header@ + payload@ =~= enc_u32(*self));
                assert(enc_u32(*self).take(5) =~= enc_u32(*self));
            } else {
                assert(header@ + Seq::<u8>::empty() =~= enc_u32(*self).take(1));
            }
        }
        r2
    }
}

/// compact decoding for u32: the marker must match exactly
impl Decode for u32 {
    open spec fn dec(w: Seq<u8>) -> DecSpec<u32> {
        dec_u32(w)
    }

    fn decode(state: &mut State) -> (r: DecodeResultT<Self>) {
        let buffer = match state.read_next(5) {
            Ok(b) => b,
            Err(e) => {
                return Err(e);
            },
        };
        if buffer[0] == U32_PREFIX {
            let payload = vstd::slice::slice_subrange(buffer.as_slice(), 1, 5);
            let value = match decode_u32(payload) {
                Ok(v) => v,
                Err(e) => {
                    return Err(e);
                },
            };
            proof {
                let w = old(state).window();
                assert(w.skip(1)[0] == w[1] && w.skip(1)[1] == w[2] && w.skip(1)[2] == w[3]
                    && w.skip(1)[3] == w[4]);
                assert(payload@[0] == w[1] && payload@[1] == w[2] && payload@[2] == w[3]
                    && payload@[3] == w[4]);
            }
            Ok(value)
        } else {
            Err(DecodeError::TypeMismatch)
        }
    }
}

/// compact encoding for u64: always the marker plus eight little-endian
/// bytes, low 32-bit half first
impl Encode for u64 {
    open spec fn enc(&self) -> Seq<u8> {
        enc_u64(*self)
    }

    open spec fn enc_first_len(&self) -> int {
        1
    }

    fn pre_encode(&self, state: &mut State) {
        state.end = state.end + 9;
    }

    fn encode(&self, state: &mut State) -> (r: EncodeResult) {
        let v = *self;
        proof {
            assert(v & 0xFFFFFFFF <= 0xFFFFFFFF && (v >> 32) & 0xFFFFFFFF <= 0xFFFFFFFF)
                by (bit_vector);
        }
        let low: u32 = (v & 0xFFFFFFFF) as u32;
        let high: u32 = ((v >> 32) & 0xFFFFFFFF) as u32;
        let header: [u8; 1] = [U64_PREFIX];
        let r1 = state.write(header.as_slice());
        if let Err(e) = r1 {
            proof {
                if old(state).has_buffer() {
                    lemma_splice_empty(old(state).bytes(), old(state).start as int);
                    assert(enc_u64(v).take(0) =~= Seq::<u8>::empty());
                }
            }
            return Err(e);
        }
        // encode lower 32 bits
        let low_bytes = encode_u32(low);
        let r2 = state.write(low_bytes.as_slice());
        if let Err(e) = r2 {
            proof {
                lemma_splice_adjacent(
                    old(state).bytes(),
                    old(state).start as int,
                    header@,
                    Seq::empty(),
                );
                assert(header@ + Seq::<u8>::empty() =~= enc_u64(v).take(1));
            }
            return Err(e);
        }
        // encode upper 32 bits
        let high_bytes = encode_u32(high);
        let r3 = state.write(high_bytes.as_slice());
        proof {
            lemma_splice_adjacent(
                old(state).bytes(),
                old(state).start as int,
                header@,
                low_bytes@,
            );
            lemma_splice_adjacent(
                old(state).bytes(),
                old(state).start as int,
                header@ + low_bytes@,
                if r3 is Ok {
                    high_bytes@
                } else {
                    Seq::empty()
                },
            );
            if r3 is Ok {
                assert((header@ + low_bytes@) + high_bytes@ =~= enc_u64(v));
                assert(enc_u64(v).take(9) =~= enc_u64(v));
            } else {
                assert((header@ + low_bytes@) + Seq::<u8>::empty() =~= enc_u64(v).take(5));
            }
        }
        r3
    }
}

/// compact decoding for u64: the marker must match exactly
impl Decode for u64 {
    open spec fn dec(w: Seq<u8>) -> DecSpec<u64> {
        dec_u64(w)
    }

    fn decode(state: &mut State) -> (r: DecodeResultT<Self>) {
        let buffer = match state.read_next(9) {
            Ok(b) => b,
            Err(e) => {
                return Err(e);
            },
        };
        if buffer[0] == U64_PREFIX {
            let low_slice = vstd::slice::slice_subrange(buffer.as_slice(), 1, 5);
            let low = match decode_u32(low_slice) {
                Ok(v) => v,
                Err(e) => {
                    return Err(e);
                },
            };
            let high_slice = vstd::slice::slice_subrange(buffer.as_slice(), 5, 9);
            let high = match decode_u32(high_slice) {
                Ok(v) => v,
                Err(e) => {
                    return Err(e);
                },
            };
            let value: u64 = (low as u64) | ((high as u64) << 32);
            proof {
                let w = old(state).window();
                let p = w.skip(1);
                assert(p[0] == w[1] && p[1] == w[2] && p[2] == w[3] && p[3] == w[4]);
                assert(low_slice@[0] == w[1] && low_slice@[1] == w[2] && low_slice@[2] == w[3]
                    && low_slice@[3] == w[4]);
                assert(p.skip(4)[0] == w[5] && p.skip(4)[1] == w[6] && p.skip(4)[2] == w[7]
                    && p.skip(4)[3] == w[8]);
                assert(high_slice@[0] == w[5] && high_slice@[1] == w[6] && high_slice@[2] == w[7]
                    && high_slice@[3] == w[8]);
            }
            Ok(value)
        } else {
            Err(DecodeError::TypeMismatch)
        }
    }
}

/// compact encoding for usize: the narrowest of the four layouts that
/// exactly holds the value
impl Encode for usize {
    open spec fn enc(&self) -> Seq<u8> {
        enc_uint(*self as int)
    }

    open spec fn enc_first_len(&self) -> int {
        if *self <= U8_MAX_VALUE as usize {
            1
        } else if *self <= u16::MAX as usize {
            3
        } else {
            1
        }
    }

    fn pre_encode(&self, state: &mut State) {
        let v = *self;
        if v <= U8_MAX_VALUE as usize {
            let narrow: u8 = v as u8;
            narrow.pre_encode(state);
        } else if v <= u16::MAX as usize {
            let narrow: u16 = v as u16;
            narrow.pre_encode(state);
        } else if v <= u32::MAX as usize {
            let narrow: u32 = v as u32;
            narrow.pre_encode(state);
        } else {
            let narrow: u64 = v as u64;
            narrow.pre_encode(state);
        }
    }

    fn encode(&self, state: &mut State) -> (r: EncodeResult) {
        let v = *self;
        if v <= U8_MAX_VALUE as usize {
            let narrow: u8 = v as u8;
            narrow.encode(state)
        } else if v <= u16::MAX as usize {
            let narrow: u16 = v as u16;
            narrow.encode(state)
        } else if v <= u32::MAX as usize {
            let narrow: u32 = v as u32;
            narrow.encode(state)
        } else {
            let narrow: u64 = v as u64;
            narrow.encode(state)
        }
    }
}

/// compact decoding for usize: the leading byte alone selects the width
impl Decode for usize {
    open spec fn dec(w: Seq<u8>) -> DecSpec<usize> {
        dec_uint(w)
    }

    fn decode(state: &mut State) -> (r: DecodeResultT<Self>) {
        let header = match state.peek_u8() {
            Ok(h) => h,
            Err(e) => {
                return Err(e);
            },
        };
        if header <= U8_MAX_VALUE {
            match u8::decode(state) {
                Ok(v) => Ok(v as usize),
                Err(e) => Err(e),
            }
        } else if header == U16_PREFIX {
            match u16::decode(state) {
                Ok(v) => Ok(v as usize),
                Err(e) => Err(e),
            }
        } else if header == U32_PREFIX {
            match u32::decode(state) {
                Ok(v) => Ok(v as usize),
                Err(e) => Err(e),
            }
        } else {
            match u64::decode(state) {
                Ok(v) => Ok(#[verifier::truncate] (v as usize)),
                Err(e) => Err(e),
            }
        }
    }
}

// ---------------------------------------------------------------------
// signed integers
// ---------------------------------------------------------------------

/// compact encoding for i8, through the zigzag transform
impl Encode for i8 {
    open spec fn enc(&self) -> Seq<u8> {
        enc_i8(*self)
    }

    open spec fn enc_first_len(&self) -> int {
        if zig_zag(*self as int) <= U8_MAX_VALUE {
            1
        } else {
            3
        }
    }

    fn pre_encode(&self, state: &mut State) {
        let narrow: u8 = zig_zag_encode(*self as i64) as u8;
        narrow.pre_encode(state);
    }

    fn encode(&self, state: &mut State) -> (r: EncodeResult) {
        let narrow: u8 = zig_zag_encode(*self as i64) as u8;
        narrow.encode(state)
    }
}

/// compact decoding for i8
impl Decode for i8 {
    open spec fn dec(w: Seq<u8>) -> DecSpec<i8> {
        dec_i8(w)
    }

    fn decode(state: &mut State) -> (r: DecodeResultT<Self>) {
        match u8::decode(state) {
            Ok(u) => Ok(zig_zag_decode(u as u64) as i8),
            Err(e) => Err(e),
        }
    }
}

/// compact encoding for i16, through the zigzag transform
impl Encode for i16 {
    open spec fn enc(&self) -> Seq<u8> {
        enc_i16(*self)
    }

    open spec fn enc_first_len(&self) -> int {
        3
    }

    fn pre_encode(&self, state: &mut State) {
        let narrow: u16 = zig_zag_encode(*self as i64) as u16;
        narrow.pre_encode(state);
    }

    fn encode(&self, state: &mut State) -> (r: EncodeResult) {
        let narrow: u16 = zig_zag_encode(*self as i64) as u16;
        narrow.encode(state)
    }
}

/// compact decoding for i16
impl Decode for i16 {
    open spec fn dec(w: Seq<u8>) -> DecSpec<i16> {
        dec_i16(w)
    }

    fn decode(state: &mut State) -> (r: DecodeResultT<Self>) {
        match u16::decode(state) {
            Ok(u) => Ok(zig_zag_decode(u as u64) as i16),
            Err(e) => Err(e),
        }
    }
}

/// compact encoding for i32, through the zigzag transform
impl Encode for i32 {
    open spec fn enc(&self) -> Seq<u8> {
        enc_i32(*self)
    }

    open spec fn enc_first_len(&self) -> int {
        1
    }

    fn pre_encode(&self, state: &mut State) {
        let narrow: u32 = zig_zag_encode(*self as i64) as u32;
        narrow.pre_encode(state);
    }

    fn encode(&self, state: &mut State) -> (r: EncodeResult) {
        let narrow: u32 = zig_zag_encode(*self as i64) as u32;
        narrow.encode(state)
    }
}

/// compact decoding for i32
impl Decode for i32 {
    open spec fn dec(w: Seq<u8>) -> DecSpec<i32> {
        dec_i32(w)
    }

    fn decode(state: &mut State) -> (r: DecodeResultT<Self>) {
        match u32::decode(state) {
            Ok(u) => Ok(zig_zag_decode(u as u64) as i32),
            Err(e) => Err(e),
        }
    }
}

/// compact encoding for i64, through the zigzag transform
impl Encode for i64 {
    open spec fn enc(&self) -> Seq<u8> {
        enc_i64(*self)
    }

    open spec fn enc_first_len(&self) -> int {
        1
    }

    fn pre_encode(&self, state: &mut State) {
        let wide: u64 = zig_zag_encode(*self);
        wide.pre_encode(state);
    }

    fn encode(&self, state: &mut State) -> (r: EncodeResult) {
        let wide: u64 = zig_zag_encode(*self);
        wide.encode(state)
    }
}

/// compact decoding for i64
impl Decode for i64 {
    open spec fn dec(w: Seq<u8>) -> DecSpec<i64> {
        dec_i64(w)
    }

    fn decode(state: &mut State) -> (r: DecodeResultT<Self>) {
        match u64::decode(state) {
            Ok(u) => Ok(zig_zag_decode(u)),
            Err(e) => Err(e),
        }
    }
}

} // verus!
