//! The wire format, as mathematics.
//!
//! Every codec's contract is stated against the spec functions in this
//! module: `enc_*` gives the exact byte sequence a value encodes to, and
//! `dec_*` gives, for the bytes remaining in a buffer, either the decoded
//! value together with the number of bytes consumed, or the exact error.
//!
//! An unsigned integer is written as its literal value in one byte when it
//! is at most `U8_MAX_VALUE`; larger values get one reserved marker byte
//! (`U16_PREFIX`/`U32_PREFIX`/`U64_PREFIX`) followed by a 2-, 4- or 8-byte
//! little-endian payload, and the narrowest representation that holds the
//! value is always chosen. Signed integers are mapped through the zigzag
//! transform into the unsigned domain and reuse that layout.

use crate::error::DecodeError;
use vstd::prelude::*;
use vstd::utf8::decode_utf8;
use vstd::utf8::encode_utf8;
use vstd::utf8::valid_utf8;

verus! {

/// Largest value an unsigned integer may encode as a single literal byte.
pub const U8_MAX_VALUE: u8 = 0xFC;

/// Marker byte announcing a 2-byte little-endian payload.
pub const U16_PREFIX: u8 = 0xFD;

/// Marker byte announcing a 4-byte little-endian payload.
pub const U32_PREFIX: u8 = 0xFE;

/// Marker byte announcing an 8-byte little-endian payload.
pub const U64_PREFIX: u8 = 0xFF;

/// Safety ceiling on a decoded sequence count: a declared count above this
/// is rejected before any element is decoded.
pub const MAX_ARRAY_DECODE_SIZE: usize = 1048576;

/// The outcome of decoding a value from the bytes remaining in a buffer:
/// the abstract value and the number of bytes consumed, or the error.
pub type DecSpec<V> = Result<(V, int), DecodeError>;

// ---------------------------------------------------------------------
// Little-endian payloads
// ---------------------------------------------------------------------

/// The two little-endian bytes of `v`.
pub open spec fn le2_bytes(v: u16) -> Seq<u8> {
    seq![(v & 0xFF) as u8, ((v >> 8) & 0xFF) as u8]
}

/// The four little-endian bytes of `v`.
pub open spec fn le4_bytes(v: u32) -> Seq<u8> {
    seq![
        (v & 0xFF) as u8,
        ((v >> 8) & 0xFF) as u8,
        ((v >> 16) & 0xFF) as u8,
        ((v >> 24) & 0xFF) as u8,
    ]
}

/// The eight little-endian bytes of `v`: low 32-bit half first, then high half.
pub open spec fn le8_bytes(v: u64) -> Seq<u8> {
    le4_bytes((v & 0xFFFFFFFF) as u32) + le4_bytes(((v >> 32) & 0xFFFFFFFF) as u32)
}

/// The value of the first two bytes of `b`, read little-endian.
pub open spec fn le2_value(b: Seq<u8>) -> u16
    recommends
        b.len() >= 2,
{
    (b[0] as u16) | ((b[1] as u16) << 8)
}

/// The value of the first four bytes of `b`, read little-endian.
pub open spec fn le4_value(b: Seq<u8>) -> u32
    recommends
        b.len() >= 4,
{
    (b[0] as u32) | ((b[1] as u32) << 8) | ((b[2] as u32) << 16) | ((b[3] as u32) << 24)
}

/// The value of the first eight bytes of `b`: low half first, then high half.
pub open spec fn le8_value(b: Seq<u8>) -> u64
    recommends
        b.len() >= 8,
{
    (le4_value(b) as u64) | ((le4_value(b.skip(4)) as u64) << 32)
}

// ---------------------------------------------------------------------
// The zigzag transform
// ---------------------------------------------------------------------

/// The zigzag transform: 0 maps to 0, positive `v` to `2v`, negative `v`
/// to `2|v| - 1`, keeping small magnitudes of either sign compact.
pub open spec fn zig_zag(v: int) -> int {
    if v < 0 {
        -2 * v - 1
    } else {
        2 * v
    }
}

/// The inverse of the zigzag transform: even `u` maps to `u / 2`, odd `u`
/// to `-(u + 1) / 2`.
pub open spec fn zig_zag_back(u: int) -> int
    recommends
        u >= 0,
{
    if u % 2 == 0 {
        u / 2
    } else {
        -((u + 1) / 2)
    }
}

// ---------------------------------------------------------------------
// Encodings of the primitive values
// ---------------------------------------------------------------------

/// The single byte a bool encodes to.
pub open spec fn enc_bool(b: bool) -> Seq<u8> {
    seq![if b { 1u8 } else { 0u8 }]
}

/// The bytes a u16 encodes to: always the marker plus two payload bytes.
pub open spec fn enc_u16(v: u16) -> Seq<u8> {
    seq![U16_PREFIX] + le2_bytes(v)
}

/// The bytes a u32 encodes to: always the marker plus four payload bytes.
pub open spec fn enc_u32(v: u32) -> Seq<u8> {
    seq![U32_PREFIX] + le4_bytes(v)
}

/// The bytes a u64 encodes to: always the marker plus eight payload bytes.
pub open spec fn enc_u64(v: u64) -> Seq<u8> {
    seq![U64_PREFIX] + le8_bytes(v)
}

/// The bytes a u8 encodes to: the literal byte when it is small enough,
/// the u16 layout otherwise.
pub open spec fn enc_u8(v: u8) -> Seq<u8> {
    if v <= U8_MAX_VALUE {
        seq![v]
    } else {
        enc_u16(v as u16)
    }
}

/// The generic unsigned rule: the narrowest representation that exactly
/// holds the (nonnegative) value.
pub open spec fn enc_uint(v: int) -> Seq<u8>
    recommends
        0 <= v <= u64::MAX,
{
    if v <= U8_MAX_VALUE {
        seq![v as u8]
    } else if v <= u16::MAX {
        enc_u16(v as u16)
    } else if v <= u32::MAX {
        enc_u32(v as u32)
    } else {
        enc_u64(v as u64)
    }
}

/// The bytes an i8 encodes to: the zigzag image reuses the u8 layout.
pub open spec fn enc_i8(v: i8) -> Seq<u8> {
    enc_u8(zig_zag(v as int) as u8)
}

/// The bytes an i16 encodes to: the zigzag image reuses the u16 layout.
pub open spec fn enc_i16(v: i16) -> Seq<u8> {
    enc_u16(zig_zag(v as int) as u16)
}

/// The bytes an i32 encodes to: the zigzag image reuses the u32 layout.
pub open spec fn enc_i32(v: i32) -> Seq<u8> {
    enc_u32(zig_zag(v as int) as u32)
}

/// The bytes an i64 encodes to: the zigzag image reuses the u64 layout.
pub open spec fn enc_i64(v: i64) -> Seq<u8> {
    enc_u64(zig_zag(v as int) as u64)
}

// ---------------------------------------------------------------------
// Decodings of the primitive values
// ---------------------------------------------------------------------

/// Decoding one bool from the remaining bytes `w`: one byte is consumed;
/// the value 1 reads back as true and every other byte as false.
pub open spec fn dec_bool(w: Seq<u8>) -> DecSpec<bool> {
    if w.len() < 1 {
        Err(DecodeError::BufferTooSmall)
    } else {
        Ok((w[0] == 1, 1))
    }
}

/// Decoding one u16: three bytes are consumed, and the leading byte must
/// be exactly the u16 marker.
pub open spec fn dec_u16(w: Seq<u8>) -> DecSpec<u16> {
    if w.len() < 3 {
        Err(DecodeError::BufferTooSmall)
    } else if w[0] != U16_PREFIX {
        Err(DecodeError::TypeMismatch)
    } else {
        Ok((le2_value(w.skip(1)), 3))
    }
}

/// Decoding one u32: five bytes are consumed, and the leading byte must
/// be exactly the u32 marker.
pub open spec fn dec_u32(w: Seq<u8>) -> DecSpec<u32> {
    if w.len() < 5 {
        Err(DecodeError::BufferTooSmall)
    } else if w[0] != U32_PREFIX {
        Err(DecodeError::TypeMismatch)
    } else {
        Ok((le4_value(w.skip(1)), 5))
    }
}

/// Decoding one u64: nine bytes are consumed, and the leading byte must
/// be exactly the u64 marker.
pub open spec fn dec_u64(w: Seq<u8>) -> DecSpec<u64> {
    if w.len() < 9 {
        Err(DecodeError::BufferTooSmall)
    } else if w[0] != U64_PREFIX {
        Err(DecodeError::TypeMismatch)
    } else {
        Ok((le8_value(w.skip(1)), 9))
    }
}

/// Decoding one u8: a small leading byte is the value itself; a marker
/// delegates to the u16 rule, whose value is truncated to u8.
pub open spec fn dec_u8(w: Seq<u8>) -> DecSpec<u8> {
    if w.len() < 1 {
        Err(DecodeError::BufferTooSmall)
    } else if w[0] <= U8_MAX_VALUE {
        Ok((w[0], 1))
    } else {
        match dec_u16(w) {
            Ok((v, n)) => Ok(((v & 0xFF) as u8, n)),
            Err(e) => Err(e),
        }
    }
}

/// Decoding one i8: the u8 rule followed by the inverse zigzag transform.
pub open spec fn dec_i8(w: Seq<u8>) -> DecSpec<i8> {
    match dec_u8(w) {
        Ok((u, n)) => Ok((zig_zag_back(u as int) as i8, n)),
        Err(e) => Err(e),
    }
}

/// Decoding one i16: the u16 rule followed by the inverse zigzag transform.
pub open spec fn dec_i16(w: Seq<u8>) -> DecSpec<i16> {
    match dec_u16(w) {
        Ok((u, n)) => Ok((zig_zag_back(u as int) as i16, n)),
        Err(e) => Err(e),
    }
}

/// Decoding one i32: the u32 rule followed by the inverse zigzag transform.
pub open spec fn dec_i32(w: Seq<u8>) -> DecSpec<i32> {
    match dec_u32(w) {
        Ok((u, n)) => Ok((zig_zag_back(u as int) as i32, n)),
        Err(e) => Err(e),
    }
}

/// Decoding one i64: the u64 rule followed by the inverse zigzag transform.
pub open spec fn dec_i64(w: Seq<u8>) -> DecSpec<i64> {
    match dec_u64(w) {
        Ok((u, n)) => Ok((zig_zag_back(u as int) as i64, n)),
        Err(e) => Err(e),
    }
}

/// The generic unsigned rule on the decode side: the leading byte alone
/// selects the width, so no marker mismatch is possible.
pub open spec fn dec_uint(w: Seq<u8>) -> DecSpec<usize> {
    if w.len() < 1 {
        Err(DecodeError::BufferTooSmall)
    } else if w[0] <= U8_MAX_VALUE {
        Ok((w[0] as usize, 1))
    } else if w[0] == U16_PREFIX {
        match dec_u16(w) {
            Ok((v, n)) => Ok((v as usize, n)),
            Err(e) => Err(e),
        }
    } else if w[0] == U32_PREFIX {
        match dec_u32(w) {
            Ok((v, n)) => Ok((v as usize, n)),
            Err(e) => Err(e),
        }
    } else {
        match dec_u64(w) {
            Ok((v, n)) => Ok((v as usize, n)),
            Err(e) => Err(e),
        }
    }
}

/// The length of the first contiguous write that encoding an unsigned
/// value of `v` issues: the one- and three-byte layouts go out in a single
/// write, the wider layouts write their marker byte first.
pub open spec fn uint_first_len(v: int) -> int {
    if v <= U8_MAX_VALUE {
        1
    } else if v <= u16::MAX {
        3
    } else {
        1
    }
}

// ---------------------------------------------------------------------
// Compound values
// ---------------------------------------------------------------------

/// A length-prefixed byte buffer: the unsigned rule for the length, then
/// the raw bytes.
pub open spec fn enc_bytes(b: Seq<u8>) -> Seq<u8> {
    enc_uint(b.len() as int) + b
}

/// An optional byte buffer: a single zero byte when absent, the
/// length-prefixed layout when present.
pub open spec fn enc_opt_bytes(o: Option<Seq<u8>>) -> Seq<u8> {
    match o {
        Some(b) => enc_bytes(b),
        None => seq![0u8],
    }
}

/// Decoding an optional byte buffer: length 0 reads back as absent; else
/// exactly that many bytes follow the prefix.
pub open spec fn dec_opt_bytes(w: Seq<u8>) -> DecSpec<Option<Seq<u8>>> {
    match dec_uint(w) {
        Err(e) => Err(e),
        Ok((size, n)) => if size == 0 {
            Ok((None, n))
        } else if size > w.len() - n {
            Err(DecodeError::BufferTooSmall)
        } else {
            Ok((Some(w.subrange(n, n + size)), n + size))
        },
    }
}

/// A UTF-8 string: its UTF-8 bytes in the length-prefixed buffer layout.
pub open spec fn enc_str(s: Seq<char>) -> Seq<u8> {
    enc_bytes(encode_utf8(s))
}

/// Decoding a UTF-8 string: the byte length, the availability check, then
/// UTF-8 validation — invalid content fails `InvalidUtf8`, never
/// substituting replacement characters.
pub open spec fn dec_string(w: Seq<u8>) -> DecSpec<Seq<char>> {
    match dec_uint(w) {
        Err(e) => Err(e),
        Ok((size, n)) => if size == 0 {
            Ok((Seq::empty(), n))
        } else if size > w.len() - n {
            Err(DecodeError::BufferTooSmall)
        } else if !valid_utf8(w.subrange(n, n + size)) {
            Err(DecodeError::InvalidUtf8)
        } else {
            Ok((decode_utf8(w.subrange(n, n + size)), n + size))
        },
    }
}

/// Decoding a raw, unframed byte run: whatever remains ahead of the
/// cursor, all of it.
pub open spec fn dec_raw(w: Seq<u8>) -> DecSpec<Seq<u8>> {
    if w.len() == 0 {
        Ok((Seq::empty(), 0))
    } else {
        Ok((w, w.len() as int))
    }
}

/// Decoding a fixed-size block of `n` bytes: no prefix, exactly `n` bytes.
pub open spec fn dec_fixed(w: Seq<u8>, n: int) -> DecSpec<Seq<u8>> {
    if w.len() == 0 || w.len() < n {
        Err(DecodeError::BufferTooSmall)
    } else {
        Ok((w.subrange(0, n), n))
    }
}

/// Decoding one raw four-byte little-endian word: no marker.
pub open spec fn dec_word32(w: Seq<u8>) -> DecSpec<u32> {
    if w.len() < 4 {
        Err(DecodeError::BufferTooSmall)
    } else {
        Ok((le4_value(w), 4))
    }
}

/// Decoding one raw eight-byte little-endian word: no marker.
pub open spec fn dec_word64(w: Seq<u8>) -> DecSpec<u64> {
    if w.len() < 8 {
        Err(DecodeError::BufferTooSmall)
    } else {
        Ok((le8_value(w), 8))
    }
}

/// The concatenated four-byte little-endian words of a u32 sequence.
pub open spec fn le4_concat(vals: Seq<u32>) -> Seq<u8>
    decreases vals.len(),
{
    if vals.len() == 0 {
        Seq::empty()
    } else {
        le4_bytes(vals[0]) + le4_concat(vals.drop_first())
    }
}

/// Decoding `k` raw four-byte little-endian words.
pub open spec fn dec_words(w: Seq<u8>, k: nat) -> DecSpec<Seq<u32>>
    decreases k,
{
    if k == 0 {
        Ok((Seq::empty(), 0))
    } else if w.len() < 4 {
        Err(DecodeError::BufferTooSmall)
    } else {
        match dec_words(w.skip(4), (k - 1) as nat) {
            Err(e) => Err(e),
            Ok((vs, m)) => Ok((seq![le4_value(w)] + vs, 4 + m)),
        }
    }
}

/// Decoding a count-prefixed sequence of raw four-byte words.
pub open spec fn dec_u32array(w: Seq<u8>) -> DecSpec<Seq<u32>> {
    match dec_uint(w) {
        Err(e) => Err(e),
        Ok((size, n)) => if size == 0 {
            Ok((Seq::empty(), n))
        } else {
            match dec_words(w.skip(n), size as nat) {
                Err(e) => Err(e),
                Ok((vs, m)) => Ok((vs, n + m)),
            }
        },
    }
}

} // verus!
