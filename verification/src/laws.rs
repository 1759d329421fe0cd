//! The laws of the format, stated and proved once for all values: the
//! zigzag transform is a bijection, every codec's decoder inverts its
//! encoder, the unsigned rule is minimal-width, a sizing-then-filling pass
//! leaves no gaps or overlaps, an oversized declared count fails before
//! any element decode, and invalid UTF-8 of the right length fails
//! `InvalidUtf8`.

use crate::arrays::U32Array;
use crate::arrays::dec_list;
use crate::arrays::enc_list;
use crate::codec::Decode;
use crate::codec::Encode;
use crate::error::DecodeError;
use crate::fixed::Float32Bits;
use crate::fixed::Float64Bits;
use crate::wire::MAX_ARRAY_DECODE_SIZE;
use crate::wire::U8_MAX_VALUE;
use crate::wire::dec_fixed;
use crate::wire::dec_opt_bytes;
use crate::wire::dec_raw;
use crate::wire::dec_string;
use crate::wire::dec_u16;
use crate::wire::dec_u32;
use crate::wire::dec_u64;
use crate::wire::dec_u8;
use crate::wire::dec_uint;
use crate::wire::dec_words;
use crate::wire::enc_opt_bytes;
use crate::wire::enc_str;
use crate::wire::enc_u16;
use crate::wire::enc_u32;
use crate::wire::enc_u64;
use crate::wire::enc_u8;
use crate::wire::enc_uint;
use crate::wire::le2_bytes;
use crate::wire::le2_value;
use crate::wire::le4_bytes;
use crate::wire::le4_concat;
use crate::wire::le4_value;
use crate::wire::le8_bytes;
use crate::wire::le8_value;
use crate::state::lemma_splice_adjacent;
use crate::state::lemma_splice_empty;
use crate::state::splice_bytes;
use crate::wire::zig_zag;
use crate::wire::zig_zag_back;
use vstd::prelude::*;
use vstd::utf8::encode_utf8;
use vstd::utf8::valid_utf8;

verus! {

// ---------------------------------------------------------------------
// The zigzag transform is a bijection
// ---------------------------------------------------------------------

/// Law: the inverse zigzag transform undoes the zigzag transform on every
/// 64-bit signed value, and the image always fits the unsigned 64-bit
/// domain.
pub proof fn lemma_zig_zag_round_trip(v: i64)
    ensures
        zig_zag_back(zig_zag(v as int)) == v as int,
        0 <= zig_zag(v as int) <= u64::MAX,
{
}

/// Law: the zigzag transform undoes its inverse on every unsigned 64-bit
/// value, which makes the pair a bijection between the two domains.
pub proof fn lemma_zig_zag_back_round_trip(u: u64)
    ensures
        zig_zag(zig_zag_back(u as int)) == u as int,
        i64::MIN <= zig_zag_back(u as int) <= i64::MAX,
{
}

// ---------------------------------------------------------------------
// Little-endian payloads read back exactly
// ---------------------------------------------------------------------

/// Reading two little-endian bytes yields the value they were made from.
pub proof fn lemma_le2_round_trip(v: u16, rest: Seq<u8>)
    ensures
        le2_value(le2_bytes(v) + rest) == v,
{
    let b0 = (v & 0xFF) as u8;
    let b1 = ((v >> 8) & 0xFF) as u8;
    assert((b0 as u16) | ((b1 as u16) << 8) == v) by (bit_vector)
        requires
            b0 == (v & 0xFF) as u8,
            b1 == ((v >> 8) & 0xFF) as u8,
    ;
    assert((le2_bytes(v) + rest)[0] == b0 && (le2_bytes(v) + rest)[1] == b1);
}

/// Reading four little-endian bytes yields the value they were made from.
pub proof fn lemma_le4_round_trip(v: u32, rest: Seq<u8>)
    ensures
        le4_value(le4_bytes(v) + rest) == v,
{
    let b0 = (v & 0xFF) as u8;
    let b1 = ((v >> 8) & 0xFF) as u8;
    let b2 = ((v >> 16) & 0xFF) as u8;
    let b3 = ((v >> 24) & 0xFF) as u8;
    assert((b0 as u32) | ((b1 as u32) << 8) | ((b2 as u32) << 16) | ((b3 as u32) << 24) == v)
        by (bit_vector)
        requires
            b0 == (v & 0xFF) as u8,
            b1 == ((v >> 8) & 0xFF) as u8,
            b2 == ((v >> 16) & 0xFF) as u8,
            b3 == ((v >> 24) & 0xFF) as u8,
    ;
    let w = le4_bytes(v) + rest;
    assert(w[0] == b0 && w[1] == b1 && w[2] == b2 && w[3] == b3);
}

/// Reading eight little-endian bytes yields the value they were made from.
pub proof fn lemma_le8_round_trip(v: u64, rest: Seq<u8>)
    ensures
        le8_value(le8_bytes(v) + rest) == v,
{
    let low = (v & 0xFFFFFFFF) as u32;
    let high = ((v >> 32) & 0xFFFFFFFF) as u32;
    let w = le8_bytes(v) + rest;
    assert(w =~= le4_bytes(low) + (le4_bytes(high) + rest));
    lemma_le4_round_trip(low, le4_bytes(high) + rest);
    assert(w.skip(4) =~= le4_bytes(high) + rest);
    lemma_le4_round_trip(high, rest);
    assert((low as u64) | ((high as u64) << 32) == v) by (bit_vector)
        requires
            low == (v & 0xFFFFFFFF) as u32,
            high == ((v >> 32) & 0xFFFFFFFF) as u32,
    ;
}

// ---------------------------------------------------------------------
// The unsigned layouts read back exactly
// ---------------------------------------------------------------------

/// The u16 layout decodes to the value it was made from.
pub proof fn lemma_dec_enc_u16(v: u16, rest: Seq<u8>)
    ensures
        dec_u16(enc_u16(v) + rest) == Ok::<(u16, int), DecodeError>((v, 3)),
{
    let w = enc_u16(v) + rest;
    assert(w.skip(1) =~= le2_bytes(v) + rest);
    lemma_le2_round_trip(v, rest);
}

/// The u32 layout decodes to the value it was made from.
pub proof fn lemma_dec_enc_u32(v: u32, rest: Seq<u8>)
    ensures
        dec_u32(enc_u32(v) + rest) == Ok::<(u32, int), DecodeError>((v, 5)),
{
    let w = enc_u32(v) + rest;
    assert(w.skip(1) =~= le4_bytes(v) + rest);
    lemma_le4_round_trip(v, rest);
}

/// The u64 layout decodes to the value it was made from.
pub proof fn lemma_dec_enc_u64(v: u64, rest: Seq<u8>)
    ensures
        dec_u64(enc_u64(v) + rest) == Ok::<(u64, int), DecodeError>((v, 9)),
{
    let w = enc_u64(v) + rest;
    assert(w.skip(1) =~= le8_bytes(v) + rest);
    lemma_le8_round_trip(v, rest);
}

/// The u8 layout decodes to the value it was made from.
pub proof fn lemma_dec_enc_u8(v: u8, rest: Seq<u8>)
    ensures
        dec_u8(enc_u8(v) + rest) == Ok::<(u8, int), DecodeError>(
            (v, enc_u8(v).len() as int),
        ),
{
    if v <= U8_MAX_VALUE {
        assert((enc_u8(v) + rest)[0] == v);
    } else {
        lemma_dec_enc_u16(v as u16, rest);
        assert((enc_u8(v) + rest)[0] == crate::wire::U16_PREFIX);
        assert(enc_u8(v) + rest =~= enc_u16(v as u16) + rest);
        assert(((v as u16) & 0xFF) as u8 == v) by (bit_vector);
    }
}

/// The generic unsigned rule decodes to the value it was made from.
pub proof fn lemma_dec_enc_uint(v: usize, rest: Seq<u8>)
    ensures
        dec_uint(enc_uint(v as int) + rest) == Ok::<(usize, int), DecodeError>(
            (v, enc_uint(v as int).len() as int),
        ),
{
    let w = enc_uint(v as int) + rest;
    if v <= U8_MAX_VALUE as usize {
        assert(w[0] == v as u8);
    } else if v <= u16::MAX as usize {
        assert(w =~= enc_u16(v as u16) + rest);
        lemma_dec_enc_u16(v as u16, rest);
    } else if v <= u32::MAX as usize {
        assert(w =~= enc_u32(v as u32) + rest);
        lemma_dec_enc_u32(v as u32, rest);
    } else {
        assert(w =~= enc_u64(v as u64) + rest);
        lemma_dec_enc_u64(v as u64, rest);
    }
}

// ---------------------------------------------------------------------
// Round trips: decoding inverts encoding
// ---------------------------------------------------------------------

/// Law: decoding inverts encoding. For every value in the codec's round
/// trip domain and any bytes standing after its encoding in a buffer,
/// decoding from the encoding yields the value back and consumes exactly
/// the encoding's length.
pub trait RoundTrip: Encode + Decode {
    /// The values for which the round trip is claimed: every value, for
    /// all codecs but the sequences, whose element count must stay at or
    /// under the decoder's safety ceiling and whose elements must each
    /// encode to at least one byte.
    spec fn round_trip_domain(&self) -> bool;

    proof fn round_trip(&self, rest: Seq<u8>)
        requires
            self.round_trip_domain(),
        ensures
            Self::dec(self.enc() + rest) == Ok::<(<Self as DeepView>::V, int), DecodeError>(
                (self.deep_view(), self.enc().len() as int),
            ),
    ;
}

impl RoundTrip for bool {
    open spec fn round_trip_domain(&self) -> bool {
        true
    }

    proof fn round_trip(&self, rest: Seq<u8>) {
        assert((self.enc() + rest)[0] == (if *self {
            1u8
        } else {
            0u8
        }));
    }
}

impl RoundTrip for u8 {
    open spec fn round_trip_domain(&self) -> bool {
        true
    }

    proof fn round_trip(&self, rest: Seq<u8>) {
        lemma_dec_enc_u8(*self, rest);
    }
}

impl RoundTrip for u16 {
    open spec fn round_trip_domain(&self) -> bool {
        true
    }

    proof fn round_trip(&self, rest: Seq<u8>) {
        lemma_dec_enc_u16(*self, rest);
    }
}

impl RoundTrip for u32 {
    open spec fn round_trip_domain(&self) -> bool {
        true
    }

    proof fn round_trip(&self, rest: Seq<u8>) {
        lemma_dec_enc_u32(*self, rest);
    }
}

impl RoundTrip for u64 {
    open spec fn round_trip_domain(&self) -> bool {
        true
    }

    proof fn round_trip(&self, rest: Seq<u8>) {
        lemma_dec_enc_u64(*self, rest);
    }
}

impl RoundTrip for usize {
    open spec fn round_trip_domain(&self) -> bool {
        true
    }

    proof fn round_trip(&self, rest: Seq<u8>) {
        lemma_dec_enc_uint(*self, rest);
    }
}

impl RoundTrip for i8 {
    open spec fn round_trip_domain(&self) -> bool {
        true
    }

    proof fn round_trip(&self, rest: Seq<u8>) {
        let z = zig_zag(*self as int);
        lemma_zig_zag_round_trip(*self as i64);
        lemma_dec_enc_u8(z as u8, rest);
    }
}

impl RoundTrip for i16 {
    open spec fn round_trip_domain(&self) -> bool {
        true
    }

    proof fn round_trip(&self, rest: Seq<u8>) {
        let z = zig_zag(*self as int);
        lemma_zig_zag_round_trip(*self as i64);
        lemma_dec_enc_u16(z as u16, rest);
    }
}

impl RoundTrip for i32 {
    open spec fn round_trip_domain(&self) -> bool {
        true
    }

    proof fn round_trip(&self, rest: Seq<u8>) {
        let z = zig_zag(*self as int);
        lemma_zig_zag_round_trip(*self as i64);
        lemma_dec_enc_u32(z as u32, rest);
    }
}

impl RoundTrip for i64 {
    open spec fn round_trip_domain(&self) -> bool {
        true
    }

    proof fn round_trip(&self, rest: Seq<u8>) {
        let z = zig_zag(*self as int);
        lemma_zig_zag_round_trip(*self);
        lemma_dec_enc_u64(z as u64, rest);
    }
}

impl RoundTrip for Float32Bits {
    open spec fn round_trip_domain(&self) -> bool {
        true
    }

    proof fn round_trip(&self, rest: Seq<u8>) {
        lemma_le4_round_trip(self.0, rest);
    }
}

impl RoundTrip for Float64Bits {
    open spec fn round_trip_domain(&self) -> bool {
        true
    }

    proof fn round_trip(&self, rest: Seq<u8>) {
        lemma_le8_round_trip(self.0, rest);
    }
}

/// Each element of a list with nonempty element encodings contributes at
/// least one byte.
pub proof fn lemma_enc_list_len_lower<T: Encode>(items: Seq<T>)
    requires
        forall|i: int| 0 <= i < items.len() ==> #[trigger] items[i].enc().len() >= 1,
    ensures
        enc_list(items).len() >= items.len(),
    decreases items.len(),
{
    if items.len() > 0 {
        assert(items[0].enc().len() >= 1);
        assert forall|i: int|
            0 <= i < items.drop_first().len() implies #[trigger] items.drop_first()[i].enc().len()
            >= 1 by {
            assert(items.drop_first()[i] == items[i + 1]);
        }
        lemma_enc_list_len_lower(items.drop_first());
    }
}

/// Decoding a list inverts encoding it, element by element.
pub proof fn lemma_dec_list_round_trip<T: RoundTrip>(items: Seq<T>, rest: Seq<u8>)
    requires
        forall|i: int| 0 <= i < items.len() ==> #[trigger] items[i].round_trip_domain(),
    ensures
        dec_list::<T>(enc_list(items) + rest, items.len() as nat) == Ok::<
            (Seq<<T as DeepView>::V>, int),
            DecodeError,
        >((Seq::new(items.len(), |i: int| items[i].deep_view()), enc_list(items).len() as int)),
    decreases items.len(),
{
    if items.len() == 0 {
        assert(Seq::new(0, |i: int| items[i].deep_view()) =~= Seq::<
            <T as DeepView>::V,
        >::empty());
    } else {
        let head = items[0];
        let tail = items.drop_first();
        let w = enc_list(items) + rest;
        assert(w =~= head.enc() + (enc_list(tail) + rest));
        head.round_trip(enc_list(tail) + rest);
        assert(w.skip(head.enc().len() as int) =~= enc_list(tail) + rest);
        assert forall|i: int| 0 <= i < tail.len() implies #[trigger] tail[i].round_trip_domain() by {
            assert(tail[i] == items[i + 1]);
        }
        lemma_dec_list_round_trip(tail, rest);
        assert(seq![head.deep_view()] + Seq::new(tail.len(), |i: int| tail[i].deep_view())
            =~= Seq::new(items.len(), |i: int| items[i].deep_view()));
    }
}

impl<T: RoundTrip> RoundTrip for Vec<T> {
    open spec fn round_trip_domain(&self) -> bool {
        &&& self@.len() <= MAX_ARRAY_DECODE_SIZE
        &&& forall|i: int| 0 <= i < self@.len() ==> #[trigger] self@[i].round_trip_domain()
        &&& forall|i: int| 0 <= i < self@.len() ==> #[trigger] self@[i].enc().len() >= 1
    }

    proof fn round_trip(&self, rest: Seq<u8>) {
        let items = self@;
        let count = items.len() as usize;
        let pre = enc_uint(count as int);
        let body = enc_list(items);
        let w = self.enc() + rest;
        assert(w =~= pre + (body + rest));
        lemma_dec_enc_uint(count, body + rest);
        assert(dec_uint(w) == Ok::<(usize, int), DecodeError>((count, pre.len() as int)));
        if count == 0 {
            assert(self.deep_view() =~= Seq::<<T as DeepView>::V>::empty());
            assert(body =~= Seq::<u8>::empty());
        } else {
            lemma_enc_list_len_lower(items);
            assert(w.skip(pre.len() as int) =~= body + rest);
            lemma_dec_list_round_trip(items, rest);
            assert(self.deep_view() =~= Seq::new(items.len(), |i: int| items[i].deep_view()));
        }
    }
}

/// Decoding raw words inverts encoding them, word by word.
pub proof fn lemma_dec_words_round_trip(vals: Seq<u32>, rest: Seq<u8>)
    ensures
        dec_words(le4_concat(vals) + rest, vals.len() as nat) == Ok::<(Seq<u32>, int), DecodeError>(
            (vals, le4_concat(vals).len() as int),
        ),
    decreases vals.len(),
{
    if vals.len() == 0 {
        assert(vals =~= Seq::<u32>::empty());
    } else {
        let head = vals[0];
        let tail = vals.drop_first();
        let w = le4_concat(vals) + rest;
        assert(w =~= le4_bytes(head) + (le4_concat(tail) + rest));
        lemma_le4_round_trip(head, le4_concat(tail) + rest);
        assert(w.skip(4) =~= le4_concat(tail) + rest);
        lemma_dec_words_round_trip(tail, rest);
        assert(w.len() >= 4);
        assert(seq![head] + tail =~= vals);
    }
}

impl<'a> RoundTrip for U32Array<'a> {
    open spec fn round_trip_domain(&self) -> bool {
        self@.len() <= usize::MAX
    }

    proof fn round_trip(&self, rest: Seq<u8>) {
        let vals = self@;
        let count = vals.len() as usize;
        let pre = enc_uint(count as int);
        let body = le4_concat(vals);
        let w = self.enc() + rest;
        assert(w =~= pre + (body + rest));
        lemma_dec_enc_uint(count, body + rest);
        if count == 0 {
            assert(vals =~= Seq::<u32>::empty());
        } else {
            assert(w.skip(pre.len() as int) =~= body + rest);
            lemma_dec_words_round_trip(vals, rest);
        }
    }
}

/// Law: an optional byte buffer round-trips whenever it is absent or
/// holds at least one byte. A present but empty buffer encodes as the
/// single zero byte and so reads back as absent: the format cannot tell
/// the two apart.
pub proof fn lemma_opt_bytes_round_trip(o: Option<Seq<u8>>, rest: Seq<u8>)
    requires
        o matches Some(b) ==> 1 <= b.len() <= usize::MAX,
    ensures
        dec_opt_bytes(enc_opt_bytes(o) + rest) == Ok::<(Option<Seq<u8>>, int), DecodeError>(
            (o, enc_opt_bytes(o).len() as int),
        ),
{
    match o {
        None => {
            let w = enc_opt_bytes(o) + rest;
            assert(w =~= enc_uint(0) + rest);
            lemma_dec_enc_uint(0, rest);
        },
        Some(b) => {
            let pre = enc_uint(b.len() as int);
            let w = enc_opt_bytes(o) + rest;
            assert(w =~= pre + (b + rest));
            lemma_dec_enc_uint(b.len() as usize, b + rest);
            assert(w.subrange(pre.len() as int, pre.len() + b.len() as int) =~= b);
        },
    }
}

/// Law: a string round-trips for every character sequence: its UTF-8
/// bytes are valid UTF-8 and decode back to the same characters.
pub proof fn lemma_string_round_trip(s: Seq<char>, rest: Seq<u8>)
    requires
        encode_utf8(s).len() <= usize::MAX,
    ensures
        dec_string(enc_str(s) + rest) == Ok::<(Seq<char>, int), DecodeError>(
            (s, enc_str(s).len() as int),
        ),
{
    let bytes = encode_utf8(s);
    let pre = enc_uint(bytes.len() as int);
    let w = enc_str(s) + rest;
    assert(w =~= pre + (bytes + rest));
    lemma_dec_enc_uint(bytes.len() as usize, bytes + rest);
    if bytes.len() == 0 {
        assert(s =~= Seq::<char>::empty());
    } else {
        assert(w.subrange(pre.len() as int, pre.len() + bytes.len() as int) =~= bytes);
        vstd::utf8::encode_utf8_valid_utf8(s);
        vstd::utf8::encode_utf8_decode_utf8(s);
    }
}

/// Law: a raw byte run reads back exactly the bytes that were written,
/// consuming everything that remains; it round-trips only when nothing
/// follows it, since it has no frame of its own.
pub proof fn lemma_raw_round_trip(b: Seq<u8>)
    ensures
        dec_raw(b) == Ok::<(Seq<u8>, int), DecodeError>((b, b.len() as int)),
{
    if b.len() == 0 {
        assert(b =~= Seq::<u8>::empty());
    }
}

/// Law: a fixed-size block round-trips whenever it holds at least one
/// byte or something follows it; the decoder reports an exhausted cursor
/// before it looks at the width, so a zero-width block at the very end of
/// a buffer fails `BufferTooSmall` instead.
pub proof fn lemma_fixed_round_trip(b: Seq<u8>, n: int, rest: Seq<u8>)
    requires
        b.len() == n,
        n > 0 || rest.len() > 0,
    ensures
        dec_fixed(b + rest, n) == Ok::<(Seq<u8>, int), DecodeError>((b, n)),
{
    assert((b + rest).subrange(0, n) =~= b);
}

// ---------------------------------------------------------------------
// Minimal width
// ---------------------------------------------------------------------

/// Law: the generic unsigned rule always chooses the narrowest of the
/// four layouts that exactly holds the value.
pub proof fn lemma_uint_minimal_width(v: int)
    requires
        0 <= v <= u64::MAX,
    ensures
        v <= 0xFC ==> enc_uint(v).len() == 1,
        0xFC < v <= 0xFFFF ==> enc_uint(v).len() == 3,
        0xFFFF < v <= 0xFFFFFFFF ==> enc_uint(v).len() == 5,
        0xFFFFFFFF < v ==> enc_uint(v).len() == 9,
{
}

// ---------------------------------------------------------------------
// Sizing then filling is exact
// ---------------------------------------------------------------------

/// A fill pass over a buffer: each part is written at the running offset,
/// exactly as the per-value `encode` calls of an ordered sequence do. The
/// result is the filled buffer and the final offset.
pub open spec fn fill_pass(buffer: Seq<u8>, p: int, parts: Seq<Seq<u8>>) -> (Seq<u8>, int)
    decreases parts.len(),
{
    if parts.len() == 0 {
        (buffer, p)
    } else {
        fill_pass(splice_bytes(buffer, p, parts[0]), p + parts[0].len(), parts.drop_first())
    }
}

/// Law: sizing then filling is deterministic and exact. Filling an
/// ordered sequence of encodings into a buffer that was sized to their
/// sum lays them out back to back: the result holds exactly their
/// concatenation, with no gaps and no overlaps, and the final offset
/// stands at the end of what was sized — for a buffer allocated to
/// exactly the sum, at the allocation boundary.
pub proof fn lemma_size_then_fill(buffer: Seq<u8>, p: int, parts: Seq<Seq<u8>>)
    requires
        0 <= p,
        p + parts.flatten().len() <= buffer.len(),
    ensures
        fill_pass(buffer, p, parts).0 == splice_bytes(buffer, p, parts.flatten()),
        fill_pass(buffer, p, parts).1 == p + parts.flatten().len(),
    decreases parts.len(),
{
    if parts.len() == 0 {
        lemma_splice_empty(buffer, p);
        assert(parts.flatten() =~= Seq::<u8>::empty());
    } else {
        let head = parts[0];
        let tail = parts.drop_first();
        assert(parts.flatten() == head + tail.flatten());
        let filled = splice_bytes(buffer, p, head);
        lemma_size_then_fill(filled, p + head.len(), tail);
        lemma_splice_adjacent(buffer, p, head, tail.flatten());
    }
}

// ---------------------------------------------------------------------
// The safety ceiling on sequence counts
// ---------------------------------------------------------------------

/// Law: a declared sequence count above the safety ceiling is rejected
/// with `ArrayTooLarge` before any element decode is attempted: the
/// outcome is fixed by the count prefix and the bytes available alone,
/// whatever the element type.
pub proof fn lemma_array_too_large<T: Decode>(w: Seq<u8>)
    requires
        dec_uint(w) matches Ok(p) && p.0 > MAX_ARRAY_DECODE_SIZE && p.0 <= w.len() - p.1,
    ensures
        <Vec<T> as Decode>::dec(w) == Err::<(Seq<<T as DeepView>::V>, int), DecodeError>(
            DecodeError::ArrayTooLarge,
        ),
{
}

// ---------------------------------------------------------------------
// UTF-8 validation
// ---------------------------------------------------------------------

/// Law: a string whose declared byte length is available but whose bytes
/// are not valid UTF-8 fails `InvalidUtf8`, never substituting
/// replacement characters.
pub proof fn lemma_invalid_utf8(w: Seq<u8>)
    requires
        dec_uint(w) matches Ok(p) && 0 < p.0 && p.0 <= w.len() - p.1 && !valid_utf8(
            w.subrange(p.1, p.1 + p.0),
        ),
    ensures
        dec_string(w) == Err::<(Seq<char>, int), DecodeError>(DecodeError::InvalidUtf8),
{
}

} // verus!
