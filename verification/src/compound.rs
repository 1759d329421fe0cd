//! Codecs for the compound values: optional byte buffers and raw,
//! unframed byte runs. Each composes the primitive codecs.

use crate::codec::Decode;
use crate::codec::Encode;
use crate::error::DecodeError;
use crate::error::DecodeResultT;
use crate::error::EncodeResult;
use crate::state::Reader;
use crate::state::State;
use crate::state::Writer;
use crate::state::lemma_splice_adjacent;
use crate::state::lemma_splice_empty;
use crate::wire::DecSpec;
use crate::wire::dec_opt_bytes;
use crate::wire::dec_raw;
use crate::wire::enc_opt_bytes;
use crate::wire::dec_string;
use crate::wire::enc_str;
use crate::wire::enc_uint;
use crate::wire::uint_first_len;
use vstd::prelude::*;
use vstd::string::StringSliceAdditionalSpecFns;
use vstd::utf8::decode_utf8;
use vstd::utf8::valid_utf8;

verus! {

/// A prefix of a concatenation that ends within `a` is a prefix of `a`;
/// one that ends within `b` is all of `a` plus a prefix of `b`.
pub proof fn lemma_take_concat(a: Seq<u8>, b: Seq<u8>, k: int)
    requires
        0 <= k <= a.len() + b.len(),
    ensures
        k <= a.len() ==> (a + b).take(k) == a.take(k),
        k > a.len() ==> (a + b).take(k) == a + b.take(k - a.len()),
{
    if k <= a.len() {
        assert((a + b).take(k) =~= a.take(k));
    } else {
        assert((a + b).take(k) =~= a + b.take(k - a.len()));
    }
}

// ---------------------------------------------------------------------
// Optional byte buffers
// ---------------------------------------------------------------------

/// compact encoding for an optional byte buffer: a single zero byte when
/// absent, the length-prefixed layout when present
impl<'a> Encode for Option<&'a [u8]> {
    open spec fn enc(&self) -> Seq<u8> {
        enc_opt_bytes(self.deep_view())
    }

    open spec fn enc_first_len(&self) -> int {
        match self {
            Some(b) => uint_first_len(b@.len() as int),
            None => 1,
        }
    }

    fn pre_encode(&self, state: &mut State) {
        match self {
            Some(buffer) => {
                buffer.len().pre_encode(state);
                state.end = state.end + buffer.len();
            },
            None => {
                state.end = state.end + 1;
            },
        }
    }

    fn encode(&self, state: &mut State) -> (r: EncodeResult) {
        match self {
            Some(buffer) => {
                let ghost pre = enc_uint(buffer@.len() as int);
                let ghost body = buffer@;
                let r0 = buffer.len().encode(state);
                if let Err(e) = r0 {
                    proof {
                        if old(state).has_buffer() {
                            let k = state.start - old(state).start;
                            lemma_take_concat(pre, body, k);
                        }
                    }
                    return Err(e);
                }
                let r1 = state.write(buffer);
                proof {
                    assert(pre.take(pre.len() as int) =~= pre);
                    if r1 is Ok {
                        lemma_splice_adjacent(
                            old(state).bytes(),
                            old(state).start as int,
                            pre,
                            body,
                        );
                        assert((pre + body).take((pre + body).len() as int) =~= pre + body);
                    } else {
                        lemma_take_concat(pre, body, pre.len() as int);
                    }
                }
                r1
            },
            None => {
                let byte: [u8; 1] = [0u8];
                let r = state.write(byte.as_slice());
                proof {
                    assert(byte@ =~= self.enc());
                    if old(state).has_buffer() {
                        if r is Ok {
                            assert(self.enc().take(1) =~= self.enc());
                        } else {
                            lemma_splice_empty(old(state).bytes(), old(state).start as int);
                            assert(self.enc().take(0) =~= Seq::<u8>::empty());
                        }
                    }
                }
                r
            },
        }
    }
}

/// compact decoding for an optional byte buffer
impl Decode for Option<Box<Vec<u8>>> {
    open spec fn dec(w: Seq<u8>) -> DecSpec<Option<Seq<u8>>> {
        dec_opt_bytes(w)
    }

    fn decode(state: &mut State) -> (r: DecodeResultT<Self>) {
        let ghost w = old(state).window();
        let buffer_size = match usize::decode(state) {
            Ok(size) => size,
            Err(e) => {
                return Err(e);
            },
        };
        let ghost n: int = state.start - old(state).start;
        if buffer_size == 0 {
            return Ok(None);
        }
        match state.read_next(buffer_size) {
            Ok(buffer) => {
                proof {
                    assert(w.subrange(n, n + buffer_size as int) =~= buffer@);
                    assert(buffer.deep_view() =~= buffer@);
                }
                Ok(Some(Box::new(buffer)))
            },
            Err(e) => {
                proof {
                    if old(state).has_buffer() {
                        assert(w.len() == old(state).end - old(state).start);
                    }
                }
                Err(e)
            },
        }
    }
}

// ---------------------------------------------------------------------
// UTF-8 strings
// ---------------------------------------------------------------------

/// Relies on `String::from_utf8`: it returns, exactly for valid UTF-8
/// input, the string whose UTF-8 encoding is that input.
#[verifier::external_body]
fn string_from_utf8(bytes: Vec<u8>) -> (r: Option<String>)
    ensures
        r matches Some(s) ==> valid_utf8(bytes@) && s@ == decode_utf8(bytes@),
        r is None ==> !valid_utf8(bytes@),
{
    match String::from_utf8(bytes) {
        Ok(s) => Some(s),
        Err(_) => None,
    }
}

/// compact encoding for a string slice: its UTF-8 byte length in the
/// unsigned layout, then the raw bytes
impl<'s> Encode for &'s str {
    open spec fn enc(&self) -> Seq<u8> {
        enc_str(self@)
    }

    open spec fn enc_first_len(&self) -> int {
        uint_first_len(self.spec_bytes().len() as int)
    }

    fn pre_encode(&self, state: &mut State) {
        // len always returns the number of bytes
        let byte_len = self.as_bytes().len();
        byte_len.pre_encode(state);
        state.end = state.end + byte_len;
    }

    fn encode(&self, state: &mut State) -> (r: EncodeResult) {
        let ghost pre = enc_uint(self.spec_bytes().len() as int);
        let ghost body = self.spec_bytes();
        let bytes = self.as_bytes();
        let r0 = bytes.len().encode(state);
        if let Err(e) = r0 {
            proof {
                if old(state).has_buffer() {
                    lemma_take_concat(pre, body, state.start - old(state).start);
                }
            }
            return Err(e);
        }
        let r1 = state.write(bytes);
        proof {
            assert(pre.take(pre.len() as int) =~= pre);
            if r1 is Ok {
                lemma_splice_adjacent(old(state).bytes(), old(state).start as int, pre, body);
                assert((pre + body).take((pre + body).len() as int) =~= pre + body);
            } else {
                lemma_take_concat(pre, body, pre.len() as int);
            }
        }
        r1
    }
}

/// compact decoding into String: the length and availability checks come
/// first, then UTF-8 validation
impl Decode for String {
    open spec fn dec(w: Seq<u8>) -> DecSpec<Seq<char>> {
        dec_string(w)
    }

    fn decode(state: &mut State) -> (r: DecodeResultT<Self>) {
        let ghost w = old(state).window();
        let buffer_size = match usize::decode(state) {
            Ok(size) => size,
            Err(e) => {
                return Err(e);
            },
        };
        let ghost n: int = state.start - old(state).start;
        if buffer_size == 0 {
            return Ok(String::new());
        }
        if buffer_size > state.end - state.start {
            proof {
                if old(state).has_buffer() {
                    assert(w.len() == old(state).end - old(state).start);
                }
            }
            return Err(DecodeError::BufferTooSmall);
        }
        let buffer = match state.read_next(buffer_size) {
            Ok(b) => b,
            Err(e) => {
                return Err(e);
            },
        };
        proof {
            assert(w.subrange(n, n + buffer_size as int) =~= buffer@);
        }
        match string_from_utf8(buffer) {
            Some(s) => Ok(s),
            None => Err(DecodeError::InvalidUtf8),
        }
    }
}

// ---------------------------------------------------------------------
// Raw byte runs
// ---------------------------------------------------------------------

/// wrapper enum for encoding plain buffers without length information
#[derive(Debug, PartialEq)]
pub enum Raw<'a> {
    /// enum variant which is returned by Decode
    Vec(Vec<u8>),
    VecRef(&'a Vec<u8>),
    Slice(&'a [u8]),
}

impl<'a> View for Raw<'a> {
    type V = Seq<u8>;

    open spec fn view(&self) -> Seq<u8> {
        match self {
            Raw::Vec(buffer) => buffer@,
            Raw::VecRef(buffer) => buffer@,
            Raw::Slice(slice) => slice@,
        }
    }
}

impl<'a> DeepView for Raw<'a> {
    type V = Seq<u8>;

    open spec fn deep_view(&self) -> Seq<u8> {
        self.view()
    }
}

/// compact encoding for a raw buffer: the bytes themselves, unframed
impl<'a> Encode for Raw<'a> {
    open spec fn enc(&self) -> Seq<u8> {
        self@
    }

    open spec fn enc_first_len(&self) -> int {
        self@.len() as int
    }

    fn pre_encode(&self, state: &mut State) {
        match self {
            Raw::Vec(buffer) => {
                state.end = state.end + buffer.len();
            },
            Raw::VecRef(buffer) => {
                state.end = state.end + buffer.len();
            },
            Raw::Slice(slice) => {
                state.end = state.end + slice.len();
            },
        }
    }

    fn encode(&self, state: &mut State) -> (r: EncodeResult) {
        let r = match self {
            Raw::Vec(buffer) => state.write(buffer.as_slice()),
            Raw::VecRef(buffer) => state.write(buffer.as_slice()),
            Raw::Slice(slice) => state.write(slice),
        };
        proof {
            if old(state).has_buffer() {
                if r is Ok {
                    assert(self@.take(self@.len() as int) =~= self@);
                } else {
                    lemma_splice_empty(old(state).bytes(), old(state).start as int);
                    assert(self@.take(0) =~= Seq::<u8>::empty());
                }
            }
        }
        r
    }
}

/// compact decoding for a raw buffer: whatever remains between `start`
/// and `end`; returns the owning `Raw::Vec` variant
impl<'a> Decode for Raw<'a> {
    open spec fn dec(w: Seq<u8>) -> DecSpec<Seq<u8>> {
        dec_raw(w)
    }

    fn decode(state: &mut State) -> (r: DecodeResultT<Self>) {
        let buffer_size = state.end - state.start;
        if buffer_size == 0 {
            Ok(Raw::Vec(Vec::new()))
        } else {
            match state.read_next(buffer_size) {
                Ok(buffer) => Ok(Raw::Vec(buffer)),
                Err(e) => Err(e),
            }
        }
    }
}

} // verus!
