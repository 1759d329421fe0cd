//! Fixed-width codecs: blocks of a compile-time-known length with no
//! prefix, and the raw little-endian words that carry float bit patterns.

use crate::codec::Decode;
use crate::codec::Encode;
use crate::codec::decode_u32;
use crate::codec::encode_u32;
use crate::error::DecodeResultT;
use crate::error::EncodeResult;
use crate::state::Reader;
use crate::state::State;
use crate::state::Writer;
use crate::state::lemma_splice_empty;
use crate::wire::DecSpec;
use crate::wire::dec_fixed;
use crate::wire::dec_word32;
use crate::wire::dec_word64;
use crate::wire::le4_bytes;
use crate::wire::le8_bytes;
use vstd::prelude::*;

verus! {

// ---------------------------------------------------------------------
// Fixed-size blocks
// ---------------------------------------------------------------------

/// compact encoding for fixed size buffers: raw bytes, no prefix
#[derive(Debug, PartialEq, PartialOrd)]
pub struct Fixed<const N: usize>(pub [u8; N]);

pub type Fixed32 = Fixed<32>;

pub type Fixed64 = Fixed<64>;

impl<const N: usize> View for Fixed<N> {
    type V = Seq<u8>;

    open spec fn view(&self) -> Seq<u8> {
        self.0@
    }
}

impl<const N: usize> DeepView for Fixed<N> {
    type V = Seq<u8>;

    open spec fn deep_view(&self) -> Seq<u8> {
        self.0@
    }
}

/// compact encoding for Fixed<N>: always exactly N raw bytes
impl<const N: usize> Encode for Fixed<N> {
    open spec fn enc(&self) -> Seq<u8> {
        self.0@
    }

    open spec fn enc_first_len(&self) -> int {
        N as int
    }

    fn pre_encode(&self, state: &mut State) {
        state.end = state.end + N;
    }

    fn encode(&self, state: &mut State) -> (r: EncodeResult) {
        let r = state.write(self.0.as_slice());
        proof {
            if old(state).has_buffer() {
                if r is Ok {
                    assert(self.0@.take(N as int) =~= self.0@);
                } else {
                    lemma_splice_empty(old(state).bytes(), old(state).start as int);
                    assert(self.0@.take(0) =~= Seq::<u8>::empty());
                }
            }
        }
        r
    }
}

/// compact decoding for Fixed<N>: consumes exactly N raw bytes
impl<const N: usize> Decode for Fixed<N> {
    open spec fn dec(w: Seq<u8>) -> DecSpec<Seq<u8>> {
        dec_fixed(w, N as int)
    }

    fn decode(state: &mut State) -> (r: DecodeResultT<Self>) {
        let buffer = match state.read_next(N) {
            Ok(b) => b,
            Err(e) => {
                return Err(e);
            },
        };
        let mut block: [u8; N] = vstd::array::array_fill_for_copy_types::<u8, N>(0u8);
        let mut i: usize = 0;
        while i < N
            invariant
                i <= N,
                buffer@.len() == N,
                forall|j: int| 0 <= j < i ==> block@[j] == buffer@[j],
            decreases N - i,
        {
            block[i] = buffer[i];
            i = i + 1;
        }
        proof {
            assert(block@ =~= buffer@);
            if old(state).has_buffer() {
                assert(buffer@ =~= old(state).window().subrange(0, N as int));
            }
        }
        Ok(Fixed(block))
    }
}

// ---------------------------------------------------------------------
// Float bit patterns
// ---------------------------------------------------------------------

/// The IEEE-754 bit pattern of a 32-bit float, carried as a plain word.
/// Floating point itself stays outside this crate; `f32::to_bits` and
/// `f32::from_bits` bridge at the boundary. On the wire: four raw
/// little-endian bytes, no marker.
#[derive(Debug, Clone, Copy, PartialEq, Eq, Structural)]
pub struct Float32Bits(pub u32);

impl View for Float32Bits {
    type V = u32;

    open spec fn view(&self) -> u32 {
        self.0
    }
}

impl DeepView for Float32Bits {
    type V = u32;

    open spec fn deep_view(&self) -> u32 {
        self.0
    }
}

/// compact encoding for a 32-bit float's bit pattern
impl Encode for Float32Bits {
    open spec fn enc(&self) -> Seq<u8> {
        le4_bytes(self.0)
    }

    open spec fn enc_first_len(&self) -> int {
        4
    }

    fn pre_encode(&self, state: &mut State) {
        state.end = state.end + 4;
    }

    fn encode(&self, state: &mut State) -> (r: EncodeResult) {
        let bytes = encode_u32(self.0);
        let r = state.write(bytes.as_slice());
        proof {
            if old(state).has_buffer() {
                if r is Ok {
                    assert(le4_bytes(self.0).take(4) =~= le4_bytes(self.0));
                } else {
                    lemma_splice_empty(old(state).bytes(), old(state).start as int);
                    assert(le4_bytes(self.0).take(0) =~= Seq::<u8>::empty());
                }
            }
        }
        r
    }
}

/// compact decoding for a 32-bit float's bit pattern
impl Decode for Float32Bits {
    open spec fn dec(w: Seq<u8>) -> DecSpec<u32> {
        dec_word32(w)
    }

    fn decode(state: &mut State) -> (r: DecodeResultT<Self>) {
        let buffer = match state.read_next(4) {
            Ok(b) => b,
            Err(e) => {
                return Err(e);
            },
        };
        match decode_u32(buffer.as_slice()) {
            Ok(v) => {
                proof {
                    let w = old(state).window();
                    assert(buffer@[0] == w[0] && buffer@[1] == w[1] && buffer@[2] == w[2]
                        && buffer@[3] == w[3]);
                }
                Ok(Float32Bits(v))
            },
            Err(e) => Err(e),
        }
    }
}

/// The IEEE-754 bit pattern of a 64-bit float, carried as a plain word.
/// On the wire: eight raw little-endian bytes, no marker.
#[derive(Debug, Clone, Copy, PartialEq, Eq, Structural)]
pub struct Float64Bits(pub u64);

impl View for Float64Bits {
    type V = u64;

    open spec fn view(&self) -> u64 {
        self.0
    }
}

impl DeepView for Float64Bits {
    type V = u64;

    open spec fn deep_view(&self) -> u64 {
        self.0
    }
}

/// compact encoding for a 64-bit float's bit pattern
impl Encode for Float64Bits {
    open spec fn enc(&self) -> Seq<u8> {
        le8_bytes(self.0)
    }

    open spec fn enc_first_len(&self) -> int {
        8
    }

    fn pre_encode(&self, state: &mut State) {
        state.end = state.end + 8;
    }

    fn encode(&self, state: &mut State) -> (r: EncodeResult) {
        let v = self.0;
        proof {
            assert(v & 0xFFFFFFFF <= 0xFFFFFFFF && (v >> 32) & 0xFFFFFFFF <= 0xFFFFFFFF)
                by (bit_vector);
        }
        let low: u32 = (v & 0xFFFFFFFF) as u32;
        let high: u32 = ((v >> 32) & 0xFFFFFFFF) as u32;
        let low_bytes = encode_u32(low);
        let high_bytes = encode_u32(high);
        let mut bytes: Vec<u8> = Vec::new();
        bytes.push(low_bytes[0]);
        bytes.push(low_bytes[1]);
        bytes.push(low_bytes[2]);
        bytes.push(low_bytes[3]);
        bytes.push(high_bytes[0]);
        bytes.push(high_bytes[1]);
        bytes.push(high_bytes[2]);
        bytes.push(high_bytes[3]);
        proof {
            assert(bytes@ =~= le8_bytes(v));
        }
        let r = state.write(bytes.as_slice());
        proof {
            if old(state).has_buffer() {
                if r is Ok {
                    assert(le8_bytes(v).take(8) =~= le8_bytes(v));
                } else {
                    lemma_splice_empty(old(state).bytes(), old(state).start as int);
                    assert(le8_bytes(v).take(0) =~= Seq::<u8>::empty());
                }
            }
        }
        r
    }
}

/// compact decoding for a 64-bit float's bit pattern
impl Decode for Float64Bits {
    open spec fn dec(w: Seq<u8>) -> DecSpec<u64> {
        dec_word64(w)
    }

    fn decode(state: &mut State) -> (r: DecodeResultT<Self>) {
        let buffer = match state.read_next(8) {
            Ok(b) => b,
            Err(e) => {
                return Err(e);
            },
        };
        let low_slice = vstd::slice::slice_subrange(buffer.as_slice(), 0, 4);
        let low = match decode_u32(low_slice) {
            Ok(v) => v,
            Err(e) => {
                return Err(e);
            },
        };
        let high_slice = vstd::slice::slice_subrange(buffer.as_slice(), 4, 8);
        let high = match decode_u32(high_slice) {
            Ok(v) => v,
            Err(e) => {
                return Err(e);
            },
        };
        let value: u64 = (low as u64) | ((high as u64) << 32);
        proof {
            let w = old(state).window();
            assert(low_slice@[0] == w[0] && low_slice@[1] == w[1] && low_slice@[2] == w[2]
                && low_slice@[3] == w[3]);
            assert(w.skip(4)[0] == w[4] && w.skip(4)[1] == w[5] && w.skip(4)[2] == w[6] && w.skip(
                4,
            )[3] == w[7]);
            assert(high_slice@[0] == w[4] && high_slice@[1] == w[5] && high_slice@[2] == w[6]
                && high_slice@[3] == w[7]);
        }
        Ok(Float64Bits(value))
    }
}

} // verus!
