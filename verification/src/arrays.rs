//! Codecs for homogeneous sequences: count-prefixed sequences of
//! fixed-width 32-bit words.

use crate::codec::Decode;
use crate::codec::Encode;
use crate::codec::decode_u32;
use crate::codec::encode_u32;
use crate::compound::lemma_take_concat;
use crate::error::DecodeError;
use crate::error::DecodeResultT;
use crate::error::EncodeResult;
use crate::state::Reader;
use crate::state::State;
use crate::state::Writer;
use crate::state::lemma_splice_adjacent;
use crate::state::splice_bytes;
use crate::wire::DecSpec;
use crate::wire::MAX_ARRAY_DECODE_SIZE;
use crate::wire::dec_u32array;
use crate::wire::dec_uint;
use crate::wire::dec_words;
use crate::wire::enc_uint;
use crate::wire::le4_bytes;
use crate::wire::le4_concat;
use crate::wire::le4_value;
use crate::wire::uint_first_len;
use vstd::prelude::*;

verus! {

/// The word concatenation splits at any index.
pub proof fn lemma_le4_concat_split(vals: Seq<u32>, i: int)
    requires
        0 <= i <= vals.len(),
    ensures
        le4_concat(vals) == le4_concat(vals.take(i)) + le4_concat(vals.skip(i)),
        le4_concat(vals.take(i)).len() == 4 * i,
    decreases i,
{
    if i == 0 {
        assert(vals.take(0) =~= Seq::<u32>::empty());
        assert(vals.skip(0) =~= vals);
        assert(le4_concat(vals) =~= Seq::<u8>::empty() + le4_concat(vals));
    } else {
        let rest = vals.drop_first();
        lemma_le4_concat_split(rest, i - 1);
        assert(vals.take(i).drop_first() =~= rest.take(i - 1));
        assert(vals.skip(i) =~= rest.skip(i - 1));
        assert(vals.take(i)[0] == vals[0]);
        assert((le4_bytes(vals[0]) + le4_concat(rest.take(i - 1))) + le4_concat(rest.skip(i - 1))
            =~= le4_bytes(vals[0]) + (le4_concat(rest.take(i - 1)) + le4_concat(rest.skip(i - 1))));
    }
}

/// Taking in one more word appends its four bytes.
pub proof fn lemma_le4_concat_take_step(vals: Seq<u32>, i: int)
    requires
        0 <= i < vals.len(),
    ensures
        le4_concat(vals.take(i + 1)) == le4_concat(vals.take(i)) + le4_bytes(vals[i]),
{
    lemma_le4_concat_split(vals.take(i + 1), i);
    assert(vals.take(i + 1).take(i) =~= vals.take(i));
    assert(vals.take(i + 1).skip(i) =~= seq![vals[i]]);
    let single = seq![vals[i]];
    assert(single.drop_first() =~= Seq::<u32>::empty());
    assert(le4_concat(single) == le4_bytes(single[0]) + le4_concat(single.drop_first()));
    assert(le4_concat(single) =~= le4_bytes(vals[i]));
}

// ---------------------------------------------------------------------
// Generic homogeneous sequences
// ---------------------------------------------------------------------

/// The concatenated encodings of a sequence of values, in order.
pub open spec fn enc_list<T: Encode>(items: Seq<T>) -> Seq<u8>
    decreases items.len(),
{
    if items.len() == 0 {
        Seq::empty()
    } else {
        items[0].enc() + enc_list(items.drop_first())
    }
}

/// The encoding concatenation splits at any index.
pub proof fn lemma_enc_list_split<T: Encode>(items: Seq<T>, i: int)
    requires
        0 <= i <= items.len(),
    ensures
        enc_list(items) == enc_list(items.take(i)) + enc_list(items.skip(i)),
    decreases i,
{
    if i == 0 {
        assert(items.take(0) =~= Seq::<T>::empty());
        assert(items.skip(0) =~= items);
        assert(enc_list(items) =~= Seq::<u8>::empty() + enc_list(items));
    } else {
        let rest = items.drop_first();
        lemma_enc_list_split(rest, i - 1);
        assert(items.take(i).drop_first() =~= rest.take(i - 1));
        assert(items.skip(i) =~= rest.skip(i - 1));
        assert(items.take(i)[0] == items[0]);
        assert((items[0].enc() + enc_list(rest.take(i - 1))) + enc_list(rest.skip(i - 1))
            =~= items[0].enc() + (enc_list(rest.take(i - 1)) + enc_list(rest.skip(i - 1))));
    }
}

/// Taking in one more value appends exactly its encoding.
pub proof fn lemma_enc_list_take_step<T: Encode>(items: Seq<T>, i: int)
    requires
        0 <= i < items.len(),
    ensures
        enc_list(items.take(i + 1)) == enc_list(items.take(i)) + items[i].enc(),
{
    lemma_enc_list_split(items.take(i + 1), i);
    assert(items.take(i + 1).take(i) =~= items.take(i));
    assert(items.take(i + 1).skip(i) =~= seq![items[i]]);
    let single = seq![items[i]];
    assert(single.drop_first() =~= Seq::<T>::empty());
    assert(enc_list(single) == single[0].enc() + enc_list(single.drop_first()));
    assert(enc_list(single) =~= items[i].enc());
}

/// Decoding `k` values of one element type, in order.
pub open spec fn dec_list<T: Decode>(w: Seq<u8>, k: nat) -> DecSpec<Seq<<T as DeepView>::V>>
    decreases k,
{
    if k == 0 {
        Ok((Seq::empty(), 0))
    } else {
        match T::dec(w) {
            Err(e) => Err(e),
            Ok((v, m)) => match dec_list::<T>(w.skip(m), (k - 1) as nat) {
                Err(e) => Err(e),
                Ok((vs, m2)) => Ok((seq![v] + vs, m + m2)),
            },
        }
    }
}

/// compact encoding for Vec<T>: the element count in the unsigned layout,
/// then each element's own encoding in order
impl<T: Encode> Encode for Vec<T> {
    open spec fn enc(&self) -> Seq<u8> {
        enc_uint(self@.len() as int) + enc_list(self@)
    }

    open spec fn enc_first_len(&self) -> int {
        uint_first_len(self@.len() as int)
    }

    fn pre_encode(&self, state: &mut State) {
        let ghost items = self@;
        let ghost pre = enc_uint(items.len() as int);
        self.len().pre_encode(state);
        let mut i: usize = 0;
        while i < self.len()
            invariant
                i <= items.len(),
                self@ == items,
                pre == enc_uint(items.len() as int),
                state.start == old(state).start,
                state.buffer == old(state).buffer,
                state.end == old(state).end + pre.len() + enc_list(items.take(i as int)).len(),
                old(state).end + (pre + enc_list(items)).len() <= usize::MAX,
            decreases items.len() - i,
        {
            proof {
                lemma_enc_list_take_step(items, i as int);
                lemma_enc_list_split(items, i as int + 1);
            }
            self[i].pre_encode(state);
            i = i + 1;
        }
        proof {
            assert(items.take(items.len() as int) =~= items);
        }
    }

    fn encode(&self, state: &mut State) -> (r: EncodeResult) {
        let ghost items = self@;
        let ghost pre = enc_uint(items.len() as int);
        let ghost whole = pre + enc_list(items);
        let r0 = self.len().encode(state);
        if let Err(e) = r0 {
            proof {
                if old(state).has_buffer() {
                    lemma_take_concat(pre, enc_list(items), state.start - old(state).start);
                }
            }
            return Err(e);
        }
        proof {
            assert(items.take(0) =~= Seq::<T>::empty());
            assert(pre.take(pre.len() as int) =~= pre);
            assert(pre + enc_list(items.take(0)) =~= pre);
        }
        let mut i: usize = 0;
        while i < self.len()
            invariant
                i <= items.len(),
                self@ == items,
                pre == enc_uint(items.len() as int),
                whole == pre + enc_list(items),
                state.wf(),
                old(state).wf(),
                state.end == old(state).end,
                state.has_buffer(),
                old(state).has_buffer(),
                old(state).start + pre.len() <= old(state).end,
                state.start == old(state).start + pre.len() + enc_list(items.take(i as int)).len(),
                state.bytes() == splice_bytes(
                    old(state).bytes(),
                    old(state).start as int,
                    pre + enc_list(items.take(i as int)),
                ),
            decreases items.len() - i,
        {
            proof {
                lemma_enc_list_split(items, i as int);
                lemma_enc_list_take_step(items, i as int);
                lemma_enc_list_split(items, i as int + 1);
                assert(items.skip(i as int)[0] == items[i as int]);
                assert(items.skip(i as int).drop_first() =~= items.skip(i as int + 1));
            }
            let ghost before = *state;
            let r = self[i].encode(state);
            if let Err(e) = r {
                proof {
                    let done = pre + enc_list(items.take(i as int));
                    let written = state.start - before.start;
                    let m = state.start - old(state).start;
                    lemma_splice_adjacent(
                        old(state).bytes(),
                        old(state).start as int,
                        done,
                        items[i as int].enc().take(written),
                    );
                    assert(whole.take(m) =~= done + items[i as int].enc().take(written));
                }
                return Err(e);
            }
            proof {
                lemma_splice_adjacent(
                    old(state).bytes(),
                    old(state).start as int,
                    pre + enc_list(items.take(i as int)),
                    items[i as int].enc(),
                );
                assert((pre + enc_list(items.take(i as int))) + items[i as int].enc() =~= pre
                    + enc_list(items.take(i as int + 1)));
            }
            i = i + 1;
        }
        proof {
            assert(items.take(items.len() as int) =~= items);
            assert(whole.take(whole.len() as int) =~= whole);
        }
        Ok(())
    }
}

/// compact decoding into Vec<T>: the count is checked against the
/// remaining bytes and against the safety ceiling before any element is
/// decoded
impl<T: Decode> Decode for Vec<T> {
    open spec fn dec(w: Seq<u8>) -> DecSpec<Seq<<T as DeepView>::V>> {
        match dec_uint(w) {
            Err(e) => Err(e),
            Ok((size, n)) => if size == 0 {
                Ok((Seq::empty(), n))
            } else if size > w.len() - n {
                Err(DecodeError::BufferTooSmall)
            } else if size > MAX_ARRAY_DECODE_SIZE {
                Err(DecodeError::ArrayTooLarge)
            } else {
                match dec_list::<T>(w.skip(n), size as nat) {
                    Err(e) => Err(e),
                    Ok((vs, m)) => Ok((vs, n + m)),
                }
            },
        }
    }

    fn decode(state: &mut State) -> (r: DecodeResultT<Self>) {
        let ghost w = old(state).window();
        let buffer_size = match usize::decode(state) {
            Ok(size) => size,
            Err(e) => {
                return Err(e);
            },
        };
        let ghost n: int = state.start - old(state).start;
        if buffer_size == 0 {
            let empty: Vec<T> = Vec::new();
            proof {
                assert(empty.deep_view() =~= Seq::<<T as DeepView>::V>::empty());
            }
            return Ok(empty);
        }
        if buffer_size > state.end - state.start {
            proof {
                if old(state).has_buffer() {
                    assert(w.len() == old(state).end - old(state).start);
                }
            }
            return Err(DecodeError::BufferTooSmall);
        }
        if buffer_size > MAX_ARRAY_DECODE_SIZE {
            return Err(DecodeError::ArrayTooLarge);
        }
        proof {
            assert(old(state).has_buffer());
        }
        let ghost w1 = w.skip(n);
        let ghost s1 = *state;
        let mut vec: Vec<T> = Vec::with_capacity(buffer_size);
        let mut i: usize = 0;
        proof {
            assert(w1 =~= s1.window());
            assert(state.window() =~= w1.skip(0));
            assert(vec.deep_view() =~= Seq::<<T as DeepView>::V>::empty());
            if let Ok(p) = dec_list::<T>(w1, buffer_size as nat) {
                assert(Seq::<<T as DeepView>::V>::empty() + p.0 =~= p.0);
            }
        }
        while i < buffer_size
            invariant
                i <= buffer_size,
                buffer_size > 0,
                buffer_size <= MAX_ARRAY_DECODE_SIZE,
                state.wf(),
                old(state).wf(),
                state.end == old(state).end,
                state.has_buffer(),
                old(state).has_buffer(),
                state.bytes() == old(state).bytes(),
                w == old(state).window(),
                dec_uint(w) matches Ok(q) && q.0 == buffer_size && q.1 == n,
                buffer_size <= w.len() - n,
                w1 == w.skip(n),
                s1.end == state.end,
                s1.bytes() == state.bytes(),
                s1.has_buffer(),
                s1.wf(),
                s1.start <= state.start,
                s1.start == old(state).start + n,
                w1 == s1.window(),
                state.window() == w1.skip(state.start - s1.start),
                vec@.len() == i,
                old(state).start <= s1.start,
                match dec_list::<T>(state.window(), (buffer_size - i) as nat) {
                    Ok(p) => dec_list::<T>(w1, buffer_size as nat) matches Ok(q) && q.0
                        == vec.deep_view() + p.0 && q.1 == (state.start - s1.start) + p.1,
                    Err(e) => dec_list::<T>(w1, buffer_size as nat) matches Err(e2) && e2 == e,
                },
            decreases buffer_size - i,
        {
            let ghost before = *state;
            let ghost acc = vec.deep_view();
            let item = match T::decode(state) {
                Ok(v) => v,
                Err(e) => {
                    return Err(e);
                },
            };
            let ghost m = state.start - before.start;
            vec.push(item);
            i = i + 1;
            proof {
                assert(state.window() =~= w1.skip(state.start - s1.start));
                assert(state.window() =~= before.window().skip(m));
                assert(vec.deep_view() =~= acc + seq![vec@[i - 1].deep_view()]);
                if let Ok(p) = dec_list::<T>(state.window(), (buffer_size - i) as nat) {
                    assert((acc + seq![vec@[i - 1].deep_view()]) + p.0 =~= acc + (seq![vec@[i
                        - 1].deep_view()] + p.0));
                }
            }
        }
        proof {
            assert(vec.deep_view() + Seq::<<T as DeepView>::V>::empty() =~= vec.deep_view());
        }
        Ok(vec)
    }
}

/// compact encoding for arrays [T; N]: the length in the unsigned layout,
/// then each element's own encoding in order
impl<T: Encode, const N: usize> Encode for [T; N] {
    open spec fn enc(&self) -> Seq<u8> {
        enc_uint(N as int) + enc_list(self@)
    }

    open spec fn enc_first_len(&self) -> int {
        uint_first_len(N as int)
    }

    fn pre_encode(&self, state: &mut State) {
        let ghost items = self@;
        let ghost pre = enc_uint(N as int);
        let count: usize = N;
        count.pre_encode(state);
        let mut i: usize = 0;
        while i < N
            invariant
                i <= N,
                self@ == items,
                items.len() == N,
                pre == enc_uint(N as int),
                state.start == old(state).start,
                state.buffer == old(state).buffer,
                state.end == old(state).end + pre.len() + enc_list(items.take(i as int)).len(),
                old(state).end + (pre + enc_list(items)).len() <= usize::MAX,
            decreases N - i,
        {
            proof {
                lemma_enc_list_take_step(items, i as int);
                lemma_enc_list_split(items, i as int + 1);
            }
            self[i].pre_encode(state);
            i = i + 1;
        }
        proof {
            assert(items.take(items.len() as int) =~= items);
        }
    }

    fn encode(&self, state: &mut State) -> (r: EncodeResult) {
        let ghost items = self@;
        let ghost pre = enc_uint(N as int);
        let ghost whole = pre + enc_list(items);
        let count: usize = N;
        let r0 = count.encode(state);
        if let Err(e) = r0 {
            proof {
                if old(state).has_buffer() {
                    lemma_take_concat(pre, enc_list(items), state.start - old(state).start);
                }
            }
            return Err(e);
        }
        proof {
            assert(items.take(0) =~= Seq::<T>::empty());
            assert(pre.take(pre.len() as int) =~= pre);
            assert(pre + enc_list(items.take(0)) =~= pre);
        }
        let mut i: usize = 0;
        while i < N
            invariant
                i <= N,
                self@ == items,
                items.len() == N,
                pre == enc_uint(N as int),
                whole == pre + enc_list(items),
                state.wf(),
                old(state).wf(),
                state.end == old(state).end,
                state.has_buffer(),
                old(state).has_buffer(),
                old(state).start + pre.len() <= old(state).end,
                state.start == old(state).start + pre.len() + enc_list(items.take(i as int)).len(),
                state.bytes() == splice_bytes(
                    old(state).bytes(),
                    old(state).start as int,
                    pre + enc_list(items.take(i as int)),
                ),
            decreases N - i,
        {
            proof {
                lemma_enc_list_split(items, i as int);
                lemma_enc_list_take_step(items, i as int);
                lemma_enc_list_split(items, i as int + 1);
                assert(items.skip(i as int)[0] == items[i as int]);
                assert(items.skip(i as int).drop_first() =~= items.skip(i as int + 1));
            }
            let ghost before = *state;
            let r = self[i].encode(state);
            if let Err(e) = r {
                proof {
                    let done = pre + enc_list(items.take(i as int));
                    let written = state.start - before.start;
                    let m = state.start - old(state).start;
                    lemma_splice_adjacent(
                        old(state).bytes(),
                        old(state).start as int,
                        done,
                        items[i as int].enc().take(written),
                    );
                    assert(whole.take(m) =~= done + items[i as int].enc().take(written));
                }
                return Err(e);
            }
            proof {
                lemma_splice_adjacent(
                    old(state).bytes(),
                    old(state).start as int,
                    pre + enc_list(items.take(i as int)),
                    items[i as int].enc(),
                );
                assert((pre + enc_list(items.take(i as int))) + items[i as int].enc() =~= pre
                    + enc_list(items.take(i as int + 1)));
            }
            i = i + 1;
        }
        proof {
            assert(items.take(items.len() as int) =~= items);
            assert(whole.take(whole.len() as int) =~= whole);
        }
        Ok(())
    }
}

#[derive(Debug, PartialEq)]
pub enum U32Array<'a> {
    Vec(Vec<u32>),
    VecRef(&'a Vec<u32>),
    Slice(&'a [u32]),
}

impl<'a> View for U32Array<'a> {
    type V = Seq<u32>;

    open spec fn view(&self) -> Seq<u32> {
        match self {
            U32Array::Vec(vec) => vec@,
            U32Array::VecRef(vec) => vec@,
            U32Array::Slice(slice) => slice@,
        }
    }
}

impl<'a> DeepView for U32Array<'a> {
    type V = Seq<u32>;

    open spec fn deep_view(&self) -> Seq<u32> {
        self.view()
    }
}

/// compact encoding for U32Array: the word count in the unsigned layout,
/// then each word as four raw little-endian bytes
impl<'a> Encode for U32Array<'a> {
    open spec fn enc(&self) -> Seq<u8> {
        enc_uint(self@.len() as int) + le4_concat(self@)
    }

    open spec fn enc_first_len(&self) -> int {
        uint_first_len(self@.len() as int)
    }

    fn pre_encode(&self, state: &mut State) {
        let words: &[u32] = match self {
            U32Array::Vec(vec) => vec.as_slice(),
            U32Array::VecRef(vec) => vec.as_slice(),
            U32Array::Slice(slice) => slice,
        };
        words.len().pre_encode(state);
        proof {
            lemma_le4_concat_split(words@, words@.len() as int);
            assert(words@.take(words@.len() as int) =~= words@);
            assert(words@.skip(words@.len() as int) =~= Seq::<u32>::empty());
        }
        // each u32 word takes 4 bytes
        state.end = state.end + 4 * words.len();
    }

    fn encode(&self, state: &mut State) -> (r: EncodeResult) {
        let words: &[u32] = match self {
            U32Array::Vec(vec) => vec.as_slice(),
            U32Array::VecRef(vec) => vec.as_slice(),
            U32Array::Slice(slice) => slice,
        };
        let ghost vals = words@;
        let ghost pre = enc_uint(vals.len() as int);
        let ghost whole = pre + le4_concat(vals);
        let r0 = words.len().encode(state);
        if let Err(e) = r0 {
            proof {
                if old(state).has_buffer() {
                    lemma_take_concat(pre, le4_concat(vals), state.start - old(state).start);
                }
            }
            return Err(e);
        }
        proof {
            lemma_le4_concat_split(vals, vals.len() as int);
            assert(vals.take(vals.len() as int) =~= vals);
            assert(vals.take(0) =~= Seq::<u32>::empty());
            assert(pre.take(pre.len() as int) =~= pre);
            assert(pre + le4_concat(vals.take(0)) =~= pre);
        }
        let mut i: usize = 0;
        while i < words.len()
            invariant
                i <= vals.len(),
                words@ == vals,
                vals == self@,
                pre == enc_uint(vals.len() as int),
                whole == pre + le4_concat(vals),
                le4_concat(vals).len() == 4 * vals.len(),
                state.wf(),
                old(state).wf(),
                state.end == old(state).end,
                state.has_buffer(),
                old(state).has_buffer(),
                old(state).start + pre.len() <= old(state).end,
                state.start == old(state).start + pre.len() + le4_concat(vals.take(i as int)).len(),
                state.bytes() == splice_bytes(
                    old(state).bytes(),
                    old(state).start as int,
                    pre + le4_concat(vals.take(i as int)),
                ),
            decreases vals.len() - i,
        {
            proof {
                lemma_le4_concat_split(vals, i as int);
                lemma_le4_concat_take_step(vals, i as int);
                lemma_le4_concat_split(vals, i as int + 1);
            }
            let word_bytes = encode_u32(words[i]);
            let r = state.write(word_bytes.as_slice());
            if let Err(e) = r {
                proof {
                    let done = pre + le4_concat(vals.take(i as int));
                    assert(whole.take(done.len() as int) =~= done);
                    // the failed write lost no bytes: what stands is exactly
                    // the prefix written so far
                    assert(whole.len() == pre.len() + le4_concat(vals.take(i as int)).len() + 4
                        + le4_concat(vals.skip(i as int + 1)).len());
                }
                return Err(e);
            }
            proof {
                lemma_splice_adjacent(
                    old(state).bytes(),
                    old(state).start as int,
                    pre + le4_concat(vals.take(i as int)),
                    word_bytes@,
                );
                assert((pre + le4_concat(vals.take(i as int))) + le4_bytes(vals[i as int]) =~= pre
                    + le4_concat(vals.take(i as int + 1)));
            }
            i = i + 1;
        }
        proof {
            assert(vals.take(vals.len() as int) =~= vals);
            assert(whole.take(whole.len() as int) =~= whole);
        }
        Ok(())
    }
}

/// compact decoding for U32Array: returns the owning `U32Array::Vec`
/// variant
impl<'a> Decode for U32Array<'a> {
    open spec fn dec(w: Seq<u8>) -> DecSpec<Seq<u32>> {
        dec_u32array(w)
    }

    fn decode(state: &mut State) -> (r: DecodeResultT<Self>) {
        let ghost w = old(state).window();
        let buffer_size = match usize::decode(state) {
            Ok(size) => size,
            Err(e) => {
                return Err(e);
            },
        };
        let ghost n: int = state.start - old(state).start;
        if buffer_size == 0 {
            let empty: Vec<u32> = Vec::new();
            proof {
                assert(empty.deep_view() =~= Seq::<u32>::empty());
            }
            return Ok(U32Array::Vec(empty));
        }
        proof {
            assert(old(state).has_buffer());
        }
        let ghost w1 = w.skip(n);
        let ghost s1 = *state;
        let mut vec: Vec<u32> = Vec::with_capacity(buffer_size);
        let mut i: usize = 0;
        proof {
            assert(w1 =~= s1.window());
            assert(state.window() =~= w1.skip(0));
            assert(vec.deep_view() =~= Seq::<u32>::empty());
            if let Ok(p) = dec_words(w1, buffer_size as nat) {
                assert(Seq::<u32>::empty() + p.0 =~= p.0);
            }
        }
        // read all u32 values and decode them from little endian
        while i < buffer_size
            invariant
                i <= buffer_size,
                buffer_size > 0,
                state.wf(),
                old(state).wf(),
                state.end == old(state).end,
                state.has_buffer(),
                old(state).has_buffer(),
                state.bytes() == old(state).bytes(),
                w == old(state).window(),
                dec_uint(w) matches Ok(q) && q.0 == buffer_size && q.1 == n,
                w1 == w.skip(n),
                s1.end == state.end,
                s1.bytes() == state.bytes(),
                s1.has_buffer(),
                s1.wf(),
                s1.start <= state.start,
                s1.start == old(state).start + n,
                w1 == s1.window(),
                state.window() == w1.skip(state.start - s1.start),
                vec@.len() == i,
                old(state).start <= s1.start,
                match dec_words(state.window(), (buffer_size - i) as nat) {
                    Ok(p) => dec_words(w1, buffer_size as nat) matches Ok(q) && q.0
                        == vec.deep_view() + p.0 && q.1 == (state.start - s1.start) + p.1,
                    Err(e) => dec_words(w1, buffer_size as nat) matches Err(e2) && e2 == e,
                },
            decreases buffer_size - i,
        {
            let ghost window_before = state.window();
            let ghost acc = vec.deep_view();
            let word = match state.read_next(4) {
                Ok(b) => b,
                Err(e) => {
                    return Err(e);
                },
            };
            let value = match decode_u32(word.as_slice()) {
                Ok(v) => v,
                Err(e) => {
                    return Err(e);
                },
            };
            vec.push(value);
            i = i + 1;
            proof {
                assert(word@[0] == window_before[0] && word@[1] == window_before[1] && word@[2]
                    == window_before[2] && word@[3] == window_before[3]);
                assert(value == le4_value(window_before));
                assert(state.window() =~= window_before.skip(4));
                assert(vec.deep_view() =~= acc + seq![value]);
                if let Ok(p) = dec_words(state.window(), (buffer_size - i) as nat) {
                    assert((acc + seq![value]) + p.0 =~= acc + (seq![value] + p.0));
                }
            }
        }
        proof {
            assert(vec.deep_view() + Seq::<u32>::empty() =~= vec.deep_view());
            assert(vec.deep_view() =~= vec@);
        }
        Ok(U32Array::Vec(vec))
    }
}

} // verus!
