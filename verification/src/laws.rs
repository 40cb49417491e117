//! What holds of the hash and of the streaming digest, whatever the input.

use crate::model::{
    absorb, le_u32, length_word, mix_tail, murmur2, tail_bytes, whole_words, word_at, DigestState,
    M,
};
use vstd::prelude::*;

verus! {

/// The little-endian value of four bytes, written with shifts: the byte at
/// index 0 stays in the low eight bits, the byte at index 3 moves to the top.
pub proof fn lemma_le_u32_by_shifts(bytes: Seq<u8>)
    requires
        bytes.len() == 4,
    ensures
        le_u32(bytes) == (bytes[0] as u32) | ((bytes[1] as u32) << 8) | ((bytes[2] as u32) << 16)
            | ((bytes[3] as u32) << 24),
{
    let b0 = bytes[0] as u32;
    let b1 = bytes[1] as u32;
    let b2 = bytes[2] as u32;
    let b3 = bytes[3] as u32;
    assert(b0 | (b1 << 8) | (b2 << 16) | (b3 << 24) == b0 + 0x100 * b1 + 0x1_0000 * b2 + 0x100_0000
        * b3) by (bit_vector)
        requires
            b0 < 0x100,
            b1 < 0x100,
            b2 < 0x100,
            b3 < 0x100,
    ;
}

/// Folding in a tail, written byte by byte: the last byte of a tail of three
/// is xor-ed in at bit 16, the middle byte at bit 8, the first at bit 0, and
/// the hash is then multiplied by `M`.
pub proof fn lemma_mix_tail_by_bytes(h: u32, tail: Seq<u8>)
    requires
        1 <= tail.len() <= 3,
    ensures
        tail.len() == 1 ==> mix_tail(h, tail) == (h ^ (tail[0] as u32)).wrapping_mul(M),
        tail.len() == 2 ==> mix_tail(h, tail) == (h ^ ((tail[1] as u32) << 8)
            ^ (tail[0] as u32)).wrapping_mul(M),
        tail.len() == 3 ==> mix_tail(h, tail) == (h ^ ((tail[2] as u32) << 16)
            ^ ((tail[1] as u32) << 8) ^ (tail[0] as u32)).wrapping_mul(M),
{
    let b0 = tail[0] as u32;
    if tail.len() == 2 {
        let b1 = tail[1] as u32;
        assert(h ^ (b1 << 8) ^ b0 == h ^ ((b0 + 0x100 * b1) as u32)) by (bit_vector)
            requires
                b0 < 0x100,
                b1 < 0x100,
        ;
    } else if tail.len() == 3 {
        let b1 = tail[1] as u32;
        let b2 = tail[2] as u32;
        assert(h ^ (b2 << 16) ^ (b1 << 8) ^ b0 == h ^ ((b0 + 0x100 * b1 + 0x1_0000 * b2) as u32))
            by (bit_vector)
            requires
                b0 < 0x100,
                b1 < 0x100,
                b2 < 0x100,
        ;
    }
}

/// Folding in the first `n` words of a sequence reads its first `4 * n` bytes
/// and no others.
pub proof fn lemma_absorb_reads_prefix(h: u32, a: Seq<u8>, b: Seq<u8>, n: nat)
    requires
        4 * n <= a.len(),
        4 * n <= b.len(),
        forall|j: int| 0 <= j < 4 * n ==> a[j] == b[j],
    ensures
        absorb(h, a, n) == absorb(h, b, n),
    decreases n,
{
    if n > 0 {
        lemma_absorb_reads_prefix(h, a, b, (n - 1) as nat);
        assert(a.subrange(4 * (n - 1), 4 * (n - 1) + 4) =~= b.subrange(
            4 * (n - 1),
            4 * (n - 1) + 4,
        ));
    }
}

/// Folding in `m + k` words is folding in the first `m`, then the `k` that
/// follow them.
pub proof fn lemma_absorb_in_two_steps(h: u32, bytes: Seq<u8>, m: nat, k: nat)
    requires
        4 * (m + k) <= bytes.len(),
    ensures
        absorb(h, bytes, m + k) == absorb(absorb(h, bytes, m), bytes.skip(4 * m as int), k),
    decreases k,
{
    if k > 0 {
        lemma_absorb_in_two_steps(h, bytes, m, (k - 1) as nat);
        assert(bytes.subrange(4 * (m + k - 1), 4 * (m + k - 1) + 4) =~= bytes.skip(
            4 * m as int,
        ).subrange(4 * (k - 1), 4 * (k - 1) + 4));
        assert(word_at(bytes, m + k - 1) == word_at(bytes.skip(4 * m as int), k - 1));
    }
}

/// After any chunk, fewer than four bytes are pending.
pub proof fn lemma_feed_valid(state: DigestState, chunk: Seq<u8>)
    ensures
        state.feed(chunk).valid(),
{
}

/// Feeding no bytes changes nothing.
pub proof fn lemma_feed_nothing(state: DigestState)
    requires
        state.valid(),
    ensures
        state.feed(Seq::empty()) == state,
{
    let bytes = state.pending + Seq::<u8>::empty();
    assert(bytes =~= state.pending);
    assert(tail_bytes(bytes) =~= state.pending);
    assert(state.feed(Seq::empty()) =~= state);
}

/// Feeding two chunks one after the other is feeding them joined.
pub proof fn lemma_feed_joined(state: DigestState, first: Seq<u8>, second: Seq<u8>)
    ensures
        state.feed(first).feed(second) == state.feed(first + second),
{
    let step = state.pending + first;
    let m = whole_words(step);
    let after = state.feed(first);
    let rest = after.pending + second;
    let k = whole_words(rest);
    let whole = state.pending + (first + second);
    assert(whole =~= step + second);
    assert(rest =~= whole.skip(4 * m as int));
    assert(whole_words(whole) == m + k);
    lemma_absorb_reads_prefix(state.hash, step, whole, m);
    lemma_absorb_in_two_steps(state.hash, whole, m, k);
    assert(tail_bytes(rest) =~= tail_bytes(whole));
    assert(state.feed(first).feed(second) =~= state.feed(first + second));
}

/// Feeding chunks one by one is feeding all their bytes at once.
pub proof fn lemma_feed_all_is_feed(state: DigestState, chunks: Seq<Seq<u8>>)
    requires
        state.valid(),
    ensures
        state.feed_all(chunks) == state.feed(chunks.flatten()),
    decreases chunks.len(),
{
    if chunks.len() == 0 {
        lemma_feed_nothing(state);
        assert(chunks.flatten() =~= Seq::<u8>::empty());
    } else {
        let next = state.feed(chunks.first());
        lemma_feed_valid(state, chunks.first());
        lemma_feed_all_is_feed(next, chunks.drop_first());
        lemma_feed_joined(state, chunks.first(), chunks.drop_first().flatten());
    }
}

/// A digest that is started, fed `bytes` in one piece and closed gives the
/// hash of `bytes`.
pub proof fn lemma_one_piece(bytes: Seq<u8>)
    ensures
        DigestState::start(length_word(bytes.len())).feed(bytes).finish() == murmur2(bytes),
{
    assert(Seq::<u8>::empty() + bytes =~= bytes);
}

/// Split invariance: however `bytes` is cut into chunks, empty ones included,
/// a digest that is started with the length of `bytes`, fed the chunks in
/// order and closed gives the hash of `bytes`.
pub proof fn lemma_split_invariance(bytes: Seq<u8>, chunks: Seq<Seq<u8>>)
    requires
        chunks.flatten() == bytes,
    ensures
        DigestState::start(length_word(bytes.len())).feed_all(chunks).finish() == murmur2(bytes),
{
    let state = DigestState::start(length_word(bytes.len()));
    lemma_feed_all_is_feed(state, chunks);
    lemma_one_piece(bytes);
}

/// The hash is a function of the bytes alone: two inputs of one length that
/// hold the same byte at every index have the same hash.
pub proof fn lemma_same_bytes_same_hash(a: Seq<u8>, b: Seq<u8>)
    requires
        a.len() == b.len(),
        forall|i: int| 0 <= i < a.len() ==> a[i] == b[i],
    ensures
        murmur2(a) == murmur2(b),
{
    assert(a =~= b);
}

} // verus!
