//! Every step of the hash can be undone, so a change of one input byte
//! always reaches the result.

use crate::laws::{lemma_absorb_in_two_steps, lemma_absorb_reads_prefix};
use crate::model::{
    absorb, avalanche, le_u32, length_word, mix_tail, mix_word, murmur2, tail_bytes, whole_words,
    word_at, DigestState, M, SEED,
};
use vstd::prelude::*;

verus! {

/// The inverse of `M` modulo 2^32.
pub const M_INVERSE: u32 = 0xe59b_19bd;

/// Multiplying by `M` modulo 2^32 can be undone: `M` is odd, and multiplying
/// by its inverse gives the factor back.
pub proof fn lemma_times_m_undone(x: u32)
    ensures
        x.wrapping_mul(M).wrapping_mul(M_INVERSE) == x,
{
    assert(x.wrapping_mul(M).wrapping_mul(M_INVERSE) == x) by (bit_vector);
}

/// Multiplying by `M` modulo 2^32 loses nothing.
pub proof fn lemma_times_m_injective(x: u32, y: u32)
    requires
        x.wrapping_mul(M) == y.wrapping_mul(M),
    ensures
        x == y,
{
    lemma_times_m_undone(x);
    lemma_times_m_undone(y);
}

/// Xor with a fixed word loses nothing, on either side.
pub proof fn lemma_xor_injective(x: u32, y: u32, k: u32)
    ensures
        (x ^ k) == (y ^ k) ==> x == y,
        (k ^ x) == (k ^ y) ==> x == y,
{
    assert((x ^ k) == (y ^ k) ==> x == y) by (bit_vector);
    assert((k ^ x) == (k ^ y) ==> x == y) by (bit_vector);
}

/// Xor of a word with itself shifted right loses nothing, for each of the
/// three shifts that the hash uses.
pub proof fn lemma_shift_xor_injective(x: u32, y: u32)
    ensures
        (x ^ (x >> 13)) == (y ^ (y >> 13)) ==> x == y,
        (x ^ (x >> 15)) == (y ^ (y >> 15)) ==> x == y,
        (x ^ (x >> 24)) == (y ^ (y >> 24)) ==> x == y,
{
    assert((x ^ (x >> 13)) == (y ^ (y >> 13)) ==> x == y) by (bit_vector);
    assert((x ^ (x >> 15)) == (y ^ (y >> 15)) ==> x == y) by (bit_vector);
    assert((x ^ (x >> 24)) == (y ^ (y >> 24)) ==> x == y) by (bit_vector);
}

/// Two hashes that differ still differ after the same word is mixed into
/// each.
pub proof fn lemma_mix_word_keeps_hashes_apart(h: u32, g: u32, k: u32)
    requires
        h != g,
    ensures
        mix_word(h, k) != mix_word(g, k),
{
    let k1 = k.wrapping_mul(M);
    let k3 = (k1 ^ (k1 >> 24)).wrapping_mul(M);
    lemma_xor_injective(h.wrapping_mul(M), g.wrapping_mul(M), k3);
    if h.wrapping_mul(M) == g.wrapping_mul(M) {
        lemma_times_m_injective(h, g);
    }
}

/// Two words that differ give different hashes when mixed into the same
/// hash.
pub proof fn lemma_mix_word_keeps_words_apart(h: u32, k: u32, l: u32)
    requires
        k != l,
    ensures
        mix_word(h, k) != mix_word(h, l),
{
    let k1 = k.wrapping_mul(M);
    let l1 = l.wrapping_mul(M);
    if k1 == l1 {
        lemma_times_m_injective(k, l);
    }
    let k2 = k1 ^ (k1 >> 24);
    let l2 = l1 ^ (l1 >> 24);
    lemma_shift_xor_injective(k1, l1);
    let k3 = k2.wrapping_mul(M);
    let l3 = l2.wrapping_mul(M);
    if k3 == l3 {
        lemma_times_m_injective(k2, l2);
    }
    lemma_xor_injective(k3, l3, h.wrapping_mul(M));
}

/// Two hashes that differ still differ after the same words are folded into
/// each.
pub proof fn lemma_absorb_keeps_hashes_apart(h: u32, g: u32, bytes: Seq<u8>, n: nat)
    requires
        h != g,
    ensures
        absorb(h, bytes, n) != absorb(g, bytes, n),
    decreases n,
{
    if n > 0 {
        lemma_absorb_keeps_hashes_apart(h, g, bytes, (n - 1) as nat);
        lemma_mix_word_keeps_hashes_apart(
            absorb(h, bytes, (n - 1) as nat),
            absorb(g, bytes, (n - 1) as nat),
            word_at(bytes, n - 1),
        );
    }
}

/// Two hashes that differ still differ after the same tail is folded into
/// each.
pub proof fn lemma_mix_tail_keeps_hashes_apart(h: u32, g: u32, tail: Seq<u8>)
    requires
        h != g,
    ensures
        mix_tail(h, tail) != mix_tail(g, tail),
{
    if tail.len() > 0 {
        lemma_xor_injective(h, g, le_u32(tail));
        if (h ^ le_u32(tail)).wrapping_mul(M) == (g ^ le_u32(tail)).wrapping_mul(M) {
            lemma_times_m_injective(h ^ le_u32(tail), g ^ le_u32(tail));
        }
    }
}

/// Two hashes that differ still differ after the avalanche.
pub proof fn lemma_avalanche_injective(h: u32, g: u32)
    requires
        h != g,
    ensures
        avalanche(h) != avalanche(g),
{
    let h1 = h ^ (h >> 13);
    let g1 = g ^ (g >> 13);
    lemma_shift_xor_injective(h, g);
    let h2 = h1.wrapping_mul(M);
    let g2 = g1.wrapping_mul(M);
    if h2 == g2 {
        lemma_times_m_injective(h1, g1);
    }
    lemma_shift_xor_injective(h2, g2);
}

/// Two runs of at most four bytes, of one length, that differ in one byte
/// have different little-endian values.
pub proof fn lemma_le_u32_differs(s: Seq<u8>, t: Seq<u8>, i: int)
    requires
        s.len() == t.len() <= 4,
        0 <= i < s.len(),
        s[i] != t[i],
        forall|j: int| 0 <= j < s.len() && j != i ==> s[j] == t[j],
    ensures
        le_u32(s) != le_u32(t),
{
}

/// Sensitivity: two inputs of one length that differ in exactly one byte
/// never have the same hash.
pub proof fn lemma_one_byte_changes_hash(a: Seq<u8>, b: Seq<u8>, i: int)
    requires
        a.len() == b.len(),
        0 <= i < a.len(),
        a[i] != b[i],
        forall|j: int| 0 <= j < a.len() && j != i ==> a[j] == b[j],
    ensures
        murmur2(a) != murmur2(b),
{
    let n = whole_words(a);
    let h0 = SEED ^ length_word(a.len());
    let tail_a = tail_bytes(a);
    let tail_b = tail_bytes(b);
    if i < 4 * n {
        let w = i / 4;
        let done = (w + 1) as nat;
        let rest = (n - done) as nat;
        lemma_absorb_reads_prefix(h0, a, b, w as nat);
        lemma_le_u32_differs(a.subrange(4 * w, 4 * w + 4), b.subrange(4 * w, 4 * w + 4), i - 4 * w);
        lemma_mix_word_keeps_words_apart(absorb(h0, a, w as nat), word_at(a, w), word_at(b, w));
        let ha = absorb(h0, a, done);
        let hb = absorb(h0, b, done);
        lemma_absorb_in_two_steps(h0, a, done, rest);
        lemma_absorb_in_two_steps(h0, b, done, rest);
        let after_a = a.skip(4 * done as int);
        let after_b = b.skip(4 * done as int);
        lemma_absorb_reads_prefix(hb, after_a, after_b, rest);
        lemma_absorb_keeps_hashes_apart(ha, hb, after_a, rest);
        assert(tail_a =~= tail_b);
        lemma_mix_tail_keeps_hashes_apart(absorb(h0, a, n), absorb(h0, b, n), tail_a);
        lemma_avalanche_injective(
            mix_tail(absorb(h0, a, n), tail_a),
            mix_tail(absorb(h0, b, n), tail_b),
        );
    } else {
        lemma_absorb_reads_prefix(h0, a, b, n);
        let h = absorb(h0, a, n);
        lemma_le_u32_differs(tail_a, tail_b, i - 4 * n);
        lemma_xor_injective(le_u32(tail_a), le_u32(tail_b), h);
        if (h ^ le_u32(tail_a)).wrapping_mul(M) == (h ^ le_u32(tail_b)).wrapping_mul(M) {
            lemma_times_m_injective(h ^ le_u32(tail_a), h ^ le_u32(tail_b));
        }
        lemma_avalanche_injective(mix_tail(h, tail_a), mix_tail(h, tail_b));
    }
}

/// The declared length always reaches the result: fed the same bytes after
/// two different declared lengths, a digest gives two different hashes. So a
/// digest that was started with a wrong length never gives the hash of the
/// input by chance.
pub proof fn lemma_declared_length_changes_hash(first: u32, second: u32, bytes: Seq<u8>)
    requires
        first != second,
    ensures
        DigestState::start(first).feed(bytes).finish() != DigestState::start(second).feed(
            bytes,
        ).finish(),
{
    let all = Seq::<u8>::empty() + bytes;
    let n = whole_words(all);
    lemma_xor_injective(first, second, SEED);
    lemma_absorb_keeps_hashes_apart(SEED ^ first, SEED ^ second, all, n);
    lemma_mix_tail_keeps_hashes_apart(
        absorb(SEED ^ first, all, n),
        absorb(SEED ^ second, all, n),
        tail_bytes(all),
    );
    lemma_avalanche_injective(
        mix_tail(absorb(SEED ^ first, all, n), tail_bytes(all)),
        mix_tail(absorb(SEED ^ second, all, n), tail_bytes(all)),
    );
}

} // verus!
