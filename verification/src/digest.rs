//! The executable hash: a digest that takes its input in pieces, and the
//! one-shot function built on it.

use crate::laws::{lemma_le_u32_by_shifts, lemma_mix_tail_by_bytes, lemma_one_piece};
use crate::model::{
    absorb, le_u32, mix_word, murmur2, tail_bytes, whole_words, DigestState, M, SEED,
};
use vstd::prelude::*;

verus! {

/// Reads four bytes as a little-endian word.
fn word_from_le(chunk: [u8; 4]) -> (word: u32)
    ensures
        word == le_u32(chunk@),
{
    proof {
        lemma_le_u32_by_shifts(chunk@);
    }
    (chunk[0] as u32) | ((chunk[1] as u32) << 8) | ((chunk[2] as u32) << 16) | ((chunk[3] as u32)
        << 24)
}

/// A MurmurHash2 computation that takes its input in pieces.
///
/// It is started with the length of the whole input, fed the input in order
/// in as many pieces as the caller likes, and closed once. Its view is the
/// hash over the whole words fed so far and the bytes that wait for the rest
/// of their word.
pub struct Murmur2Digest {
    hash: u32,
    remainder: [u8; 3],
    remainder_length: usize,
}

impl View for Murmur2Digest {
    type V = DigestState;

    closed spec fn view(&self) -> DigestState {
        DigestState {
            hash: self.hash,
            pending: self.remainder@.subrange(0, self.remainder_length as int),
        }
    }
}

impl Murmur2Digest {
    /// At most three bytes wait: a fourth completes a word, which is folded
    /// into the hash at once.
    #[verifier::type_invariant]
    spec fn well_formed(&self) -> bool {
        self.remainder_length <= 3
    }

    /// Starts a digest of an input of `length` bytes in all.
    ///
    /// `length` goes into the hash here and is never held against the bytes
    /// that are fed later: the result is the hash of the input only if
    /// exactly `length` bytes are fed before the digest is closed.
    pub fn new(length: u32) -> (digest: Self)
        ensures
            digest@ == DigestState::start(length),
            digest@.valid(),
    {
        Self { hash: SEED ^ length, remainder: [0;3], remainder_length: 0 }
    }

    /// Feeds `data`, the bytes that follow those fed so far. Any length
    /// will do, none included: every whole word that the waiting bytes and
    /// `data` make up is folded into the hash, and the bytes after the last
    /// whole word wait for the next call.
    pub fn update(&mut self, data: &[u8])
        ensures
            final(self)@ == old(self)@.feed(data@),
            final(self)@.valid(),
    {
        proof {
            use_type_invariant(&*self);
        }
        let rl: usize = self.remainder_length;
        let n: usize = data.len();
        let ghost h0 = self.hash;
        let ghost bytes = self@.pending + data@;
        if n >= 4 - rl {
            let mut chunk: [u8; 4] = [0;4];
            let mut i: usize = 0;
            while i < 4
                invariant
                    i <= 4,
                    rl <= 3,
                    rl == self.remainder_length,
                    4 - rl <= n == data@.len(),
                    bytes == self@.pending + data@,
                    forall|j: int| 0 <= j < i ==> chunk@[j] == bytes[j],
                decreases 4 - i,
            {
                chunk[i] = if i < rl {
                    self.remainder[i]
                } else {
                    data[i - rl]
                };
                i += 1;
            }
            assert(chunk@ =~= bytes.subrange(0, 4));
            self.update_chunk(chunk);
            assert(self.hash == absorb(h0, bytes, 1)) by {
                assert(absorb(h0, bytes, 0) == h0);
            }
            let mut pos: usize = 4 - rl;
            let ghost mut words: nat = 1;
            while n - pos >= 4
                invariant
                    rl <= 3,
                    self.remainder_length <= 3,
                    pos <= n == data@.len(),
                    bytes.len() == rl + n,
                    forall|j: int| 0 <= j < n ==> bytes[rl + j] == data@[j],
                    rl + pos == 4 * words,
                    self.hash == absorb(h0, bytes, words),
                decreases n - pos,
            {
                let chunk: [u8; 4] = [data[pos], data[pos + 1], data[pos + 2], data[pos + 3]];
                assert(chunk@ =~= bytes.subrange(4 * words as int, 4 * words as int + 4));
                self.update_chunk(chunk);
                pos += 4;
                proof {
                    words = words + 1;
                }
            }
            assert(words == whole_words(bytes));
            let left: usize = n - pos;
            let mut i: usize = 0;
            while i < left
                invariant
                    i <= left <= 3,
                    left == n - pos,
                    pos <= n == data@.len(),
                    self.remainder_length <= 3,
                    self.hash == absorb(h0, bytes, whole_words(bytes)),
                    forall|j: int| 0 <= j < i ==> self.remainder@[j] == data@[pos + j],
                decreases left - i,
            {
                self.remainder[i] = data[pos + i];
                i += 1;
            }
            self.remainder_length = left;
            assert(self@.pending =~= tail_bytes(bytes));
        } else {
            let mut i: usize = 0;
            while i < n
                invariant
                    i <= n == data@.len(),
                    rl + n <= 3,
                    bytes.len() == rl + n,
                    self.remainder_length == rl,
                    self.hash == h0,
                    forall|j: int| 0 <= j < rl ==> self.remainder@[j] == bytes[j],
                    forall|j: int| 0 <= j < i ==> self.remainder@[rl + j] == data@[j],
                decreases n - i,
            {
                self.remainder[rl + i] = data[i];
                i += 1;
            }
            self.remainder_length = rl + n;
            assert(self@.pending =~= tail_bytes(bytes));
        }
    }

    /// Folds one whole word into the hash.
    fn update_chunk(&mut self, chunk: [u8; 4])
        ensures
            final(self).hash == mix_word(old(self).hash, le_u32(chunk@)),
            final(self).remainder == old(self).remainder,
            final(self).remainder_length == old(self).remainder_length,
    {
        proof {
            use_type_invariant(&*self);
        }
        let mut k: u32 = word_from_le(chunk);
        k = k.wrapping_mul(M);
        k ^= k >> 24;
        k = k.wrapping_mul(M);
        self.hash = self.hash.wrapping_mul(M);
        self.hash ^= k;
    }

    /// Closes the digest: folds in the bytes that still wait, scrambles the
    /// hash a last time and gives it.
    pub fn finalize(self) -> (hash: u32)
        ensures
            hash == self@.finish(),
    {
        proof {
            use_type_invariant(&self);
            if self.remainder_length > 0 {
                lemma_mix_tail_by_bytes(self.hash, self@.pending);
            }
        }
        let mut hash: u32 = self.hash;
        match self.remainder_length {
            3 => {
                hash ^= (self.remainder[2] as u32) << 16;
                hash ^= (self.remainder[1] as u32) << 8;
                hash ^= self.remainder[0] as u32;
                hash = hash.wrapping_mul(M);
            },
            2 => {
                hash ^= (self.remainder[1] as u32) << 8;
                hash ^= self.remainder[0] as u32;
                hash = hash.wrapping_mul(M);
            },
            1 => {
                hash ^= self.remainder[0] as u32;
                hash = hash.wrapping_mul(M);
            },
            _ => {},
        }
        hash ^= hash >> 13;
        hash = hash.wrapping_mul(M);
        hash ^ (hash >> 15)
    }

    /// The hash of `data`, taken in one piece. A length beyond 32 bits enters
    /// the hash by its low 32 bits.
    pub fn digest(data: &[u8]) -> (hash: u32)
        ensures
            hash == murmur2(data@),
    {
        let n: usize = data.len();
        let length: u32 = #[verifier::truncate] (n as u32);
        let ghost wide = n as u64;
        assert(wide as u32 == (wide % 0x1_0000_0000) as u32) by (bit_vector);
        let mut digest = Self::new(length);
        digest.update(data);
        proof {
            lemma_one_piece(data@);
        }
        digest.finalize()
    }
}

/// MurmurHash2 of `key` with seed 1.
pub fn murmurhash2(key: &[u8]) -> (hash: u32)
    ensures
        hash == murmur2(key@),
{
    Murmur2Digest::digest(key)
}

} // verus!
