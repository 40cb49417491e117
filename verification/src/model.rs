//! The mathematical definition of the hash: little-endian words, the mixing
//! step, the tail, the final avalanche, and the state of a streaming digest.

use vstd::prelude::*;

verus! {

/// The fixed seed.
pub const SEED: u32 = 1;

/// The multiplier of every mixing step.
pub const M: u32 = 0x5bd1_e995;

/// The byte at `i`, or zero where the sequence has no such byte.
pub open spec fn byte_or_zero(bytes: Seq<u8>, i: int) -> nat {
    if 0 <= i < bytes.len() {
        bytes[i] as nat
    } else {
        0
    }
}

/// The little-endian value of the first four bytes of `bytes`: the byte at
/// index 0 is the least significant, and a missing byte counts as zero.
pub open spec fn le_u32(bytes: Seq<u8>) -> u32 {
    (byte_or_zero(bytes, 0) + 0x100 * byte_or_zero(bytes, 1) + 0x1_0000 * byte_or_zero(bytes, 2)
        + 0x100_0000 * byte_or_zero(bytes, 3)) as u32
}

/// The `i`-th aligned four-byte word of `bytes`, read little-endian.
pub open spec fn word_at(bytes: Seq<u8>, i: int) -> u32
    recommends
        0 <= i,
        4 * i + 4 <= bytes.len(),
{
    le_u32(bytes.subrange(4 * i, 4 * i + 4))
}

/// One mixing step: the hash `h` after the word `k` has been folded in.
pub open spec fn mix_word(h: u32, k: u32) -> u32 {
    let k1 = k.wrapping_mul(M);
    let k2 = k1 ^ (k1 >> 24);
    let k3 = k2.wrapping_mul(M);
    h.wrapping_mul(M) ^ k3
}

/// The hash `h` after the first `n` aligned words of `bytes` have been folded
/// in, in order.
pub open spec fn absorb(h: u32, bytes: Seq<u8>, n: nat) -> u32
    recommends
        4 * n <= bytes.len(),
    decreases n,
{
    if n == 0 {
        h
    } else {
        mix_word(absorb(h, bytes, (n - 1) as nat), word_at(bytes, n - 1))
    }
}

/// The hash `h` after the one to three bytes that follow the last whole word
/// have been folded in: they are xor-ed into `h` as one little-endian number,
/// and the hash is multiplied by `M`. With no such byte, `h` itself.
pub open spec fn mix_tail(h: u32, tail: Seq<u8>) -> u32
    recommends
        tail.len() < 4,
{
    if tail.len() == 0 {
        h
    } else {
        (h ^ le_u32(tail)).wrapping_mul(M)
    }
}

/// The last scrambling of the hash, after all bytes have been folded in.
pub open spec fn avalanche(h: u32) -> u32 {
    let h1 = h ^ (h >> 13);
    let h2 = h1.wrapping_mul(M);
    h2 ^ (h2 >> 15)
}

/// A length as the hash sees it: its low 32 bits.
pub open spec fn length_word(len: nat) -> u32 {
    (len % 0x1_0000_0000) as u32
}

/// The number of whole four-byte words in `bytes`.
pub open spec fn whole_words(bytes: Seq<u8>) -> nat {
    bytes.len() / 4
}

/// The zero to three bytes of `bytes` that follow its last whole word.
pub open spec fn tail_bytes(bytes: Seq<u8>) -> Seq<u8> {
    bytes.subrange(4 * whole_words(bytes) as int, bytes.len() as int)
}

/// MurmurHash2 of `bytes` with seed 1.
pub open spec fn murmur2(bytes: Seq<u8>) -> u32 {
    let h = absorb(SEED ^ length_word(bytes.len()), bytes, whole_words(bytes));
    avalanche(mix_tail(h, tail_bytes(bytes)))
}

/// What a streaming digest holds between two calls: the hash over the whole
/// words seen so far, and the bytes seen since the last whole word.
#[verifier::ext_equal]
pub struct DigestState {
    pub hash: u32,
    pub pending: Seq<u8>,
}

impl DigestState {
    /// Fewer than four bytes are pending: a whole word never waits.
    pub open spec fn valid(self) -> bool {
        self.pending.len() < 4
    }

    /// The state of a digest that was told to expect `total_length` bytes and
    /// has seen none.
    pub open spec fn start(total_length: u32) -> DigestState {
        DigestState { hash: SEED ^ total_length, pending: Seq::empty() }
    }

    /// The state after `chunk` has been fed: every whole word of the pending
    /// bytes followed by `chunk` is folded into the hash, and what is left of
    /// them is pending.
    pub open spec fn feed(self, chunk: Seq<u8>) -> DigestState {
        let bytes = self.pending + chunk;
        DigestState {
            hash: absorb(self.hash, bytes, whole_words(bytes)),
            pending: tail_bytes(bytes),
        }
    }

    /// The state after each of `chunks` has been fed, in order.
    pub open spec fn feed_all(self, chunks: Seq<Seq<u8>>) -> DigestState
        decreases chunks.len(),
    {
        if chunks.len() == 0 {
            self
        } else {
            self.feed(chunks.first()).feed_all(chunks.drop_first())
        }
    }

    /// The hash that the digest gives when it is closed in this state.
    pub open spec fn finish(self) -> u32 {
        avalanche(mix_tail(self.hash, self.pending))
    }
}

} // verus!
