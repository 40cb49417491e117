use murmurhash2::murmurhash2;
use murmurhash2::Murmur2Digest;

/// MurmurHash2 with seed 1 as its definition reads, with the length that
/// seeds the hash given apart from the bytes.
fn by_definition(data: &[u8], declared: u32) -> u32 {
    let m: u32 = 0x5bd1_e995;
    let mut h: u32 = 1 ^ declared;
    let mut words = data.chunks_exact(4);
    for word in &mut words {
        let mut k = u32::from_le_bytes([word[0], word[1], word[2], word[3]]);
        k = k.wrapping_mul(m);
        k ^= k >> 24;
        k = k.wrapping_mul(m);
        h = h.wrapping_mul(m);
        h ^= k;
    }
    let tail = words.remainder();
    if tail.len() == 3 {
        h ^= (tail[2] as u32) << 16;
    }
    if tail.len() >= 2 {
        h ^= (tail[1] as u32) << 8;
    }
    if tail.len() >= 1 {
        h ^= tail[0] as u32;
        h = h.wrapping_mul(m);
    }
    h ^= h >> 13;
    h = h.wrapping_mul(m);
    h ^ (h >> 15)
}

fn sample(len: usize) -> Vec<u8> {
    (0..len).map(|i| (i * 131 + 7) as u8).collect()
}

fn streamed(chunks: &[&[u8]]) -> u32 {
    let total: usize = chunks.iter().map(|c| c.len()).sum();
    let mut digest = Murmur2Digest::new(total as u32);
    for chunk in chunks {
        digest.update(chunk);
    }
    digest.finalize()
}

#[test]
fn no_update_at_all() {
    assert_eq!(Murmur2Digest::new(0).finalize(), 1_540_447_798);
    assert_eq!(Murmur2Digest::new(0).finalize(), murmurhash2(b""));
}

#[test]
fn one_update_is_the_one_shot_hash() {
    for len in 0..40usize {
        let data = sample(len);
        assert_eq!(streamed(&[&data]), murmurhash2(&data));
    }
}

#[test]
fn boundary_lengths_match_the_definition() {
    let lengths: [usize; 24] = [
        0, 1, 2, 3, 4, 5, 7, 8, 9, 11, 12, 13, 15, 16, 17, 31, 32, 33, 63, 64, 65, 255, 256, 257,
    ];
    for len in lengths {
        let data = sample(len);
        let want = by_definition(&data, len as u32);
        assert_eq!(murmurhash2(&data), want);
        assert_eq!(streamed(&[&data]), want);
    }
}

#[test]
fn streamed_values_of_the_formula() {
    assert_eq!(streamed(&[b"abc", b"de"]), 3_469_237_630);
    assert_eq!(streamed(&[b"a", b"b"]), 1_692_487_918);
    assert_eq!(streamed(&[b"a", b"", b"b", b"c"]), 1_621_425_345);
    assert_eq!(streamed(&[b"abcdefgh", b"ijklmnop"]), 3_781_892_439);
    assert_eq!(streamed(&[b"abcdefghi", b"jklmnop"]), 3_781_892_439);
    assert_eq!(streamed(&[b"ab", b"cdefghijklmno", b"p"]), 3_781_892_439);
}

#[test]
fn every_cut_in_two_matches_one_shot() {
    for len in 0..24usize {
        let data = sample(len);
        let want = murmurhash2(&data);
        for cut in 0..=len {
            assert_eq!(streamed(&[&data[..cut], &data[cut..]]), want);
        }
    }
}

#[test]
fn every_cut_in_three_matches_one_shot() {
    let data = sample(13);
    let want = murmurhash2(&data);
    for first in 0..=data.len() {
        for second in first..=data.len() {
            assert_eq!(
                streamed(&[&data[..first], &data[first..second], &data[second..]]),
                want
            );
        }
    }
}

#[test]
fn byte_by_byte_matches_one_shot() {
    for len in 0..40usize {
        let data = sample(len);
        let mut digest = Murmur2Digest::new(len as u32);
        for i in 0..len {
            digest.update(&data[i..i + 1]);
        }
        assert_eq!(digest.finalize(), murmurhash2(&data));
    }
}

#[test]
fn empty_chunks_between_bytes_change_nothing() {
    for len in 0..20usize {
        let data = sample(len);
        let mut digest = Murmur2Digest::new(len as u32);
        digest.update(&[]);
        for i in 0..len {
            digest.update(&data[i..i + 1]);
            digest.update(&[]);
            digest.update(&[]);
        }
        assert_eq!(digest.finalize(), murmurhash2(&data));
    }
}

#[test]
fn as_many_chunks_as_bytes_plus_one() {
    let data = b"abcde";
    let chunks: [&[u8]; 6] = [b"", b"a", b"bc", b"", b"d", b"e"];
    assert_eq!(streamed(&chunks), murmurhash2(data));
    assert_eq!(streamed(&chunks), 3_469_237_630);
}

#[test]
fn pending_bytes_pile_up_over_small_updates() {
    let mut digest = Murmur2Digest::new(3);
    digest.update(b"a");
    digest.update(b"b");
    digest.update(b"c");
    assert_eq!(digest.finalize(), 1_621_425_345);
}

#[test]
fn pending_bytes_complete_a_word_with_the_next_chunk() {
    let mut digest = Murmur2Digest::new(16);
    digest.update(b"abc");
    digest.update(b"defghijklmnop");
    assert_eq!(digest.finalize(), 3_781_892_439);
}

#[test]
fn uneven_chunks_of_a_long_input() {
    let data = sample(1000);
    let want = murmurhash2(&data);
    assert_eq!(want, by_definition(&data, 1000));
    let sizes: [usize; 7] = [1, 2, 3, 5, 7, 11, 64];
    for size in sizes {
        let mut digest = Murmur2Digest::new(1000);
        for chunk in data.chunks(size) {
            digest.update(chunk);
        }
        assert_eq!(digest.finalize(), want);
    }
}

#[test]
fn the_declared_length_seeds_the_hash() {
    let mut digest = Murmur2Digest::new(0);
    digest.update(b"a");
    let short = digest.finalize();
    assert_eq!(short, 2_456_313_694);
    assert_eq!(short, by_definition(b"a", 0));
    assert_ne!(short, murmurhash2(b"a"));

    let mut digest = Murmur2Digest::new(4);
    digest.update(b"abcde");
    assert_eq!(digest.finalize(), 1_594_468_574);
}

#[test]
fn a_wrong_declared_length_is_still_split_invariant() {
    let data = sample(11);
    let want = by_definition(&data, 99);
    for cut in 0..=data.len() {
        let mut digest = Murmur2Digest::new(99);
        digest.update(&data[..cut]);
        digest.update(&data[cut..]);
        assert_eq!(digest.finalize(), want);
    }
}
