use shake256::sponge::shake256_hash;
use shake256::sponge::Shake256;

use sha3::digest::ExtendableOutput;
use sha3::digest::Update;
use sha3::digest::XofReader;

/// Reference output computed by the `sha3` crate's SHAKE256.
fn oracle(input: &[u8], n: usize) -> Vec<u8> {
    let mut h = sha3::Shake256::default();
    h.update(input);
    let mut r = h.finalize_xof();
    let mut out = vec![0u8; n];
    r.read(&mut out);
    out
}

fn hash(input: &[u8], n: usize) -> Vec<u8> {
    shake256_hash(&input.to_vec(), n)
}

fn pattern(len: usize) -> Vec<u8> {
    (0..len).map(|i| (i % 251) as u8).collect()
}

#[test]
fn empty_input_known_answer() {
    let out = hash(b"", 64);
    assert_eq!(out.len(), 64);
    let hex = hex::encode(&out);
    assert_eq!(
        hex,
        "46b9dd2b0ba88d13233b3feb743eeb243fcd52ea62b81b82b50c27646ed5762f\
         d75dc4ddd8c0f200cb05019d67b592f6fc821c49479ab48640292eacb3b7c4be"
    );
    assert_eq!(out, oracle(b"", 64));
}

#[test]
fn known_answer_short_input() {
    let input = b"The quick brown fox jumps over the lazy dog";
    assert_eq!(hash(input, 64), oracle(input, 64));
}

#[test]
fn known_answer_multi_block_input() {
    let input = pattern(300);
    assert_eq!(hash(&input, 64), oracle(&input, 64));
}

#[test]
fn boundary_input_exactly_rate() {
    let input = pattern(136);
    assert_eq!(hash(&input, 64), oracle(&input, 64));
}

#[test]
fn boundary_input_rate_minus_one() {
    // 135 buffered bytes: the domain byte 0x1f and the final 0x80 bit share
    // the last byte of the padded block (0x9f).
    let input = pattern(135);
    assert_eq!(hash(&input, 64), oracle(&input, 64));
}

#[test]
fn boundary_input_rate_plus_one() {
    let input = pattern(137);
    assert_eq!(hash(&input, 64), oracle(&input, 64));
}

#[test]
fn chunking_invariance_byte_by_byte() {
    let input = pattern(300);
    let whole = hash(&input, 64);

    let mut e = Shake256::new();
    for b in input.iter() {
        e.update(&[*b]);
    }
    e.finalize_xof();
    let split = e.read(64);

    assert_eq!(split, whole);
}

#[test]
fn chunking_invariance_uneven_chunks() {
    let input = pattern(400);
    let whole = hash(&input, 64);

    let mut e = Shake256::new();
    e.update(&input[..1]);
    e.update(&input[1..136]);
    e.update(&input[136..136]);
    e.update(&input[136..271]);
    e.update(&input[271..]);
    e.finalize_xof();
    let split = e.read(64);

    assert_eq!(split, whole);
}

#[test]
fn extendability_shorter_is_prefix() {
    let input = pattern(50);
    let short = hash(&input, 32);
    let long = hash(&input, 200);
    assert_eq!(short.len(), 32);
    assert_eq!(long.len(), 200);
    assert_eq!(&long[..32], &short[..]);
}

#[test]
fn extendability_split_reads() {
    let input = pattern(50);
    let whole = hash(&input, 300);

    let mut e = Shake256::new();
    e.update(&input);
    e.finalize_xof();
    let mut parts = e.read(1);
    parts.extend_from_slice(&e.read(135));
    parts.extend_from_slice(&e.read(136));
    parts.extend_from_slice(&e.read(28));

    assert_eq!(parts, whole);
}

#[test]
fn determinism_same_input_same_output() {
    let input = pattern(77);
    assert_eq!(hash(&input, 96), hash(&input, 96));
}

#[test]
fn long_output_multiple_windows() {
    let input = pattern(20);
    assert_eq!(hash(&input, 500), oracle(&input, 500));
}

#[test]
fn avalanche_single_bit_flip() {
    let input = pattern(64);
    let mut flipped = input.clone();
    flipped[10] ^= 0x01;

    let a = hash(&input, 136);
    let b = hash(&flipped, 136);

    let mut differing_bits: u32 = 0;
    for i in 0..136 {
        differing_bits += (a[i] ^ b[i]).count_ones();
    }
    // 136 bytes = 1088 bits; a sound permutation flips about half of them.
    assert!(differing_bits > 326, "too few bits changed: {}", differing_bits);
    assert!(differing_bits < 762, "too many bits changed: {}", differing_bits);
}

#[test]
fn zero_length_output() {
    let input = pattern(10);
    let out = hash(&input, 0);
    assert!(out.is_empty());

    let mut e = Shake256::new();
    e.update(&input);
    e.finalize_xof();
    let empty = e.read(0);
    assert!(empty.is_empty());
    // A zero-length read consumes nothing from the stream.
    assert_eq!(e.read(32), oracle(&input, 32));
}

#[test]
fn update_with_empty_slice() {
    let mut e = Shake256::new();
    e.update(b"");
    e.update(b"abc");
    e.update(b"");
    e.finalize_xof();
    assert_eq!(e.read(64), oracle(b"abc", 64));
}

#[test]
fn engine_reports_phase() {
    let mut e = Shake256::new();
    assert!(e.is_absorbing());
    e.update(b"xyz");
    assert!(e.is_absorbing());
    e.finalize_xof();
    assert!(!e.is_absorbing());
}
