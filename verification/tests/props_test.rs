//! Behavioural checks beyond the published vectors: error policy,
//! determinism, dual-lane equivalence, the parallel path, avalanche, and
//! the small arithmetic building blocks.
use icefast::cipher::Ice;
use icefast::gf::gf_exp7;
use icefast::gf::gf_mult;
use icefast::pbox::ice_perm32;
use icefast::IceError;

const KEY8: [u8; 8] = [0x51, 0xF3, 0x0F, 0x11, 0x04, 0x24, 0x6A, 0x00];

fn sample(len: usize) -> Vec<u8> {
    let mut v = Vec::with_capacity(len);
    let mut x: u32 = 0x9E37_79B9;
    for _ in 0..len {
        x = x.wrapping_mul(1_664_525).wrapping_add(1_013_904_223);
        v.push((x >> 24) as u8);
    }
    v
}

#[test]
fn configuration_error_on_short_key() {
    let r = Ice::new(1, &[1, 2, 3, 4, 5, 6, 7]);
    assert!(matches!(r, Err(IceError::ConfigurationError)));
}

#[test]
fn configuration_error_on_wrong_thin_key() {
    let r = Ice::new(0, &[1, 2, 3, 4, 5, 6, 7, 8, 9]);
    assert!(matches!(r, Err(IceError::ConfigurationError)));
}

#[test]
fn alignment_error_on_short_buffer() {
    let ice = Ice::new(0, &KEY8).unwrap();
    let mut data = vec![1, 2, 3, 4, 5, 6, 7];
    let r = ice.encrypt(&mut data);
    assert!(matches!(r, Err(IceError::AlignmentError)));
    assert_eq!(data, vec![1, 2, 3, 4, 5, 6, 7]);
    let r2 = ice.decrypt(&mut data);
    assert!(matches!(r2, Err(IceError::AlignmentError)));
    let r3 = ice.encrypt_par(&mut data);
    assert!(matches!(r3, Err(IceError::AlignmentError)));
    let r4 = ice.decrypt_par(&mut data);
    assert!(matches!(r4, Err(IceError::AlignmentError)));
    assert_eq!(data, vec![1, 2, 3, 4, 5, 6, 7]);
}

#[test]
fn empty_buffer_is_a_valid_noop() {
    let ice = Ice::new(0, &KEY8).unwrap();
    let mut data: Vec<u8> = Vec::new();
    ice.encrypt(&mut data).unwrap();
    assert!(data.is_empty());
    ice.decrypt_par(&mut data).unwrap();
    assert!(data.is_empty());
}

#[test]
fn identical_context_gives_identical_ciphertext() {
    let ice1 = Ice::new(1, &KEY8).unwrap();
    let ice2 = Ice::new(1, &KEY8).unwrap();
    let plain = sample(64);
    let mut c1 = plain.clone();
    ice1.encrypt(&mut c1).unwrap();
    let mut c2 = plain.clone();
    ice2.encrypt(&mut c2).unwrap();
    let mut c3 = plain.clone();
    ice1.encrypt(&mut c3).unwrap();
    assert_eq!(c1, c2);
    assert_eq!(c1, c3);
}

#[test]
fn dual_lane_equals_single_blocks() {
    let ice = Ice::new(0, &KEY8).unwrap();
    let plain = sample(16);
    let mut whole = plain.clone();
    ice.encrypt(&mut whole).unwrap();

    let mut first = plain[0..8].to_vec();
    ice.encrypt(&mut first).unwrap();
    let mut second = plain[8..16].to_vec();
    ice.encrypt(&mut second).unwrap();

    let mut joined = first.clone();
    joined.extend_from_slice(&second);
    assert_eq!(whole, joined);
}

#[test]
fn parallel_equals_serial_and_transforms() {
    let mut key = KEY8.to_vec();
    key.extend_from_slice(&KEY8);
    let ice = Ice::new(2, &key).unwrap();
    let plain = sample(1000);
    let mut serial = plain.clone();
    ice.encrypt(&mut serial).unwrap();
    let mut parallel = plain.clone();
    ice.encrypt_par(&mut parallel).unwrap();
    assert_eq!(serial, parallel);
    assert_ne!(parallel, plain);

    let mut back = parallel.clone();
    ice.decrypt_par(&mut back).unwrap();
    assert_eq!(back, plain);
}

#[test]
fn key_set_rederives_the_schedule() {
    let other: [u8; 8] = [9, 8, 7, 6, 5, 4, 3, 2];
    let mut ice = Ice::new(0, &KEY8).unwrap();
    ice.key_set(&other);
    let fresh = Ice::new(0, &other).unwrap();

    let plain = sample(24);
    let mut a = plain.clone();
    ice.encrypt(&mut a).unwrap();
    let mut b = plain.clone();
    fresh.encrypt(&mut b).unwrap();
    assert_eq!(a, b);
}

#[test]
fn sizes() {
    let ice0 = Ice::new(0, &KEY8).unwrap();
    assert_eq!(ice0.key_size(), 8);
    assert_eq!(ice0.block_size(), 8);

    let mut key = KEY8.to_vec();
    key.extend_from_slice(&KEY8);
    let ice2 = Ice::new(2, &key).unwrap();
    assert_eq!(ice2.key_size(), 16);
    assert_eq!(ice2.block_size(), 8);
}

fn hamming(a: &[u8], b: &[u8]) -> u32 {
    a.iter().zip(b.iter()).map(|(x, y)| (x ^ y).count_ones()).sum()
}

#[test]
fn avalanche_on_plaintext_bits() {
    let ice = Ice::new(1, &KEY8).unwrap();
    let base = b"abcdefgh".to_vec();
    let mut base_ct = base.clone();
    ice.encrypt(&mut base_ct).unwrap();

    let mut total: u32 = 0;
    for bit in 0..64 {
        let mut flipped = base.clone();
        flipped[bit / 8] ^= 1u8 << (bit % 8);
        ice.encrypt(&mut flipped).unwrap();
        total += hamming(&base_ct, &flipped);
    }
    let average_times_64 = total;
    // Roughly half of the 64 ciphertext bits should change on average:
    // allow a generous band around 32 * 64.
    assert!(average_times_64 > 20 * 64 && average_times_64 < 44 * 64);
}

#[test]
fn avalanche_on_key_bits() {
    let base_ice = Ice::new(0, &KEY8).unwrap();
    let plain = b"abcdefgh".to_vec();
    let mut base_ct = plain.clone();
    base_ice.encrypt(&mut base_ct).unwrap();

    let mut total: u32 = 0;
    for bit in 0..64 {
        let mut key = KEY8.to_vec();
        key[bit / 8] ^= 1u8 << (bit % 8);
        let ice = Ice::new(0, &key).unwrap();
        let mut ct = plain.clone();
        ice.encrypt(&mut ct).unwrap();
        total += hamming(&base_ct, &ct);
    }
    assert!(total > 20 * 64 && total < 44 * 64);
}

#[test]
fn gf_building_blocks() {
    // Carry-less 2 * 3 has no reduction step: (x) * (x + 1) = x^2 + x.
    assert_eq!(gf_mult(2, 3, 333), 6);
    // Multiplying by zero, from either side.
    assert_eq!(gf_mult(0, 77, 333), 0);
    assert_eq!(gf_mult(77, 0, 333), 0);
    // Zero stays zero under the fixed seventh power.
    assert_eq!(gf_exp7(0, 333), 0);
    // b^7 for b = 2 under x^8 + x^6 + x^3 + x^2 + 1 (0x14d = 333):
    // 2^7 = 128 needs no reduction.
    assert_eq!(gf_exp7(2, 333), 128);
}

#[test]
fn perm32_moves_single_bits() {
    // Bit 0 keeps its place, bit 31 keeps its place, bit 1 moves to bit 7.
    assert_eq!(ice_perm32(0), 0);
    assert_eq!(ice_perm32(1), 1);
    assert_eq!(ice_perm32(0x8000_0000), 0x8000_0000);
    assert_eq!(ice_perm32(2), 0x80);
    // The permutation is a bijection on bits: a full word stays full.
    assert_eq!(ice_perm32(0xFFFF_FFFF), 0xFFFF_FFFF);
}
