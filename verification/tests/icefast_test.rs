//! The fast paths: the dual-lane buffer driver against blockwise
//! encryption, the parallel driver against the serial one, and round
//! trips, at every level.
use icefast::cipher::Ice;

const KEY8: [u8; 8] = [0x51, 0xF3, 0x0F, 0x11, 0x04, 0x24, 0x6A, 0x00];

fn sample(len: usize) -> Vec<u8> {
    let mut v = Vec::with_capacity(len);
    let mut x: u32 = 0x1234_5678;
    for _ in 0..len {
        x = x.wrapping_mul(1_664_525).wrapping_add(1_013_904_223);
        v.push((x >> 24) as u8);
    }
    v
}

fn blockwise_encrypt(ice: &Ice, data: &[u8]) -> Vec<u8> {
    let mut out = Vec::new();
    for chunk in data.chunks(8) {
        let mut block = chunk.to_vec();
        ice.encrypt(&mut block).unwrap();
        out.extend_from_slice(&block);
    }
    out
}

#[test]
fn encrypt_fast_level0() {
    let ice = Ice::new(0, &KEY8).unwrap();
    let plain = sample(40);
    let mut whole = plain.clone();
    ice.encrypt(&mut whole).unwrap();
    assert_eq!(whole, blockwise_encrypt(&ice, &plain));
}

#[test]
fn decrypt_fast_level0() {
    let ice = Ice::new(0, &KEY8).unwrap();
    let plain = sample(40);
    let mut data = plain.clone();
    ice.encrypt(&mut data).unwrap();
    ice.decrypt(&mut data).unwrap();
    assert_eq!(data, plain);
}

#[test]
fn encrypt_fast_level1() {
    let ice = Ice::new(1, &KEY8).unwrap();
    let plain = sample(72);
    let mut serial = plain.clone();
    ice.encrypt(&mut serial).unwrap();
    let mut parallel = plain.clone();
    ice.encrypt_par(&mut parallel).unwrap();
    assert_eq!(serial, parallel);
}

#[test]
fn decrypt_fast_level1() {
    let ice = Ice::new(1, &KEY8).unwrap();
    let plain = sample(72);
    let mut serial = plain.clone();
    ice.encrypt(&mut serial).unwrap();
    let mut parallel = serial.clone();
    ice.decrypt_par(&mut parallel).unwrap();
    assert_eq!(parallel, plain);
    ice.decrypt(&mut serial).unwrap();
    assert_eq!(serial, plain);
}

#[test]
fn encrypt_fast_level2() {
    let mut key = KEY8.to_vec();
    key.extend_from_slice(&KEY8);
    let ice = Ice::new(2, &key).unwrap();
    let plain = sample(160);
    let mut serial = plain.clone();
    ice.encrypt(&mut serial).unwrap();
    let mut parallel = plain.clone();
    ice.encrypt_par(&mut parallel).unwrap();
    assert_eq!(serial, parallel);
}

#[test]
fn decrypt_fast_level2() {
    let mut key = KEY8.to_vec();
    key.extend_from_slice(&KEY8);
    let ice = Ice::new(2, &key).unwrap();
    let plain = sample(160);
    let mut data = plain.clone();
    ice.encrypt_par(&mut data).unwrap();
    ice.decrypt_par(&mut data).unwrap();
    assert_eq!(data, plain);
}
