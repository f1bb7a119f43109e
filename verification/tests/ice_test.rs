//! The cipher's published test vectors, one level each, encrypt and
//! decrypt.
use icefast::cipher::Ice;

const KEY8: [u8; 8] = [0x51, 0xF3, 0x0F, 0x11, 0x04, 0x24, 0x6A, 0x00];

#[test]
fn encrypt_level0() {
    let ice = Ice::new(0, &KEY8).unwrap();
    let mut data = b"abcdefgh".to_vec();
    ice.encrypt(&mut data).unwrap();
    assert_eq!(data, vec![195, 233, 103, 103, 181, 234, 50, 163]);
}

#[test]
fn decrypt_level0() {
    let ice = Ice::new(0, &KEY8).unwrap();
    let mut data = vec![195, 233, 103, 103, 181, 234, 50, 163];
    ice.decrypt(&mut data).unwrap();
    assert_eq!(data, b"abcdefgh".to_vec());
}

#[test]
fn encrypt_level1() {
    let ice = Ice::new(1, &KEY8).unwrap();
    let mut data = b"abcdefgh".to_vec();
    ice.encrypt(&mut data).unwrap();
    assert_eq!(data, vec![49, 188, 85, 204, 107, 67, 206, 70]);
}

#[test]
fn decrypt_level1() {
    let ice = Ice::new(1, &KEY8).unwrap();
    let mut data = vec![49, 188, 85, 204, 107, 67, 206, 70];
    ice.decrypt(&mut data).unwrap();
    assert_eq!(data, b"abcdefgh".to_vec());
}

#[test]
fn encrypt_level2() {
    let mut key = KEY8.to_vec();
    key.extend_from_slice(&KEY8);
    let ice = Ice::new(2, &key).unwrap();
    let mut data = b"abcdefgh".to_vec();
    ice.encrypt(&mut data).unwrap();
    assert_eq!(data, vec![234, 6, 99, 4, 147, 138, 221, 23]);
}

#[test]
fn decrypt_level2() {
    let mut key = KEY8.to_vec();
    key.extend_from_slice(&KEY8);
    let ice = Ice::new(2, &key).unwrap();
    let mut data = vec![234, 6, 99, 4, 147, 138, 221, 23];
    ice.decrypt(&mut data).unwrap();
    assert_eq!(data, b"abcdefgh".to_vec());
}
