use newcamd_lib::key::{adjust_odd_parity, derive_login_key, key_spread};
use newcamd_lib::NewcamdError;

const KEY: [u8; 14] = [
    0x01, 0x02, 0x03, 0x04, 0x05, 0x06, 0x07, 0x08, 0x09, 0x10, 0x11, 0x12, 0x13, 0x14,
];

#[test]
fn key_spread_known_vectors() {
    assert_eq!(
        key_spread(&KEY),
        [
            0x01, 0x80, 0x80, 0x61, 0x40, 0x29, 0x19, 0x0E, 0x08, 0x04, 0x45, 0x02, 0x10, 0x91,
            0x4C, 0x29
        ]
    );
    assert_eq!(key_spread(&[0xFF; 14]), [0xFE; 16]);
    assert_eq!(key_spread(&[0; 14]), [0x01; 16]);
}

#[test]
fn derive_login_key_known_vector() {
    let keymod: Vec<u8> = (0xA0..0xAE).collect();
    assert_eq!(
        derive_login_key(&KEY, &keymod).unwrap(),
        [
            0xA1, 0xD0, 0xE9, 0x34, 0x7A, 0x0D, 0x8F, 0x43, 0xAE, 0xD0, 0x6E, 0x37, 0xBA, 0xCD,
            0xFE, 0x73
        ]
    );
}

#[test]
fn a_salt_longer_than_the_key_starts_over() {
    assert_eq!(
        derive_login_key(&KEY, b"$1$abcdefgh$FuRpVTqE/Onxax.jDI2aR/").unwrap(),
        [
            0x32, 0x85, 0x91, 0x6B, 0x04, 0x20, 0x3D, 0x98, 0x23, 0x01, 0x43, 0xE3, 0x85, 0x73,
            0xEC, 0x16
        ]
    );
}

#[test]
fn a_key_of_another_length_is_refused() {
    for len in [0usize, 13, 15] {
        match derive_login_key(&vec![0; len], &[]) {
            Err(NewcamdError::InvalidData(text)) => {
                assert_eq!(text, "newcamd key must be exactly 14 bytes")
            }
            _ => panic!("accepted"),
        }
    }
}

#[test]
fn every_byte_of_a_key_has_odd_parity() {
    let mut bytes: Vec<u8> = (0..=255).collect();
    adjust_odd_parity(&mut bytes);
    for (before, after) in (0..=255u8).zip(bytes.iter()) {
        assert_eq!(after.count_ones() % 2, 1);
        assert_eq!(after / 2, before / 2);
    }
    let once = bytes.clone();
    adjust_odd_parity(&mut bytes);
    assert_eq!(once, bytes);
    for byte in derive_login_key(&KEY, b"salt").unwrap() {
        assert_eq!(byte.count_ones() % 2, 1);
    }
}

#[test]
fn a_salt_folded_in_twice_is_gone() {
    let salt = *b"fourteen bytes";
    let mut twice = salt.to_vec();
    twice.extend_from_slice(&salt);
    assert_eq!(derive_login_key(&KEY, &twice).unwrap(), key_spread(&KEY));
}

#[test]
fn every_bit_of_a_key_counts() {
    let salt = b"salt";
    let key = derive_login_key(&KEY, salt).unwrap();
    for byte in 0..14 {
        for bit in 0..8 {
            let mut other = KEY;
            other[byte] ^= 1 << bit;
            assert_ne!(derive_login_key(&other, salt).unwrap(), key);
        }
    }
}
