use newcamd_lib::cipher::{
    cbc_decrypt, cbc_encrypt, triple_des_crypt_decrypt_block, triple_des_hash_encrypt_block,
    xor_block,
};
use newcamd_lib::crypto::{
    check_body, decrypt_message, encrypt_message, encrypt_message_with, padding_for, xor_bytes,
};
use newcamd_lib::NewcamdError;

const KEY: [u8; 16] = [
    0x01, 0x23, 0x45, 0x67, 0x89, 0xAB, 0xCD, 0xEF, 0xFE, 0xDC, 0xBA, 0x98, 0x76, 0x54, 0x32, 0x10,
];

const MESSAGE: [u8; 15] = [
    0x00, 0x0D, 0x00, 0x01, 0x00, 0x02, 0x09, 0xBD, 0x00, 0x00, 0x07, 0x00, 0x80, 0x30, 0x00,
];

const SEALED: [u8; 26] = [
    0x00, 0x0D, 0xC4, 0x2C, 0x92, 0x8B, 0xC4, 0x69, 0xCB, 0x11, 0x5A, 0xBD, 0x64, 0xE1, 0x68, 0xCD,
    0xC5, 0x26, 0x10, 0x11, 0x12, 0x13, 0x14, 0x15, 0x16, 0x17,
];

#[test]
fn triple_des_with_equal_halves_is_des() {
    let key = [
        0x13, 0x34, 0x57, 0x79, 0x9B, 0xBC, 0xDF, 0xF1, 0x13, 0x34, 0x57, 0x79, 0x9B, 0xBC, 0xDF,
        0xF1,
    ];
    let plain = [0x01, 0x23, 0x45, 0x67, 0x89, 0xAB, 0xCD, 0xEF];
    let cipher = [0x85, 0xE8, 0x13, 0x54, 0x0F, 0x0A, 0xB4, 0x05];
    assert_eq!(triple_des_hash_encrypt_block(&plain, &key), cipher);
    assert_eq!(triple_des_crypt_decrypt_block(&cipher, &key), plain);
}

#[test]
fn triple_des_known_vectors() {
    let block = [0x00, 0x11, 0x22, 0x33, 0x44, 0x55, 0x66, 0x77];
    assert_eq!(
        triple_des_hash_encrypt_block(&block, &KEY),
        [0x31, 0xA7, 0x36, 0x4C, 0xAC, 0x91, 0xCA, 0x39]
    );
    assert_eq!(
        triple_des_crypt_decrypt_block(&block, &KEY),
        [0x0A, 0x73, 0x6A, 0xD4, 0xFA, 0x5E, 0x2F, 0x87]
    );
}

#[test]
fn chained_blocks_are_decrypted() {
    let plain: Vec<u8> = (0..64).collect();
    let ivec = [9; 8];
    let cipher = cbc_encrypt(&plain, &KEY, &ivec);
    assert_ne!(cipher, plain);
    assert_eq!(cbc_decrypt(&cipher, &KEY, &ivec), plain);
    assert!(cbc_encrypt(&[], &KEY, &ivec).is_empty());
}

#[test]
fn encrypt_message_known_vector() {
    let mut buffer = MESSAGE.to_vec();
    let ivec = [0x10, 0x11, 0x12, 0x13, 0x14, 0x15, 0x16, 0x17];
    encrypt_message_with(&mut buffer, &KEY, &[0xAA, 0xAA], &ivec).unwrap();
    assert_eq!(buffer, SEALED);
}

#[test]
fn decrypt_message_known_vector() {
    let mut buffer = SEALED;
    assert_eq!(decrypt_message(&mut buffer, &KEY).unwrap(), 18);
    assert_eq!(buffer[..15], MESSAGE);
    assert_eq!(buffer[15..17], [0xAA, 0xAA]);
    assert_eq!(buffer[18..], SEALED[18..]);
}

#[test]
fn messages_of_every_length_come_back() {
    for len in 2..=489usize {
        let message: Vec<u8> = (0..len).map(|i| (i * 7) as u8).collect();
        let mut buffer = message.clone();
        encrypt_message(&mut buffer, &KEY).unwrap();
        assert_eq!(buffer.len() % 8, 2);
        assert_eq!(buffer.len(), len + padding_for(len) + 9);
        if buffer.len() < 18 {
            continue;
        }
        assert_eq!(decrypt_message(&mut buffer, &KEY).unwrap(), buffer.len() - 8);
        assert_eq!(buffer[..len], message[..]);
    }
}

#[test]
fn initial_vectors_and_padding_are_random() {
    let mut first = MESSAGE.to_vec();
    let mut second = MESSAGE.to_vec();
    encrypt_message(&mut first, &KEY).unwrap();
    encrypt_message(&mut second, &KEY).unwrap();
    assert_ne!(first[18..], second[18..]);
    assert_ne!(first[2..18], second[2..18]);
}

#[test]
fn padding_fills_the_last_block() {
    assert_eq!(padding_for(1), 0);
    assert_eq!(padding_for(2), 7);
    assert_eq!(padding_for(9), 0);
    assert_eq!(padding_for(15), 2);
}

#[test]
fn large_messages_are_refused_and_left_alone() {
    for len in [490usize, 500, 5000] {
        let mut buffer = vec![1; len];
        match encrypt_message(&mut buffer, &KEY) {
            Err(NewcamdError::Protocol(text)) => assert_eq!(text, "packet too large"),
            _ => panic!("accepted"),
        }
        assert_eq!(buffer, vec![1; len]);
    }
}

#[test]
fn messages_without_whole_blocks_are_refused() {
    for len in [2usize, 10, 17, 19, 25] {
        let mut buffer = vec![1; len];
        match decrypt_message(&mut buffer, &KEY) {
            Err(NewcamdError::Protocol(text)) => {
                assert_eq!(text, "invalid encrypted payload length")
            }
            _ => panic!("accepted"),
        }
        assert_eq!(buffer, vec![1; len]);
    }
}

#[test]
fn a_wrong_checksum_is_found() {
    let mut buffer = SEALED;
    buffer[18] ^= 1;
    match decrypt_message(&mut buffer, &KEY) {
        Err(NewcamdError::Crypto(text)) => assert_eq!(text, "checksum mismatch"),
        _ => panic!("accepted"),
    }
    let mut other_key = KEY;
    other_key[0] ^= 0x10;
    let mut buffer = SEALED;
    assert!(matches!(decrypt_message(&mut buffer, &other_key), Err(NewcamdError::Crypto(_))));
}

#[test]
fn the_checksum_makes_the_exclusive_or_zero() {
    assert_eq!(xor_bytes(&[]), 0);
    assert_eq!(xor_bytes(&[0x0F, 0xF0, 0x01]), 0xFE);
    assert_eq!(check_body(&[9, 9, 0x0F, 0xF0], &[0x01]), [0x0F, 0xF0, 0x01, 0xFE]);
    assert_eq!(check_body(&[9, 9], &[]), [0]);
    assert_eq!(xor_bytes(&check_body(&MESSAGE, &[0x12, 0x34])), 0);
    assert_eq!(xor_block(&[0xFF; 8], &[1, 2, 3, 4, 5, 6, 7, 8])[..2], [0xFE, 0xFD]);
}
