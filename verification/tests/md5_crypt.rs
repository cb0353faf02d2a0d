use newcamd_lib::md5_crypt::{
    extract_salt, md5_crypt, md5_crypt_alternate_input, md5_crypt_initial_input,
    md5_crypt_round_input, md5_crypt_text, to_b64,
};

#[test]
fn md5_crypt_known_vector() {
    let hash = md5_crypt("password", "abcdefgh");
    assert_eq!(hash, "$1$abcdefgh$G//4keteveJp0qb8z2DxG/");
}

#[test]
fn md5_crypt_of_an_empty_password() {
    assert_eq!(md5_crypt("", "abcdefgh"), "$1$abcdefgh$M55TzYaaccxVGbptZWaxX/");
}

#[test]
fn md5_crypt_of_a_password_longer_than_a_sum() {
    assert_eq!(
        md5_crypt("password123456789012345", "saltsalt"),
        "$1$saltsalt$WnzrZjn2q/h/3Cpa//ARo1"
    );
}

#[test]
fn md5_crypt_counts_bytes_of_a_password() {
    assert_eq!(md5_crypt("été", "12"), "$1$12$A4MZtQZ/WmYH03b5Z3p5o/");
}

#[test]
fn md5_crypt_takes_the_salt_out_of_a_hash() {
    assert_eq!(md5_crypt("a", "$1$xyz$"), "$1$xyz$r2NBTbk2gPEph8n88/DeR1");
    assert_eq!(
        md5_crypt("a", "$1$xyz$r2NBTbk2gPEph8n88/DeR1"),
        "$1$xyz$r2NBTbk2gPEph8n88/DeR1"
    );
}

#[test]
fn a_password_is_checked_by_its_hash() {
    for (password, salt) in [("test", "abcdefgh"), ("", ""), ("x", "longer than eight")] {
        let hash = md5_crypt(password, salt);
        assert_eq!(md5_crypt(password, &hash), hash);
        assert_eq!(extract_salt(&hash), extract_salt(salt));
        assert!(hash.len() <= 34);
    }
}

#[test]
fn salts_are_cut_at_eight_characters_and_at_a_dollar() {
    assert_eq!(extract_salt("abcdefghij"), "abcdefgh");
    assert_eq!(extract_salt("abc$def"), "abc");
    assert_eq!(extract_salt("$1$abc$def"), "abc");
    assert_eq!(extract_salt("$1$"), "");
    assert_eq!(extract_salt("$2$abc"), "");
    assert_eq!(extract_salt("éèêëàâäïî"), "éèêëàâäï");
}

#[test]
fn base_64_starts_with_the_lowest_digit() {
    assert_eq!(to_b64(0, 0, 0, 4), "....");
    assert_eq!(to_b64(0, 0, 1, 2), "/.");
    assert_eq!(to_b64(0xFF, 0xFF, 0xFF, 4), "zzzz");
    assert_eq!(to_b64(0x01, 0x02, 0x03, 4), "16E.");
}

#[test]
fn what_is_hashed_is_put_together_in_order() {
    let sum = [7u8; 16];
    assert_eq!(md5_crypt_alternate_input(b"pw", b"salt"), b"pwsaltpw");
    let mut expected = b"pw$1$salt".to_vec();
    expected.extend_from_slice(&[7, 7, b'p', 0]);
    assert_eq!(md5_crypt_initial_input(b"pw", b"salt", &sum), expected);
    let mut round0 = sum.to_vec();
    round0.extend_from_slice(b"pw");
    assert_eq!(md5_crypt_round_input(0, b"pw", b"salt", &sum), round0);
    let mut round1 = b"pwsaltpw".to_vec();
    round1.extend_from_slice(&sum);
    assert_eq!(md5_crypt_round_input(1, b"pw", b"salt", &sum), round1);
}

#[test]
fn the_text_of_a_hash_has_the_salt_and_22_digits() {
    let text = md5_crypt_text("ab", &[0u8; 16]);
    assert_eq!(text, "$1$ab$......................");
}
