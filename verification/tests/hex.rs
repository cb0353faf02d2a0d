use newcamd_lib::hex::{
    compact_hex, first_bad_pair, hex, hex_dump, leading_hex, parse_compact_hex, parse_des_key_14,
    parse_hex, parse_hex_bytes,
};
use newcamd_lib::NewcamdError;

fn refusal(r: Result<Vec<u8>, NewcamdError>) -> String {
    match r {
        Err(NewcamdError::InvalidData(text)) => text,
        _ => panic!("accepted"),
    }
}

#[test]
fn bytes_are_written_in_upper_case() {
    assert_eq!(hex(&[]), "");
    assert_eq!(hex(&[0x00, 0x0F, 0xA5, 0xFF]), "000FA5FF");
}

#[test]
fn hexadecimal_digits_are_read_in_either_case() {
    assert_eq!(parse_hex("").unwrap(), []);
    assert_eq!(parse_hex("80a5Ff").unwrap(), [0x80, 0xA5, 0xFF]);
}

#[test]
fn bytes_are_read_back() {
    let bytes: Vec<u8> = (0..=255).collect();
    assert_eq!(parse_hex(&hex(&bytes)).unwrap(), bytes);
    assert_eq!(parse_hex_bytes(&hex(&bytes), "--ecm").unwrap(), bytes);
    assert_eq!(parse_des_key_14(&hex(&bytes[..14])).unwrap()[..], bytes[..14]);
}

#[test]
fn what_is_no_hexadecimal_text_is_refused() {
    assert_eq!(
        refusal(parse_hex("123")),
        "NEWCAMD_ECM_HEX must have an even number of characters"
    );
    for value in ["1g", "0x", "-1", "++", "+5", "é", "aéb", "1é1", "12€1", "00€1"] {
        assert_eq!(
            refusal(parse_hex(value)),
            "NEWCAMD_ECM_HEX must contain only hexadecimal characters"
        );
    }
}

#[test]
fn digits_are_read_up_to_the_first_pair_that_is_none() {
    assert_eq!(leading_hex(&['1', '2', 'f', 'F', 'x', '0', '0', '0']), [0x12, 0xFF]);
    assert_eq!(leading_hex(&['1', '2', '3']), [0x12]);
    assert!(leading_hex(&['+', '1']).is_empty());
    assert_eq!(first_bad_pair("12+1"), "+1");
    assert_eq!(first_bad_pair("12é"), "é");
    assert_eq!(first_bad_pair("1é1"), "1é");
    assert_eq!(first_bad_pair("€1"), "€");
}

#[test]
fn white_space_is_left_out_and_nothing_else() {
    for c in '\0'..=char::MAX {
        let gone = matches!(
            u32::from(c),
            0x9..=0xD
                | 0x20
                | 0x85
                | 0xA0
                | 0x1680
                | 0x2000..=0x200A
                | 0x2028
                | 0x2029
                | 0x202F
                | 0x205F
                | 0x3000
        ) || c == ':'
            || c == ',';
        assert_eq!(compact_hex(&c.to_string()).is_empty(), gone);
    }
}

#[test]
fn separators_do_not_count() {
    assert_eq!(compact_hex("80:30, 00\t\n\u{a0}01"), "80300001");
    assert_eq!(parse_hex_bytes("80:30,00 01", "--ecm").unwrap(), [0x80, 0x30, 0, 1]);
    assert_eq!(parse_hex_bytes("8 0", "--ecm").unwrap(), [0x80]);
    assert_eq!(compact_hex("8030zz"), "8030zz");
}

#[test]
fn sections_that_cannot_be_read_are_refused_by_name() {
    assert_eq!(
        parse_hex_bytes(" :,", "--ecm"),
        Err("--ecm must not be empty".to_string())
    );
    assert_eq!(
        parse_hex_bytes("803", "--emm"),
        Err("--emm must contain an even number of hex characters".to_string())
    );
    assert_eq!(
        parse_hex_bytes("80 3z", "--emm"),
        Err("invalid hex byte '3z' in --emm".to_string())
    );
    assert_eq!(
        parse_compact_hex("80é1", "--emm"),
        Err("--emm must contain an even number of hex characters".to_string())
    );
    assert_eq!(
        parse_compact_hex("80é", "--emm"),
        Err("invalid hex byte 'é' in --emm".to_string())
    );
    assert_eq!(
        parse_hex_bytes("80 +1", "--emm"),
        Err("invalid hex byte '+1' in --emm".to_string())
    );
    assert_eq!(
        parse_hex_bytes("1é 1", "--emm"),
        Err("invalid hex byte '1é' in --emm".to_string())
    );
}

#[test]
fn a_key_has_28_digits() {
    assert_eq!(
        parse_des_key_14("0102030405060708091011121314").unwrap(),
        [1, 2, 3, 4, 5, 6, 7, 8, 9, 0x10, 0x11, 0x12, 0x13, 0x14]
    );
    for hex in ["", "01", "010203040506070809101112131", "01020304050607080910111213141"] {
        assert_eq!(
            parse_des_key_14(hex),
            Err("NEWCAMD_DES_KEY_HEX must be exactly 28 hex chars (14 bytes)".to_string())
        );
    }
    assert_eq!(
        parse_des_key_14("01020304050607080910111213zz"),
        Err("invalid hex byte 'zz' at positions 26..28".to_string())
    );
    assert_eq!(
        parse_des_key_14("01é304050607080910111213zzzz"),
        Err("NEWCAMD_DES_KEY_HEX must be exactly 28 hex chars (14 bytes)".to_string())
    );
    assert_eq!(
        parse_des_key_14("01é3040506070809101112131zz"),
        Err("invalid hex byte 'é' at positions 2..4".to_string())
    );
    assert_eq!(
        parse_des_key_14("+102030405060708091011121314"),
        Err("invalid hex byte '+1' at positions 0..2".to_string())
    );
    assert_eq!(
        parse_des_key_14("1é1020304050607080910111213"),
        Err("invalid hex byte '1é' at positions 0..2".to_string())
    );
}

#[test]
fn a_dump_has_sixteen_bytes_on_each_line() {
    assert_eq!(hex_dump(&[]), "\n");
    assert_eq!(hex_dump(&[0xAB, 0x01]), "0000: ab 01 \n\n");
    let bytes: Vec<u8> = (0..18).collect();
    assert_eq!(
        hex_dump(&bytes),
        "0000: 00 01 02 03 04 05 06 07 08 09 0a 0b 0c 0d 0e 0f \n0010: 10 11 \n\n"
    );
    let long = vec![0u8; 0x10001];
    assert!(hex_dump(&long).ends_with("fff0: 00 00 00 00 00 00 00 00 00 00 00 00 00 00 00 00 \n10000: 00 \n\n"));
}
