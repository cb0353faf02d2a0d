use newcamd_lib::number::{parse_number, parse_pid, parse_u16_arg, parse_u32_arg};
use newcamd_lib::NewcamdError;

#[test]
fn numbers_are_decimal_or_hexadecimal() {
    assert_eq!(parse_u16_arg("0", "--sid"), Ok(0));
    assert_eq!(parse_u16_arg("65535", "--sid"), Ok(65535));
    assert_eq!(parse_u16_arg("0x09bD", "--sid"), Ok(0x09BD));
    assert_eq!(parse_u16_arg("0X09BD", "--sid"), Ok(0x09BD));
    assert_eq!(parse_u16_arg("+7", "--sid"), Ok(7));
    assert_eq!(parse_u16_arg("000000065535", "--sid"), Ok(65535));
    assert_eq!(parse_u32_arg("4294967295", "--provider"), Ok(u32::MAX));
    assert_eq!(parse_u32_arg("0xFFFFFFFF", "--provider"), Ok(u32::MAX));
}

#[test]
fn what_is_no_number_is_refused() {
    for raw in ["", "+", "-1", "-0", "1 ", "12x", "0x", "0x+7", "0xG", "++7", "65536", "0x10000", "é"] {
        assert_eq!(
            parse_u16_arg(raw, "--port"),
            Err(format!("invalid --port value '{raw}'"))
        );
    }
    assert_eq!(
        parse_u32_arg("4294967296", "--provider"),
        Err("invalid --provider value '4294967296'".to_string())
    );
}

#[test]
fn pids_have_thirteen_bits() {
    assert_eq!(parse_pid("4660"), Ok(0x1234));
    assert_eq!(parse_pid("0x1234"), Ok(0x1234));
    assert_eq!(parse_pid("8191"), Ok(8191));
    assert_eq!(parse_pid("8192"), Err("PID must be in range 0..=8191".to_string()));
    assert_eq!(parse_pid("65536"), Err("invalid PID: 65536".to_string()));
    assert_eq!(parse_pid("0X1234"), Err("invalid PID: 0X1234".to_string()));
    assert_eq!(parse_pid("0x+1"), Err("invalid PID: 0x+1".to_string()));
    assert_eq!(parse_pid(""), Err("invalid PID: ".to_string()));
}

#[test]
fn numbers_have_to_fit() {
    assert_eq!(parse_number::<u16>("65535", "--port").unwrap(), 65535);
    assert_eq!(parse_number::<u32>("0xffffffff", "--provider").unwrap(), u32::MAX);
    assert_eq!(parse_number::<u8>("255", "--x").unwrap(), 255);
    assert_eq!(parse_number::<u16>("+1", "--port").unwrap(), 1);
    assert_eq!(parse_number::<u16>("0x+1", "--port").unwrap(), 1);
    for raw in ["65536", "0x10000", "18446744073709551616", "0X1", "0x", "0x++1", "x", ""] {
        match parse_number::<u16>(raw, "--port") {
            Err(NewcamdError::InvalidData(text)) => {
                assert_eq!(text, format!("invalid --port value: {raw}"))
            }
            _ => panic!("accepted"),
        }
    }
}

#[test]
fn numbers_are_read_back() {
    for n in [0u16, 1, 9, 10, 255, 256, 4660, 65535] {
        assert_eq!(parse_u16_arg(&format!("{n}"), "--x"), Ok(n));
        assert_eq!(parse_u16_arg(&format!("0x{n:x}"), "--x"), Ok(n));
        assert_eq!(parse_u16_arg(&format!("0x{n:04X}"), "--x"), Ok(n));
    }
}
