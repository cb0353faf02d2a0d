use newcamd_lib::arguments::{optional_number, required, Arguments, Invocation};
use newcamd_lib::NewcamdError;
use vstd::hash_map::StringHashMap;

const COMPLETE: [&str; 12] = [
    "--host",
    "example.org",
    "--port",
    "0x3a98",
    "--user",
    "test",
    "--pass",
    "test123",
    "--des-key",
    "0102030405060708091011121314",
    "--ecm",
    "803000",
];

fn parse(args: &[&str]) -> Result<Invocation, NewcamdError> {
    Arguments::parse(args.iter().map(|arg| arg.to_string()).collect())
}

fn refusal(args: &[&str]) -> String {
    match parse(args) {
        Err(NewcamdError::InvalidData(text)) => text,
        _ => panic!("accepted"),
    }
}

fn without(name: &str) -> Vec<&'static str> {
    let at = COMPLETE.iter().position(|arg| *arg == name).unwrap();
    let mut args = COMPLETE.to_vec();
    args.drain(at..at + 2);
    args
}

fn with(name: &'static str, value: &'static str) -> Vec<&'static str> {
    let mut args = COMPLETE.to_vec();
    args.push(name);
    args.push(value);
    args
}

fn run(args: &[&str]) -> Arguments {
    match parse(args) {
        Ok(Invocation::Run(arguments)) => arguments,
        _ => panic!("refused"),
    }
}

#[test]
fn a_complete_command_line_is_read() {
    let arguments = run(&COMPLETE);
    assert_eq!(arguments.host, "example.org");
    assert_eq!(arguments.port, 15000);
    assert_eq!(arguments.username, "test");
    assert_eq!(arguments.password, "test123");
    assert_eq!(
        arguments.des_key_14,
        [1, 2, 3, 4, 5, 6, 7, 8, 9, 0x10, 0x11, 0x12, 0x13, 0x14]
    );
    assert_eq!(arguments.sid, 0);
    assert_eq!(arguments.provider, 0);
    assert_eq!(arguments.ecm, [0x80, 0x30, 0x00]);
}

#[test]
fn the_last_value_counts() {
    assert_eq!(run(&with("--host", "localhost")).host, "localhost");
    assert_eq!(run(&with("--sid", "7")).sid, 7);
    assert_eq!(run(&with("--sid", "0x+1")).sid, 1);
    assert_eq!(run(&with("--provider", "0x123456")).provider, 0x123456);
    assert_eq!(run(&with("--unknown", "x")).host, "example.org");
}

#[test]
fn help_is_shown_whatever_follows() {
    assert!(matches!(parse(&["--help"]), Ok(Invocation::Help)));
    assert!(matches!(parse(&["-h", "x"]), Ok(Invocation::Help)));
    assert!(matches!(parse(&["--host", "x", "-h", "--bad"]), Ok(Invocation::Help)));
    assert_eq!(refusal(&["--host"]), "missing value for --host");
    assert_eq!(refusal(&["host"]), "missing value for host");
    assert_eq!(refusal(&["host", "--help"]), "unexpected argument host");
}

#[test]
fn every_required_argument_is_missed() {
    for name in ["--des-key", "--host", "--port", "--user", "--pass", "--ecm"] {
        assert_eq!(refusal(&without(name)), format!("missing required argument {name}"));
    }
    assert_eq!(refusal(&[]), "missing required argument --des-key");
}

#[test]
fn values_have_to_be_right() {
    assert_eq!(refusal(&with("--port", "65536")), "invalid --port value: 65536");
    assert_eq!(refusal(&with("--sid", "x")), "invalid --sid value: x");
    assert_eq!(
        refusal(&with("--provider", "4294967296")),
        "invalid --provider value: 4294967296"
    );
    assert_eq!(
        refusal(&with("--des-key", "01")),
        "--des-key must contain exactly 14 bytes, got 1"
    );
    assert_eq!(
        refusal(&with("--ecm", "0")),
        "NEWCAMD_ECM_HEX must have an even number of characters"
    );
    assert_eq!(
        refusal(&with("--des-key", "zz")),
        "NEWCAMD_ECM_HEX must contain only hexadecimal characters"
    );
    for name in ["--ecm", "--des-key"] {
        for value in ["1é1", "+1", "zz"] {
            assert_eq!(
                refusal(&with(name, value)),
                "NEWCAMD_ECM_HEX must contain only hexadecimal characters"
            );
        }
    }
    assert_eq!(
        refusal(&["--des-key", "1é1"]),
        "NEWCAMD_ECM_HEX must contain only hexadecimal characters"
    );
}

#[test]
fn values_are_looked_up_by_name() {
    let mut values = StringHashMap::new();
    values.insert("--sid".to_string(), "12".to_string());
    assert_eq!(required(&values, "--sid").unwrap(), "12");
    assert!(required(&values, "--si").is_err());
    assert_eq!(optional_number::<u16>(&values, "--sid", 3).unwrap(), 12);
    assert_eq!(optional_number::<u16>(&values, "--port", 3).unwrap(), 3);
}
