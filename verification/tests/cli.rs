use newcamd_lib::cli::{parse_cli_args, usage, CliArgs};
use std::time::Duration;

const REQUIRED: [&str; 7] = [
    "client",
    "--user",
    "test",
    "--pass",
    "test123",
    "--des-key",
    "0102030405060708091011121314",
];

fn parse(args: &[&str]) -> Result<CliArgs, String> {
    let args: Vec<String> = args.iter().map(|arg| arg.to_string()).collect();
    parse_cli_args(&args)
}

fn with(more: &[&'static str]) -> Vec<&'static str> {
    let mut args = REQUIRED.to_vec();
    args.extend_from_slice(more);
    args
}

fn run(args: &[&str]) -> CliArgs {
    match parse(args) {
        Ok(args) => args,
        _ => panic!("refused"),
    }
}

fn refusal(args: &[&str]) -> String {
    match parse(args) {
        Err(text) => text,
        Ok(_) => panic!("accepted"),
    }
}

fn helped(text: &str) -> String {
    format!("{text}\n{}", usage("client"))
}

#[test]
fn options_have_defaults() {
    let args = run(&REQUIRED);
    assert_eq!(args.config.host, "127.0.0.1");
    assert_eq!(args.config.port, 15000);
    assert_eq!(args.config.username, "test");
    assert_eq!(args.config.password, "test123");
    assert_eq!(
        args.config.des_key_14,
        [1, 2, 3, 4, 5, 6, 7, 8, 9, 0x10, 0x11, 0x12, 0x13, 0x14]
    );
    assert_eq!(args.config.provider, 0);
    assert_eq!(args.config.connect_timeout, Duration::from_secs(5));
    assert_eq!(args.config.read_timeout, Duration::from_secs(5));
    assert_eq!(args.caid, 0);
    assert_eq!(args.sid, 1);
    assert!(args.ecm_section.is_none());
    assert!(args.emm_section.is_none());
}

#[test]
fn every_option_is_read() {
    let args = run(&with(&[
        "--host",
        "example.org",
        "--port",
        "9201",
        "--caid",
        "0x09BD",
        "--provider",
        "0X123456",
        "--sid",
        "2",
        "--ecm",
        "80:30:00",
        "--emm",
        "82 00 00",
    ]));
    assert_eq!(args.config.host, "example.org");
    assert_eq!(args.config.port, 9201);
    assert_eq!(args.config.provider, 0x123456);
    assert_eq!(args.caid, 0x09BD);
    assert_eq!(args.sid, 2);
    assert_eq!(args.ecm_section.unwrap(), [0x80, 0x30, 0x00]);
    assert_eq!(args.emm_section.unwrap(), [0x82, 0x00, 0x00]);
}

#[test]
fn the_last_option_counts() {
    let args = run(&with(&["--sid", "2", "--user", "other", "--sid", "3"]));
    assert_eq!(args.sid, 3);
    assert_eq!(args.config.username, "other");
}

#[test]
fn help_names_the_program() {
    assert_eq!(refusal(&with(&["-h"])), usage("client"));
    assert_eq!(refusal(&["client", "--help", "--bad"]), usage("client"));
    assert!(usage("client").starts_with("Usage:\n  client --user <username> "));
    assert_eq!(usage("client").matches("\n  client --user ").count(), 3);
    assert!(usage("client").ends_with(" --sid 0x0001 --emm 820000000000"));
}

#[test]
fn values_must_not_be_missing() {
    for name in [
        "--host",
        "--port",
        "--caid",
        "--provider",
        "--sid",
        "--user",
        "--pass",
        "--des-key",
        "--ecm",
        "--emm",
    ] {
        assert_eq!(
            refusal(&["client", name]),
            helped(&format!("missing value for {name}"))
        );
    }
}

#[test]
fn wrong_values_are_refused_with_help() {
    assert_eq!(refusal(&with(&["x"])), helped("unknown argument 'x'"));
    assert_eq!(refusal(&with(&["--port", "x"])), helped("invalid --port value 'x'"));
    assert_eq!(refusal(&with(&["--caid", "65536"])), helped("invalid --caid value '65536'"));
    assert_eq!(
        refusal(&with(&["--provider", "-1"])),
        helped("invalid --provider value '-1'")
    );
    assert_eq!(refusal(&with(&["--sid", ""])), helped("invalid --sid value ''"));
    assert_eq!(refusal(&with(&["--ecm", " "])), helped("--ecm must not be empty"));
    assert_eq!(
        refusal(&with(&["--emm", "8x"])),
        helped("invalid hex byte '8x' in --emm")
    );
    assert_eq!(
        refusal(&with(&["--emm", "1é1"])),
        helped("invalid hex byte '1é' in --emm")
    );
    assert_eq!(refusal(&with(&["--sid", "0x+1"])), helped("invalid --sid value '0x+1'"));
}

#[test]
fn user_password_and_key_are_required() {
    for args in [
        &["client"][..],
        &["client", "--user", "a", "--pass", "b"][..],
        &["client", "--user", "a", "--des-key", "b"][..],
        &["client", "--pass", "a", "--des-key", "b"][..],
    ] {
        assert_eq!(refusal(args), helped("required arguments are missing"));
    }
    assert_eq!(
        refusal(&[]),
        format!("required arguments are missing\n{}", usage("newcamd_client"))
    );
}

#[test]
fn a_wrong_key_is_refused_without_help() {
    assert_eq!(
        refusal(&with(&["--des-key", "01"])),
        "NEWCAMD_DES_KEY_HEX must be exactly 28 hex chars (14 bytes)"
    );
    assert_eq!(
        refusal(&with(&["--des-key", "010203040506070809101112131g"])),
        "invalid hex byte '1g' at positions 26..28"
    );
    assert_eq!(
        refusal(&with(&["--des-key", "+102030405060708091011121314"])),
        "invalid hex byte '+1' at positions 0..2"
    );
    assert_eq!(
        refusal(&with(&["--des-key", "1é1020304050607080910111213"])),
        "invalid hex byte '1é' at positions 0..2"
    );
}
