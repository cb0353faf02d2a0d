//! The command line of the test client.

use std::time::Duration;
use vstd::prelude::*;

use crate::client::NewcamdConfig;
use crate::hex::{parse_des_key_14, parse_hex_bytes};
use crate::number::{parse_u16_arg, parse_u32_arg};
use crate::text::{chars_of, same_text};

verus! {

use crate::arguments::texts;
use crate::client::duration_of_secs;
use crate::hex::{
    compacted, des_key_argument, hex_bytes, is_hex, law_hex_arguments, law_what_is_hex,
    section_argument,
};
use crate::number::{invalid_argument_text, lemma_prefixed_number_range, prefixed_number};
use crate::text::has_prefix;

/// The arguments of the test client: the server and the login, what the
/// requests are for, and what to request.
pub struct CliArgs {
    pub config: NewcamdConfig,
    pub caid: u16,
    pub sid: u16,
    pub ecm_section: Option<Vec<u8>>,
    pub emm_section: Option<Vec<u8>>,
}

/// The options of the test client, the key as it was written.
pub struct CliOptions {
    pub host: String,
    pub port: u16,
    pub caid: u16,
    pub provider: u32,
    pub sid: u16,
    pub username: String,
    pub password: String,
    pub des_key_hex: String,
    pub ecm_section: Option<Vec<u8>>,
    pub emm_section: Option<Vec<u8>>,
}

/// `CliOptions` with texts and bytes as sequences.
pub struct OptionsView {
    pub host: Seq<char>,
    pub port: u16,
    pub caid: u16,
    pub provider: u32,
    pub sid: u16,
    pub username: Seq<char>,
    pub password: Seq<char>,
    pub des_key_hex: Seq<char>,
    pub ecm_section: Option<Seq<u8>>,
    pub emm_section: Option<Seq<u8>>,
}

/// The bytes of a section, if there is one.
pub open spec fn section_view(section: Option<Vec<u8>>) -> Option<Seq<u8>> {
    match section {
        Some(bytes) => Some(bytes@),
        None => None,
    }
}

impl View for CliOptions {
    type V = OptionsView;

    open spec fn view(&self) -> OptionsView {
        OptionsView {
            host: self.host@,
            port: self.port,
            caid: self.caid,
            provider: self.provider,
            sid: self.sid,
            username: self.username@,
            password: self.password@,
            des_key_hex: self.des_key_hex@,
            ecm_section: section_view(self.ecm_section),
            emm_section: section_view(self.emm_section),
        }
    }
}

/// The options of an empty command line.
pub open spec fn default_options() -> OptionsView {
    OptionsView {
        host: "127.0.0.1"@,
        port: 15000,
        caid: 0,
        provider: 0,
        sid: 1,
        username: Seq::empty(),
        password: Seq::empty(),
        des_key_hex: Seq::empty(),
        ecm_section: None,
        emm_section: None,
    }
}

/// The help of a program of this name.
pub open spec fn usage_text(program: Seq<char>) -> Seq<char> {
    "Usage:\n  "@ + program
        + " --user <username> --pass <password> --des-key <28_hex_chars> [--host <host>] [--port <port>] [--caid <u16|0xHEX>] [--provider <u32|0xHEX>] [--sid <u16|0xHEX>] [--ecm <hex_bytes>] [--emm <hex_bytes>]\n\nExamples:\n  "@
        + program
        + " --user test --pass test123 --des-key 0102030405060708091011121314 --caid 0x09BD --provider 0x000000 --sid 0x0001 --ecm 803000000000\n  "@
        + program
        + " --user test --pass test123 --des-key 0102030405060708091011121314 --caid 0x09BD --provider 0x000000 --sid 0x0001 --emm 820000000000"@
}

/// What is said of a command line that cannot be read: what is wrong with it,
/// and the help.
pub open spec fn refusal(text: Seq<char>, program: Seq<char>) -> Seq<char> {
    text + "\n"@ + usage_text(program)
}

/// The outcome of reading options: the options, or why there are none.
pub enum CliStep {
    Options(OptionsView),
    Refused(Seq<char>),
}

/// Whether this is the name of an option.
pub open spec fn is_option(name: Seq<char>) -> bool {
    ||| name == "--host"@
    ||| name == "--port"@
    ||| name == "--caid"@
    ||| name == "--provider"@
    ||| name == "--sid"@
    ||| name == "--user"@
    ||| name == "--pass"@
    ||| name == "--des-key"@
    ||| name == "--ecm"@
    ||| name == "--emm"@
}

/// The options after the option `name` was set to `value`.
pub open spec fn with_option(
    options: OptionsView,
    program: Seq<char>,
    name: Seq<char>,
    value: Seq<char>,
) -> CliStep {
    let short = prefixed_number(value, true, u16::MAX as int);
    let long = prefixed_number(value, true, u32::MAX as int);
    let invalid = CliStep::Refused(refusal(invalid_argument_text(name, value), program));
    if name == "--host"@ {
        CliStep::Options(OptionsView { host: value, ..options })
    } else if name == "--port"@ {
        match short {
            Some(number) => CliStep::Options(OptionsView { port: number as u16, ..options }),
            None => invalid,
        }
    } else if name == "--caid"@ {
        match short {
            Some(number) => CliStep::Options(OptionsView { caid: number as u16, ..options }),
            None => invalid,
        }
    } else if name == "--provider"@ {
        match long {
            Some(number) => CliStep::Options(OptionsView { provider: number as u32, ..options }),
            None => invalid,
        }
    } else if name == "--sid"@ {
        match short {
            Some(number) => CliStep::Options(OptionsView { sid: number as u16, ..options }),
            None => invalid,
        }
    } else if name == "--user"@ {
        CliStep::Options(OptionsView { username: value, ..options })
    } else if name == "--pass"@ {
        CliStep::Options(OptionsView { password: value, ..options })
    } else if name == "--des-key"@ {
        CliStep::Options(OptionsView { des_key_hex: value, ..options })
    } else {
        match section_argument(compacted(value), name) {
            Ok(bytes) => CliStep::Options(
                if name == "--ecm"@ {
                    OptionsView { ecm_section: Some(bytes), ..options }
                } else {
                    OptionsView { emm_section: Some(bytes), ..options }
                },
            ),
            Err(text) => CliStep::Refused(refusal(text, program)),
        }
    }
}

/// The options after everything in `args` was read, one argument after the
/// other, the last setting of each option counting.
pub open spec fn options_of(
    options: OptionsView,
    program: Seq<char>,
    args: Seq<Seq<char>>,
) -> CliStep
    decreases args.len(),
{
    if args.len() == 0 {
        CliStep::Options(options)
    } else if is_option(args[0]) {
        if args.len() == 1 {
            CliStep::Refused(refusal("missing value for "@ + args[0], program))
        } else {
            match with_option(options, program, args[0], args[1]) {
                CliStep::Options(options) => options_of(options, program, args.skip(2)),
                other => other,
            }
        }
    } else if args[0] == "-h"@ || args[0] == "--help"@ {
        CliStep::Refused(usage_text(program))
    } else {
        CliStep::Refused(refusal("unknown argument '"@ + args[0] + "'"@, program))
    }
}

/// Whether `args` is what `options` and the key in them say.
pub open spec fn is_args_of(args: CliArgs, options: OptionsView, key: Seq<u8>) -> bool {
    &&& args.config.host@ == options.host
    &&& args.config.port == options.port
    &&& args.config.username@ == options.username
    &&& args.config.password@ == options.password
    &&& args.config.des_key_14@ == key
    &&& args.config.provider == options.provider
    &&& args.config.connect_timeout == duration_of_secs(5)
    &&& args.config.read_timeout == duration_of_secs(5)
    &&& args.caid == options.caid
    &&& args.sid == options.sid
    &&& section_view(args.ecm_section) == options.ecm_section
    &&& section_view(args.emm_section) == options.emm_section
}

/// Whether `r` is what options ask for: a user, a password and a key must be
/// among them.
pub open spec fn is_result_of(
    r: Result<CliArgs, String>,
    options: OptionsView,
    program: Seq<char>,
) -> bool {
    if options.username.len() == 0 || options.password.len() == 0 || options.des_key_hex.len()
        == 0 {
        r matches Err(text) && text@ == refusal("required arguments are missing"@, program)
    } else {
        match des_key_argument(options.des_key_hex) {
            Err(expected) => r matches Err(text) && text@ == expected,
            Ok(key) => r matches Ok(args) && is_args_of(args, options, key),
        }
    }
}

/// The name of a program: its first argument.
pub open spec fn program_of(args: Seq<Seq<char>>) -> Seq<char> {
    if args.len() > 0 {
        args[0]
    } else {
        "newcamd_client"@
    }
}

/// The arguments that follow the name of a program.
pub open spec fn rest_of(args: Seq<Seq<char>>) -> Seq<Seq<char>> {
    if args.len() > 0 {
        args.skip(1)
    } else {
        args
    }
}

/// The help of a program of this name.
pub fn usage(program: &str) -> (r: String)
    ensures
        r@ == usage_text(program@),
{
    let mut text = "Usage:\n  ".to_string();
    text.append(program);
    text.append(
        " --user <username> --pass <password> --des-key <28_hex_chars> [--host <host>] [--port <port>] [--caid <u16|0xHEX>] [--provider <u32|0xHEX>] [--sid <u16|0xHEX>] [--ecm <hex_bytes>] [--emm <hex_bytes>]\n\nExamples:\n  ",
    );
    text.append(program);
    text.append(
        " --user test --pass test123 --des-key 0102030405060708091011121314 --caid 0x09BD --provider 0x000000 --sid 0x0001 --ecm 803000000000\n  ",
    );
    text.append(program);
    text.append(
        " --user test --pass test123 --des-key 0102030405060708091011121314 --caid 0x09BD --provider 0x000000 --sid 0x0001 --emm 820000000000",
    );
    text
}

fn refuse(text: &str, program: &str) -> (r: String)
    ensures
        r@ == refusal(text@, program@),
{
    let mut refused = text.to_string();
    refused.append("\n");
    refused.append(usage(program).as_str());
    refused
}

fn read_section(value: &str, name: &str, program: &str) -> (r: Result<Vec<u8>, String>)
    ensures
        match section_argument(compacted(value@), name@) {
            Ok(expected) => r matches Ok(bytes) && bytes@ == expected,
            Err(expected) => r matches Err(text) && text@ == refusal(expected, program@),
        },
{
    match parse_hex_bytes(value, name) {
        Ok(bytes) => Ok(bytes),
        Err(text) => Err(refuse(text.as_str(), program)),
    }
}

fn is_option_name(name: &str) -> (r: bool)
    ensures
        r == is_option(name@),
{
    same_text(name, "--host") || same_text(name, "--port") || same_text(name, "--caid")
        || same_text(name, "--provider") || same_text(name, "--sid") || same_text(name, "--user")
        || same_text(name, "--pass") || same_text(name, "--des-key") || same_text(name, "--ecm")
        || same_text(name, "--emm")
}

impl CliOptions {
    /// The options of an empty command line.
    pub fn new() -> (r: CliOptions)
        ensures
            r@ == default_options(),
    {
        CliOptions {
            host: "127.0.0.1".to_string(),
            port: 15000,
            caid: 0,
            provider: 0,
            sid: 1,
            username: String::new(),
            password: String::new(),
            des_key_hex: String::new(),
            ecm_section: None,
            emm_section: None,
        }
    }

    /// Sets an option.
    pub fn set(&mut self, program: &str, name: &str, value: &str) -> (r: Result<(), String>)
        requires
            is_option(name@),
        ensures
            match (r, with_option(old(self)@, program@, name@, value@)) {
                (Ok(_), CliStep::Options(options)) => final(self)@ == options,
                (Err(text), CliStep::Refused(expected)) => text@ == expected && final(self)@
                    == old(self)@,
                _ => false,
            },
    {
        proof {
            lemma_prefixed_number_range(value@, true, u16::MAX as int);
            lemma_prefixed_number_range(value@, true, u32::MAX as int);
        }
        if same_text(name, "--host") {
            self.host = value.to_string();
            return Ok(());
        }
        if same_text(name, "--port") {
            return match parse_u16_arg(value, name) {
                Ok(port) => {
                    self.port = port;
                    Ok(())
                },
                Err(text) => Err(refuse(text.as_str(), program)),
            };
        }
        if same_text(name, "--caid") {
            return match parse_u16_arg(value, name) {
                Ok(caid) => {
                    self.caid = caid;
                    Ok(())
                },
                Err(text) => Err(refuse(text.as_str(), program)),
            };
        }
        if same_text(name, "--provider") {
            return match parse_u32_arg(value, name) {
                Ok(provider) => {
                    self.provider = provider;
                    Ok(())
                },
                Err(text) => Err(refuse(text.as_str(), program)),
            };
        }
        if same_text(name, "--sid") {
            return match parse_u16_arg(value, name) {
                Ok(sid) => {
                    self.sid = sid;
                    Ok(())
                },
                Err(text) => Err(refuse(text.as_str(), program)),
            };
        }
        if same_text(name, "--user") {
            self.username = value.to_string();
            return Ok(());
        }
        if same_text(name, "--pass") {
            self.password = value.to_string();
            return Ok(());
        }
        if same_text(name, "--des-key") {
            self.des_key_hex = value.to_string();
            return Ok(());
        }
        match read_section(value, name, program) {
            Ok(bytes) => {
                if same_text(name, "--ecm") {
                    self.ecm_section = Some(bytes);
                } else {
                    self.emm_section = Some(bytes);
                }
                Ok(())
            },
            Err(text) => Err(text),
        }
    }

    /// What the options ask for.
    pub fn into_args(self, program: &str) -> (r: Result<CliArgs, String>)
        ensures
            is_result_of(r, self@, program@),
    {
        if chars_of(self.username.as_str()).len() == 0 || chars_of(self.password.as_str()).len()
            == 0 || chars_of(self.des_key_hex.as_str()).len() == 0 {
            return Err(refuse("required arguments are missing", program));
        }
        let des_key_14 = match parse_des_key_14(self.des_key_hex.as_str()) {
            Ok(key) => key,
            Err(text) => return Err(text),
        };
        Ok(
            CliArgs {
                config: NewcamdConfig {
                    host: self.host,
                    port: self.port,
                    username: self.username,
                    password: self.password,
                    des_key_14,
                    provider: self.provider,
                    connect_timeout: Duration::from_secs(5),
                    read_timeout: Duration::from_secs(5),
                },
                caid: self.caid,
                sid: self.sid,
                ecm_section: self.ecm_section,
                emm_section: self.emm_section,
            },
        )
    }
}

/// Reads the command line of the test client, the program's name first.
pub fn parse_cli_args(args: &[String]) -> (r: Result<CliArgs, String>)
    ensures
        ({
            let program = program_of(texts(args@));
            match options_of(default_options(), program, rest_of(texts(args@))) {
                CliStep::Options(options) => is_result_of(r, options, program),
                CliStep::Refused(expected) => r matches Err(text) && text@ == expected,
            }
        }),
{
    let program = if args.len() > 0 { args[0].as_str() } else { "newcamd_client" };
    let ghost all = texts(args@);
    let mut options = CliOptions::new();
    let mut i: usize = if args.len() > 0 { 1 } else { 0 };
    assert(all.skip(0) =~= all);
    while i < args.len()
        invariant
            all == texts(args@),
            i <= args@.len(),
            options_of(default_options(), program@, rest_of(all)) == options_of(
                options@,
                program@,
                all.skip(i as int),
            ),
            program@ == program_of(all),
        decreases args@.len() - i,
    {
        let name = args[i].as_str();
        let ghost rest = all.skip(i as int);
        assert(rest[0] == name@);
        if is_option_name(name) {
            if i + 1 >= args.len() {
                let missing = "missing value for ".to_string().concat(name);
                return Err(refuse(missing.as_str(), program));
            }
            assert(rest[1] == args@[i + 1]@);
            match options.set(program, name, args[i + 1].as_str()) {
                Ok(_) => {},
                Err(text) => return Err(text),
            }
            assert(rest.skip(2) =~= all.skip(i + 2));
            i = i + 2;
        } else if same_text(name, "-h") || same_text(name, "--help") {
            return Err(usage(program));
        } else {
            let mut unknown = "unknown argument '".to_string();
            unknown.append(name);
            unknown.append("'");
            return Err(refuse(unknown.as_str(), program));
        }
    }
    assert(all.skip(i as int).len() == 0);
    options.into_args(program)
}

/// Options are read one after the other: one more option at the end is set last,
/// so that it takes the place of what was set before.
pub proof fn law_last_option_counts(
    options: OptionsView,
    program: Seq<char>,
    args: Seq<Seq<char>>,
    name: Seq<char>,
    value: Seq<char>,
)
    requires
        options_of(options, program, args) is Options,
        is_option(name),
    ensures
        options_of(options, program, args + seq![name, value]) == with_option(
            options_of(options, program, args)->Options_0,
            program,
            name,
            value,
        ),
    decreases args.len(),
{
    let all = args + seq![name, value];
    if args.len() == 0 {
        assert(all.skip(2) =~= Seq::<Seq<char>>::empty());
        assert(all[0] == name && all[1] == value);
        reveal_with_fuel(options_of, 2);
    } else {
        assert(all[0] == args[0] && all[1] == args[1]);
        assert(all.skip(2) =~= args.skip(2) + seq![name, value]);
        law_last_option_counts(
            with_option(options, program, args[0], args[1])->Options_0,
            program,
            args.skip(2),
            name,
            value,
        );
    }
}

/// An option sets what it is named for to its value, and leaves everything else
/// as it was.
pub proof fn law_option(
    options: OptionsView,
    program: Seq<char>,
    name: Seq<char>,
    value: Seq<char>,
    after: OptionsView,
)
    requires
        is_option(name),
        with_option(options, program, name, value) == CliStep::Options(after),
    ensures
        after.host == if name == "--host"@ {
            value
        } else {
            options.host
        },
        after.username == if name == "--user"@ {
            value
        } else {
            options.username
        },
        after.password == if name == "--pass"@ {
            value
        } else {
            options.password
        },
        after.des_key_hex == if name == "--des-key"@ {
            value
        } else {
            options.des_key_hex
        },
        name == "--port"@ ==> Some(after.port as int) == prefixed_number(value, true, 65535),
        name != "--port"@ ==> after.port == options.port,
        name == "--caid"@ ==> Some(after.caid as int) == prefixed_number(value, true, 65535),
        name != "--caid"@ ==> after.caid == options.caid,
        name == "--sid"@ ==> Some(after.sid as int) == prefixed_number(value, true, 65535),
        name != "--sid"@ ==> after.sid == options.sid,
        name == "--provider"@ ==> Some(after.provider as int) == prefixed_number(
            value,
            true,
            0xFFFF_FFFF,
        ),
        name != "--provider"@ ==> after.provider == options.provider,
        name == "--ecm"@ ==> is_hex(compacted(value)) && after.ecm_section == Some(
            hex_bytes(compacted(value)),
        ),
        name != "--ecm"@ ==> after.ecm_section == options.ecm_section,
        name == "--emm"@ ==> is_hex(compacted(value)) && after.emm_section == Some(
            hex_bytes(compacted(value)),
        ),
        name != "--emm"@ ==> after.emm_section == options.emm_section,
{
    reveal_strlit("--host");
    reveal_strlit("--port");
    reveal_strlit("--caid");
    reveal_strlit("--provider");
    reveal_strlit("--sid");
    reveal_strlit("--user");
    reveal_strlit("--pass");
    reveal_strlit("--des-key");
    reveal_strlit("--ecm");
    reveal_strlit("--emm");
    lemma_different("--host"@, "--port"@, 2);
    lemma_different("--host"@, "--caid"@, 2);
    lemma_different("--host"@, "--user"@, 2);
    lemma_different("--host"@, "--pass"@, 2);
    lemma_different("--port"@, "--caid"@, 2);
    lemma_different("--port"@, "--user"@, 2);
    lemma_different("--port"@, "--pass"@, 3);
    lemma_different("--caid"@, "--user"@, 2);
    lemma_different("--caid"@, "--pass"@, 2);
    lemma_different("--user"@, "--pass"@, 2);
    lemma_different("--sid"@, "--ecm"@, 2);
    lemma_different("--sid"@, "--emm"@, 2);
    lemma_different("--ecm"@, "--emm"@, 3);
    lemma_prefixed_number_range(value, true, u16::MAX as int);
    lemma_prefixed_number_range(value, true, u32::MAX as int);
    law_hex_arguments(compacted(value), name);
    if name == "--emm"@ {
        assert(name.len() == 5);
        assert(name != "--host"@ && name != "--port"@ && name != "--caid"@ && name != "--provider"@);
        assert(name != "--sid"@ && name != "--user"@ && name != "--pass"@ && name != "--des-key"@);
        assert(name != "--ecm"@);
    }
}

proof fn lemma_different(a: Seq<char>, b: Seq<char>, i: int)
    requires
        0 <= i < a.len(),
        a[i] != b[i],
    ensures
        a != b,
{
}

/// An option is refused exactly if its value is no number of its size, or no
/// hexadecimal text, where one is asked for.
pub proof fn law_refused_option(
    options: OptionsView,
    program: Seq<char>,
    name: Seq<char>,
    value: Seq<char>,
)
    requires
        is_option(name),
    ensures
        ({
            let r = with_option(options, program, name, value);
            &&& name == "--port"@ || name == "--caid"@ || name == "--sid"@ ==> (r is Options
                <==> prefixed_number(value, true, 65535) is Some)
            &&& name == "--provider"@ ==> (r is Options <==> prefixed_number(
                value,
                true,
                0xFFFF_FFFF,
            ) is Some)
            &&& name == "--ecm"@ || name == "--emm"@ ==> (r is Options <==> is_hex(
                compacted(value),
            ) && compacted(value).len() > 0)
            &&& name == "--host"@ || name == "--user"@ || name == "--pass"@ || name
                == "--des-key"@ ==> r is Options
            &&& r matches CliStep::Refused(text) ==> exists|reason: Seq<char>|
                text == #[trigger] (reason + "\n"@) + usage_text(program)
        }),
{
    reveal_strlit("--host");
    reveal_strlit("--port");
    reveal_strlit("--caid");
    reveal_strlit("--provider");
    reveal_strlit("--sid");
    reveal_strlit("--user");
    reveal_strlit("--pass");
    reveal_strlit("--des-key");
    reveal_strlit("--ecm");
    reveal_strlit("--emm");
    lemma_different("--host"@, "--port"@, 2);
    lemma_different("--host"@, "--caid"@, 2);
    lemma_different("--port"@, "--caid"@, 2);
    lemma_different("--port"@, "--user"@, 2);
    lemma_different("--port"@, "--pass"@, 3);
    lemma_different("--caid"@, "--user"@, 2);
    lemma_different("--caid"@, "--pass"@, 2);
    lemma_different("--sid"@, "--ecm"@, 2);
    lemma_different("--sid"@, "--emm"@, 2);
    law_hex_arguments(compacted(value), name);
    if let CliStep::Refused(text) = with_option(options, program, name, value) {
        let invalid = invalid_argument_text(name, value);
        if text == refusal(invalid, program) {
            assert(text == (invalid + "\n"@) + usage_text(program));
        } else {
            let reason = section_argument(compacted(value), name)->Err_0;
            assert(text == (reason + "\n"@) + usage_text(program));
        }
    }
}

/// Options lead to a connection exactly if user, password and key are given and
/// the key is 28 hexadecimal digits, and then every argument is what its option
/// says.
pub proof fn law_options_to_arguments(
    r: Result<CliArgs, String>,
    options: OptionsView,
    program: Seq<char>,
)
    requires
        is_result_of(r, options, program),
    ensures
        r is Ok <==> options.username.len() > 0 && options.password.len() > 0 && is_hex(
            options.des_key_hex,
        ) && options.des_key_hex.len() == 28,
        r matches Ok(args) ==> {
            &&& args.config.host@ == options.host
            &&& args.config.port == options.port
            &&& args.config.username@ == options.username
            &&& args.config.password@ == options.password
            &&& args.config.des_key_14@ == hex_bytes(options.des_key_hex)
            &&& args.config.provider == options.provider
            &&& args.config.connect_timeout == duration_of_secs(5)
            &&& args.config.read_timeout == duration_of_secs(5)
            &&& args.caid == options.caid
            &&& args.sid == options.sid
            &&& args.ecm_section is Some <==> options.ecm_section is Some
            &&& args.ecm_section matches Some(section) ==> options.ecm_section == Some(section@)
            &&& args.emm_section is Some <==> options.emm_section is Some
            &&& args.emm_section matches Some(section) ==> options.emm_section == Some(section@)
        },
{
    law_hex_arguments(options.des_key_hex, Seq::empty());
    law_what_is_hex(options.des_key_hex);
}

/// What follows options that can be read is refused if it is a name without a
/// value, or no name. Whoever asks for help gets it.
pub proof fn law_refused_options(
    options: OptionsView,
    program: Seq<char>,
    args: Seq<Seq<char>>,
    last: Seq<char>,
    rest: Seq<Seq<char>>,
)
    requires
        options_of(options, program, args) is Options,
    ensures
        is_option(last) ==> options_of(options, program, args.push(last)) == CliStep::Refused(
            "missing value for "@ + last + "\n"@ + usage_text(program),
        ),
        !is_option(last) && (last == "-h"@ || last == "--help"@) ==> options_of(
            options,
            program,
            args + seq![last] + rest,
        ) == CliStep::Refused(usage_text(program)),
        !is_option(last) && last != "-h"@ && last != "--help"@ ==> options_of(
            options,
            program,
            args + seq![last] + rest,
        ) == CliStep::Refused("unknown argument '"@ + last + "'"@ + "\n"@ + usage_text(program)),
    decreases args.len(),
{
    let all = args + seq![last] + rest;
    if args.len() == 0 {
        assert(args.push(last)[0] == last);
        assert(all[0] == last);
    } else {
        assert(args.push(last)[0] == args[0] && args.push(last)[1] == args[1]);
        assert(all[0] == args[0] && all[1] == args[1]);
        assert(args.push(last).skip(2) =~= args.skip(2).push(last));
        assert(all.skip(2) =~= args.skip(2) + seq![last] + rest);
        law_refused_options(
            with_option(options, program, args[0], args[1])->Options_0,
            program,
            args.skip(2),
            last,
            rest,
        );
    }
}

/// The help names the program three times, first of all in its second line, and
/// says nothing else of it.
pub proof fn law_usage(program: Seq<char>, other: Seq<char>)
    ensures
        usage_text(program).len() - usage_text(other).len() == 3 * (program.len() - other.len()),
        has_prefix(usage_text(program), "Usage:\n  "@ + program),
{
    let text = usage_text(program);
    let start = "Usage:\n  "@ + program;
    assert(text.take(start.len() as int) =~= start);
}

/// The first argument is the name of the program, and the others follow it.
pub proof fn law_program(args: Seq<Seq<char>>)
    ensures
        args.len() > 0 ==> seq![program_of(args)] + rest_of(args) == args,
        args.len() == 0 ==> program_of(args) == "newcamd_client"@ && rest_of(args) == args,
{
    if args.len() > 0 {
        assert(seq![program_of(args)] + rest_of(args) =~= args);
    }
}

/// The error for a value that is no number names the option and shows the value.
pub proof fn law_invalid_value(
    options: OptionsView,
    program: Seq<char>,
    name: Seq<char>,
    value: Seq<char>,
)
    requires
        name == "--port"@ || name == "--caid"@ || name == "--sid"@ || name == "--provider"@,
        name == "--provider"@ ==> prefixed_number(value, true, 0xFFFF_FFFF) is None,
        name != "--provider"@ ==> prefixed_number(value, true, 65535) is None,
    ensures
        with_option(options, program, name, value) == CliStep::Refused(
            "invalid "@ + name + " value '"@ + value + "'"@ + "\n"@ + usage_text(program),
        ),
{
    reveal_strlit("--host");
    reveal_strlit("--port");
    reveal_strlit("--caid");
    reveal_strlit("--provider");
    reveal_strlit("--sid");
    lemma_different("--host"@, "--port"@, 2);
    lemma_different("--host"@, "--caid"@, 2);
}

/// What contracts say of the options, they say of their fields.
pub proof fn law_option_fields(options: CliOptions)
    ensures
        options@.host == options.host@,
        options@.port == options.port,
        options@.caid == options.caid,
        options@.provider == options.provider,
        options@.sid == options.sid,
        options@.username == options.username@,
        options@.password == options.password@,
        options@.des_key_hex == options.des_key_hex@,
        options.ecm_section matches Some(section) ==> options@.ecm_section == Some(section@),
        options.ecm_section is None ==> options@.ecm_section is None,
        options.emm_section matches Some(section) ==> options@.emm_section == Some(section@),
        options.emm_section is None ==> options@.emm_section is None,
{
}

} // verus!
