//! The command line of the program that asks a server for the control words of
//! one ECM.

use vstd::hash_map::StringHashMap;
use vstd::prelude::*;

use crate::error::NewcamdError;
use crate::hex::parse_hex;
use crate::number::parse_number;
use crate::text::{chars_of, decimal_of, same_text, starts_with};

verus! {

use crate::error::{agrees, ErrorView};
use crate::hex::{hex_argument, hex_bytes, is_hex, law_hex_arguments, law_what_is_hex};
use crate::number::{invalid_number_error, lemma_wide_number_range, wide_number};
use crate::text::{decimal, has_prefix, law_prefix};
use vstd::std_specs::convert::TryFromSpec;

/// What is shown to a user who asks for help.
pub const ARGUMENTS_USAGE: &'static str =
    "Usage: newcamd_lib --host HOST --port PORT --user USER --pass PASSWORD --des-key HEX --ecm HEX [--sid SID] [--provider PROVIDER]";

/// The arguments of the program.
pub struct Arguments {
    pub host: String,
    pub port: u16,
    pub username: String,
    pub password: String,
    pub des_key_14: [u8; 14],
    pub sid: u16,
    pub provider: u32,
    pub ecm: Vec<u8>,
}

/// `Arguments` with texts and bytes as sequences.
pub struct ArgumentsView {
    pub host: Seq<char>,
    pub port: u16,
    pub username: Seq<char>,
    pub password: Seq<char>,
    pub des_key_14: Seq<u8>,
    pub sid: u16,
    pub provider: u32,
    pub ecm: Seq<u8>,
}

impl View for Arguments {
    type V = ArgumentsView;

    open spec fn view(&self) -> ArgumentsView {
        ArgumentsView {
            host: self.host@,
            port: self.port,
            username: self.username@,
            password: self.password@,
            des_key_14: self.des_key_14@,
            sid: self.sid,
            provider: self.provider,
            ecm: self.ecm@,
        }
    }
}

/// What a command line asks for.
pub enum Invocation {
    /// To show `ARGUMENTS_USAGE`.
    Help,
    /// To make the request.
    Run(Arguments),
}

/// An `Invocation` with its arguments taken by their view.
pub enum InvocationView {
    Help,
    Run(ArgumentsView),
}

impl View for Invocation {
    type V = InvocationView;

    open spec fn view(&self) -> InvocationView {
        match *self {
            Invocation::Help => InvocationView::Help,
            Invocation::Run(arguments) => InvocationView::Run(arguments@),
        }
    }
}

/// The characters of every string.
pub open spec fn texts(args: Seq<String>) -> Seq<Seq<char>> {
    args.map_values(|arg: String| arg@)
}

/// A map with its values as sequences of characters.
pub open spec fn text_values(values: Map<Seq<char>, String>) -> Map<Seq<char>, Seq<char>> {
    values.map_values(|value: String| value@)
}

/// The values of named arguments, `values` and those in `args` together, the
/// last one of each name. None if help is asked for.
pub open spec fn collected(
    args: Seq<Seq<char>>,
    values: Map<Seq<char>, Seq<char>>,
) -> Result<Option<Map<Seq<char>, Seq<char>>>, ErrorView>
    decreases args.len(),
{
    if args.len() == 0 {
        Ok(Some(values))
    } else {
        let name = args[0];
        if name == "--help"@ || name == "-h"@ {
            Ok(None)
        } else if args.len() == 1 {
            Err(ErrorView::InvalidData("missing value for "@ + name))
        } else if !has_prefix(name, "--"@) {
            Err(ErrorView::InvalidData("unexpected argument "@ + name))
        } else {
            collected(args.skip(2), values.insert(name, args[1]))
        }
    }
}

/// The value of an argument that must be there.
pub open spec fn required_value(
    values: Map<Seq<char>, Seq<char>>,
    name: Seq<char>,
) -> Result<Seq<char>, ErrorView> {
    if values.contains_key(name) {
        Ok(values[name])
    } else {
        Err(ErrorView::InvalidData("missing required argument "@ + name))
    }
}

/// The number not above `max` that an argument stands for.
pub open spec fn number_value(
    value: Seq<char>,
    name: Seq<char>,
    max: int,
) -> Result<int, ErrorView> {
    match wide_number(value) {
        Some(number) => if number <= max {
            Ok(number)
        } else {
            Err(invalid_number_error(name, value))
        },
        None => Err(invalid_number_error(name, value)),
    }
}

/// The number not above `max` that an argument stands for, zero if it is not
/// there.
pub open spec fn optional_value(
    values: Map<Seq<char>, Seq<char>>,
    name: Seq<char>,
    max: int,
) -> Result<int, ErrorView> {
    if values.contains_key(name) {
        number_value(values[name], name, max)
    } else {
        Ok(0)
    }
}

/// The bytes that an argument which must be there stands for.
pub open spec fn hex_value(
    values: Map<Seq<char>, Seq<char>>,
    name: Seq<char>,
) -> Result<Seq<u8>, ErrorView> {
    match required_value(values, name) {
        Ok(value) => hex_argument(value),
        Err(err) => Err(err),
    }
}

/// What named arguments ask for. The first that is wrong, in this order,
/// decides: the key, host, port, user, password, service, provider, ECM.
pub open spec fn arguments_of(values: Map<Seq<char>, Seq<char>>) -> Result<
    InvocationView,
    ErrorView,
> {
    let des_key = hex_value(values, "--des-key"@);
    let host = required_value(values, "--host"@);
    let port_text = required_value(values, "--port"@);
    let port = number_value(port_text->Ok_0, "--port"@, u16::MAX as int);
    let username = required_value(values, "--user"@);
    let password = required_value(values, "--pass"@);
    let sid = optional_value(values, "--sid"@, u16::MAX as int);
    let provider = optional_value(values, "--provider"@, u32::MAX as int);
    let ecm = hex_value(values, "--ecm"@);
    if des_key is Err {
        Err(des_key->Err_0)
    } else if des_key->Ok_0.len() != 14 {
        Err(
            ErrorView::InvalidData(
                "--des-key must contain exactly 14 bytes, got "@ + decimal(
                    des_key->Ok_0.len(),
                ),
            ),
        )
    } else if host is Err {
        Err(host->Err_0)
    } else if port_text is Err {
        Err(port_text->Err_0)
    } else if port is Err {
        Err(port->Err_0)
    } else if username is Err {
        Err(username->Err_0)
    } else if password is Err {
        Err(password->Err_0)
    } else if sid is Err {
        Err(sid->Err_0)
    } else if provider is Err {
        Err(provider->Err_0)
    } else if ecm is Err {
        Err(ecm->Err_0)
    } else {
        Ok(
            InvocationView::Run(
                ArgumentsView {
                    host: host->Ok_0,
                    port: port->Ok_0 as u16,
                    username: username->Ok_0,
                    password: password->Ok_0,
                    des_key_14: des_key->Ok_0,
                    sid: sid->Ok_0 as u16,
                    provider: provider->Ok_0 as u32,
                    ecm: ecm->Ok_0,
                },
            ),
        )
    }
}

/// What a command line asks for.
pub open spec fn invocation_of(args: Seq<Seq<char>>) -> Result<InvocationView, ErrorView> {
    match collected(args, Map::empty()) {
        Err(err) => Err(err),
        Ok(None) => Ok(InvocationView::Help),
        Ok(Some(values)) => arguments_of(values),
    }
}

/// The value of an argument that must be there.
pub fn required<'a>(values: &'a StringHashMap<String>, name: &str) -> (r: Result<
    &'a str,
    NewcamdError,
>)
    ensures
        match (r, required_value(text_values(values@), name@)) {
            (Ok(value), Ok(expected)) => value@ == expected,
            (Err(err), Err(expected)) => err@ == expected,
            _ => false,
        },
{
    match values.get(name) {
        Some(value) => Ok(value.as_str()),
        None => Err(
            NewcamdError::InvalidData("missing required argument ".to_string().concat(name)),
        ),
    }
}

/// The number that an argument stands for, `default` if it is not there.
pub fn optional_number<T: TryFrom<u64>>(
    values: &StringHashMap<String>,
    name: &str,
    default: T,
) -> (r: Result<T, NewcamdError>)
    ensures
        if values@.contains_key(name@) {
            match wide_number(values@[name@]@) {
                Some(number) => T::obeys_try_from_spec() ==> match (r, T::try_from_spec(
                    number as u64,
                )) {
                    (Ok(value), Ok(expected)) => value == expected,
                    (Err(err), Err(_)) => err@ == invalid_number_error(name@, values@[name@]@),
                    _ => false,
                },
                None => r matches Err(err) && err@ == invalid_number_error(
                    name@,
                    values@[name@]@,
                ),
            }
        } else {
            r == Ok::<T, NewcamdError>(default)
        },
{
    match values.get(name) {
        Some(value) => parse_number(value.as_str(), name),
        None => Ok(default),
    }
}

fn required_hex(values: &StringHashMap<String>, name: &str) -> (r: Result<Vec<u8>, NewcamdError>)
    ensures
        agrees(r, hex_value(text_values(values@), name@)),
{
    match required(values, name) {
        Ok(value) => parse_hex(value),
        Err(err) => Err(err),
    }
}

impl Arguments {
    /// Reads a command line, the program's name left out.
    pub fn parse(args: Vec<String>) -> (r: Result<Invocation, NewcamdError>)
        ensures
            match (r, invocation_of(texts(args@))) {
                (Ok(invocation), Ok(expected)) => invocation@ == expected,
                (Err(err), Err(expected)) => err@ == expected,
                _ => false,
            },
    {
        let mut values: StringHashMap<String> = StringHashMap::new();
        let ghost all = texts(args@);
        let mut i: usize = 0;
        proof {
            assert(all.skip(0) =~= all);
            assert(text_values(values@) =~= Map::<Seq<char>, Seq<char>>::empty());
        }
        while i < args.len()
            invariant
                all == texts(args@),
                i <= args@.len(),
                collected(all, Map::empty()) == collected(all.skip(i as int), text_values(values@)),
            decreases args@.len() - i,
        {
            let name = args[i].as_str();
            let ghost rest = all.skip(i as int);
            assert(rest[0] == name@);
            if same_text(name, "--help") || same_text(name, "-h") {
                return Ok(Invocation::Help);
            }
            if i + 1 >= args.len() {
                return Err(
                    NewcamdError::InvalidData("missing value for ".to_string().concat(name)),
                );
            }
            if !starts_with(chars_of(name).as_slice(), chars_of("--").as_slice()) {
                return Err(
                    NewcamdError::InvalidData("unexpected argument ".to_string().concat(name)),
                );
            }
            let ghost before = text_values(values@);
            values.insert(args[i].clone(), args[i + 1].clone());
            proof {
                assert(rest[1] == args@[i + 1]@);
                assert(rest.skip(2) =~= all.skip(i + 2));
                assert(text_values(values@) =~= before.insert(name@, args@[i + 1]@));
            }
            i = i + 2;
        }
        assert(all.skip(i as int).len() == 0);
        Arguments::from_values(&values)
    }

    /// Reads named arguments.
    pub fn from_values(values: &StringHashMap<String>) -> (r: Result<Invocation, NewcamdError>)
        ensures
            match (r, arguments_of(text_values(values@))) {
                (Ok(invocation), Ok(expected)) => invocation@ == expected,
                (Err(err), Err(expected)) => err@ == expected,
                _ => false,
            },
    {
        let des_key = match required_hex(values, "--des-key") {
            Err(err) => return Err(err),
            Ok(bytes) => bytes,
        };
        if des_key.len() != 14 {
            return Err(
                NewcamdError::InvalidData(
                    "--des-key must contain exactly 14 bytes, got ".to_string().concat(
                        decimal_of(des_key.len() as u64).as_str(),
                    ),
                ),
            );
        }
        let mut des_key_14 = [0u8; 14];
        for i in 0..14usize
            invariant
                des_key@.len() == 14,
                forall|j: int| 0 <= j < i ==> des_key_14@[j] == des_key@[j],
        {
            des_key_14[i] = des_key[i];
        }
        assert(des_key_14@ =~= des_key@);
        proof {
            let texts = text_values(values@);
            lemma_wide_number_range(texts["--port"@]);
            lemma_wide_number_range(texts["--sid"@]);
            lemma_wide_number_range(texts["--provider"@]);
        }
        let host = match required(values, "--host") {
            Err(err) => return Err(err),
            Ok(value) => value.to_string(),
        };
        let port: u16 = match required(values, "--port") {
            Err(err) => return Err(err),
            Ok(value) => match parse_number::<u16>(value, "--port") {
                Err(err) => return Err(err),
                Ok(port) => port,
            },
        };
        let username = match required(values, "--user") {
            Err(err) => return Err(err),
            Ok(value) => value.to_string(),
        };
        let password = match required(values, "--pass") {
            Err(err) => return Err(err),
            Ok(value) => value.to_string(),
        };
        let sid: u16 = match optional_number::<u16>(values, "--sid", 0) {
            Err(err) => return Err(err),
            Ok(sid) => sid,
        };
        let provider: u32 = match optional_number::<u32>(values, "--provider", 0) {
            Err(err) => return Err(err),
            Ok(provider) => provider,
        };
        let ecm = match required_hex(values, "--ecm") {
            Err(err) => return Err(err),
            Ok(bytes) => bytes,
        };
        Ok(
            Invocation::Run(
                Arguments { host, port, username, password, des_key_14, sid, provider, ecm },
            ),
        )
    }
}

/// Of several values that are given to one name the last one counts.
pub proof fn law_last_value_counts(
    args: Seq<Seq<char>>,
    values: Map<Seq<char>, Seq<char>>,
    name: Seq<char>,
    value: Seq<char>,
)
    requires
        collected(args, values) matches Ok(Some(_)),
        has_prefix(name, "--"@),
        name != "--help"@,
    ensures
        collected(args + seq![name, value], values) == Ok::<
            Option<Map<Seq<char>, Seq<char>>>,
            ErrorView,
        >(Some(collected(args, values)->Ok_0->0.insert(name, value))),
    decreases args.len(),
{
    let all = args + seq![name, value];
    if args.len() == 0 {
        reveal_strlit("--");
        reveal_strlit("-h");
        assert(name.take(2)[1] == name[1]);
        assert(all.skip(2) =~= Seq::<Seq<char>>::empty());
        assert(all[0] == name && all[1] == value);
        reveal_with_fuel(collected, 2);
    } else {
        assert(all.skip(2) =~= args.skip(2) + seq![name, value]);
        law_last_value_counts(args.skip(2), values.insert(args[0], args[1]), name, value);
    }
}

/// Whoever asks for help gets it, whatever follows, unless what precedes it is
/// wrong.
pub proof fn law_help_is_shown(
    args: Seq<Seq<char>>,
    values: Map<Seq<char>, Seq<char>>,
    help: Seq<char>,
    rest: Seq<Seq<char>>,
)
    requires
        collected(args, values) matches Ok(Some(_)),
        help == "--help"@ || help == "-h"@,
    ensures
        collected(args + seq![help] + rest, values) == Ok::<
            Option<Map<Seq<char>, Seq<char>>>,
            ErrorView,
        >(None),
    decreases args.len(),
{
    let all = args + seq![help] + rest;
    if args.len() > 0 {
        assert(all.skip(2) =~= args.skip(2) + seq![help] + rest);
        law_help_is_shown(args.skip(2), values.insert(args[0], args[1]), help, rest);
    } else {
        assert(all[0] == help);
    }
}

/// A request is made only if all six required arguments are there, and a missing
/// one is an error. The service and the provider are zero unless they are given.
pub proof fn law_required_arguments(values: Map<Seq<char>, Seq<char>>)
    ensures
        match arguments_of(values) {
            Ok(InvocationView::Run(arguments)) => {
                &&& values.contains_key("--host"@) && arguments.host == values["--host"@]
                &&& values.contains_key("--port"@)
                &&& values.contains_key("--user"@) && arguments.username == values["--user"@]
                &&& values.contains_key("--pass"@) && arguments.password == values["--pass"@]
                &&& values.contains_key("--des-key"@) && arguments.des_key_14.len() == 14
                &&& values.contains_key("--ecm"@)
                &&& !values.contains_key("--sid"@) ==> arguments.sid == 0
                &&& !values.contains_key("--provider"@) ==> arguments.provider == 0
            },
            Ok(InvocationView::Help) => false,
            Err(err) => err is InvalidData,
        },
{
}

/// A request is made exactly if everything that it needs is there and can be
/// read, and it is made with the values as they were given: texts as they are,
/// numbers by their value, bytes by their digits.
pub proof fn law_arguments(values: Map<Seq<char>, Seq<char>>)
    ensures
        ({
            let r = arguments_of(values);
            let key = values["--des-key"@];
            let ecm = values["--ecm"@];
            let port = wide_number(values["--port"@]);
            let sid = wide_number(values["--sid"@]);
            let provider = wide_number(values["--provider"@]);
            &&& r is Ok <==> {
                &&& values.contains_key("--des-key"@) && is_hex(key) && key.len() == 28
                &&& values.contains_key("--host"@)
                &&& values.contains_key("--port"@) && (port matches Some(n) && n <= 65535)
                &&& values.contains_key("--user"@)
                &&& values.contains_key("--pass"@)
                &&& values.contains_key("--sid"@) ==> (sid matches Some(n) && n <= 65535)
                &&& values.contains_key("--provider"@) ==> (provider matches Some(n) && n
                    <= 0xFFFF_FFFF)
                &&& values.contains_key("--ecm"@) && is_hex(ecm)
            }
            &&& r matches Ok(invocation) ==> (invocation matches InvocationView::Run(arguments)
                && {
                &&& arguments.host == values["--host"@]
                &&& Some(arguments.port as int) == port
                &&& arguments.username == values["--user"@]
                &&& arguments.password == values["--pass"@]
                &&& arguments.des_key_14 == hex_bytes(key)
                &&& arguments.sid == if values.contains_key("--sid"@) {
                    sid.unwrap()
                } else {
                    0
                }
                &&& arguments.provider == if values.contains_key("--provider"@) {
                    provider.unwrap()
                } else {
                    0
                }
                &&& arguments.ecm == hex_bytes(ecm)
            })
            &&& r matches Err(err) ==> err is InvalidData
        }),
{
    let key = values["--des-key"@];
    let ecm = values["--ecm"@];
    law_hex_arguments(key, Seq::empty());
    law_hex_arguments(ecm, Seq::empty());
    law_what_is_hex(key);
    law_what_is_hex(ecm);
    lemma_wide_number_range(values["--port"@]);
    lemma_wide_number_range(values["--sid"@]);
    lemma_wide_number_range(values["--provider"@]);
}

/// The error for the first argument that is missing names it.
pub proof fn law_missing_argument(values: Map<Seq<char>, Seq<char>>)
    ensures
        ({
            let r = arguments_of(values);
            let key = values["--des-key"@];
            let key_fits = values.contains_key("--des-key"@) && is_hex(key) && key.len() == 28;
            &&& !values.contains_key("--des-key"@) ==> r == Err::<InvocationView, ErrorView>(
                ErrorView::InvalidData("missing required argument "@ + "--des-key"@),
            )
            &&& key_fits && !values.contains_key("--host"@) ==> r == Err::<
                InvocationView,
                ErrorView,
            >(ErrorView::InvalidData("missing required argument "@ + "--host"@))
            &&& key_fits && values.contains_key("--host"@) && !values.contains_key("--port"@) ==> r
                == Err::<InvocationView, ErrorView>(
                ErrorView::InvalidData("missing required argument "@ + "--port"@),
            )
        }),
{
    let key = values["--des-key"@];
    law_hex_arguments(key, Seq::empty());
    law_what_is_hex(key);
}

/// A command line that ends with a name and no value, or that gives a value to
/// what is no name, is refused, and the error says which it was.
pub proof fn law_refused_command_line(
    args: Seq<Seq<char>>,
    values: Map<Seq<char>, Seq<char>>,
    name: Seq<char>,
    value: Seq<char>,
)
    requires
        collected(args, values) matches Ok(Some(_)),
        name != "--help"@,
        name != "-h"@,
    ensures
        collected(args.push(name), values) == Err::<
            Option<Map<Seq<char>, Seq<char>>>,
            ErrorView,
        >(ErrorView::InvalidData("missing value for "@ + name)),
        !(name.len() >= 2 && name[0] == '-' && name[1] == '-') ==> collected(
            args + seq![name, value],
            values,
        ) == Err::<Option<Map<Seq<char>, Seq<char>>>, ErrorView>(
            ErrorView::InvalidData("unexpected argument "@ + name),
        ),
    decreases args.len(),
{
    reveal_strlit("--");
    law_prefix(name, "--"@);
    if args.len() == 0 {
        assert(args.push(name)[0] == name);
        assert((args + seq![name, value])[0] == name);
        if has_prefix(name, "--"@) {
            assert(name[0] == "--"@[0] && name[1] == "--"@[1]);
        }
    } else {
        assert(args.push(name).skip(2) =~= args.skip(2).push(name));
        assert((args + seq![name, value]).skip(2) =~= args.skip(2) + seq![name, value]);
        law_refused_command_line(args.skip(2), values.insert(args[0], args[1]), name, value);
    }
}

/// An argument that must be there has the value that it was given, and the error
/// for a missing one names it. A number that is none, or too large, is refused by
/// name and value.
pub proof fn law_values(values: Map<Seq<char>, Seq<char>>, name: Seq<char>, max: int)
    ensures
        values.contains_key(name) ==> required_value(values, name) == Ok::<Seq<char>, ErrorView>(
            values[name],
        ),
        !values.contains_key(name) ==> required_value(values, name) == Err::<
            Seq<char>,
            ErrorView,
        >(ErrorView::InvalidData("missing required argument "@ + name)),
        (wide_number(values[name]) matches Some(n) && n <= max) ==> number_value(
            values[name],
            name,
            max,
        ) == Ok::<int, ErrorView>(wide_number(values[name]).unwrap()),
        !(wide_number(values[name]) matches Some(n) && n <= max) ==> number_value(
            values[name],
            name,
            max,
        ) == Err::<int, ErrorView>(
            ErrorView::InvalidData("invalid "@ + name + " value: "@ + values[name]),
        ),
{
}

/// The strings of a command line are taken one for one, and so are the values of
/// a map.
pub proof fn law_texts(args: Seq<String>, values: Map<Seq<char>, String>, name: Seq<char>)
    ensures
        texts(args).len() == args.len(),
        forall|i: int| 0 <= i < args.len() ==> #[trigger] texts(args)[i] == args[i]@,
        text_values(values).contains_key(name) <==> values.contains_key(name),
        values.contains_key(name) ==> text_values(values)[name] == values[name]@,
{
}

/// What a command line asks for is what its named arguments ask for, unless it
/// asks for help or cannot be read.
pub proof fn law_invocation(args: Seq<Seq<char>>)
    ensures
        collected(args, Map::empty()) matches Err(err) ==> invocation_of(args) == Err::<
            InvocationView,
            ErrorView,
        >(err),
        collected(args, Map::empty()) matches Ok(None) ==> invocation_of(args) == Ok::<
            InvocationView,
            ErrorView,
        >(InvocationView::Help),
        collected(args, Map::empty()) matches Ok(Some(values)) ==> invocation_of(args)
            == arguments_of(values),
        collected(Seq::empty(), Map::empty()) == Ok::<
            Option<Map<Seq<char>, Seq<char>>>,
            ErrorView,
        >(Some(Map::empty())),
{
}

/// A key of another size is refused, and the error says how many bytes it has.
pub proof fn law_key_size(values: Map<Seq<char>, Seq<char>>)
    ensures
        ({
            let key = values["--des-key"@];
            values.contains_key("--des-key"@) && is_hex(key) && key.len() != 28 ==> arguments_of(
                values,
            ) == Err::<InvocationView, ErrorView>(
                ErrorView::InvalidData(
                    "--des-key must contain exactly 14 bytes, got "@ + decimal(key.len() / 2),
                ),
            )
        }),
{
    let key = values["--des-key"@];
    law_hex_arguments(key, Seq::empty());
    law_what_is_hex(key);
}

/// What contracts say of the arguments, they say of their fields.
pub proof fn law_argument_fields(arguments: Arguments)
    ensures
        arguments@.host == arguments.host@,
        arguments@.port == arguments.port,
        arguments@.username == arguments.username@,
        arguments@.password == arguments.password@,
        arguments@.des_key_14 == arguments.des_key_14@,
        arguments@.sid == arguments.sid,
        arguments@.provider == arguments.provider,
        arguments@.ecm == arguments.ecm@,
        Invocation::Run(arguments)@ == InvocationView::Run(arguments@),
        Invocation::Help@ == InvocationView::Help,
{
}

} // verus!
