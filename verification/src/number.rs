//! Numbers written as text.

use vstd::prelude::*;
use vstd::slice::slice_subrange;

use crate::error::NewcamdError;
use crate::text::{chars_of, starts_with};

verus! {

use crate::error::ErrorView;
use crate::text::{decimal, digit_char, digits, has_prefix, law_prefix};
use vstd::std_specs::convert::TryFromSpec;

/// The value of a digit in base `radix`, in either case.
pub open spec fn digit_value(c: char, radix: int) -> Option<int> {
    let code = c as int;
    let value = if 48 <= code <= 57 {
        code - 48
    } else if 65 <= code <= 90 {
        code - 55
    } else if 97 <= code <= 122 {
        code - 87
    } else {
        36
    };
    if value < radix {
        Some(value)
    } else {
        None
    }
}

/// The number that a sequence of digits stands for.
pub open spec fn digits_value(text: Seq<char>, radix: int) -> Option<int>
    decreases text.len(),
{
    if text.len() == 0 {
        Some(0)
    } else {
        match (digits_value(text.drop_last(), radix), digit_value(text.last(), radix)) {
            (Some(upper), Some(digit)) => Some(upper * radix + digit),
            _ => None,
        }
    }
}

/// The number not above `max` that one or more digits stand for.
pub open spec fn unsigned_number(text: Seq<char>, radix: int, max: int) -> Option<int> {
    if text.len() == 0 {
        None
    } else {
        match digits_value(text, radix) {
            Some(value) => if value <= max {
                Some(value)
            } else {
                None
            },
            None => None,
        }
    }
}

/// The number not above `max` that `text` stands for: digits, and perhaps a
/// plus sign in front.
pub open spec fn number_of(text: Seq<char>, radix: int, max: int) -> Option<int> {
    if text.len() > 0 && text[0] == '+' {
        unsigned_number(text.skip(1), radix, max)
    } else {
        unsigned_number(text, radix, max)
    }
}

proof fn lemma_prefix_value(text: Seq<char>, radix: int, len: int)
    requires
        radix >= 2,
        0 <= len <= text.len(),
    ensures
        digits_value(text, radix) matches Some(value) ==> (digits_value(text.take(len), radix)
            matches Some(prefix) && 0 <= prefix <= value),
    decreases text.len(),
{
    if len < text.len() {
        assert(text.take(len) =~= text.drop_last().take(len));
        lemma_prefix_value(text.drop_last(), radix, len);
        if let Some(upper) = digits_value(text.drop_last(), radix) {
            assert(upper <= upper * radix) by (nonlinear_arith)
                requires
                    upper >= 0,
                    radix >= 2,
            ;
        }
    } else {
        assert(text.take(len) =~= text);
        if text.len() > 0 {
            lemma_prefix_value(text.drop_last(), radix, text.len() - 1);
            assert(text.drop_last().take(text.len() - 1) =~= text.drop_last());
            if let Some(upper) = digits_value(text.drop_last(), radix) {
                assert(0 <= upper * radix) by (nonlinear_arith)
                    requires
                        upper >= 0,
                        radix >= 2,
                ;
            }
        }
    }
}

/// Reads a digit in base `radix`.
pub fn digit_of(c: char, radix: u64) -> (r: Option<u64>)
    requires
        radix <= 36,
    ensures
        match r {
            Some(digit) => digit_value(c, radix as int) == Some(digit as int),
            None => digit_value(c, radix as int) is None,
        },
{
    let code: u32 = c as u32;
    let value: u32 = if 48 <= code && code <= 57 {
        code - 48
    } else if 65 <= code && code <= 90 {
        code - 55
    } else if 97 <= code && code <= 122 {
        code - 87
    } else {
        36
    };
    if (value as u64) < radix {
        Some(value as u64)
    } else {
        None
    }
}

/// Reads a number that is not above `max`, written as digits alone.
pub fn parse_unsigned(text: &[char], radix: u64, max: u64) -> (r: Option<u64>)
    requires
        2 <= radix <= 36,
    ensures
        match r {
            Some(value) => unsigned_number(text@, radix as int, max as int) == Some(value as int),
            None => unsigned_number(text@, radix as int, max as int) is None,
        },
        r matches Some(value) ==> value <= max,
{
    if text.len() == 0 {
        return None;
    }
    let mut value: u64 = 0;
    assert(text@.take(0) =~= Seq::<char>::empty());
    for i in 0..text.len()
        invariant
            2 <= radix <= 36,
            text@.len() > 0,
            value <= max,
            digits_value(text@.take(i as int), radix as int) == Some(value as int),
    {
        let ghost longer = text@.take(i + 1);
        proof {
            assert(longer.drop_last() =~= text@.take(i as int));
            assert(longer.last() == text@[i as int]);
            lemma_prefix_value(text@, radix as int, i + 1);
        }
        match digit_of(text[i], radix) {
            None => {
                return None;
            },
            Some(digit) => {
                assert(value * radix <= 0x1_0000_0000_0000_0000 * 36) by (nonlinear_arith)
                    requires
                        value < 0x1_0000_0000_0000_0000,
                        radix <= 36,
                ;
                let next: u128 = value as u128 * radix as u128 + digit as u128;
                assert(digits_value(longer, radix as int) == Some(next as int));
                if next > max as u128 {
                    return None;
                }
                value = next as u64;
            },
        }
    }
    assert(text@.take(text@.len() as int) =~= text@);
    Some(value)
}

/// Reads a number that is not above `max`.
pub fn parse_digits(text: &[char], radix: u64, max: u64) -> (r: Option<u64>)
    requires
        2 <= radix <= 36,
    ensures
        match r {
            Some(value) => number_of(text@, radix as int, max as int) == Some(value as int),
            None => number_of(text@, radix as int, max as int) is None,
        },
        r matches Some(value) ==> value <= max,
{
    if text.len() > 0 && text[0] == '+' {
        let body = slice_subrange(text, 1, text.len());
        assert(body@ =~= text@.skip(1));
        parse_unsigned(body, radix, max)
    } else {
        parse_unsigned(text, radix, max)
    }
}

/// The number that an argument stands for: hexadecimal digits after `0x`, and
/// after `0X` where `upper_too` is set, else decimal, perhaps with a plus sign.
pub open spec fn prefixed_number(text: Seq<char>, upper_too: bool, max: int) -> Option<int> {
    if has_prefix(text, "0x"@) || (upper_too && has_prefix(text, "0X"@)) {
        unsigned_number(text.skip(2), 16, max)
    } else {
        number_of(text, 10, max)
    }
}

proof fn lemma_number_range(text: Seq<char>, radix: int, max: int)
    requires
        radix >= 2,
    ensures
        unsigned_number(text, radix, max) matches Some(number) ==> 0 <= number <= max,
        number_of(text, radix, max) matches Some(number) ==> 0 <= number <= max,
{
    lemma_prefix_value(text, radix, text.len() as int);
    assert(text.take(text.len() as int) =~= text);
    if text.len() > 0 {
        lemma_prefix_value(text.skip(1), radix, text.len() - 1);
        assert(text.skip(1).take(text.len() - 1) =~= text.skip(1));
    }
}

/// The number that an argument stands for lies between zero and `max`.
pub proof fn lemma_prefixed_number_range(text: Seq<char>, upper_too: bool, max: int)
    ensures
        prefixed_number(text, upper_too, max) matches Some(number) ==> 0 <= number <= max,
{
    lemma_number_range(text.skip(2), 16, max);
    lemma_number_range(text, 10, max);
}

fn parse_prefixed(text: &str, upper_too: bool, max: u64) -> (r: Option<u64>)
    ensures
        match r {
            Some(value) => prefixed_number(text@, upper_too, max as int) == Some(value as int)
                && value <= max,
            None => prefixed_number(text@, upper_too, max as int) is None,
        },
{
    let chars = chars_of(text);
    let lower = chars_of("0x");
    let upper = chars_of("0X");
    proof {
        reveal_strlit("0x");
        reveal_strlit("0X");
    }
    if starts_with(&chars, &lower) || (upper_too && starts_with(&chars, &upper)) {
        let rest = slice_subrange(chars.as_slice(), 2, chars.len());
        assert(rest@ =~= text@.skip(2));
        parse_unsigned(rest, 16, max)
    } else {
        parse_digits(chars.as_slice(), 10, max)
    }
}

/// The number of 64 bits that an argument stands for: hexadecimal after `0x`,
/// else decimal, either perhaps with a plus sign in front of its digits.
pub open spec fn wide_number(text: Seq<char>) -> Option<int> {
    if has_prefix(text, "0x"@) {
        number_of(text.skip(2), 16, u64::MAX as int)
    } else {
        number_of(text, 10, u64::MAX as int)
    }
}

/// The number of 64 bits that an argument stands for fits 64 bits.
pub proof fn lemma_wide_number_range(text: Seq<char>)
    ensures
        wide_number(text) matches Some(number) ==> 0 <= number <= u64::MAX,
{
    reveal_strlit("0x");
    if has_prefix(text, "0x"@) {
        lemma_number_range(text.skip(2), 16, u64::MAX as int);
    } else {
        lemma_number_range(text, 10, u64::MAX as int);
    }
}

fn parse_wide(text: &str) -> (r: Option<u64>)
    ensures
        match r {
            Some(value) => wide_number(text@) == Some(value as int),
            None => wide_number(text@) is None,
        },
{
    let chars = chars_of(text);
    let prefix = chars_of("0x");
    proof {
        reveal_strlit("0x");
    }
    if starts_with(&chars, &prefix) {
        let rest = slice_subrange(chars.as_slice(), 2, chars.len());
        assert(rest@ =~= text@.skip(2));
        parse_digits(rest, 16, u64::MAX)
    } else {
        parse_digits(chars.as_slice(), 10, u64::MAX)
    }
}

/// What is said of an argument of the test client that is no number.
pub open spec fn invalid_argument_text(name: Seq<char>, raw: Seq<char>) -> Seq<char> {
    "invalid "@ + name + " value '"@ + raw + "'"@
}

fn invalid_argument(name: &str, raw: &str) -> (r: String)
    ensures
        r@ == invalid_argument_text(name@, raw@),
{
    let mut text = "invalid ".to_string();
    text.append(name);
    text.append(" value '");
    text.append(raw);
    text.append("'");
    text
}

/// Reads a 16-bit argument of the test client.
pub fn parse_u16_arg(raw: &str, name: &str) -> (r: Result<u16, String>)
    ensures
        match (r, prefixed_number(raw@, true, u16::MAX as int)) {
            (Ok(value), Some(number)) => value == number,
            (Err(text), None) => text@ == invalid_argument_text(name@, raw@),
            _ => false,
        },
{
    match parse_prefixed(raw, true, u16::MAX as u64) {
        Some(value) => Ok(value as u16),
        None => Err(invalid_argument(name, raw)),
    }
}

/// Reads a 32-bit argument of the test client.
pub fn parse_u32_arg(raw: &str, name: &str) -> (r: Result<u32, String>)
    ensures
        match (r, prefixed_number(raw@, true, u32::MAX as int)) {
            (Ok(value), Some(number)) => value == number,
            (Err(text), None) => text@ == invalid_argument_text(name@, raw@),
            _ => false,
        },
{
    match parse_prefixed(raw, true, u32::MAX as u64) {
        Some(value) => Ok(value as u32),
        None => Err(invalid_argument(name, raw)),
    }
}

/// Reads the PID of a stream.
pub fn parse_pid(value: &str) -> (r: Result<u16, String>)
    ensures
        match (r, prefixed_number(value@, false, u16::MAX as int)) {
            (Ok(pid), Some(number)) => pid == number && number <= 8191,
            (Err(text), Some(number)) => number > 8191 && text@
                == "PID must be in range 0..=8191"@,
            (Err(text), None) => text@ == "invalid PID: "@ + value@,
            _ => false,
        },
{
    match parse_prefixed(value, false, u16::MAX as u64) {
        Some(pid) => if pid > 8191 {
            Err("PID must be in range 0..=8191".to_string())
        } else {
            Ok(pid as u16)
        },
        None => Err("invalid PID: ".to_string().concat(value)),
    }
}

/// The error for an argument that is no number, or not one that fits.
pub open spec fn invalid_number_error(name: Seq<char>, value: Seq<char>) -> ErrorView {
    ErrorView::InvalidData("invalid "@ + name + " value: "@ + value)
}

fn invalid_number(name: &str, value: &str) -> (r: NewcamdError)
    ensures
        r@ == invalid_number_error(name@, value@),
{
    let mut text = "invalid ".to_string();
    text.append(name);
    text.append(" value: ");
    text.append(value);
    NewcamdError::InvalidData(text)
}

/// Reads a number that fits a `T`.
pub fn parse_number<T: TryFrom<u64>>(value: &str, name: &str) -> (r: Result<T, NewcamdError>)
    ensures
        match wide_number(value@) {
            Some(number) => T::obeys_try_from_spec() ==> match (r, T::try_from_spec(
                number as u64,
            )) {
                (Ok(value), Ok(expected)) => value == expected,
                (Err(err), Err(_)) => err@ == invalid_number_error(name@, value@),
                _ => false,
            },
            None => r matches Err(err) && err@ == invalid_number_error(name@, value@),
        },
{
    match parse_wide(value) {
        Some(number) => match T::try_from(number) {
            Ok(number) => Ok(number),
            Err(_) => Err(invalid_number(name, value)),
        },
        None => Err(invalid_number(name, value)),
    }
}

/// A digit is read back from its character, in either case.
pub proof fn lemma_digit_char(digit: int, radix: int, upper: bool)
    requires
        0 <= digit < radix <= 36,
    ensures
        digit_value(digit_char(digit, upper), radix) == Some(digit),
        digit_char(digit, upper) != '+',
        digit_char(digit, upper) != 'x' || digit == 33,
        digit_char(digit, upper) != 'X' || digit == 33,
        (digit_char(digit, upper) as int) < 128,
{
}

proof fn lemma_digits_value(n: nat, radix: nat, upper: bool)
    requires
        2 <= radix <= 36,
    ensures
        digits(n, radix, upper).len() > 0,
        digits_value(digits(n, radix, upper), radix as int) == Some(n as int),
        forall|i: int|
            0 <= i < digits(n, radix, upper).len() ==> exists|digit: int|
                0 <= digit < radix && #[trigger] digits(n, radix, upper)[i] == digit_char(
                    digit,
                    upper,
                ),
    decreases n,
{
    let text = digits(n, radix, upper);
    if n < radix {
        lemma_digit_char(n as int, radix as int, upper);
        reveal_with_fuel(digits_value, 2);
        assert(0 * radix == 0) by (nonlinear_arith);
        assert(text =~= seq![digit_char(n as int, upper)]);
        assert(text.drop_last() =~= Seq::<char>::empty());
    } else {
        vstd::arithmetic::div_mod::lemma_div_decreases(n as int, radix as int);
        vstd::arithmetic::div_mod::lemma_fundamental_div_mod(n as int, radix as int);
        vstd::arithmetic::div_mod::lemma_mod_bound(n as int, radix as int);
        lemma_digits_value(n / radix, radix, upper);
        lemma_digit_char((n % radix) as int, radix as int, upper);
        assert(text.drop_last() =~= digits(n / radix, radix, upper));
        assert((n / radix) * radix == radix * (n / radix)) by (nonlinear_arith);
        assert forall|i: int| 0 <= i < text.len() implies exists|digit: int|
            0 <= digit < radix && #[trigger] text[i] == digit_char(digit, upper) by {
            if i < text.len() - 1 {
                assert(text[i] == digits(n / radix, radix, upper)[i]);
            } else {
                assert(text[i] == digit_char((n % radix) as int, upper));
            }
        }
    }
}

/// A number is read back from its digits, whether or not a sign may stand in
/// front of them.
pub proof fn law_number_is_read_back(n: nat, radix: nat, upper: bool, max: int)
    requires
        2 <= radix <= 36,
        n <= max,
    ensures
        unsigned_number(digits(n, radix, upper), radix as int, max) == Some(n as int),
        number_of(digits(n, radix, upper), radix as int, max) == Some(n as int),
{
    let text = digits(n, radix, upper);
    lemma_digits_value(n, radix, upper);
    let digit = choose|digit: int| 0 <= digit < radix && text[0] == digit_char(digit, upper);
    lemma_digit_char(digit, radix as int, upper);
}

/// An argument that is a number in base ten is read as that number.
pub proof fn law_decimal_argument(n: nat, upper_too: bool, max: int)
    requires
        n <= max,
    ensures
        prefixed_number(decimal(n), upper_too, max) == Some(n as int),
        n <= u64::MAX ==> wide_number(decimal(n)) == Some(n as int),
{
    let text = decimal(n);
    law_number_is_read_back(n, 10, false, max);
    if n <= u64::MAX {
        law_number_is_read_back(n, 10, false, u64::MAX as int);
    }
    lemma_digits_value(n, 10, false);
    reveal_strlit("0x");
    reveal_strlit("0X");
    if text.len() >= 2 {
        let digit = choose|digit: int| 0 <= digit < 10 && text[1] == digit_char(digit, false);
        lemma_digit_char(digit, 10, false);
        assert(text.take(2)[1] == text[1]);
    }
}

/// An argument that is `0x` and a number in base sixteen, its digits in either
/// case, is read as that number.
pub proof fn law_hexadecimal_argument(n: nat, upper: bool, upper_too: bool, max: int)
    requires
        n <= max,
    ensures
        prefixed_number("0x"@ + digits(n, 16, upper), upper_too, max) == Some(n as int),
        n <= u64::MAX ==> wide_number("0x"@ + digits(n, 16, upper)) == Some(n as int),
{
    let text = "0x"@ + digits(n, 16, upper);
    law_number_is_read_back(n, 16, upper, max);
    if n <= u64::MAX {
        law_number_is_read_back(n, 16, upper, u64::MAX as int);
    }
    reveal_strlit("0x");
    assert(text.take(2) =~= "0x"@);
    assert(text.skip(2) =~= digits(n, 16, upper));
}

/// The digits of base sixteen are the decimal digits and the letters from a to
/// f, in either case. Those of base ten are the decimal digits alone.
pub proof fn law_digit_values(c: char)
    ensures
        '0' <= c <= '9' ==> digit_value(c, 16) == Some(c as int - '0' as int) && digit_value(c, 10)
            == digit_value(c, 16),
        'A' <= c <= 'F' ==> digit_value(c, 16) == Some(c as int - 'A' as int + 10),
        'a' <= c <= 'f' ==> digit_value(c, 16) == Some(c as int - 'a' as int + 10),
        !('0' <= c <= '9') ==> digit_value(c, 10) is None,
        !('0' <= c <= '9' || 'A' <= c <= 'F' || 'a' <= c <= 'f') ==> digit_value(c, 16) is None,
{
}

/// One more digit at the end multiplies a number by its base and adds to it.
pub proof fn law_positional_value(text: Seq<char>, c: char, radix: int)
    ensures
        digits_value(Seq::empty(), radix) == Some(0int),
        digits_value(text.push(c), radix) == match (digits_value(text, radix), digit_value(
            c,
            radix,
        )) {
            (Some(value), Some(digit)) => Some(value * radix + digit),
            _ => None,
        },
{
    assert(text.push(c).drop_last() =~= text);
}

/// A number is one or more digits of a value that is not above `max`. A plus
/// sign in front of them does not count.
pub proof fn law_what_is_a_number(text: Seq<char>, radix: int, max: int)
    ensures
        unsigned_number(text, radix, max) is Some <==> text.len() > 0 && (digits_value(text, radix)
            matches Some(value) && value <= max),
        unsigned_number(text, radix, max) is Some ==> unsigned_number(text, radix, max)
            == digits_value(text, radix),
        number_of(seq!['+'] + text, radix, max) == unsigned_number(text, radix, max),
        text.len() == 0 || text[0] != '+' ==> number_of(text, radix, max) == unsigned_number(
            text,
            radix,
            max,
        ),
{
    assert((seq!['+'] + text).skip(1) =~= text);
}

/// Behind `0x`, and behind `0X` where that is taken too, a number is
/// hexadecimal. Else it is decimal.
pub proof fn law_prefixes(text: Seq<char>, upper_too: bool, max: int)
    ensures
        ({
            let lower = text.len() >= 2 && text[0] == '0' && text[1] == 'x';
            let upper = text.len() >= 2 && text[0] == '0' && text[1] == 'X';
            &&& prefixed_number(text, upper_too, max) == if lower || (upper_too && upper) {
                unsigned_number(text.skip(2), 16, max)
            } else {
                number_of(text, 10, max)
            }
            &&& wide_number(text) == if lower {
                number_of(text.skip(2), 16, 0xFFFF_FFFF_FFFF_FFFF)
            } else {
                number_of(text, 10, 0xFFFF_FFFF_FFFF_FFFF)
            }
        }),
{
    reveal_strlit("0x");
    reveal_strlit("0X");
    law_prefix(text, "0x"@);
    law_prefix(text, "0X"@);
    if text.len() >= 2 {
        assert("0x"@[0] == '0' && "0x"@[1] == 'x' && "0X"@[0] == '0' && "0X"@[1] == 'X');
    }
}

} // verus!
