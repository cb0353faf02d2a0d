//! Characters and strings.

use vstd::prelude::*;

verus! {

/// Trusted: `String::push` appends one character.
pub assume_specification[ String::push ](text: &mut String, c: char)
    ensures
        final(text)@ == old(text)@.push(c),
;

/// The characters of `text`.
pub fn chars_of(text: &str) -> (r: Vec<char>)
    ensures
        r@ == text@,
{
    let mut chars: Vec<char> = Vec::new();
    for c in iter: text.chars()
        invariant
            chars@ == text@.take(iter.index()),
            iter.seq() == text@,
    {
        assert(text@.take(iter.index() + 1) =~= text@.take(iter.index()).push(c));
        chars.push(c);
    }
    assert(text@.take(text@.len() as int) =~= text@);
    chars
}

/// The string made of `chars`.
pub fn text_of(chars: &[char]) -> (r: String)
    ensures
        r@ == chars@,
{
    let mut text = String::new();
    for i in 0..chars.len()
        invariant
            text@ == chars@.take(i as int),
    {
        assert(chars@.take(i + 1) =~= chars@.take(i as int).push(chars@[i as int]));
        text.push(chars[i]);
    }
    assert(chars@.take(chars@.len() as int) =~= chars@);
    text
}

/// Whether two strings are the same.
pub fn same_text(a: &str, b: &str) -> (r: bool)
    ensures
        r == (a@ == b@),
{
    let left = chars_of(a);
    let right = chars_of(b);
    assert(left@.take(left@.len() as int) =~= left@);
    left.len() == right.len() && starts_with(&left, &right)
}

/// Whether `chars` starts with `prefix`.
pub open spec fn has_prefix(chars: Seq<char>, prefix: Seq<char>) -> bool {
    prefix.len() <= chars.len() && chars.take(prefix.len() as int) == prefix
}

/// Whether `chars` starts with `prefix`.
pub fn starts_with(chars: &[char], prefix: &[char]) -> (r: bool)
    ensures
        r == has_prefix(chars@, prefix@),
{
    if prefix.len() > chars.len() {
        return false;
    }
    for i in 0..prefix.len()
        invariant
            prefix@.len() <= chars@.len(),
            forall|j: int| 0 <= j < i ==> chars@[j] == prefix@[j],
    {
        if chars[i] != prefix[i] {
            assert(chars@.take(prefix@.len() as int)[i as int] != prefix@[i as int]);
            return false;
        }
    }
    assert(chars@.take(prefix@.len() as int) =~= prefix@);
    true
}

/// The character of a digit below 36, in upper case or in lower case.
pub open spec fn digit_char(digit: int, upper: bool) -> char {
    if digit < 10 {
        (48 + digit) as char
    } else if upper {
        (55 + digit) as char
    } else {
        (87 + digit) as char
    }
}

/// A number written in base `radix`, without leading zeros.
pub open spec fn digits(n: nat, radix: nat, upper: bool) -> Seq<char>
    decreases n,
    when radix >= 2
{
    if n < radix {
        seq![digit_char(n as int, upper)]
    } else {
        proof {
            vstd::arithmetic::div_mod::lemma_div_decreases(n as int, radix as int);
        }
        digits(n / radix, radix, upper).push(digit_char((n % radix) as int, upper))
    }
}

/// A number written in base ten.
pub open spec fn decimal(n: nat) -> Seq<char> {
    digits(n, 10, false)
}

fn digit_to_char(digit: u8, upper: bool) -> (r: char)
    requires
        digit < 36,
    ensures
        r == digit_char(digit as int, upper),
{
    if digit < 10 {
        (48 + digit) as char
    } else if upper {
        (55 + digit) as char
    } else {
        (87 + digit) as char
    }
}

/// Writes a number in base `radix`.
pub fn digits_of(n: u64, radix: u64, upper: bool) -> (r: String)
    requires
        2 <= radix <= 36,
    ensures
        r@ == digits(n as nat, radix as nat, upper),
    decreases n,
{
    if n < radix {
        let mut text = String::new();
        text.push(digit_to_char(n as u8, upper));
        assert(text@ =~= seq![digit_char(n as int, upper)]);
        text
    } else {
        proof {
            vstd::arithmetic::div_mod::lemma_div_decreases(n as int, radix as int);
        }
        let mut text = digits_of(n / radix, radix, upper);
        text.push(digit_to_char((n % radix) as u8, upper));
        text
    }
}

/// Writes a number in base ten.
pub fn decimal_of(n: u64) -> (r: String)
    ensures
        r@ == decimal(n as nat),
{
    digits_of(n, 10, false)
}

/// A text starts with a prefix exactly if it has its characters, one by one.
pub proof fn law_prefix(chars: Seq<char>, prefix: Seq<char>)
    ensures
        has_prefix(chars, prefix) <==> prefix.len() <= chars.len() && forall|i: int|
            0 <= i < prefix.len() ==> chars[i] == #[trigger] prefix[i],
{
    if has_prefix(chars, prefix) {
        assert forall|i: int| 0 <= i < prefix.len() implies chars[i] == #[trigger] prefix[i] by {
            assert(chars.take(prefix.len() as int)[i] == chars[i]);
        }
    } else if prefix.len() <= chars.len() && (forall|i: int|
        0 <= i < prefix.len() ==> chars[i] == #[trigger] prefix[i]) {
        assert(chars.take(prefix.len() as int) =~= prefix);
    }
}

/// Digits are the decimal digits, and then the letters of one case.
pub proof fn law_digit_char(digit: int, upper: bool)
    requires
        0 <= digit < 36,
    ensures
        digit < 10 ==> digit_char(digit, upper) as int == '0' as int + digit,
        digit >= 10 && upper ==> digit_char(digit, upper) as int == 'A' as int + digit - 10,
        digit >= 10 && !upper ==> digit_char(digit, upper) as int == 'a' as int + digit - 10,
{
}

/// A number is written without leading zeros: in front of its last digit stands
/// the rest of it, unless there is no rest.
pub proof fn law_digits(n: nat, radix: nat, upper: bool)
    requires
        2 <= radix <= 36,
    ensures
        n < radix ==> digits(n, radix, upper) == seq![digit_char(n as int, upper)],
        n >= radix ==> digits(n, radix, upper).len() > 0 && digits(n, radix, upper).last()
            == digit_char((n % radix) as int, upper) && digits(n, radix, upper).drop_last()
            == digits(n / radix, radix, upper),
        n > 0 ==> digits(n, radix, upper)[0] != '0',
    decreases n,
{
    if n >= radix {
        vstd::arithmetic::div_mod::lemma_div_decreases(n as int, radix as int);
        vstd::arithmetic::div_mod::lemma_div_non_zero(n as int, radix as int);
        law_digits(n / radix, radix, upper);
        assert(digits(n, radix, upper).drop_last() =~= digits(n / radix, radix, upper));
        assert(digits(n, radix, upper)[0] == digits(n / radix, radix, upper)[0]) by {
            lemma_some_digit(n / radix, radix, upper);
        }
    }
}

proof fn lemma_some_digit(n: nat, radix: nat, upper: bool)
    requires
        radix >= 2,
    ensures
        digits(n, radix, upper).len() > 0,
{
}

} // verus!
