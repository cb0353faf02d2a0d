//! MD5-crypt, the `$1$` scheme of hashed passwords.

use md5::{Digest, Md5};
use vstd::prelude::*;
use vstd::string::StrSliceExecFns;

use crate::text::{chars_of, starts_with};

verus! {

use crate::text::has_prefix;
use vstd::arithmetic::div_mod::lemma_div_denominator;
use vstd::arithmetic::power2::{lemma_pow2_pos, lemma_pow2_unfold, pow2};
use vstd::utf8::encode_utf8;

/// The digits of MD5-crypt, from 0 to 63.
pub const MD5_CRYPT_B64: &'static str =
    "./0123456789ABCDEFGHIJKLMNOPQRSTUVWXYZabcdefghijklmnopqrstuvwxyz";

/// How often a sum is hashed again.
pub const ROUNDS: usize = 1000;

/// The MD5 sum of `data`, as `Digest::digest` of `md5::Md5` computes it.
pub uninterp spec fn md5_sum(data: Seq<u8>) -> Seq<u8>;

/// Hashes `data` with MD5.
///
/// Trusted: `Digest::digest` of `md5::Md5`. The sum depends on the data alone.
#[verifier::external_body]
fn md5_digest(data: &[u8]) -> (sum: [u8; 16])
    ensures
        sum@ == md5_sum(data@),
{
    Md5::digest(data).into()
}

/// The salt in `raw`: what follows a leading `$1$`, up to the next `$`, and at
/// most eight characters of it.
pub open spec fn salt_of(raw: Seq<char>) -> Seq<char> {
    let value = if has_prefix(raw, "$1$"@) {
        raw.skip(3)
    } else {
        raw
    };
    let salt = match value.index_of_first('$') {
        Some(end) => value.take(end),
        None => value,
    };
    if salt.len() > 8 {
        salt.take(8)
    } else {
        salt
    }
}

/// `count` digits of `value` in base 64, the lowest digit first.
pub open spec fn b64_digits(value: int, count: nat) -> Seq<char>
    decreases count,
{
    if count == 0 {
        Seq::empty()
    } else {
        seq![MD5_CRYPT_B64@[value % 64]] + b64_digits(value / 64, (count - 1) as nat)
    }
}

/// `count` digits of the number that three bytes make, the lowest digit first.
pub open spec fn b64_of(b2: u8, b1: u8, b0: u8, count: nat) -> Seq<char> {
    b64_digits(b2 * 65536 + b1 * 256 + b0, count)
}

/// The 22 digits of a sum, in the order of MD5-crypt.
pub open spec fn b64_of_sum(sum: Seq<u8>) -> Seq<char> {
    b64_of(sum[0], sum[6], sum[12], 4) + b64_of(sum[1], sum[7], sum[13], 4) + b64_of(
        sum[2],
        sum[8],
        sum[14],
        4,
    ) + b64_of(sum[3], sum[9], sum[15], 4) + b64_of(sum[4], sum[10], sum[5], 4) + b64_of(
        0,
        0,
        sum[11],
        2,
    )
}

/// What is hashed first: password, salt and password.
pub open spec fn alternate_input(password: Seq<u8>, salt: Seq<u8>) -> Seq<u8> {
    password + salt + password
}

/// One byte for each binary digit of `len`, the lowest digit first: zero for a
/// one, the first byte of the password for a zero.
pub open spec fn length_bytes(password: Seq<u8>, len: nat) -> Seq<u8>
    decreases len,
{
    if len == 0 {
        Seq::empty()
    } else {
        seq![
            if len % 2 == 1 {
                0u8
            } else {
                password[0]
            },
        ] + length_bytes(password, len / 2)
    }
}

/// What is hashed next: password, `$1$`, salt, as many bytes of the first sum
/// as the password has, and the bytes for its length.
pub open spec fn initial_input(password: Seq<u8>, salt: Seq<u8>, alternate: Seq<u8>) -> Seq<u8> {
    password + seq![0x24u8, 0x31u8, 0x24u8] + salt + Seq::new(
        password.len(),
        |i: int| alternate[i % 16],
    ) + length_bytes(password, password.len())
}

/// What is hashed in the round with this index.
pub open spec fn round_input(
    index: int,
    password: Seq<u8>,
    salt: Seq<u8>,
    sum: Seq<u8>,
) -> Seq<u8> {
    let (first, last) = if index % 2 == 1 {
        (password, sum)
    } else {
        (sum, password)
    };
    let third = if index % 3 != 0 {
        salt
    } else {
        Seq::empty()
    };
    let seventh = if index % 7 != 0 {
        password
    } else {
        Seq::empty()
    };
    first + third + seventh + last
}

/// The sum after `rounds` rounds.
pub open spec fn sum_after(rounds: nat, password: Seq<u8>, salt: Seq<u8>) -> Seq<u8>
    decreases rounds,
{
    if rounds == 0 {
        md5_sum(initial_input(password, salt, md5_sum(alternate_input(password, salt))))
    } else {
        md5_sum(
            round_input(
                rounds - 1,
                password,
                salt,
                sum_after((rounds - 1) as nat, password, salt),
            ),
        )
    }
}

/// The text that MD5-crypt makes of a salt and a sum.
pub open spec fn crypt_text(salt: Seq<char>, sum: Seq<u8>) -> Seq<char> {
    "$1$"@ + salt + "$"@ + b64_of_sum(sum)
}

/// The hash of a password.
pub open spec fn md5_crypted(password: Seq<char>, raw_salt: Seq<char>) -> Seq<char> {
    let salt = salt_of(raw_salt);
    crypt_text(salt, sum_after(ROUNDS as nat, encode_utf8(password), encode_utf8(salt)))
}

/// Takes the salt out of a salt or of a whole hash.
pub fn extract_salt(raw: &str) -> (r: String)
    ensures
        r@ == salt_of(raw@),
{
    let chars = chars_of(raw);
    let prefix = chars_of("$1$");
    let start: usize = if starts_with(&chars, &prefix) {
        proof {
            reveal_strlit("$1$");
        }
        3
    } else {
        0
    };
    let ghost value = chars@.skip(start as int);
    proof {
        assert(chars@.skip(0) =~= chars@);
        value.index_of_first_ensures('$');
    }
    let mut salt = String::new();
    let mut i: usize = 0;
    while i < 8 && start + i < chars.len() && chars[start + i] != '$'
        invariant
            start <= 3,
            start <= chars@.len(),
            value == chars@.skip(start as int),
            i <= 8,
            i <= value.len(),
            salt@ == value.take(i as int),
            forall|j: int| 0 <= j < i ==> value[j] != '$',
        decreases 8 - i,
    {
        assert(value[i as int] == chars@[start + i]);
        assert(value.take(i + 1) =~= value.take(i as int).push(value[i as int]));
        salt.push(chars[start + i]);
        i = i + 1;
    }
    proof {
        match value.index_of_first('$') {
            Some(end) => {
                assert(end >= i);
                if i < 8 {
                    assert(value[i as int] == chars@[start + i]);
                    assert(end == i);
                }
                assert(value.take(end).take(i as int) =~= value.take(i as int));
            },
            None => {
                if i < 8 && i < value.len() {
                    assert(value[i as int] == chars@[start + i]);
                    assert(value.contains('$'));
                }
                assert(value.take(value.len() as int) =~= value);
            },
        }
    }
    salt
}

/// `count` digits of the number that three bytes make, the lowest digit first.
pub fn to_b64(b2: u8, b1: u8, b0: u8, count: usize) -> (r: String)
    ensures
        r@ == b64_of(b2, b1, b0, count as nat),
{
    let mut value: u32 = b2 as u32 * 65536 + b1 as u32 * 256 + b0 as u32;
    let mut out = String::new();
    for i in 0..count
        invariant
            b64_of(b2, b1, b0, count as nat) == out@ + b64_digits(value as int, (count - i) as nat),
    {
        proof {
            reveal_strlit("./0123456789ABCDEFGHIJKLMNOPQRSTUVWXYZabcdefghijklmnopqrstuvwxyz");
        }
        let ghost rest = b64_digits(value as int / 64, (count - i - 1) as nat);
        let ghost before = out@;
        let digit = MD5_CRYPT_B64.get_char((value % 64) as usize);
        out.push(digit);
        value = value / 64;
        assert(before + (seq![digit] + rest) =~= out@ + rest);
    }
    assert(out@ + Seq::<char>::empty() =~= out@);
    out
}

/// What is hashed first for a password.
pub fn md5_crypt_alternate_input(password: &[u8], salt: &[u8]) -> (r: Vec<u8>)
    ensures
        r@ == alternate_input(password@, salt@),
{
    let mut input: Vec<u8> = Vec::new();
    input.extend_from_slice(password);
    input.extend_from_slice(salt);
    input.extend_from_slice(password);
    assert(input@ =~= alternate_input(password@, salt@));
    input
}

/// What is hashed next, `alternate` being the sum of what was hashed first.
pub fn md5_crypt_initial_input(password: &[u8], salt: &[u8], alternate: &[u8; 16]) -> (r: Vec<u8>)
    ensures
        r@ == initial_input(password@, salt@, alternate@),
{
    let mut input: Vec<u8> = Vec::new();
    input.extend_from_slice(password);
    input.push(0x24);
    input.push(0x31);
    input.push(0x24);
    input.extend_from_slice(salt);
    let ghost head = password@ + seq![0x24u8, 0x31u8, 0x24u8] + salt@;
    assert(input@ =~= head);
    for i in 0..password.len()
        invariant
            input@ == head + Seq::new(i as nat, |j: int| alternate@[j % 16]),
    {
        input.push(alternate[i % 16]);
        assert(input@ =~= head + Seq::new((i + 1) as nat, |j: int| alternate@[j % 16]));
    }
    let ghost stretched = head + Seq::new(password@.len(), |j: int| alternate@[j % 16]);
    assert(input@ =~= stretched);
    let mut len: usize = password.len();
    assert(stretched + length_bytes(password@, len as nat) == input@ + length_bytes(
        password@,
        len as nat,
    ));
    while len > 0
        invariant
            len <= password@.len(),
            stretched + length_bytes(password@, password@.len()) == input@ + length_bytes(
                password@,
                len as nat,
            ),
        decreases len,
    {
        let ghost before = input@;
        let byte: u8 = if len % 2 == 1 { 0 } else { password[0] };
        input.push(byte);
        assert(before + (seq![byte] + length_bytes(password@, (len / 2) as nat)) =~= input@
            + length_bytes(password@, (len / 2) as nat));
        len = len / 2;
    }
    assert(input@ + Seq::<u8>::empty() =~= input@);
    input
}

/// What is hashed in the round with this index.
pub fn md5_crypt_round_input(
    index: usize,
    password: &[u8],
    salt: &[u8],
    sum: &[u8; 16],
) -> (r: Vec<u8>)
    ensures
        r@ == round_input(index as int, password@, salt@, sum@),
{
    let mut input: Vec<u8> = Vec::new();
    if index % 2 == 1 {
        input.extend_from_slice(password);
    } else {
        input.extend_from_slice(sum);
    }
    if index % 3 != 0 {
        input.extend_from_slice(salt);
    }
    if index % 7 != 0 {
        input.extend_from_slice(password);
    }
    if index % 2 == 1 {
        input.extend_from_slice(sum);
    } else {
        input.extend_from_slice(password);
    }
    assert(input@ =~= round_input(index as int, password@, salt@, sum@));
    input
}

/// The text that MD5-crypt makes of a salt and a sum.
pub fn md5_crypt_text(salt: &str, sum: &[u8; 16]) -> (r: String)
    ensures
        r@ == crypt_text(salt@, sum@),
{
    let mut out = "$1$".to_string();
    out.append(salt);
    out.append("$");
    out.append(to_b64(sum[0], sum[6], sum[12], 4).as_str());
    out.append(to_b64(sum[1], sum[7], sum[13], 4).as_str());
    out.append(to_b64(sum[2], sum[8], sum[14], 4).as_str());
    out.append(to_b64(sum[3], sum[9], sum[15], 4).as_str());
    out.append(to_b64(sum[4], sum[10], sum[5], 4).as_str());
    out.append(to_b64(0, 0, sum[11], 2).as_str());
    assert(out@ =~= crypt_text(salt@, sum@));
    out
}

/// Hashes a password with the salt in `salt`.
pub fn md5_crypt(password: &str, salt: &str) -> (r: String)
    ensures
        r@ == md5_crypted(password@, salt@),
{
    let salt = extract_salt(salt);
    let password_bytes = password.as_bytes();
    let salt_bytes = salt.as_str().as_bytes();
    let alternate = md5_digest(md5_crypt_alternate_input(password_bytes, salt_bytes).as_slice());
    let initial = md5_crypt_initial_input(password_bytes, salt_bytes, &alternate);
    let mut sum = md5_digest(initial.as_slice());
    for i in 0..ROUNDS
        invariant
            sum@ == sum_after(i as nat, password_bytes@, salt_bytes@),
    {
        let input = md5_crypt_round_input(i, password_bytes, salt_bytes, &sum);
        sum = md5_digest(input.as_slice());
    }
    md5_crypt_text(salt.as_str(), &sum)
}

/// A salt has at most eight characters, none of which is a `$`.
pub proof fn law_salt(raw: Seq<char>)
    ensures
        salt_of(raw).len() <= 8,
        !salt_of(raw).contains('$'),
{
    let value = if has_prefix(raw, "$1$"@) {
        raw.skip(3)
    } else {
        raw
    };
    value.index_of_first_ensures('$');
    assert forall|i: int| 0 <= i < salt_of(raw).len() implies salt_of(raw)[i] != '$' by {
        assert(salt_of(raw)[i] == value[i]);
        if value.index_of_first('$') is None {
            assert(!value.contains('$'));
        }
    }
}

/// The salt can be taken out of a hash again.
pub proof fn law_hash_keeps_salt(password: Seq<char>, raw_salt: Seq<char>)
    ensures
        salt_of(md5_crypted(password, raw_salt)) == salt_of(raw_salt),
{
    let salt = salt_of(raw_salt);
    let hash = md5_crypted(password, raw_salt);
    law_salt(raw_salt);
    reveal_strlit("$1$");
    reveal_strlit("$");
    let value = hash.skip(3);
    assert(hash.take(3) =~= "$1$"@);
    assert(value[salt.len() as int] == '$');
    assert(value.contains('$'));
    value.index_of_first_ensures('$');
    let end = value.index_of_first('$').unwrap();
    assert forall|i: int| 0 <= i < salt.len() implies value[i] != '$' by {
        assert(value[i] == salt[i]);
        assert(salt.contains(salt[i]));
    }
    assert(end == salt.len());
    assert(value.take(end) =~= salt);
}

/// Hashing a password with its own hash in place of the salt gives the same
/// hash, which is how a password is checked against its hash.
pub proof fn law_password_is_checked_by_its_hash(password: Seq<char>, raw_salt: Seq<char>)
    ensures
        md5_crypted(password, md5_crypted(password, raw_salt)) == md5_crypted(
            password,
            raw_salt,
        ),
{
    law_hash_keeps_salt(password, raw_salt);
}

proof fn lemma_b64_len(value: int, count: nat)
    ensures
        b64_digits(value, count).len() == count,
    decreases count,
{
    if count > 0 {
        lemma_b64_len(value / 64, (count - 1) as nat);
    }
}

/// A hash is 26 characters longer than its salt: 34 characters at most.
pub proof fn law_hash_len(password: Seq<char>, raw_salt: Seq<char>)
    ensures
        md5_crypted(password, raw_salt).len() == salt_of(raw_salt).len() + 26,
        md5_crypted(password, raw_salt).len() <= 34,
{
    let salt = salt_of(raw_salt);
    let sum = sum_after(ROUNDS as nat, encode_utf8(password), encode_utf8(salt));
    law_salt(raw_salt);
    reveal_strlit("$1$");
    reveal_strlit("$");
    lemma_b64_len(sum[0] * 65536 + sum[6] * 256 + sum[12], 4);
    lemma_b64_len(sum[1] * 65536 + sum[7] * 256 + sum[13], 4);
    lemma_b64_len(sum[2] * 65536 + sum[8] * 256 + sum[14], 4);
    lemma_b64_len(sum[3] * 65536 + sum[9] * 256 + sum[15], 4);
    lemma_b64_len(sum[4] * 65536 + sum[10] * 256 + sum[5], 4);
    lemma_b64_len(0u8 * 65536 + 0u8 * 256 + sum[11], 2);
}

/// A salt is what the text starts with, up to the first `$` or the eighth
/// character. A leading `$1$` does not count.
pub proof fn law_salt_is_the_start(raw: Seq<char>)
    ensures
        ({
            let skipped: int = if raw.len() >= 3 && raw[0] == '$' && raw[1] == '1' && raw[2] == '$' {
                3
            } else {
                0
            };
            let salt = salt_of(raw);
            let end = skipped + salt.len();
            &&& end <= raw.len()
            &&& salt.len() <= 8
            &&& forall|i: int|
                0 <= i < salt.len() ==> #[trigger] salt[i] == raw[skipped + i] && salt[i] != '$'
            &&& salt.len() == 8 || end == raw.len() || raw[end] == '$'
        }),
{
    reveal_strlit("$1$");
    law_salt(raw);
    let salt = salt_of(raw);
    if raw.len() >= 3 {
        if raw[0] == '$' && raw[1] == '1' && raw[2] == '$' {
            assert(raw.take(3) =~= "$1$"@);
        }
        assert(raw.take(3)[0] == raw[0] && raw.take(3)[1] == raw[1] && raw.take(3)[2] == raw[2]);
    }
    let value = if has_prefix(raw, "$1$"@) {
        raw.skip(3)
    } else {
        raw
    };
    value.index_of_first_ensures('$');
    assert forall|i: int| 0 <= i < salt.len() implies #[trigger] salt[i] == value[i] && salt[i]
        != '$' by {
        assert(salt.contains(salt[i]));
    }
}

/// The value of a digit of MD5-crypt: dot and slash, then the decimal digits,
/// the capital letters and the small letters.
pub open spec fn b64_value(c: char) -> int {
    let code = c as int;
    if c == '.' {
        0
    } else if c == '/' {
        1
    } else if '0' <= c <= '9' {
        code - '0' as int + 2
    } else if 'A' <= c <= 'Z' {
        code - 'A' as int + 12
    } else {
        code - 'a' as int + 38
    }
}

/// Every digit of MD5-crypt stands at its value.
pub proof fn law_alphabet(value: int)
    requires
        0 <= value < 64,
    ensures
        MD5_CRYPT_B64@.len() == 64,
        b64_value(MD5_CRYPT_B64@[value]) == value,
{
    reveal_strlit("./0123456789ABCDEFGHIJKLMNOPQRSTUVWXYZabcdefghijklmnopqrstuvwxyz");
}

/// Four digits hold the number that three bytes make, the lowest digit first.
pub proof fn law_four_digits(b2: u8, b1: u8, b0: u8)
    ensures
        ({
            let text = b64_of(b2, b1, b0, 4);
            &&& text.len() == 4
            &&& b64_value(text[0]) + 64 * b64_value(text[1]) + 4096 * b64_value(text[2]) + 262144
                * b64_value(text[3]) == 65536 * b2 + 256 * b1 + b0
            &&& forall|i: int| 0 <= i < 4 ==> 0 <= b64_value(#[trigger] text[i]) < 64
        }),
{
    reveal_with_fuel(b64_digits, 5);
    let n: int = b2 * 65536 + b1 * 256 + b0;
    law_alphabet(n % 64);
    law_alphabet(n / 64 % 64);
    law_alphabet(n / 64 / 64 % 64);
    law_alphabet(n / 64 / 64 / 64 % 64);
}

/// Two digits hold one byte, the lowest digit first.
pub proof fn law_two_digits(b0: u8)
    ensures
        ({
            let text = b64_of(0, 0, b0, 2);
            &&& text.len() == 2
            &&& b64_value(text[0]) + 64 * b64_value(text[1]) == b0
            &&& forall|i: int| 0 <= i < 2 ==> 0 <= b64_value(#[trigger] text[i]) < 64
        }),
{
    reveal_with_fuel(b64_digits, 3);
    law_alphabet(b0 as int % 64);
    law_alphabet(b0 as int / 64 % 64);
}

proof fn lemma_length_bytes(password: Seq<u8>, len: nat, tail: Seq<u8>)
    requires
        len < pow2(tail.len()),
        tail.len() > 0 ==> pow2((tail.len() - 1) as nat) <= len,
        forall|k: int|
            0 <= k < tail.len() ==> #[trigger] tail[k] == if len / pow2(k as nat) % 2 == 1 {
                0u8
            } else {
                password[0]
            },
    ensures
        length_bytes(password, len) == tail,
    decreases tail.len(),
{
    vstd::arithmetic::power2::lemma2_to64();
    if tail.len() == 0 {
        assert(length_bytes(password, len) =~= tail);
    } else {
        lemma_pow2_pos((tail.len() - 1) as nat);
        lemma_pow2_unfold(tail.len());
        let rest = tail.skip(1);
        if rest.len() > 0 {
            lemma_pow2_unfold((tail.len() - 1) as nat);
        }
        assert forall|k: int| 0 <= k < rest.len() implies #[trigger] rest[k] == if len / 2
            / pow2(k as nat) % 2 == 1 {
            0u8
        } else {
            password[0]
        } by {
            assert(rest[k] == tail[k + 1]);
            lemma_pow2_pos(k as nat);
            lemma_pow2_unfold((k + 1) as nat);
            lemma_div_denominator(len as int, 2, pow2(k as nat) as int);
        }
        lemma_length_bytes(password, len / 2, rest);
        assert(tail[0] == if len / pow2(0) % 2 == 1 {
            0u8
        } else {
            password[0]
        });
        assert(length_bytes(password, len) =~= tail);
    }
}

/// A hash is made from the bytes of the password as they are. `tail` is one byte
/// for each binary digit of their number, `sums` is the chain of MD5 sums: the
/// first of them, and then one for each of a thousand rounds. The digits in the
/// hash are those of the last sum, in a fixed order.
pub proof fn law_hash_is_made_of_the_password(
    password: Seq<char>,
    raw_salt: Seq<char>,
    tail: Seq<u8>,
    sums: Seq<Seq<u8>>,
)
    ensures
        ({
            let p = encode_utf8(password);
            let salt = salt_of(raw_salt);
            let s = encode_utf8(salt);
            let first = md5_sum(p + s + p);
            let last = sums[1000];
            ({
                &&& p.len() < pow2(tail.len())
                &&& tail.len() > 0 ==> pow2((tail.len() - 1) as nat) <= p.len()
                &&& forall|k: int|
                    0 <= k < tail.len() ==> #[trigger] tail[k] == if p.len() / pow2(k as nat) % 2
                        == 1 {
                        0u8
                    } else {
                        p[0]
                    }
                &&& sums.len() == 1001
                &&& sums[0] == md5_sum(
                    p + seq![0x24u8, 0x31u8, 0x24u8] + s + Seq::new(
                        p.len(),
                        |i: int| first[i % 16],
                    ) + tail,
                )
                &&& forall|i: int|
                    0 <= i < 1000 ==> md5_sum(
                        (if i % 2 == 1 {
                            p
                        } else {
                            #[trigger] sums[i]
                        }) + (if i % 3 != 0 {
                            s
                        } else {
                            Seq::empty()
                        }) + (if i % 7 != 0 {
                            p
                        } else {
                            Seq::empty()
                        }) + (if i % 2 == 1 {
                            sums[i]
                        } else {
                            p
                        }),
                    ) == sums[i + 1]
            }) ==> md5_crypted(password, raw_salt) == seq!['$', '1', '$'] + salt + seq!['$'] + b64_of(
                last[0],
                last[6],
                last[12],
                4,
            ) + b64_of(last[1], last[7], last[13], 4) + b64_of(last[2], last[8], last[14], 4)
                + b64_of(last[3], last[9], last[15], 4) + b64_of(last[4], last[10], last[5], 4)
                + b64_of(0, 0, last[11], 2)
        }),
{
    let p = encode_utf8(password);
    let salt = salt_of(raw_salt);
    let s = encode_utf8(salt);
    let first = md5_sum(p + s + p);
    let last = sums[1000];
    if {
        &&& p.len() < pow2(tail.len())
        &&& tail.len() > 0 ==> pow2((tail.len() - 1) as nat) <= p.len()
        &&& forall|k: int|
            0 <= k < tail.len() ==> #[trigger] tail[k] == if p.len() / pow2(k as nat) % 2 == 1 {
                0u8
            } else {
                p[0]
            }
        &&& sums.len() == 1001
        &&& sums[0] == md5_sum(
            p + seq![0x24u8, 0x31u8, 0x24u8] + s + Seq::new(p.len(), |i: int| first[i % 16])
                + tail,
        )
        &&& forall|i: int|
            0 <= i < 1000 ==> md5_sum(
                (if i % 2 == 1 {
                    p
                } else {
                    #[trigger] sums[i]
                }) + (if i % 3 != 0 {
                    s
                } else {
                    Seq::empty()
                }) + (if i % 7 != 0 {
                    p
                } else {
                    Seq::empty()
                }) + (if i % 2 == 1 {
                    sums[i]
                } else {
                    p
                }),
            ) == sums[i + 1]
    } {
        lemma_length_bytes(p, p.len(), tail);
        lemma_sums(p, s, sums, 1000);
        reveal_strlit("$1$");
        reveal_strlit("$");
        assert("$1$"@ =~= seq!['$', '1', '$']);
        assert("$"@ =~= seq!['$']);
        assert(md5_crypted(password, raw_salt) =~= seq!['$', '1', '$'] + salt + seq!['$']
            + b64_of(last[0], last[6], last[12], 4) + b64_of(last[1], last[7], last[13], 4)
            + b64_of(last[2], last[8], last[14], 4) + b64_of(last[3], last[9], last[15], 4)
            + b64_of(last[4], last[10], last[5], 4) + b64_of(0, 0, last[11], 2));
    }
}

proof fn lemma_sums(p: Seq<u8>, s: Seq<u8>, sums: Seq<Seq<u8>>, rounds: nat)
    requires
        rounds <= 1000,
        sums[0] == sum_after(0, p, s),
        forall|i: int|
            0 <= i < 1000 ==> md5_sum(
                (if i % 2 == 1 {
                    p
                } else {
                    #[trigger] sums[i]
                }) + (if i % 3 != 0 {
                    s
                } else {
                    Seq::empty()
                }) + (if i % 7 != 0 {
                    p
                } else {
                    Seq::empty()
                }) + (if i % 2 == 1 {
                    sums[i]
                } else {
                    p
                }),
            ) == sums[i + 1],
    ensures
        sums[rounds as int] == sum_after(rounds, p, s),
    decreases rounds,
{
    if rounds > 0 {
        lemma_sums(p, s, sums, (rounds - 1) as nat);
        assert(sums[rounds - 1] == sum_after((rounds - 1) as nat, p, s));
    }
}

/// Digits are written from the lowest on, as many as are asked for.
pub proof fn law_digits_from_the_lowest(value: int, count: nat)
    requires
        value >= 0,
    ensures
        b64_digits(value, 0) == Seq::<char>::empty(),
        ({
            let text = b64_digits(value, count + 1);
            &&& text.len() == count + 1
            &&& b64_value(text[0]) == value % 64
            &&& text.skip(1) == b64_digits(value / 64, count)
        }),
{
    lemma_b64_len(value, count + 1);
    law_alphabet(value % 64);
    assert(b64_digits(value, count + 1).skip(1) =~= b64_digits(value / 64, count));
}

/// What is hashed is the password and the salt as they are, and the sum before:
/// password, salt and password at first, and then in each round the sum and the
/// password at the ends, in turn, with the salt in two rounds of three and the
/// password in six of seven between them.
pub proof fn law_what_is_hashed(index: int, password: Seq<u8>, salt: Seq<u8>, sum: Seq<u8>)
    ensures
        alternate_input(password, salt) == password + salt + password,
        ({
            let input = round_input(index, password, salt, sum);
            let middle = if index % 3 == 0 && index % 7 == 0 {
                Seq::empty()
            } else if index % 3 == 0 {
                password
            } else if index % 7 == 0 {
                salt
            } else {
                salt + password
            };
            &&& index % 2 == 0 ==> input == sum + middle + password
            &&& index % 2 == 1 ==> input == password + middle + sum
        }),
{
    let input = round_input(index, password, salt, sum);
    let middle = if index % 3 == 0 && index % 7 == 0 {
        Seq::empty()
    } else if index % 3 == 0 {
        password
    } else if index % 7 == 0 {
        salt
    } else {
        salt + password
    };
    if index % 2 == 0 {
        assert(input =~= sum + middle + password);
    } else {
        assert(input =~= password + middle + sum);
    }
}

} // verus!
