//! Bytes written in hexadecimal.

use vstd::prelude::*;
use vstd::slice::slice_subrange;

use crate::error::NewcamdError;
use crate::number::digit_of;
use crate::text::{chars_of, decimal_of, digits_of, text_of};

verus! {

use crate::error::{agrees, ErrorView};
use crate::number::{digit_value, law_digit_values, lemma_digit_char};
use crate::text::{decimal, digit_char, digits};
use vstd::utf8::{encode_utf8, is_ascii_chars, is_ascii_chars_encode_utf8};

/// The two hexadecimal digits of each byte.
pub open spec fn hex_text(bytes: Seq<u8>) -> Seq<char> {
    Seq::new(
        bytes.len() * 2,
        |i: int|
            digit_char(
                if i % 2 == 0 {
                    bytes[i / 2] / 16
                } else {
                    bytes[i / 2] % 16
                } as int,
                true,
            ),
    )
}

/// `text` with zeros in front, so that it has `width` characters at least.
pub open spec fn zero_padded(text: Seq<char>, width: int) -> Seq<char> {
    if text.len() < width {
        Seq::new((width - text.len()) as nat, |i: int| '0') + text
    } else {
        text
    }
}

/// `count` bytes from `start` on, each as two lower case digits and a space.
pub open spec fn spaced_hex(data: Seq<u8>, start: int, count: nat) -> Seq<char>
    decreases count,
{
    if count == 0 {
        Seq::empty()
    } else {
        spaced_hex(data, start, (count - 1) as nat) + seq![
            digit_char((data[start + count - 1] / 16) as int, false),
            digit_char((data[start + count - 1] % 16) as int, false),
            ' ',
        ]
    }
}

/// How many bytes the line with this index shows, sixteen at most.
pub open spec fn line_len(data: Seq<u8>, line: int) -> nat {
    if line * 16 + 16 <= data.len() {
        16
    } else {
        (data.len() - line * 16) as nat
    }
}

/// The first `lines` lines of a dump: offset, colon, bytes.
pub open spec fn dump_lines(data: Seq<u8>, lines: nat) -> Seq<char>
    decreases lines,
{
    if lines == 0 {
        Seq::empty()
    } else {
        let line = lines - 1;
        dump_lines(data, line as nat) + zero_padded(digits((line * 16) as nat, 16, false), 4)
            + ": "@ + spaced_hex(data, line * 16, line_len(data, line)) + "\n"@
    }
}

/// A dump of `data`, sixteen bytes on each line, and an empty line after it.
pub open spec fn dump_text(data: Seq<u8>) -> Seq<char> {
    dump_lines(data, ((data.len() + 15) / 16) as nat) + "\n"@
}

/// Writes two hexadecimal digits for each byte.
pub fn hex(bytes: &[u8]) -> (r: String)
    ensures
        r@ == hex_text(bytes@),
{
    let mut text = String::new();
    for i in 0..bytes.len()
        invariant
            text@ == hex_text(bytes@.take(i as int)),
    {
        let ghost before = text@;
        let upper = digits_of((bytes[i] / 16) as u64, 16, true);
        let lower = digits_of((bytes[i] % 16) as u64, 16, true);
        text.append(upper.as_str());
        text.append(lower.as_str());
        assert(text@ =~= hex_text(bytes@.take(i + 1))) by {
            assert forall|j: int| 0 <= j < before.len() implies hex_text(
                bytes@.take(i + 1),
            )[j] == before[j] by {
                assert(bytes@.take(i + 1)[j / 2] == bytes@.take(i as int)[j / 2]);
            }
        }
    }
    assert(bytes@.take(bytes@.len() as int) =~= bytes@);
    text
}

fn offset_text(n: u64) -> (r: String)
    ensures
        r@ == zero_padded(digits(n as nat, 16, false), 4),
{
    let text = digits_of(n, 16, false);
    let chars = chars_of(text.as_str());
    let mut padded = String::new();
    let mut width: usize = chars.len();
    while width < 4
        invariant
            chars@ == digits(n as nat, 16, false),
            chars@.len() <= width,
            width <= 4 || width == chars@.len(),
            padded@ == Seq::new((width - chars@.len()) as nat, |i: int| '0'),
        decreases 4 - width,
    {
        padded.push('0');
        width = width + 1;
        assert(padded@ =~= Seq::new((width - chars@.len()) as nat, |i: int| '0'));
    }
    padded.append(text.as_str());
    assert(padded@ =~= zero_padded(digits(n as nat, 16, false), 4));
    padded
}

/// A dump of `data`, sixteen bytes on each line, and an empty line after it.
pub fn hex_dump(data: &[u8]) -> (r: String)
    ensures
        r@ == dump_text(data@),
{
    let mut text = String::new();
    let mut line: usize = 0;
    let mut pos: usize = 0;
    while pos < data.len()
        invariant
            pos == line * 16 || (pos == data@.len() && line == (data@.len() + 15) / 16),
            line <= (data@.len() + 15) / 16,
            pos <= data@.len(),
            text@ == dump_lines(data@, line as nat),
        decreases data@.len() - pos,
    {
        let ghost before = text@;
        let start: usize = pos;
        let end: usize = if data.len() - pos < 16 { data.len() } else { pos + 16 };
        text.append(offset_text(start as u64).as_str());
        text.append(": ");
        let ghost head = text@;
        assert(spaced_hex(data@, start as int, 0) =~= Seq::<char>::empty());
        assert(head + Seq::<char>::empty() =~= head);
        while pos < end
            invariant
                start <= pos <= end <= data@.len(),
                text@ == head + spaced_hex(data@, start as int, (pos - start) as nat),
            decreases end - pos,
        {
            let ghost shown = text@;
            text.append(digits_of((data[pos] / 16) as u64, 16, false).as_str());
            text.append(digits_of((data[pos] % 16) as u64, 16, false).as_str());
            text.push(' ');
            pos = pos + 1;
            assert(text@ =~= head + spaced_hex(data@, start as int, (pos - start) as nat));
        }
        text.append("\n");
        line = line + 1;
        assert(text@ =~= dump_lines(data@, line as nat));
    }
    text.append("\n");
    text
}

/// The byte that two hexadecimal digits stand for.
pub open spec fn hex_pair(first: char, second: char) -> Option<int> {
    match (digit_value(first, 16), digit_value(second, 16)) {
        (Some(upper), Some(lower)) => Some(upper * 16 + lower),
        _ => None,
    }
}

/// How many pairs of characters from the pair with this index on are
/// hexadecimal digits, up to the first that is not.
pub open spec fn good_pairs_from(text: Seq<char>, index: int) -> int
    decreases text.len() - index,
{
    if index * 2 + 2 > text.len() || hex_pair(text[index * 2], text[index * 2 + 1]) is None {
        0
    } else {
        1 + good_pairs_from(text, index + 1)
    }
}

/// How many pairs of characters of a text are hexadecimal digits, up to the
/// first that is not.
pub open spec fn good_pairs(text: Seq<char>) -> int {
    good_pairs_from(text, 0)
}

/// Whether all of a text is pairs of hexadecimal digits.
pub open spec fn is_hex(text: Seq<char>) -> bool {
    good_pairs(text) * 2 == text.len()
}

/// The bytes that the leading pairs of hexadecimal digits of a text stand for.
pub open spec fn hex_bytes(text: Seq<char>) -> Seq<u8> {
    Seq::new(
        good_pairs(text) as nat,
        |i: int| hex_pair(text[i * 2], text[i * 2 + 1]).unwrap() as u8,
    )
}

/// What stands in a text where the first pair of hexadecimal digits is missing:
/// two characters, or one that takes more than one byte.
pub open spec fn bad_pair(text: Seq<char>) -> Seq<char> {
    let start = good_pairs(text) * 2;
    if text[start] <= '\u{7f}' {
        text.subrange(start, start + 2)
    } else {
        text.subrange(start, start + 1)
    }
}

proof fn lemma_good_pairs(text: Seq<char>, index: int, count: int)
    requires
        0 <= index,
        0 <= count,
        (index + count) * 2 <= text.len(),
        forall|i: int|
            index <= i < index + count ==> hex_pair(#[trigger] text[i * 2], text[i * 2 + 1]) is Some,
        (index + count) * 2 + 2 > text.len() || hex_pair(
            text[(index + count) * 2],
            text[(index + count) * 2 + 1],
        ) is None,
    ensures
        good_pairs_from(text, index) == count,
    decreases count,
{
    if count > 0 {
        assert(hex_pair(text[index * 2], text[index * 2 + 1]) is Some);
        lemma_good_pairs(text, index + 1, count - 1);
    }
}

fn pair_value(first: char, second: char) -> (r: Option<u8>)
    ensures
        match r {
            Some(byte) => hex_pair(first, second) == Some(byte as int),
            None => hex_pair(first, second) is None,
        },
{
    match (digit_of(first, 16), digit_of(second, 16)) {
        (Some(upper), Some(lower)) => Some((upper * 16 + lower) as u8),
        _ => None,
    }
}

/// Reads pairs of hexadecimal digits up to the first two characters that are
/// none.
pub fn leading_hex(text: &[char]) -> (r: Vec<u8>)
    ensures
        r@ == hex_bytes(text@),
        r@.len() == good_pairs(text@),
        r@.len() * 2 <= text@.len(),
        forall|i: int| 0 <= i < r@.len() * 2 ==> '\0' <= #[trigger] text@[i] <= '\u{7f}',
{
    let mut out: Vec<u8> = Vec::new();
    let mut pos: usize = 0;
    while text.len() - pos >= 2
        invariant_except_break
            pos == out@.len() * 2,
            pos <= text@.len(),
            forall|i: int|
                0 <= i < out@.len() ==> hex_pair(#[trigger] text@[i * 2], text@[i * 2 + 1])
                    == Some(out@[i] as int),
            forall|i: int| 0 <= i < pos ==> '\0' <= #[trigger] text@[i] <= '\u{7f}',
        ensures
            pos == out@.len() * 2,
            pos <= text@.len(),
            pos + 2 > text@.len() || hex_pair(text@[pos as int], text@[pos + 1]) is None,
            forall|i: int|
                0 <= i < out@.len() ==> hex_pair(#[trigger] text@[i * 2], text@[i * 2 + 1])
                    == Some(out@[i] as int),
            forall|i: int| 0 <= i < pos ==> '\0' <= #[trigger] text@[i] <= '\u{7f}',
        decreases text@.len() - pos,
    {
        match pair_value(text[pos], text[pos + 1]) {
            None => {
                break;
            },
            Some(byte) => {
                out.push(byte);
                pos = pos + 2;
            },
        }
    }
    proof {
        lemma_good_pairs(text@, 0, out@.len() as int);
        assert(out@ =~= hex_bytes(text@));
    }
    out
}

fn is_ascii(c: char) -> (r: bool)
    ensures
        r == (c <= '\u{7f}'),
        '\0' <= c,
{
    c <= '\u{7f}'
}

proof fn lemma_char_count(text: Seq<char>)
    ensures
        text.len() <= encode_utf8(text).len(),
    decreases text.len(),
{
    if text.len() > 0 {
        lemma_char_count(text.drop_first());
    }
}

/// What stands in a text where the first pair of hexadecimal digits is missing.
pub fn first_bad_pair(text: &str) -> (r: String)
    requires
        encode_utf8(text@).len() % 2 == 0,
        !is_hex(text@),
    ensures
        r@ == bad_pair(text@),
{
    let chars = chars_of(text);
    let len: usize = chars.len();
    let bytes = leading_hex(chars.as_slice());
    let start: usize = bytes.len() * 2;
    let first: char = chars[start];
    if is_ascii(first) {
        proof {
            if start + 1 == len {
                assert forall|i: int| 0 <= i < len implies '\0' <= #[trigger] text@[i]
                    <= '\u{7f}' by {
                    if i < start {
                        assert('\0' <= chars@[i] <= '\u{7f}');
                    } else {
                        assert(text@[i] == first);
                    }
                }
                assert(is_ascii_chars(text@));
                is_ascii_chars_encode_utf8(text@);
            }
        }
        text_of(slice_subrange(chars.as_slice(), start, start + 2))
    } else {
        text_of(slice_subrange(chars.as_slice(), start, start + 1))
    }
}

/// What a text of hexadecimal digits stands for, or why it stands for nothing.
pub open spec fn hex_argument(value: Seq<char>) -> Result<Seq<u8>, ErrorView> {
    if encode_utf8(value).len() % 2 != 0 {
        Err(ErrorView::InvalidData("NEWCAMD_ECM_HEX must have an even number of characters"@))
    } else if !is_hex(value) {
        Err(ErrorView::InvalidData("NEWCAMD_ECM_HEX must contain only hexadecimal characters"@))
    } else {
        Ok(hex_bytes(value))
    }
}

/// Reads a text of hexadecimal digits.
pub fn parse_hex(value: &str) -> (r: Result<Vec<u8>, NewcamdError>)
    ensures
        agrees(r, hex_argument(value@)),
{
    let len: usize = value.as_bytes().len();
    if len % 2 != 0 {
        return Err(
            NewcamdError::InvalidData(
                "NEWCAMD_ECM_HEX must have an even number of characters".to_string(),
            ),
        );
    }
    let chars = chars_of(value);
    let bytes = leading_hex(chars.as_slice());
    if bytes.len() * 2 != chars.len() {
        return Err(
            NewcamdError::InvalidData(
                "NEWCAMD_ECM_HEX must contain only hexadecimal characters".to_string(),
            ),
        );
    }
    Ok(bytes)
}

/// Whether a character has the Unicode property White_Space.
pub open spec fn is_whitespace(c: char) -> bool {
    let code = c as int;
    ||| 0x9 <= code <= 0xD
    ||| code == 0x20
    ||| code == 0x85
    ||| code == 0xA0
    ||| code == 0x1680
    ||| 0x2000 <= code <= 0x200A
    ||| code == 0x2028
    ||| code == 0x2029
    ||| code == 0x202F
    ||| code == 0x205F
    ||| code == 0x3000
}

/// Trusted: `char::is_whitespace` tells whether a character has the Unicode
/// property White_Space, which 25 characters have.
pub assume_specification[ char::is_whitespace ](c: char) -> (r: bool)
    ensures
        r == is_whitespace(c),
;

/// Whether a character only sets groups of hexadecimal digits apart.
pub open spec fn is_separator(c: char) -> bool {
    is_whitespace(c) || c == ':' || c == ','
}

/// A text without its separators.
pub open spec fn compacted(raw: Seq<char>) -> Seq<char> {
    raw.filter(|c: char| !is_separator(c))
}

/// Leaves the separators out of a text.
pub fn compact_hex(raw: &str) -> (r: String)
    ensures
        r@ == compacted(raw@),
{
    let chars = chars_of(raw);
    let mut compact = String::new();
    let ghost kept = |c: char| !is_separator(c);
    assert(raw@.take(0).filter(kept) =~= Seq::<char>::empty()) by {
        reveal(Seq::filter);
    }
    for i in 0..chars.len()
        invariant
            chars@ == raw@,
            kept == (|c: char| !is_separator(c)),
            compact@ == raw@.take(i as int).filter(kept),
    {
        let c = chars[i];
        proof {
            let longer = raw@.take(i + 1);
            assert(longer.drop_last() =~= raw@.take(i as int));
            assert(longer.last() == c);
            reveal(Seq::filter);
            assert(longer.filter(kept) == if kept(c) {
                longer.drop_last().filter(kept).push(c)
            } else {
                longer.drop_last().filter(kept)
            });
        }
        if !c.is_whitespace() && c != ':' && c != ',' {
            compact.push(c);
        }
    }
    assert(raw@.take(raw@.len() as int) =~= raw@);
    compact
}

/// What a text of hexadecimal digits stands for, or why it stands for nothing.
pub open spec fn section_argument(compact: Seq<char>, name: Seq<char>) -> Result<
    Seq<u8>,
    Seq<char>,
> {
    if compact.len() == 0 {
        Err(name + " must not be empty"@)
    } else if encode_utf8(compact).len() % 2 != 0 {
        Err(name + " must contain an even number of hex characters"@)
    } else if !is_hex(compact) {
        Err("invalid hex byte '"@ + bad_pair(compact) + "' in "@ + name)
    } else {
        Ok(hex_bytes(compact))
    }
}

/// Reads a text of hexadecimal digits that has no separators.
pub fn parse_compact_hex(compact: &str, name: &str) -> (r: Result<Vec<u8>, String>)
    ensures
        match (r, section_argument(compact@, name@)) {
            (Ok(bytes), Ok(expected)) => bytes@ == expected,
            (Err(text), Err(expected)) => text@ == expected,
            _ => false,
        },
{
    let len: usize = compact.as_bytes().len();
    let chars = chars_of(compact);
    if chars.len() == 0 {
        return Err(name.to_string().concat(" must not be empty"));
    }
    if len % 2 != 0 {
        return Err(name.to_string().concat(" must contain an even number of hex characters"));
    }
    let bytes = leading_hex(chars.as_slice());
    if bytes.len() * 2 != chars.len() {
        let mut text = "invalid hex byte '".to_string();
        text.append(first_bad_pair(compact).as_str());
        text.append("' in ");
        text.append(name);
        return Err(text);
    }
    Ok(bytes)
}

/// Reads a text of hexadecimal digits. White space, colons and commas in it do
/// not count.
pub fn parse_hex_bytes(raw: &str, name: &str) -> (r: Result<Vec<u8>, String>)
    ensures
        match (r, section_argument(compacted(raw@), name@)) {
            (Ok(bytes), Ok(expected)) => bytes@ == expected,
            (Err(text), Err(expected)) => text@ == expected,
            _ => false,
        },
{
    parse_compact_hex(compact_hex(raw).as_str(), name)
}

/// The key that 28 hexadecimal digits stand for, or why they stand for none.
pub open spec fn des_key_argument(hex: Seq<char>) -> Result<Seq<u8>, Seq<char>> {
    let start = good_pairs(hex) * 2;
    if encode_utf8(hex).len() != 28 {
        Err("NEWCAMD_DES_KEY_HEX must be exactly 28 hex chars (14 bytes)"@)
    } else if !is_hex(hex) {
        Err(
            "invalid hex byte '"@ + bad_pair(hex) + "' at positions "@ + decimal(start as nat)
                + ".."@ + decimal((start + 2) as nat),
        )
    } else {
        Ok(hex_bytes(hex))
    }
}

/// Reads the key of a server, written as 28 hexadecimal digits.
pub fn parse_des_key_14(hex: &str) -> (r: Result<[u8; 14], String>)
    ensures
        match (r, des_key_argument(hex@)) {
            (Ok(key), Ok(bytes)) => key@ == bytes,
            (Err(text), Err(expected)) => text@ == expected,
            _ => false,
        },
{
    let len: usize = hex.as_bytes().len();
    if len != 28 {
        return Err("NEWCAMD_DES_KEY_HEX must be exactly 28 hex chars (14 bytes)".to_string());
    }
    let chars = chars_of(hex);
    let bytes = leading_hex(chars.as_slice());
    if bytes.len() * 2 != chars.len() {
        proof {
            lemma_char_count(hex@);
        }
        let start: usize = bytes.len() * 2;
        let mut text = "invalid hex byte '".to_string();
        text.append(first_bad_pair(hex).as_str());
        text.append("' at positions ");
        text.append(decimal_of(start as u64).as_str());
        text.append("..");
        text.append(decimal_of((start + 2) as u64).as_str());
        return Err(text);
    }
    proof {
        assert(is_ascii_chars(hex@));
        is_ascii_chars_encode_utf8(hex@);
    }
    let mut key = [0u8; 14];
    for i in 0..14usize
        invariant
            bytes@.len() == 14,
            forall|j: int| 0 <= j < i ==> key@[j] == bytes@[j],
    {
        key[i] = bytes[i];
    }
    assert(key@ =~= bytes@);
    Ok(key)
}

/// Bytes written in hexadecimal are all of the text, which can be read.
pub proof fn law_hex_is_hex(bytes: Seq<u8>)
    ensures
        encode_utf8(hex_text(bytes)).len() == bytes.len() * 2,
        is_hex(hex_text(bytes)),
        hex_bytes(hex_text(bytes)) == bytes,
{
    let text = hex_text(bytes);
    assert forall|i: int| 0 <= i < text.len() implies '\0' <= #[trigger] text[i] <= '\u{7f}' by {
        lemma_digit_char((bytes[i / 2] / 16) as int, 16, true);
        lemma_digit_char((bytes[i / 2] % 16) as int, 16, true);
    }
    assert(is_ascii_chars(text));
    is_ascii_chars_encode_utf8(text);
    assert forall|i: int| 0 <= i < bytes.len() implies hex_pair(
        #[trigger] text[i * 2],
        text[i * 2 + 1],
    ) == Some(bytes[i] as int) by {
        lemma_digit_char((bytes[i] / 16) as int, 16, true);
        lemma_digit_char((bytes[i] % 16) as int, 16, true);
        assert((i * 2) / 2 == i && (i * 2 + 1) / 2 == i);
    }
    lemma_good_pairs(text, 0, bytes.len() as int);
    assert(hex_bytes(text) =~= bytes);
}

/// Bytes written in hexadecimal are read back.
pub proof fn law_hex_is_read_back(bytes: Seq<u8>)
    ensures
        hex_argument(hex_text(bytes)) == Ok::<Seq<u8>, ErrorView>(bytes),
{
    law_hex_is_hex(bytes);
}

/// A key written in hexadecimal is read back.
pub proof fn law_des_key_is_read_back(key: Seq<u8>)
    requires
        key.len() == 14,
    ensures
        des_key_argument(hex_text(key)) == Ok::<Seq<u8>, Seq<char>>(key),
{
    law_hex_is_hex(key);
}

proof fn lemma_compacted(raw: Seq<char>)
    ensures
        (forall|i: int| 0 <= i < raw.len() ==> !is_separator(#[trigger] raw[i])) ==> compacted(raw)
            == raw,
        forall|i: int|
            0 <= i < compacted(raw).len() ==> !is_separator(#[trigger] compacted(raw)[i]),
    decreases raw.len(),
{
    reveal(Seq::filter);
    let kept = |c: char| !is_separator(c);
    if raw.len() > 0 {
        let rest = raw.drop_last();
        lemma_compacted(rest);
        assert(compacted(raw) == if kept(raw.last()) {
            compacted(rest).push(raw.last())
        } else {
            compacted(rest)
        });
        assert(rest.push(raw.last()) =~= raw);
        if forall|i: int| 0 <= i < raw.len() ==> !is_separator(#[trigger] raw[i]) {
            assert forall|i: int| 0 <= i < rest.len() implies !is_separator(
                #[trigger] rest[i],
            ) by {
                assert(rest[i] == raw[i]);
            }
            assert(kept(raw.last())) by {
                assert(raw[raw.len() - 1] == raw.last());
            }
        }
    }
}

/// A text without separators stays as it is, so leaving them out twice is no
/// different from leaving them out once.
pub proof fn law_compacting(raw: Seq<char>)
    ensures
        forall|i: int|
            0 <= i < compacted(raw).len() ==> !is_separator(#[trigger] compacted(raw)[i]),
        (forall|i: int| 0 <= i < raw.len() ==> !is_separator(#[trigger] raw[i])) ==> compacted(raw)
            == raw,
        compacted(compacted(raw)) == compacted(raw),
{
    lemma_compacted(raw);
    lemma_compacted(compacted(raw));
}

/// A section written in hexadecimal is read back, unless it is empty.
pub proof fn law_section_is_read_back(section: Seq<u8>, name: Seq<char>)
    requires
        section.len() > 0,
    ensures
        section_argument(compacted(hex_text(section)), name) == Ok::<Seq<u8>, Seq<char>>(section),
{
    let text = hex_text(section);
    law_hex_is_hex(section);
    assert forall|i: int| 0 <= i < text.len() implies !is_separator(#[trigger] text[i]) by {
        lemma_digit_char((section[i / 2] / 16) as int, 16, true);
        lemma_digit_char((section[i / 2] % 16) as int, 16, true);
    }
    law_compacting(text);
}

/// Two characters of which one is no hexadecimal digit are no byte: neither a
/// sign nor a prefix is skipped.
pub proof fn law_only_digits_make_bytes(text: Seq<char>, index: int)
    requires
        0 <= index < text.len(),
        digit_value(text[index], 16) is None,
    ensures
        !is_hex(text),
{
    if is_hex(text) {
        lemma_pairs_are_digits(text, 0, index);
    }
}

proof fn lemma_pairs_are_digits(text: Seq<char>, from: int, index: int)
    requires
        0 <= from,
        from * 2 <= index < (from + good_pairs_from(text, from)) * 2,
    ensures
        digit_value(text[index], 16) is Some,
    decreases text.len() - from,
{
    if index >= from * 2 + 2 {
        lemma_pairs_are_digits(text, from + 1, index);
    }
}

/// Every byte is written as two digits, its upper half first, letters as
/// capitals.
pub proof fn law_hex_digits(bytes: Seq<u8>)
    ensures
        hex_text(bytes).len() == 2 * bytes.len(),
        forall|i: int|
            0 <= i < hex_text(bytes).len() ==> {
                let c = #[trigger] hex_text(bytes)[i];
                let half = if i % 2 == 0 {
                    bytes[i / 2] / 16
                } else {
                    bytes[i / 2] % 16
                };
                if half < 10 {
                    c as int == '0' as int + half
                } else {
                    c as int == 'A' as int + half - 10
                }
            },
{
}

proof fn lemma_good_pairs_are_digits(text: Seq<char>, from: int)
    requires
        0 <= from,
        from * 2 <= text.len(),
    ensures
        0 <= good_pairs_from(text, from),
        (from + good_pairs_from(text, from)) * 2 <= text.len(),
    decreases text.len() - from * 2,
{
    if from * 2 + 2 <= text.len() && hex_pair(text[from * 2], text[from * 2 + 1]) is Some {
        lemma_good_pairs_are_digits(text, from + 1);
    }
}

/// A text can be read exactly if it is an even number of hexadecimal digits, and
/// then every two of them are a byte, the first digit its upper half.
pub proof fn law_what_is_hex(text: Seq<char>)
    ensures
        is_hex(text) <==> text.len() % 2 == 0 && forall|i: int|
            0 <= i < text.len() ==> ('0' <= #[trigger] text[i] <= '9' || 'A' <= text[i] <= 'F'
                || 'a' <= text[i] <= 'f'),
        is_hex(text) ==> {
            &&& hex_bytes(text).len() * 2 == text.len()
            &&& forall|i: int|
                0 <= i < hex_bytes(text).len() ==> Some(#[trigger] hex_bytes(text)[i] / 16)
                    == (match digit_value(text[2 * i], 16) {
                    Some(digit) => Some(digit as u8),
                    None => None,
                }) && Some(hex_bytes(text)[i] % 16) == (match digit_value(text[2 * i + 1], 16) {
                    Some(digit) => Some(digit as u8),
                    None => None,
                })
        },
{
    lemma_good_pairs_are_digits(text, 0);
    let all = text.len() % 2 == 0 && forall|i: int|
        0 <= i < text.len() ==> ('0' <= #[trigger] text[i] <= '9' || 'A' <= text[i] <= 'F' || 'a'
            <= text[i] <= 'f');
    if all {
        assert forall|i: int| 0 <= i < text.len() / 2 implies hex_pair(
            #[trigger] text[i * 2],
            text[i * 2 + 1],
        ) is Some by {
            law_digit_values(text[i * 2]);
            law_digit_values(text[i * 2 + 1]);
        }
        lemma_good_pairs(text, 0, text.len() as int / 2);
    }
    if is_hex(text) {
        assert forall|i: int| 0 <= i < text.len() implies ('0' <= #[trigger] text[i] <= '9' || 'A'
            <= text[i] <= 'F' || 'a' <= text[i] <= 'f') by {
            lemma_pairs_are_digits(text, 0, i);
            law_digit_values(text[i]);
        }
        assert forall|i: int| 0 <= i < hex_bytes(text).len() implies Some(
            #[trigger] hex_bytes(text)[i] / 16,
        ) == (match digit_value(text[2 * i], 16) {
            Some(digit) => Some(digit as u8),
            None => None,
        }) && Some(hex_bytes(text)[i] % 16) == (match digit_value(text[2 * i + 1], 16) {
            Some(digit) => Some(digit as u8),
            None => None,
        }) by {
            lemma_pairs_are_digits(text, 0, i * 2);
            lemma_pairs_are_digits(text, 0, i * 2 + 1);
        }
    }
}

/// What is shown of a text that cannot be read is its first two characters at an
/// even place that are not both digits. If the first of them takes more than one
/// byte, it is shown alone.
pub proof fn law_what_is_shown(text: Seq<char>, place: int)
    requires
        0 <= place,
        place % 2 == 0,
        place + 2 <= text.len(),
        forall|i: int|
            0 <= i < place ==> ('0' <= #[trigger] text[i] <= '9' || 'A' <= text[i] <= 'F' || 'a'
                <= text[i] <= 'f'),
        digit_value(text[place], 16) is None || digit_value(text[place + 1], 16) is None,
    ensures
        good_pairs(text) == place / 2,
        (text[place] as int) < 128 ==> bad_pair(text) == seq![text[place], text[place + 1]],
        (text[place] as int) >= 128 ==> bad_pair(text) == seq![text[place]],
{
    assert forall|i: int| 0 <= i < place / 2 implies hex_pair(
        #[trigger] text[i * 2],
        text[i * 2 + 1],
    ) is Some by {
        law_digit_values(text[i * 2]);
        law_digit_values(text[i * 2 + 1]);
    }
    lemma_good_pairs(text, 0, place / 2);
    if (text[place] as int) < 128 {
        assert(bad_pair(text) =~= seq![text[place], text[place + 1]]);
    } else {
        assert(bad_pair(text) =~= seq![text[place]]);
    }
}

/// A text that is read where digits are asked for gives its bytes if it is all
/// digits. A text of an odd number of bytes is refused as such, one that is not
/// all digits as that.
pub proof fn law_hex_arguments(text: Seq<char>, name: Seq<char>)
    ensures
        is_hex(text) ==> hex_argument(text) == Ok::<Seq<u8>, ErrorView>(hex_bytes(text)),
        is_hex(text) && text.len() == 28 ==> des_key_argument(text) == Ok::<Seq<u8>, Seq<char>>(
            hex_bytes(text),
        ),
        is_hex(text) && text.len() > 0 ==> section_argument(text, name) == Ok::<
            Seq<u8>,
            Seq<char>,
        >(hex_bytes(text)),
        !is_hex(text) ==> hex_argument(text) is Err && des_key_argument(text) is Err && (text.len()
            > 0 ==> section_argument(text, name) is Err),
        text.len() == 0 ==> section_argument(text, name) is Err,
        encode_utf8(text).len() != 28 ==> des_key_argument(text) == Err::<Seq<u8>, Seq<char>>(
            "NEWCAMD_DES_KEY_HEX must be exactly 28 hex chars (14 bytes)"@,
        ),
        encode_utf8(text).len() % 2 != 0 ==> hex_argument(text) == Err::<Seq<u8>, ErrorView>(
            ErrorView::InvalidData("NEWCAMD_ECM_HEX must have an even number of characters"@),
        ),
        encode_utf8(text).len() % 2 == 0 && !is_hex(text) ==> hex_argument(text) == Err::<
            Seq<u8>,
            ErrorView,
        >(ErrorView::InvalidData("NEWCAMD_ECM_HEX must contain only hexadecimal characters"@)),
{
    if is_hex(text) {
        law_what_is_hex(text);
        assert(is_ascii_chars(text));
        is_ascii_chars_encode_utf8(text);
    }
}

/// White space, colons and commas are left out one by one, and nothing else is.
pub proof fn law_separators(raw: Seq<char>, c: char)
    ensures
        compacted(Seq::empty()) == Seq::<char>::empty(),
        is_whitespace(c) || c == ':' || c == ',' ==> compacted(raw.push(c)) == compacted(raw),
        !(is_whitespace(c) || c == ':' || c == ',') ==> compacted(raw.push(c)) == compacted(
            raw,
        ).push(c),
{
    reveal(Seq::filter);
    let longer = raw.push(c);
    let kept = |c: char| !is_separator(c);
    assert(longer.drop_last() =~= raw);
    assert(longer.last() == c);
    assert(compacted(longer) == if kept(c) {
        compacted(raw).push(c)
    } else {
        compacted(raw)
    });
}

/// Whether a dump shows a byte in the line of its offset, as two small
/// hexadecimal digits and a space.
pub open spec fn shows_byte(text: Seq<char>, data: Seq<u8>, i: int) -> bool {
    let at = i / 16 * 55 + 6 + i % 16 * 3;
    &&& text[at] == digit_char(data[i] as int / 16, false)
    &&& text[at + 1] == digit_char(data[i] as int % 16, false)
    &&& text[at + 2] == ' '
}

/// Whether a line of a dump starts with four digits of its offset, a colon and a
/// space, and ends with a line feed behind its bytes.
pub open spec fn shows_line(text: Seq<char>, data: Seq<u8>, line: int) -> bool {
    let at = line * 55;
    let count = if data.len() - line * 16 < 16 {
        data.len() - line * 16
    } else {
        16
    };
    &&& text[at] == digit_char(line / 256 % 16, false)
    &&& text[at + 1] == digit_char(line / 16 % 16, false)
    &&& text[at + 2] == digit_char(line % 16, false)
    &&& text[at + 3] == '0'
    &&& text[at + 4] == ':'
    &&& text[at + 5] == ' '
    &&& text[at + 6 + 3 * count] == '\n'
}

/// A dump of up to 65536 bytes shows every byte and the offset of every line, and
/// ends with an empty line.
pub proof fn law_dump(data: Seq<u8>)
    requires
        data.len() <= 65536,
    ensures
        dump_text(data).len() == 7 * ((data.len() + 15) / 16) + 3 * data.len() + 1,
        dump_text(data).last() == '\n',
        forall|i: int| 0 <= i < data.len() ==> #[trigger] shows_byte(dump_text(data), data, i),
        forall|line: int|
            0 <= line < (data.len() + 15) / 16 ==> #[trigger] shows_line(
                dump_text(data),
                data,
                line,
            ),
{
    let lines = ((data.len() + 15) / 16) as nat;
    let body = dump_lines(data, lines);
    let text = dump_text(data);
    lemma_dump_lines(data, lines);
    reveal_strlit("\n");
    assert(shown_bytes(data, lines as int) == data.len());
    assert(text =~= body.push('\n'));
    assert forall|line: int| 0 <= line < lines implies #[trigger] shows_line(
        text,
        data,
        line,
    ) by {
        assert(shows_line(body, data, line));
        lemma_line_end(data, lines, line);
    }
    assert forall|i: int| 0 <= i < data.len() implies #[trigger] shows_byte(text, data, i) by {
        assert(shows_byte(body, data, i));
        lemma_line_end(data, lines, i / 16);
    }
}

/// How many bytes the first `lines` lines show.
spec fn shown_bytes(data: Seq<u8>, lines: int) -> int {
    if lines * 16 <= data.len() {
        lines * 16
    } else {
        data.len() as int
    }
}

proof fn lemma_line_end(data: Seq<u8>, lines: nat, line: int)
    requires
        0 <= line < lines <= (data.len() + 15) / 16,
    ensures
        line * 55 + 7 + 3 * line_len(data, line) <= 7 * lines + 3 * shown_bytes(
            data,
            lines as int,
        ),
{
}

proof fn lemma_spaced_hex(data: Seq<u8>, start: int, count: nat)
    requires
        0 <= start,
        start + count <= data.len(),
    ensures
        spaced_hex(data, start, count).len() == 3 * count,
        forall|k: int|
            #![trigger spaced_hex(data, start, count)[3 * k]]
            0 <= k < count ==> {
                let text = spaced_hex(data, start, count);
                &&& text[3 * k] == digit_char(data[start + k] as int / 16, false)
                &&& text[3 * k + 1] == digit_char(data[start + k] as int % 16, false)
                &&& text[3 * k + 2] == ' '
            },
    decreases count,
{
    if count > 0 {
        let before = spaced_hex(data, start, (count - 1) as nat);
        let text = spaced_hex(data, start, count);
        lemma_spaced_hex(data, start, (count - 1) as nat);
        assert forall|k: int| #![trigger text[3 * k]] 0 <= k < count implies ({
            &&& text[3 * k] == digit_char(data[start + k] as int / 16, false)
            &&& text[3 * k + 1] == digit_char(data[start + k] as int % 16, false)
            &&& text[3 * k + 2] == ' '
        }) by {
            if k < count - 1 {
                assert(text[3 * k] == before[3 * k]);
            }
        }
    }
}

proof fn lemma_offset(line: int)
    requires
        0 <= line < 4096,
    ensures
        zero_padded(digits((line * 16) as nat, 16, false), 4) == seq![
            digit_char(line / 256 % 16, false),
            digit_char(line / 16 % 16, false),
            digit_char(line % 16, false),
            '0',
        ],
{
    reveal_with_fuel(digits, 5);
    let n = (line * 16) as nat;
    assert(digit_char(0, false) == '0');
    assert(n % 16 == 0 && n / 16 == line);
    assert(zero_padded(digits(n, 16, false), 4) =~= seq![
        digit_char(line / 256 % 16, false),
        digit_char(line / 16 % 16, false),
        digit_char(line % 16, false),
        '0',
    ]);
}

proof fn lemma_dump_lines(data: Seq<u8>, lines: nat)
    requires
        data.len() <= 65536,
        lines <= (data.len() + 15) / 16,
    ensures
        dump_lines(data, lines).len() == 7 * lines + 3 * shown_bytes(data, lines as int),
        forall|i: int|
            0 <= i < shown_bytes(data, lines as int) ==> #[trigger] shows_byte(
                dump_lines(data, lines),
                data,
                i,
            ),
        forall|line: int|
            0 <= line < lines ==> #[trigger] shows_line(dump_lines(data, lines), data, line),
    decreases lines,
{
    if lines > 0 {
        let last = lines - 1;
        let before = dump_lines(data, last as nat);
        let text = dump_lines(data, lines);
        let count = line_len(data, last);
        let offset = zero_padded(digits((last * 16) as nat, 16, false), 4);
        let bytes = spaced_hex(data, last * 16, count);
        lemma_dump_lines(data, last as nat);
        lemma_offset(last);
        lemma_spaced_hex(data, last * 16, count);
        reveal_strlit(": ");
        reveal_strlit("\n");
        assert(last * 16 < data.len());
        assert(shown_bytes(data, last) == last * 16);
        assert(before.len() == 55 * last);
        assert(text == before + offset + ": "@ + bytes + "\n"@);
        assert(shown_bytes(data, lines as int) == last * 16 + count);
        assert forall|i: int| 0 <= i < shown_bytes(data, lines as int) implies #[trigger] shows_byte(
            text,
            data,
            i,
        ) by {
            if i < last * 16 {
                assert(shows_byte(before, data, i));
                lemma_line_end(data, last as nat, i / 16);
            } else {
                let k = i - last * 16;
                assert(i / 16 == last && i % 16 == k);
                assert(bytes[3 * k] == digit_char(data[last * 16 + k] as int / 16, false));
                assert(text[before.len() + 6 + 3 * k] == bytes[3 * k]);
                assert(text[before.len() + 6 + 3 * k + 1] == bytes[3 * k + 1]);
                assert(text[before.len() + 6 + 3 * k + 2] == bytes[3 * k + 2]);
            }
        }
        assert forall|line: int| 0 <= line < lines implies #[trigger] shows_line(
            text,
            data,
            line,
        ) by {
            if line < last {
                assert(shows_line(before, data, line));
                lemma_line_end(data, last as nat, line);
            } else {
                assert(text[55 * last + 0] == offset[0]);
                assert(text[55 * last + 1] == offset[1]);
                assert(text[55 * last + 2] == offset[2]);
                assert(text[55 * last + 3] == offset[3]);
            }
        }
    }
}

/// The error for a key or a section that is not all digits shows what is wrong,
/// and says where or in which argument.
pub proof fn law_hex_refusals(text: Seq<char>, name: Seq<char>)
    ensures
        encode_utf8(text).len() == 28 && !is_hex(text) ==> des_key_argument(text) == Err::<
            Seq<u8>,
            Seq<char>,
        >(
            "invalid hex byte '"@ + bad_pair(text) + "' at positions "@ + decimal(
                (good_pairs(text) * 2) as nat,
            ) + ".."@ + decimal((good_pairs(text) * 2 + 2) as nat),
        ),
        text.len() == 0 ==> section_argument(text, name) == Err::<Seq<u8>, Seq<char>>(
            name + " must not be empty"@,
        ),
        text.len() > 0 && encode_utf8(text).len() % 2 != 0 ==> section_argument(text, name)
            == Err::<Seq<u8>, Seq<char>>(
            name + " must contain an even number of hex characters"@,
        ),
        text.len() > 0 && encode_utf8(text).len() % 2 == 0 && !is_hex(text) ==> section_argument(
            text,
            name,
        ) == Err::<Seq<u8>, Seq<char>>(
            "invalid hex byte '"@ + bad_pair(text) + "' in "@ + name,
        ),
{
}

} // verus!
