//! Bytes written as pairs of hexadecimal digits, and read back.

use crate::text;
use vstd::prelude::*;

verus! {

/// The lower-case hexadecimal digit of `n`, for `n` below sixteen.
pub open spec fn hex_digit(n: nat) -> char {
    if n < 10 {
        (48 + n) as char
    } else {
        (87 + n) as char
    }
}

/// The number that a hexadecimal digit of either case stands for.
pub open spec fn hex_digit_value(c: char) -> Option<nat> {
    if '0' <= c <= '9' {
        Some((c as u32 - 48) as nat)
    } else if 'a' <= c <= 'f' {
        Some((c as u32 - 87) as nat)
    } else if 'A' <= c <= 'F' {
        Some((c as u32 - 55) as nat)
    } else {
        None
    }
}

/// Two lower-case digits for each byte.
pub open spec fn hex_of(bytes: Seq<u8>) -> Seq<char>
    decreases bytes.len(),
{
    if bytes.len() == 0 {
        seq![]
    } else {
        hex_of(bytes.drop_last()) + seq![
            hex_digit(bytes.last() as nat / 16),
            hex_digit(bytes.last() as nat % 16),
        ]
    }
}

/// The byte that two characters write: two digits, or a plus sign and a digit.
pub open spec fn pair_value(a: char, b: char) -> Option<u8> {
    match (hex_digit_value(a), hex_digit_value(b)) {
        (Some(high), Some(low)) => Some((high * 16 + low) as u8),
        (None, Some(low)) => if a == '+' {
            Some(low as u8)
        } else {
            None
        },
        _ => None,
    }
}

/// How many bytes the character takes in UTF-8.
pub open spec fn utf8_width(c: char) -> nat {
    if (c as u32) < 0x80 {
        1
    } else if (c as u32) < 0x800 {
        2
    } else if (c as u32) < 0x1_0000 {
        3
    } else {
        4
    }
}

/// Whether no character lies across the edge of a two-byte chunk of the text,
/// up to and with the first chunk that is not a pair of digits.
pub open spec fn cuts_in_pairs(text: Seq<char>) -> bool
    decreases text.len(),
{
    ||| text.len() == 0
    ||| utf8_width(text[0]) == 2
    ||| {
        &&& text.len() >= 2
        &&& utf8_width(text[0]) == 1
        &&& utf8_width(text[1]) == 1
        &&& pair_value(text[0], text[1]) is Some ==> cuts_in_pairs(text.skip(2))
    }
}

/// The bytes that the two-byte chunks of the text write, where each is a pair
/// of digits.
pub open spec fn paired_bytes(text: Seq<char>) -> Option<Seq<u8>>
    decreases text.len(),
{
    if text.len() == 0 {
        Some(seq![])
    } else if text.len() < 2 {
        None
    } else {
        match (pair_value(text[0], text[1]), paired_bytes(text.skip(2))) {
            (Some(byte), Some(rest)) => Some(seq![byte] + rest),
            _ => None,
        }
    }
}

fn digit_char(n: u8) -> (c: char)
    requires
        n < 16,
    ensures
        c == hex_digit(n as nat),
{
    if n < 10 {
        (48 + n) as char
    } else {
        (87 + n) as char
    }
}

fn digit_value(c: char) -> (value: Option<u8>)
    ensures
        match value {
            Some(n) => n < 16 && hex_digit_value(c) == Some(n as nat),
            None => hex_digit_value(c) is None,
        },
{
    if '0' <= c && c <= '9' {
        Some(c as u8 - 48)
    } else if 'a' <= c && c <= 'f' {
        Some(c as u8 - 87)
    } else if 'A' <= c && c <= 'F' {
        Some(c as u8 - 55)
    } else {
        None
    }
}

fn read_pair(a: char, b: char) -> (value: Option<u8>)
    ensures
        value == pair_value(a, b),
{
    match digit_value(b) {
        None => None,
        Some(low) => match digit_value(a) {
            Some(high) => Some(high * 16 + low),
            None => if a == '+' {
                Some(low)
            } else {
                None
            },
        },
    }
}

/// Write each byte as two digits.
pub fn hex_text(bytes: &[u8]) -> (text: String)
    ensures
        text@ == hex_of(bytes@),
{
    let mut text = String::new();
    let mut i: usize = 0;
    assert(bytes@.take(0) == Seq::<u8>::empty());
    while i < bytes.len()
        invariant
            i <= bytes@.len(),
            text@ == hex_of(bytes@.take(i as int)),
        decreases bytes@.len() - i,
    {
        let byte = bytes[i];
        let ghost before = text@;
        text.push(digit_char(byte / 16));
        text.push(digit_char(byte % 16));
        assert(bytes@.take(i + 1).drop_last() == bytes@.take(i as int));
        assert(text@ == before + seq![hex_digit(byte as nat / 16), hex_digit(byte as nat % 16)]);
        i += 1;
    }
    assert(bytes@.take(bytes@.len() as int) == bytes@);
    text
}

/// A text with a character of two bytes or more in an even place is no row of
/// digit pairs.
proof fn lemma_wide_is_no_pair(c: char, other: char)
    requires
        utf8_width(c) != 1,
    ensures
        pair_value(c, other) is None,
{
}

/// Read the digit pairs of `text`.
pub fn pair_bytes(text: &str) -> (bytes: Option<Vec<u8>>)
    requires
        cuts_in_pairs(text@),
    ensures
        bytes.deep_view() == paired_bytes(text@),
{
    let chars = text::chars_of(text);
    let mut bytes: Vec<u8> = Vec::new();
    let mut i: usize = 0;
    assert(chars@.skip(0) == chars@);
    assert(match paired_bytes(chars@) {
        Some(rest) => Seq::<u8>::empty() + rest == rest,
        None => true,
    });
    while i < chars.len()
        invariant
            i <= chars@.len(),
            chars@ == text@,
            cuts_in_pairs(chars@.skip(i as int)),
            paired_bytes(text@) == (match paired_bytes(chars@.skip(i as int)) {
                Some(rest) => Some(bytes@ + rest),
                None => None,
            }),
        decreases chars@.len() - i,
    {
        let ghost rest = chars@.skip(i as int);
        if chars.len() - i < 2 {
            return None;
        }
        match read_pair(chars[i], chars[i + 1]) {
            None => {
                return None;
            },
            Some(byte) => {
                let ghost before = bytes@;
                bytes.push(byte);
                proof {
                    if utf8_width(rest[0]) == 2 {
                        lemma_wide_is_no_pair(rest[0], rest[1]);
                    }
                    assert(rest.skip(2) == chars@.skip(i + 2));
                    match paired_bytes(rest.skip(2)) {
                        Some(tail) => {
                            assert(before + (seq![byte] + tail) == bytes@ + tail);
                        },
                        None => {},
                    }
                }
                i += 2;
            },
        }
    }
    assert(bytes@ + Seq::<u8>::empty() == bytes@);
    assert(bytes.deep_view() == bytes@);
    Some(bytes)
}

/// Whether the digit pairs of `text` can be read: no character lies across the
/// edge of a chunk that has to be looked at.
pub fn readable_in_pairs(text: &str) -> (yes: bool)
    ensures
        yes == cuts_in_pairs(text@),
{
    let chars = text::chars_of(text);
    let mut i: usize = 0;
    assert(chars@.skip(0) == chars@);
    while i < chars.len()
        invariant
            i <= chars@.len(),
            chars@ == text@,
            cuts_in_pairs(text@) == cuts_in_pairs(chars@.skip(i as int)),
        decreases chars@.len() - i,
    {
        let ghost rest = chars@.skip(i as int);
        assert(rest[0] == chars@[i as int]);
        let a = chars[i];
        if 0x80 <= (a as u32) && (a as u32) < 0x800 {
            return true;
        }
        if (a as u32) >= 0x80 || chars.len() - i < 2 {
            return false;
        }
        let b = chars[i + 1];
        assert(rest[1] == chars@[i + 1]);
        if (b as u32) >= 0x80 {
            return false;
        }
        if read_pair(a, b).is_none() {
            return true;
        }
        assert(rest.skip(2) == chars@.skip(i + 2));
        i += 2;
    }
    true
}

/// The length of the text in bytes is even.
pub open spec fn even_bytes(text: Seq<char>) -> bool {
    vstd::utf8::encode_utf8(text).len() % 2 == 0
}

/// Whether the length of the text in bytes is even.
pub fn has_even_bytes(text: &str) -> (even: bool)
    ensures
        even == even_bytes(text@),
{
    text.as_bytes().len() % 2 == 0
}

proof fn lemma_hex_of_step(bytes: Seq<u8>)
    requires
        bytes.len() > 0,
    ensures
        hex_of(bytes) == seq![hex_digit(bytes[0] as nat / 16), hex_digit(bytes[0] as nat % 16)]
            + hex_of(bytes.skip(1)),
    decreases bytes.len(),
{
    if bytes.len() == 1 {
        assert(bytes.skip(1) == Seq::<u8>::empty());
        assert(bytes.drop_last() == Seq::<u8>::empty());
    } else {
        lemma_hex_of_step(bytes.drop_last());
        assert(bytes.drop_last().skip(1) == bytes.skip(1).drop_last());
    }
}

/// Reading the digits of some bytes gives those bytes back.
pub proof fn lemma_hex_round_trips(bytes: Seq<u8>)
    ensures
        paired_bytes(hex_of(bytes)) == Some(bytes),
        cuts_in_pairs(hex_of(bytes)),
        even_bytes(hex_of(bytes)),
        hex_of(bytes).len() == 2 * bytes.len(),
        vstd::utf8::is_ascii_chars(hex_of(bytes)),
    decreases bytes.len(),
{
    if bytes.len() == 0 {
        assert(bytes == Seq::<u8>::empty());
        vstd::utf8::is_ascii_chars_encode_utf8(hex_of(bytes));
    } else {
        let text = hex_of(bytes);
        lemma_hex_of_step(bytes);
        lemma_hex_round_trips(bytes.skip(1));
        assert(text.skip(2) == hex_of(bytes.skip(1)));
        assert(seq![bytes[0]] + bytes.skip(1) == bytes);
        assert forall|i: int| 0 <= i < text.len() implies (#[trigger] text[i] as nat) < 128 by {
            if i >= 2 {
                assert(text[i] == hex_of(bytes.skip(1))[i - 2]);
            }
        }
        assert(vstd::utf8::is_ascii_chars(text));
        vstd::utf8::is_ascii_chars_encode_utf8(text);
    }
}

proof fn lemma_case_is_ignored(text: Seq<char>)
    ensures
        paired_bytes(text::ascii_lower(text)) == paired_bytes(text),
        cuts_in_pairs(text::ascii_lower(text)) == cuts_in_pairs(text),
    decreases text.len(),
{
    if text.len() >= 2 {
        lemma_case_is_ignored(text.skip(2));
        assert(text::ascii_lower(text).skip(2) =~= text::ascii_lower(text.skip(2)));
        assert(pair_value(text::lower_char(text[0]), text::lower_char(text[1])) == pair_value(
            text[0],
            text[1],
        ));
    }
}

/// Reading the digits of some bytes gives those bytes back, whatever the case of
/// each letter.
pub proof fn lemma_hex_reads_in_either_case(text: Seq<char>, bytes: Seq<u8>)
    requires
        text::ascii_lower(text) == hex_of(bytes),
    ensures
        paired_bytes(text) == Some(bytes),
        cuts_in_pairs(text),
        even_bytes(text),
        text.len() == 2 * bytes.len(),
{
    lemma_hex_round_trips(bytes);
    lemma_case_is_ignored(text);
    assert(vstd::utf8::is_ascii_chars(text)) by {
        assert forall|i: int| 0 <= i < text.len() implies '\0' <= #[trigger] text[i]
            <= '\u{7f}' by {
            assert(hex_of(bytes)[i] == text::lower_char(text[i]));
        }
    }
    vstd::utf8::is_ascii_chars_encode_utf8(text);
}

/// What reads as bytes is digits, two for each byte; a plus sign can only stand in the
/// place of a first digit.
pub proof fn lemma_only_digits_are_read(text: Seq<char>, i: int)
    requires
        paired_bytes(text) is Some,
        0 <= i < text.len(),
    ensures
        text.len() == 2 * paired_bytes(text).unwrap().len(),
        hex_digit_value(text[i]) is Some || (text[i] == '+' && i % 2 == 0),
    decreases text.len(),
{
    let rest = text.skip(2);
    if rest.len() > 0 {
        lemma_only_digits_are_read(
            rest,
            if i >= 2 {
                i - 2
            } else {
                0
            },
        );
    } else {
        assert(paired_bytes(rest) == Some(Seq::<u8>::empty()));
    }
    if i >= 2 {
        assert(rest[i - 2] == text[i]);
    }
}

/// A digit of either case stands for the same number, and no other character for one.
pub proof fn lemma_digits(c: char, n: nat)
    ensures
        n < 16 ==> hex_digit_value(hex_digit(n)) == Some(n),
        'a' <= c <= 'f' ==> hex_digit_value(text::upper_char(c)) == hex_digit_value(c),
        hex_digit_value(c) is Some <==> '0' <= c <= '9' || 'a' <= c <= 'f' || 'A' <= c <= 'F',
        hex_digit_value(c) matches Some(value) ==> value < 16,
{
}

} // verus!
