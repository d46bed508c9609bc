//! UUIDs, as the 128-bit numbers they stand for.

use crate::hexadecimal;
use crate::text;
use vstd::prelude::*;

verus! {

/// A UUID: its sixteen bytes as one number, the first byte highest.
pub type Uuid = u128;

/// The low `count` hexadecimal digits of `value`, in lower case.
pub open spec fn low_digits(value: nat, count: nat) -> Seq<char>
    decreases count,
{
    if count == 0 {
        seq![]
    } else {
        low_digits(value / 16, (count - 1) as nat).push(hexadecimal::hex_digit(value % 16))
    }
}

/// The number that a row of hexadecimal digits writes.
pub open spec fn digits_value(digits: Seq<char>) -> Option<nat>
    decreases digits.len(),
{
    if digits.len() == 0 {
        Some(0)
    } else {
        match (digits_value(digits.drop_last()), hexadecimal::hex_digit_value(digits.last())) {
            (Some(high), Some(low)) => Some(high * 16 + low),
            _ => None,
        }
    }
}

/// The hyphenated form: 8, 4, 4, 4 and 12 digits.
pub open spec fn uuid_chars(uuid: Uuid) -> Seq<char> {
    let digits = low_digits(uuid as nat, 32);
    digits.subrange(0, 8) + seq!['-'] + digits.subrange(8, 12) + seq!['-'] + digits.subrange(12, 16)
        + seq!['-'] + digits.subrange(16, 20) + seq!['-'] + digits.subrange(20, 32)
}

/// The UUID that 36 characters write in the hyphenated form.
pub open spec fn hyphenated_value(chars: Seq<char>) -> Option<nat> {
    if chars.len() == 36 && chars[8] == '-' && chars[13] == '-' && chars[18] == '-' && chars[23]
        == '-' {
        digits_value(
            chars.subrange(0, 8) + chars.subrange(9, 13) + chars.subrange(14, 18) + chars.subrange(
                19,
                23,
            ) + chars.subrange(24, 36),
        )
    } else {
        None
    }
}

/// The UUID that a text writes: 32 digits, or the hyphenated form, which may
/// stand in braces or behind `urn:uuid:`. Letters count in either case.
pub open spec fn uuid_value(chars: Seq<char>) -> Option<nat> {
    if chars.len() == 32 {
        digits_value(chars)
    } else if chars.len() == 36 {
        hyphenated_value(chars)
    } else if chars.len() == 38 && chars[0] == '{' && chars[37] == '}' {
        hyphenated_value(chars.subrange(1, 37))
    } else if chars.len() == 45 && text::ascii_lower(chars.take(9)) == "urn:uuid:"@ {
        hyphenated_value(chars.skip(9))
    } else {
        None
    }
}

/// Write a UUID.
///
/// `uuid::Uuid`'s `Display` gives the hyphenated form in lower case.
#[verifier::external_body]
pub(crate) fn uuid_text(uuid: Uuid) -> (text: String)
    ensures
        text@ == uuid_chars(uuid),
{
    uuid::Uuid::from_u128(uuid).to_string()
}

/// Read a UUID.
///
/// `uuid::Uuid::parse_str` accepts the plain, hyphenated, braced and URN forms
/// and refuses any other text.
#[verifier::external_body]
pub(crate) fn parse_uuid(text: &str) -> (uuid: Option<Uuid>)
    ensures
        match uuid {
            Some(value) => uuid_value(text@) == Some(value as nat),
            None => uuid_value(text@) is None,
        },
{
    uuid::Uuid::parse_str(text).ok().map(|uuid| uuid.as_u128())
}

pub open spec fn pow16(n: nat) -> nat
    decreases n,
{
    if n == 0 {
        1
    } else {
        16 * pow16((n - 1) as nat)
    }
}

proof fn lemma_low_digits(value: nat, count: nat)
    requires
        value < pow16(count),
    ensures
        low_digits(value, count).len() == count,
        digits_value(low_digits(value, count)) == Some(value),
        forall|i: int| 0 <= i < count ==> low_digits(value, count)[i] != '-',
    decreases count,
{
    if count > 0 {
        lemma_low_digits(value / 16, (count - 1) as nat);
        let digits = low_digits(value, count);
        assert(digits.drop_last() == low_digits(value / 16, (count - 1) as nat));
    }
}

/// Reading back the text of a UUID gives that UUID.
pub proof fn lemma_uuid_round_trips(uuid: Uuid)
    ensures
        uuid_chars(uuid).len() == 36,
        uuid_value(uuid_chars(uuid)) == Some(uuid as nat),
{
    assert(pow16(32) == 0x1_0000_0000_0000_0000_0000_0000_0000_0000) by {
        reveal_with_fuel(pow16, 33);
    }
    let digits = low_digits(uuid as nat, 32);
    lemma_low_digits(uuid as nat, 32);
    let chars = uuid_chars(uuid);
    assert(chars.subrange(0, 8) + chars.subrange(9, 13) + chars.subrange(14, 18) + chars.subrange(
        19,
        23,
    ) + chars.subrange(24, 36) == digits);
}

/// Two UUIDs with the same text are the same.
pub proof fn lemma_uuid_text_is_injective(a: Uuid, b: Uuid)
    requires
        uuid_chars(a) == uuid_chars(b),
    ensures
        a == b,
{
    lemma_uuid_round_trips(a);
    lemma_uuid_round_trips(b);
}

} // verus!
