//! Text as a sequence of characters: numbers written out, white space, lines
//! and pieces.

use vstd::prelude::*;

verus! {

/// `String::push` appends its character to the end of the string.
pub assume_specification[ String::push ](string: &mut String, ch: char)
    ensures
        final(string)@ == old(string)@.push(ch),
;

// ---------------------------------------------------------------------------
// Characters
// ---------------------------------------------------------------------------

/// The characters of `text`, one by one.
pub fn chars_of(text: &str) -> (chars: Vec<char>)
    ensures
        chars@ == text@,
{
    let mut chars: Vec<char> = Vec::new();
    for c in it: text.chars()
        invariant
            it.seq() == text@,
            chars@ == text@.take(it.index() as int),
    {
        chars.push(c);
        assert(chars@ == text@.take(it.index() + 1));
    }
    chars
}

/// The characters `from..to` of `chars`, as text.
pub fn text_of(chars: &Vec<char>, from: usize, to: usize) -> (text: String)
    requires
        from <= to <= chars@.len(),
    ensures
        text@ == chars@.subrange(from as int, to as int),
{
    let mut text = String::new();
    let mut i: usize = from;
    while i < to
        invariant
            from <= i <= to <= chars@.len(),
            text@ == chars@.subrange(from as int, i as int),
        decreases to - i,
    {
        text.push(chars[i]);
        assert(chars@.subrange(from as int, i + 1) == chars@.subrange(from as int, i as int).push(
            chars@[i as int],
        ));
        i += 1;
    }
    text
}

/// Whether two texts hold the same characters.
pub fn same(a: &str, b: &str) -> (equal: bool)
    ensures
        equal == (a@ == b@),
{
    let x = a.as_bytes();
    let y = b.as_bytes();
    proof {
        vstd::utf8::encode_utf8_decode_utf8(a@);
        vstd::utf8::encode_utf8_decode_utf8(b@);
    }
    if x.len() != y.len() {
        return false;
    }
    let mut i: usize = 0;
    while i < x.len()
        invariant
            i <= x@.len(),
            x@.len() == y@.len(),
            x@ == vstd::utf8::encode_utf8(a@),
            y@ == vstd::utf8::encode_utf8(b@),
            forall|j: int| 0 <= j < i ==> x@[j] == y@[j],
        decreases x@.len() - i,
    {
        if x[i] != y[i] {
            return false;
        }
        i += 1;
    }
    assert(x@ == y@);
    true
}

/// An ASCII letter in upper case; any other character as it is.
pub open spec fn upper_char(c: char) -> char {
    if 'a' <= c <= 'z' {
        (c as u32 - 32) as char
    } else {
        c
    }
}

/// An ASCII letter in lower case; any other character as it is.
pub open spec fn lower_char(c: char) -> char {
    if 'A' <= c <= 'Z' {
        (c as u32 + 32) as char
    } else {
        c
    }
}

pub open spec fn ascii_upper(text: Seq<char>) -> Seq<char> {
    text.map_values(|c: char| upper_char(c))
}

pub open spec fn ascii_lower(text: Seq<char>) -> Seq<char> {
    text.map_values(|c: char| lower_char(c))
}

fn to_upper_char(c: char) -> (upper: char)
    ensures
        upper == upper_char(c),
{
    if 'a' <= c && c <= 'z' {
        ((c as u8) - 32) as char
    } else {
        c
    }
}

fn to_lower_char(c: char) -> (lower: char)
    ensures
        lower == lower_char(c),
{
    if 'A' <= c && c <= 'Z' {
        ((c as u8) + 32) as char
    } else {
        c
    }
}

/// The text with its ASCII letters in upper case.
pub fn to_ascii_upper(text: &str) -> (upper: String)
    ensures
        upper@ == ascii_upper(text@),
{
    let mut upper = String::new();
    for c in it: text.chars()
        invariant
            it.seq() == text@,
            upper@ == ascii_upper(text@.take(it.index() as int)),
    {
        upper.push(to_upper_char(c));
        assert(upper@ == ascii_upper(text@.take(it.index() + 1)));
    }
    assert(text@.take(text@.len() as int) == text@);
    upper
}

/// The text with its ASCII letters in lower case.
pub fn to_ascii_lower(text: &str) -> (lower: String)
    ensures
        lower@ == ascii_lower(text@),
{
    let mut lower = String::new();
    for c in it: text.chars()
        invariant
            it.seq() == text@,
            lower@ == ascii_lower(text@.take(it.index() as int)),
    {
        lower.push(to_lower_char(c));
        assert(lower@ == ascii_lower(text@.take(it.index() + 1)));
    }
    assert(text@.take(text@.len() as int) == text@);
    lower
}

// ---------------------------------------------------------------------------
// Numbers
// ---------------------------------------------------------------------------

/// The decimal digit of `n`, for `n` below ten.
pub open spec fn digit(n: nat) -> char {
    (48 + n) as char
}

/// `n` in decimal, without leading zeros.
pub open spec fn decimal(n: nat) -> Seq<char>
    decreases n,
{
    if n < 10 {
        seq![digit(n)]
    } else {
        decimal(n / 10).push(digit(n % 10))
    }
}

/// `n` in decimal, with a minus sign where it is negative.
pub open spec fn signed_decimal(n: int) -> Seq<char> {
    if n < 0 {
        seq!['-'] + decimal((-n) as nat)
    } else {
        decimal(n as nat)
    }
}

/// `text` with `fill` in front of it until it is `width` characters long.
pub open spec fn left_padded(text: Seq<char>, fill: char, width: nat) -> Seq<char> {
    if text.len() >= width {
        text
    } else {
        Seq::new((width - text.len()) as nat, |i: int| fill) + text
    }
}

/// `text` with spaces behind it until it is `width` characters long.
pub open spec fn right_padded(text: Seq<char>, width: nat) -> Seq<char> {
    if text.len() >= width {
        text
    } else {
        text + Seq::new((width - text.len()) as nat, |i: int| ' ')
    }
}

fn digit_char(n: u64) -> (c: char)
    requires
        n < 10,
    ensures
        c == digit(n as nat),
{
    (48u8 + n as u8) as char
}

/// Write `n` in decimal.
pub fn decimal_text(n: u64) -> (text: String)
    ensures
        text@ == decimal(n as nat),
{
    wide_decimal_text(n as u128)
}

/// Write `n` in decimal.
pub fn wide_decimal_text(n: u128) -> (text: String)
    ensures
        text@ == decimal(n as nat),
    decreases n,
{
    if n < 10 {
        let mut text = String::new();
        text.push(digit_char(n as u64));
        assert(text@ == seq![digit(n as nat)]);
        text
    } else {
        let mut text = wide_decimal_text(n / 10);
        text.push(digit_char((n % 10) as u64));
        text
    }
}

/// Write `n` in decimal, with its sign.
pub fn signed_text(n: i64) -> (text: String)
    ensures
        text@ == signed_decimal(n as int),
{
    if n < 0 {
        let mut text = String::new();
        text.push('-');
        let magnitude: u64 = if n == i64::MIN {
            0x8000_0000_0000_0000
        } else {
            (-n) as u64
        };
        let digits = decimal_text(magnitude);
        text.append(digits.as_str());
        assert(text@ == seq!['-'] + decimal((-n) as nat));
        text
    } else {
        decimal_text(n as u64)
    }
}

/// Put `fill` in front of `text` until it is `width` characters long.
pub fn pad_left(text: &str, fill: char, width: usize) -> (padded: String)
    ensures
        padded@ == left_padded(text@, fill, width as nat),
{
    let length = text.unicode_len();
    let mut padded = String::new();
    if length < width {
        let mut i: usize = 0;
        while i < width - length
            invariant
                length < width,
                i <= width - length,
                padded@ == Seq::new(i as nat, |j: int| fill),
            decreases width - length - i,
        {
            padded.push(fill);
            assert(padded@ == Seq::new((i + 1) as nat, |j: int| fill));
            i += 1;
        }
    }
    padded.append(text);
    assert(Seq::<char>::empty() + text@ == text@);
    padded
}

/// Put spaces behind `text` until it is `width` characters long.
pub fn pad_right(text: &str, width: usize) -> (padded: String)
    ensures
        padded@ == right_padded(text@, width as nat),
{
    let length = text.unicode_len();
    let mut padded = text.to_owned();
    if length < width {
        let mut i: usize = 0;
        while i < width - length
            invariant
                length == text@.len(),
                length < width,
                i <= width - length,
                padded@ == text@ + Seq::new(i as nat, |j: int| ' '),
            decreases width - length - i,
        {
            padded.push(' ');
            assert(padded@ == text@ + Seq::new((i + 1) as nat, |j: int| ' '));
            i += 1;
        }
    }
    padded
}

pub open spec fn is_digit(c: char) -> bool {
    '0' <= c <= '9'
}

pub open spec fn digit_value(c: char) -> nat {
    (c as u32 - 48) as nat
}

/// The number that a run of decimal digits writes.
pub open spec fn decimal_value(digits: Seq<char>) -> nat
    decreases digits.len(),
{
    if digits.len() == 0 {
        0
    } else {
        decimal_value(digits.drop_last()) * 10 + digit_value(digits.last())
    }
}

/// The digits of a decimal number, after the plus sign that may stand before
/// them.
pub open spec fn unsigned_digits(text: Seq<char>) -> Seq<char> {
    if text.len() > 0 && text[0] == '+' {
        text.skip(1)
    } else {
        text
    }
}

/// The number of at most `max` that `text` writes in decimal: an optional plus
/// sign, then at least one digit, and nothing else.
pub open spec fn unsigned_value(text: Seq<char>, max: nat) -> Option<nat> {
    let digits = unsigned_digits(text);
    if digits.len() > 0 && (forall|i: int| 0 <= i < digits.len() ==> is_digit(digits[i]))
        && decimal_value(digits) <= max {
        Some(decimal_value(digits))
    } else {
        None
    }
}

/// Digits can only make a number larger.
proof fn lemma_decimal_value_grows(digits: Seq<char>, cut: int)
    requires
        0 <= cut <= digits.len(),
        forall|i: int| 0 <= i < digits.len() ==> is_digit(digits[i]),
    ensures
        decimal_value(digits.take(cut)) <= decimal_value(digits),
    decreases digits.len(),
{
    if cut == digits.len() {
        assert(digits.take(cut) == digits);
    } else {
        lemma_decimal_value_grows(digits.drop_last(), cut);
        assert(digits.drop_last().take(cut) == digits.take(cut));
    }
}

/// Read an unsigned decimal number of at most `max`.
pub fn parse_unsigned(text: &str, max: u64) -> (number: Option<u64>)
    ensures
        match number {
            Some(n) => unsigned_value(text@, max as nat) == Some(n as nat),
            None => unsigned_value(text@, max as nat) is None,
        },
{
    let chars = chars_of(text);
    let start: usize = if chars.len() > 0 && chars[0] == '+' {
        1
    } else {
        0
    };
    let ghost digits = unsigned_digits(text@);
    assert(digits == text@.skip(start as int));
    if start == chars.len() {
        return None;
    }
    let mut value: u64 = 0;
    let mut i: usize = start;
    while i < chars.len()
        invariant
            start <= i <= chars@.len(),
            start < chars@.len(),
            chars@ == text@,
            digits == text@.skip(start as int),
            digits == unsigned_digits(text@),
            value <= max,
            forall|j: int| 0 <= j < i - start ==> is_digit(#[trigger] digits[j]),
            value == decimal_value(digits.take(i - start)),
        decreases chars@.len() - i,
    {
        let c = chars[i];
        assert(digits[i - start] == c);
        if c < '0' || c > '9' {
            assert(!is_digit(digits[i - start]));
            return None;
        }
        let d: u64 = ((c as u8) - 48) as u64;
        let ghost longer = digits.take(i - start + 1);
        assert(longer.drop_last() == digits.take(i - start));
        assert(longer.last() == c);
        assert(decimal_value(longer) == value * 10 + d);
        if value > max / 10 || d > max - value * 10 {
            proof {
                if forall|j: int| 0 <= j < digits.len() ==> is_digit(digits[j]) {
                    lemma_decimal_value_grows(digits, i - start + 1);
                }
            }
            return None;
        }
        value = value * 10 + d;
        i += 1;
    }
    assert(digits.take(digits.len() as int) == digits);
    Some(value)
}

// ---------------------------------------------------------------------------
// Pieces
// ---------------------------------------------------------------------------

/// Where `c` first occurs in `text`, or the length of `text`.
pub open spec fn find(text: Seq<char>, c: char) -> nat
    decreases text.len(),
{
    if text.len() == 0 || text[0] == c {
        0
    } else {
        1 + find(text.skip(1), c)
    }
}

/// Where `c` last occurs in `text`, or minus one.
pub open spec fn rfind(text: Seq<char>, c: char) -> int
    decreases text.len(),
{
    if text.len() == 0 {
        -1
    } else if text.last() == c {
        text.len() - 1
    } else {
        rfind(text.drop_last(), c)
    }
}

/// The parts of `text` between the occurrences of `sep`.
pub open spec fn pieces(text: Seq<char>, sep: char) -> Seq<Seq<char>>
    decreases text.len(),
{
    let i = find(text, sep) as int;
    if i >= text.len() {
        seq![text]
    } else {
        seq![text.take(i)] + pieces(text.skip(i + 1), sep)
    }
}

/// A line without the carriage return that may stand before its line feed.
pub open spec fn chop_return(line: Seq<char>) -> Seq<char> {
    if line.len() > 0 && line.last() == '\r' {
        line.drop_last()
    } else {
        line
    }
}

/// The lines of `text`: each ends at a line feed, which a carriage return may
/// precede, and the last one may lack its line feed.
pub open spec fn lines(text: Seq<char>) -> Seq<Seq<char>>
    decreases text.len(),
{
    let i = find(text, '\n') as int;
    if text.len() == 0 {
        seq![]
    } else if i >= text.len() {
        seq![text]
    } else {
        seq![chop_return(text.take(i))] + lines(text.skip(i + 1))
    }
}

/// `find` names the first index that holds `c`.
pub proof fn lemma_find(text: Seq<char>, c: char)
    ensures
        find(text, c) <= text.len(),
        find(text, c) < text.len() ==> text[find(text, c) as int] == c,
        forall|j: int| 0 <= j < find(text, c) ==> text[j] != c,
    decreases text.len(),
{
    if text.len() > 0 && text[0] != c {
        lemma_find(text.skip(1), c);
        assert forall|j: int| 0 <= j < find(text, c) implies text[j] != c by {
            if j > 0 {
                assert(text.skip(1)[j - 1] == text[j]);
            }
        }
    }
}

/// The index that holds `c` and has none before it is the one `find` names.
pub proof fn lemma_find_is(text: Seq<char>, c: char, i: int)
    requires
        0 <= i <= text.len(),
        i < text.len() ==> text[i] == c,
        forall|j: int| 0 <= j < i ==> text[j] != c,
    ensures
        find(text, c) == i,
{
    lemma_find(text, c);
}

/// `rfind` names the last index that holds `c`.
pub proof fn lemma_rfind(text: Seq<char>, c: char)
    ensures
        -1 <= rfind(text, c) < text.len(),
        0 <= rfind(text, c) ==> text[rfind(text, c)] == c,
        forall|j: int| rfind(text, c) < j < text.len() ==> text[j] != c,
    decreases text.len(),
{
    if text.len() > 0 && text.last() != c {
        lemma_rfind(text.drop_last(), c);
        assert forall|j: int| rfind(text, c) < j < text.len() implies text[j] != c by {
            if j < text.len() - 1 {
                assert(text.drop_last()[j] == text[j]);
            }
        }
    }
}

/// Find the first `c` in `chars` from `start` on; the length where there is none.
pub fn find_from(chars: &Vec<char>, c: char, start: usize) -> (i: usize)
    requires
        start <= chars@.len(),
    ensures
        start <= i <= chars@.len(),
        i == start + find(chars@.skip(start as int), c),
{
    let mut i: usize = start;
    let ghost rest = chars@.skip(start as int);
    while i < chars.len() && chars[i] != c
        invariant
            start <= i <= chars@.len(),
            rest == chars@.skip(start as int),
            forall|j: int| 0 <= j < i - start ==> rest[j] != c,
        decreases chars@.len() - i,
    {
        assert(rest[i - start] == chars@[i as int]);
        i += 1;
    }
    proof {
        lemma_find_is(rest, c, i - start);
    }
    i
}

/// Find the last `c` in `chars`.
pub fn rfind_in(chars: &Vec<char>, c: char) -> (i: Option<usize>)
    ensures
        match i {
            Some(n) => n == rfind(chars@, c) && n < chars@.len(),
            None => rfind(chars@, c) == -1,
        },
{
    proof {
        lemma_rfind(chars@, c);
    }
    let mut i: usize = chars.len();
    while i > 0
        invariant
            i <= chars@.len(),
            forall|j: int| i <= j < chars@.len() ==> chars@[j] != c,
            -1 <= rfind(chars@, c) < chars@.len(),
            0 <= rfind(chars@, c) ==> chars@[rfind(chars@, c)] == c,
            forall|j: int| rfind(chars@, c) < j < chars@.len() ==> chars@[j] != c,
        decreases i,
    {
        i -= 1;
        if chars[i] == c {
            return Some(i);
        }
    }
    None
}

/// Split `text` at each `sep`.
pub fn split(text: &str, sep: char) -> (parts: Vec<String>)
    ensures
        parts.deep_view() == pieces(text@, sep),
{
    let chars = chars_of(text);
    let mut parts: Vec<String> = Vec::new();
    let mut start: usize = 0;
    assert(chars@.skip(0) == chars@);
    loop
        invariant
            start <= chars@.len(),
            chars@ == text@,
            pieces(text@, sep) == parts.deep_view() + pieces(chars@.skip(start as int), sep),
        decreases chars@.len() - start,
    {
        let ghost rest = chars@.skip(start as int);
        let ghost before = parts.deep_view();
        proof {
            lemma_find(rest, sep);
        }
        let end = find_from(&chars, sep, start);
        parts.push(text_of(&chars, start, end));
        assert(chars@.subrange(start as int, end as int) == rest.take(end - start));
        assert(parts.deep_view() == before.push(rest.take(end - start)));
        if end == chars.len() {
            assert(rest.take(end - start) == rest);
            assert(pieces(rest, sep) == seq![rest]);
            assert(parts.deep_view() == before + seq![rest]);
            return parts;
        }
        assert(rest.skip(end - start + 1) == chars@.skip(end + 1));
        assert(parts.deep_view() + pieces(chars@.skip(end + 1), sep) == before + (seq![
            rest.take(end - start),
        ] + pieces(chars@.skip(end + 1), sep)));
        start = end + 1;
    }
}

/// Split `text` into its lines.
pub fn split_lines(text: &str) -> (parts: Vec<String>)
    ensures
        parts.deep_view() == lines(text@),
{
    let chars = chars_of(text);
    let mut parts: Vec<String> = Vec::new();
    let mut start: usize = 0;
    assert(chars@.skip(0) == chars@);
    assert(parts.deep_view() + lines(chars@) == lines(chars@));
    while start < chars.len()
        invariant
            start <= chars@.len(),
            chars@ == text@,
            lines(text@) == parts.deep_view() + lines(chars@.skip(start as int)),
        decreases chars@.len() - start,
    {
        let ghost rest = chars@.skip(start as int);
        let ghost before = parts.deep_view();
        proof {
            lemma_find(rest, '\n');
        }
        let end = find_from(&chars, '\n', start);
        if end == chars.len() {
            parts.push(text_of(&chars, start, end));
            assert(chars@.subrange(start as int, end as int) == rest);
            assert(parts.deep_view() == before + seq![rest]);
            return parts;
        }
        let stop: usize = if end > start && chars[end - 1] == '\r' {
            end - 1
        } else {
            end
        };
        parts.push(text_of(&chars, start, stop));
        let ghost line = chop_return(rest.take(end - start));
        assert(chars@.subrange(start as int, stop as int) == line);
        assert(rest.skip(end - start + 1) == chars@.skip(end + 1));
        assert(parts.deep_view() == before.push(line));
        assert(parts.deep_view() + lines(chars@.skip(end + 1)) == before + (seq![line] + lines(
            chars@.skip(end + 1),
        )));
        start = end + 1;
    }
    assert(parts.deep_view() + lines(chars@.skip(start as int)) == parts.deep_view());
    parts
}

// ---------------------------------------------------------------------------
// White space
// ---------------------------------------------------------------------------

/// The characters with Unicode's White_Space property.
pub open spec fn is_white(c: char) -> bool {
    let n = c as u32;
    ||| 0x9 <= n <= 0xd
    ||| n == 0x20
    ||| n == 0x85
    ||| n == 0xa0
    ||| n == 0x1680
    ||| 0x2000 <= n <= 0x200a
    ||| n == 0x2028
    ||| n == 0x2029
    ||| n == 0x202f
    ||| n == 0x205f
    ||| n == 0x3000
}

/// Whether `c` has Unicode's White_Space property.
pub fn white(c: char) -> (yes: bool)
    ensures
        yes == is_white(c),
{
    let n = c as u32;
    (0x9 <= n && n <= 0xd) || n == 0x20 || n == 0x85 || n == 0xa0 || n == 0x1680 || (0x2000 <= n && n
        <= 0x200a) || n == 0x2028 || n == 0x2029 || n == 0x202f || n == 0x205f || n == 0x3000
}

/// `text` without the white space in front.
pub open spec fn trimmed_start(text: Seq<char>) -> Seq<char>
    decreases text.len(),
{
    if text.len() > 0 && is_white(text[0]) {
        trimmed_start(text.skip(1))
    } else {
        text
    }
}

/// `text` without the white space behind.
pub open spec fn trimmed_end(text: Seq<char>) -> Seq<char>
    decreases text.len(),
{
    if text.len() > 0 && is_white(text.last()) {
        trimmed_end(text.drop_last())
    } else {
        text
    }
}

/// `text` without the white space at either end.
pub open spec fn trimmed(text: Seq<char>) -> Seq<char> {
    trimmed_end(trimmed_start(text))
}

/// Remove the white space at either end.
pub fn trim(text: &str) -> (inner: String)
    ensures
        inner@ == trimmed(text@),
{
    let chars = chars_of(text);
    let mut start: usize = 0;
    assert(chars@.skip(0) == chars@);
    while start < chars.len() && white(chars[start])
        invariant
            start <= chars@.len(),
            trimmed_start(chars@) == trimmed_start(chars@.skip(start as int)),
        decreases chars@.len() - start,
    {
        assert(chars@.skip(start as int).skip(1) == chars@.skip(start + 1));
        start += 1;
    }
    let ghost rest = chars@.skip(start as int);
    assert(trimmed_start(chars@) == rest);
    let mut end: usize = chars.len();
    assert(rest.take(end - start) == rest);
    while end > start && white(chars[end - 1])
        invariant
            start <= end <= chars@.len(),
            rest == chars@.skip(start as int),
            trimmed_end(rest) == trimmed_end(rest.take(end - start)),
        decreases end,
    {
        assert(rest.take(end - start).drop_last() == rest.take(end - start - 1));
        end -= 1;
    }
    assert(chars@.subrange(start as int, end as int) == rest.take(end - start));
    text_of(&chars, start, end)
}

/// How many characters stand before the first white space.
pub open spec fn word_length(text: Seq<char>) -> nat
    decreases text.len(),
{
    if text.len() == 0 || is_white(text[0]) {
        0
    } else {
        1 + word_length(text.skip(1))
    }
}

/// The first run of characters that are not white space.
pub open spec fn first_word(text: Seq<char>) -> Option<Seq<char>> {
    let rest = trimmed_start(text);
    if rest.len() == 0 {
        None
    } else {
        Some(rest.take(word_length(rest) as int))
    }
}

/// What follows the first word.
pub open spec fn after_first_word(text: Seq<char>) -> Seq<char> {
    let rest = trimmed_start(text);
    rest.skip(word_length(rest) as int)
}

/// Take the first word off `text`: the word, if there is one, and the rest.
pub fn take_word(text: &str) -> (parts: (Option<String>, String))
    ensures
        parts.0.deep_view() == first_word(text@),
        parts.1@ == after_first_word(text@),
{
    let chars = chars_of(text);
    let mut start: usize = 0;
    assert(chars@.skip(0) == chars@);
    while start < chars.len() && white(chars[start])
        invariant
            start <= chars@.len(),
            trimmed_start(chars@) == trimmed_start(chars@.skip(start as int)),
        decreases chars@.len() - start,
    {
        assert(chars@.skip(start as int).skip(1) == chars@.skip(start + 1));
        start += 1;
    }
    let ghost rest = chars@.skip(start as int);
    assert(trimmed_start(chars@) == rest);
    let mut end: usize = start;
    assert(rest.skip(0) == rest);
    while end < chars.len() && !white(chars[end])
        invariant
            start <= end <= chars@.len(),
            rest == chars@.skip(start as int),
            word_length(rest) == (end - start) + word_length(rest.skip(end - start)),
        decreases chars@.len() - end,
    {
        assert(rest.skip(end - start).skip(1) == rest.skip(end - start + 1));
        assert(rest.skip(end - start)[0] == chars@[end as int]);
        end += 1;
    }
    assert(word_length(rest) == end - start) by {
        if end < chars.len() {
            assert(rest.skip(end - start)[0] == chars@[end as int]);
        }
    }
    assert(chars@.subrange(start as int, end as int) == rest.take(end - start));
    assert(chars@.subrange(end as int, chars@.len() as int) == rest.skip(end - start));
    let tail = text_of(&chars, end, chars.len());
    if start == chars.len() {
        (None, tail)
    } else {
        (Some(text_of(&chars, start, end)), tail)
    }
}

// ---------------------------------------------------------------------------
// Prefixes
// ---------------------------------------------------------------------------

/// Whether `text` begins with `prefix`.
pub open spec fn has_prefix(text: Seq<char>, prefix: Seq<char>) -> bool {
    prefix.len() <= text.len() && text.take(prefix.len() as int) == prefix
}

/// What follows `prefix` in `text`, where `text` begins with it.
pub open spec fn after_prefix(text: Seq<char>, prefix: Seq<char>) -> Option<Seq<char>> {
    if has_prefix(text, prefix) {
        Some(text.skip(prefix.len() as int))
    } else {
        None
    }
}

/// Take `prefix` off the front of `text`.
pub fn strip(text: &str, prefix: &str) -> (rest: Option<String>)
    ensures
        rest.deep_view() == after_prefix(text@, prefix@),
{
    let chars = chars_of(text);
    let front = chars_of(prefix);
    if front.len() > chars.len() {
        return None;
    }
    let mut i: usize = 0;
    while i < front.len()
        invariant
            i <= front@.len() <= chars@.len(),
            chars@ == text@,
            front@ == prefix@,
            forall|j: int| 0 <= j < i ==> front@[j] == chars@[j],
        decreases front@.len() - i,
    {
        if front[i] != chars[i] {
            assert(text@.take(prefix@.len() as int)[i as int] != prefix@[i as int]);
            return None;
        }
        i += 1;
    }
    assert(text@.take(prefix@.len() as int) == prefix@);
    assert(text@.skip(prefix@.len() as int) == chars@.subrange(
        front@.len() as int,
        chars@.len() as int,
    ));
    Some(text_of(&chars, front.len(), chars.len()))
}

/// `text` without the slashes in front.
pub open spec fn without_leading_slashes(text: Seq<char>) -> Seq<char>
    decreases text.len(),
{
    if text.len() > 0 && text[0] == '/' {
        without_leading_slashes(text.skip(1))
    } else {
        text
    }
}

/// `text` without the slashes behind.
pub open spec fn without_trailing_slashes(text: Seq<char>) -> Seq<char>
    decreases text.len(),
{
    if text.len() > 0 && text.last() == '/' {
        without_trailing_slashes(text.drop_last())
    } else {
        text
    }
}

/// Remove the slashes in front.
pub fn trim_leading_slashes(text: &str) -> (rest: String)
    ensures
        rest@ == without_leading_slashes(text@),
{
    let chars = chars_of(text);
    let mut start: usize = 0;
    assert(chars@.skip(0) == chars@);
    while start < chars.len() && chars[start] == '/'
        invariant
            start <= chars@.len(),
            without_leading_slashes(chars@) == without_leading_slashes(chars@.skip(start as int)),
        decreases chars@.len() - start,
    {
        assert(chars@.skip(start as int).skip(1) == chars@.skip(start + 1));
        start += 1;
    }
    assert(chars@.skip(start as int) == chars@.subrange(start as int, chars@.len() as int));
    text_of(&chars, start, chars.len())
}

/// Remove the slashes behind.
pub fn trim_trailing_slashes(text: &str) -> (rest: String)
    ensures
        rest@ == without_trailing_slashes(text@),
{
    let chars = chars_of(text);
    let mut end: usize = chars.len();
    assert(chars@.take(end as int) == chars@);
    while end > 0 && chars[end - 1] == '/'
        invariant
            end <= chars@.len(),
            without_trailing_slashes(chars@) == without_trailing_slashes(chars@.take(end as int)),
        decreases end,
    {
        assert(chars@.take(end as int).drop_last() == chars@.take(end - 1));
        end -= 1;
    }
    assert(chars@.take(end as int) == chars@.subrange(0, end as int));
    text_of(&chars, 0, end)
}

/// What `String::from_utf8_lossy` makes of bytes.
pub uninterp spec fn utf8_lossy(bytes: Seq<u8>) -> Seq<char>;

/// Read bytes as UTF-8, putting a replacement character where they are not.
///
/// `String::from_utf8_lossy`: valid UTF-8 comes out as the characters it
/// encodes. What invalid bytes become is left to the name.
#[verifier::external_body]
pub(crate) fn lossy_text(bytes: &[u8]) -> (text: String)
    ensures
        text@ == utf8_lossy(bytes@),
        vstd::utf8::valid_utf8(bytes@) ==> text@ == vstd::utf8::decode_utf8(bytes@),
{
    String::from_utf8_lossy(bytes).into_owned()
}

/// A text in quotes, with what needs it escaped, as its `Debug` form has it.
pub uninterp spec fn quoted_form(text: Seq<char>) -> Seq<char>;

/// `<str as std::fmt::Debug>`: the text in double quotes, escaped.
#[verifier::external_body]
pub(crate) fn quoted(text: &str) -> (form: String)
    ensures
        form@ == quoted_form(text@),
{
    format!("{:?}", text)
}

/// Texts, one behind the other, with `sep` between them.
pub open spec fn joined(parts: Seq<Seq<char>>, sep: Seq<char>) -> Seq<char>
    decreases parts.len(),
{
    if parts.len() == 0 {
        seq![]
    } else if parts.len() == 1 {
        parts[0]
    } else {
        joined(parts.drop_last(), sep) + sep + parts.last()
    }
}

/// Join texts, with `sep` between them.
pub fn join(parts: &Vec<String>, sep: &str) -> (whole: String)
    ensures
        whole@ == joined(parts.deep_view(), sep@),
{
    let mut whole = String::new();
    let mut i: usize = 0;
    while i < parts.len()
        invariant
            i <= parts@.len(),
            whole@ == joined(parts.deep_view().take(i as int), sep@),
        decreases parts@.len() - i,
    {
        if i > 0 {
            whole.append(sep);
        }
        whole.append(parts[i].as_str());
        i += 1;
        proof {
            let done = parts.deep_view().take(i as int);
            assert(done.drop_last() == parts.deep_view().take(i - 1));
            assert(done.last() == parts@[i - 1]@);
        }
    }
    assert(parts.deep_view().take(parts@.len() as int) == parts.deep_view());
    whole
}

/// Texts that differ at most in the case of ASCII letters.
pub open spec fn same_ignoring_case(a: Seq<char>, b: Seq<char>) -> bool {
    ascii_lower(a) == ascii_lower(b)
}

/// A number written in decimal reads back.
pub proof fn lemma_decimal_reads_back(n: nat)
    ensures
        decimal_value(decimal(n)) == n,
        decimal(n).len() > 0,
        forall|i: int| 0 <= i < decimal(n).len() ==> is_digit(#[trigger] decimal(n)[i]),
    decreases n,
{
    if n >= 10 {
        lemma_decimal_reads_back(n / 10);
        assert(decimal(n) == decimal(n / 10).push(digit(n % 10)));
        assert(decimal(n).drop_last() =~= decimal(n / 10));
        assert(decimal(n).last() == digit(n % 10));
    } else {
        assert(decimal(n) =~= seq![digit(n)]);
        assert(decimal(n).drop_last() =~= Seq::empty());
        assert(decimal_value(Seq::<char>::empty()) == 0);
        assert(decimal(n).last() == digit(n));
    }
}

/// Zeros in front do not change a number.
pub proof fn lemma_leading_zeros(digits: Seq<char>, zeros: nat)
    ensures
        decimal_value(Seq::new(zeros, |i: int| '0') + digits) == decimal_value(digits),
    decreases digits.len(), zeros,
{
    let padded = Seq::new(zeros, |i: int| '0') + digits;
    if digits.len() > 0 {
        assert(padded.drop_last() =~= Seq::new(zeros, |i: int| '0') + digits.drop_last());
        lemma_leading_zeros(digits.drop_last(), zeros);
    } else if zeros > 0 {
        let fewer = (zeros - 1) as nat;
        assert(padded.drop_last() =~= Seq::new(fewer, |i: int| '0') + digits);
        lemma_leading_zeros(digits, fewer);
    } else {
        assert(padded =~= digits);
    }
}

/// What stands before the first separator is the first piece.
pub proof fn lemma_first_piece(front: Seq<char>, sep: char, rest: Seq<char>)
    requires
        forall|i: int| 0 <= i < front.len() ==> front[i] != sep,
    ensures
        pieces(front.push(sep) + rest, sep) == seq![front] + pieces(rest, sep),
{
    let whole = front.push(sep) + rest;
    lemma_find_is(whole, sep, front.len() as int);
    assert(whole.take(front.len() as int) =~= front);
    assert(whole.skip(front.len() as int + 1) =~= rest);
}

/// A text without the separator is one piece.
pub proof fn lemma_only_piece(text: Seq<char>, sep: char)
    requires
        forall|i: int| 0 <= i < text.len() ==> text[i] != sep,
    ensures
        pieces(text, sep) == seq![text],
{
    lemma_find(text, sep);
}

/// What `str::to_lowercase` makes of a text.
pub uninterp spec fn lowercase_form(text: Seq<char>) -> Seq<char>;

/// `str::to_lowercase`, by the rules of Unicode. Of a text in ASCII, each
/// capital becomes its small letter and nothing else changes.
#[verifier::external_body]
pub(crate) fn lowercase(text: &str) -> (lower: String)
    ensures
        lower@ == lowercase_form(text@),
        (forall|i: int| 0 <= i < text@.len() ==> (#[trigger] text@[i]) < '\u{80}') ==> lower@
            == ascii_lower(text@),
{
    text.to_lowercase()
}

/// What stands before the first line feed is the first line, without the carriage
/// return that may end it, whatever follows.
pub proof fn lemma_first_line(line: Seq<char>, rest: Seq<char>)
    requires
        forall|i: int| 0 <= i < line.len() ==> line[i] != '\n',
    ensures
        !(line.len() > 0 && line.last() == '\r') ==> lines(line.push('\n') + rest) == seq![line]
            + lines(rest),
        lines(line.push('\r').push('\n') + rest) == seq![line] + lines(rest),
{
    let plain = line.push('\n') + rest;
    lemma_find_is(plain, '\n', line.len() as int);
    assert(plain.take(line.len() as int) =~= line);
    assert(plain.skip(line.len() as int + 1) =~= rest);
    let returned = line.push('\r');
    let ended = returned.push('\n') + rest;
    assert(forall|i: int| 0 <= i < returned.len() ==> ended[i] != '\n');
    lemma_find_is(ended, '\n', returned.len() as int);
    assert(ended.take(returned.len() as int) =~= returned);
    assert(ended.skip(returned.len() as int + 1) =~= rest);
    assert(returned.drop_last() =~= line);
}

/// A text without a line feed is one line, and an empty one is none.
pub proof fn lemma_last_line(text: Seq<char>)
    requires
        forall|i: int| 0 <= i < text.len() ==> text[i] != '\n',
    ensures
        lines(text) == if text.len() == 0 {
            Seq::<Seq<char>>::empty()
        } else {
            seq![text]
        },
{
    lemma_find(text, '\n');
}

/// Texts joined at a character that none of them holds come apart again where they
/// were joined.
pub proof fn lemma_joined_texts_come_apart(parts: Seq<Seq<char>>, sep: char)
    requires
        parts.len() > 0,
        forall|i: int, j: int|
            0 <= i < parts.len() && 0 <= j < parts[i].len() ==> #[trigger] parts[i][j] != sep,
    ensures
        pieces(joined(parts, seq![sep]), sep) == parts,
    decreases parts.len(),
{
    lemma_join_from_the_front(parts, seq![sep]);
    let first = parts[0];
    assert(forall|j: int| 0 <= j < first.len() ==> parts[0][j] != sep);
    if parts.len() == 1 {
        lemma_only_piece(first, sep);
        assert(parts =~= seq![first]);
    } else {
        let rest = parts.skip(1);
        assert forall|i: int, j: int|
            0 <= i < rest.len() && 0 <= j < rest[i].len() implies #[trigger] rest[i][j] != sep by {
            assert(rest[i][j] == parts[i + 1][j]);
        }
        lemma_joined_texts_come_apart(rest, sep);
        lemma_first_piece(first, sep, joined(rest, seq![sep]));
        assert(first + seq![sep] + joined(rest, seq![sep]) =~= first.push(sep) + joined(
            rest,
            seq![sep],
        ));
        assert(seq![first] + rest =~= parts);
    }
}

proof fn lemma_join_from_the_front(parts: Seq<Seq<char>>, sep: Seq<char>)
    requires
        parts.len() > 0,
    ensures
        parts.len() > 1 ==> joined(parts, sep) == parts[0] + sep + joined(parts.skip(1), sep),
        parts.len() == 1 ==> joined(parts, sep) == parts[0],
    decreases parts.len(),
{
    if parts.len() == 2 {
        assert(parts.drop_last() =~= seq![parts[0]]);
        assert(parts.skip(1) =~= seq![parts[1]]);
        assert(joined(seq![parts[0]], sep) == parts[0]);
        assert(joined(seq![parts[1]], sep) == parts[1]);
    } else if parts.len() > 2 {
        let front = parts.drop_last();
        lemma_join_from_the_front(front, sep);
        let rest = parts.skip(1);
        assert(rest.drop_last() =~= front.skip(1));
        assert(rest.last() == parts.last());
        assert(joined(parts, sep) =~= parts[0] + sep + joined(rest, sep));
    }
}

/// White space around a text is trimmed, all of it, and nothing else.
pub proof fn lemma_trimming(front: Seq<char>, inner: Seq<char>, back: Seq<char>)
    requires
        forall|i: int| 0 <= i < front.len() ==> is_white(#[trigger] front[i]),
        forall|i: int| 0 <= i < back.len() ==> is_white(#[trigger] back[i]),
        inner.len() > 0 ==> !is_white(inner[0]) && !is_white(inner.last()),
    ensures
        trimmed(front + inner + back) == inner,
    decreases front.len() + back.len(),
{
    let whole = front + inner + back;
    if front.len() > 0 {
        assert(whole[0] == front[0]);
        assert(whole.skip(1) =~= front.skip(1) + inner + back);
        lemma_trimming(front.skip(1), inner, back);
    } else if inner.len() == 0 && back.len() > 0 {
        assert(whole[0] == back[0]);
        assert(whole.skip(1) =~= front + inner + back.skip(1));
        lemma_trimming(front, inner, back.skip(1));
    } else {
        assert(whole =~= inner + back);
        assert(trimmed_start(whole) == whole);
        lemma_trimming_the_end(inner, back);
    }
}

proof fn lemma_trimming_the_end(inner: Seq<char>, back: Seq<char>)
    requires
        forall|i: int| 0 <= i < back.len() ==> is_white(#[trigger] back[i]),
        inner.len() > 0 ==> !is_white(inner.last()),
    ensures
        trimmed_end(inner + back) == inner,
    decreases back.len(),
{
    if back.len() > 0 {
        assert((inner + back).last() == back.last());
        assert((inner + back).drop_last() =~= inner + back.drop_last());
        lemma_trimming_the_end(inner, back.drop_last());
    } else {
        assert(inner + back =~= inner);
    }
}

/// A word is what stands between white space, or the ends; and a text of white
/// space alone has none.
pub proof fn lemma_words(front: Seq<char>, word: Seq<char>, rest: Seq<char>)
    requires
        forall|i: int| 0 <= i < front.len() ==> is_white(#[trigger] front[i]),
        forall|i: int| 0 <= i < word.len() ==> !is_white(#[trigger] word[i]),
        rest.len() > 0 ==> is_white(rest[0]),
    ensures
        word.len() > 0 ==> first_word(front + word + rest) == Some(word) && after_first_word(
            front + word + rest,
        ) == rest,
        first_word(front) is None,
    decreases front.len() + word.len(),
{
    lemma_leading_white(front, word + rest);
    lemma_leading_white(front, Seq::empty());
    assert(front + Seq::<char>::empty() =~= front);
    assert(front + word + rest =~= front + (word + rest));
    lemma_word_length(word, rest);
    if word.len() > 0 {
        assert((word + rest)[0] == word[0]);
        assert((word + rest).take(word.len() as int) =~= word);
        assert((word + rest).skip(word.len() as int) =~= rest);
    }
}

proof fn lemma_leading_white(front: Seq<char>, rest: Seq<char>)
    requires
        forall|i: int| 0 <= i < front.len() ==> is_white(#[trigger] front[i]),
    ensures
        trimmed_start(front + rest) == trimmed_start(rest),
    decreases front.len(),
{
    if front.len() > 0 {
        assert((front + rest)[0] == front[0]);
        assert((front + rest).skip(1) =~= front.skip(1) + rest);
        lemma_leading_white(front.skip(1), rest);
    } else {
        assert(front + rest =~= rest);
    }
}

proof fn lemma_word_length(word: Seq<char>, rest: Seq<char>)
    requires
        forall|i: int| 0 <= i < word.len() ==> !is_white(#[trigger] word[i]),
        rest.len() > 0 ==> is_white(rest[0]),
    ensures
        word_length(word + rest) == word.len(),
    decreases word.len(),
{
    if word.len() > 0 {
        assert((word + rest)[0] == word[0]);
        assert((word + rest).skip(1) =~= word.skip(1) + rest);
        lemma_word_length(word.skip(1), rest);
    } else {
        assert(word + rest =~= rest);
    }
}

/// Every number that fits reads back from its digits, with or without a plus sign
/// and zeros in front; one that does not fit is none.
pub proof fn lemma_numbers_read_back(n: nat, max: nat, zeros: nat)
    ensures
        ({
            let digits = Seq::new(zeros, |i: int| '0') + decimal(n);
            &&& unsigned_value(digits, max) == if n <= max {
                Some(n)
            } else {
                None
            }
            &&& unsigned_value(seq!['+'] + digits, max) == unsigned_value(digits, max)
        }),
{
    let digits = Seq::new(zeros, |i: int| '0') + decimal(n);
    lemma_decimal_reads_back(n);
    lemma_leading_zeros(decimal(n), zeros);
    assert forall|i: int| 0 <= i < digits.len() implies is_digit(#[trigger] digits[i]) by {
        if i >= zeros {
            assert(digits[i] == decimal(n)[i - zeros]);
        }
    }
    assert(is_digit(digits[0]));
    assert(unsigned_digits(digits) == digits);
    assert((seq!['+'] + digits).skip(1) =~= digits);
}

/// What holds anything but digits, behind a plus sign at most, is no number, and
/// neither is nothing.
pub proof fn lemma_other_texts_are_no_numbers(text: Seq<char>, max: nat, at: int)
    requires
        0 <= at < text.len() ==> !('0' <= text[at] <= '9') && (at > 0 || text[0] != '+'),
        at < 0 || at >= text.len() ==> text.len() == 0,
    ensures
        unsigned_value(text, max) is None,
{
    let digits = unsigned_digits(text);
    if text.len() > 0 {
        if text[0] == '+' {
            assert(digits[at - 1] == text[at]);
        } else {
            assert(digits[at] == text[at]);
        }
    }
}

/// Slashes in front are all taken off, and nothing else.
pub proof fn lemma_leading_slashes(slashes: nat, rest: Seq<char>)
    requires
        rest.len() > 0 ==> rest[0] != '/',
    ensures
        without_leading_slashes(Seq::new(slashes, |i: int| '/') + rest) == rest,
    decreases slashes,
{
    let whole = Seq::new(slashes, |i: int| '/') + rest;
    if slashes > 0 {
        let fewer = (slashes - 1) as nat;
        assert(whole[0] == '/');
        assert(whole.skip(1) =~= Seq::new(fewer, |i: int| '/') + rest);
        lemma_leading_slashes(fewer, rest);
    } else {
        assert(whole =~= rest);
    }
}

/// Slashes behind are all taken off, and nothing else.
pub proof fn lemma_trailing_slashes(slashes: nat, front: Seq<char>)
    requires
        front.len() > 0 ==> front.last() != '/',
    ensures
        without_trailing_slashes(front + Seq::new(slashes, |i: int| '/')) == front,
    decreases slashes,
{
    let whole = front + Seq::new(slashes, |i: int| '/');
    if slashes > 0 {
        let fewer = (slashes - 1) as nat;
        assert(whole.last() == '/');
        assert(whole.drop_last() =~= front + Seq::new(fewer, |i: int| '/'));
        lemma_trailing_slashes(fewer, front);
    } else {
        assert(whole =~= front);
    }
}

/// A padded text is at least as wide as asked for, ends or begins with the text,
/// and is filled up with nothing but the filling.
pub proof fn lemma_padding(text: Seq<char>, fill: char, width: nat)
    ensures
        ({
            let left = left_padded(text, fill, width);
            let right = right_padded(text, width);
            &&& left.len() == right.len() == if text.len() < width {
                width
            } else {
                text.len()
            }
            &&& left.skip(left.len() - text.len()) == text
            &&& forall|i: int| 0 <= i < left.len() - text.len() ==> #[trigger] left[i] == fill
            &&& right.take(text.len() as int) == text
            &&& forall|i: int| text.len() <= i < right.len() ==> #[trigger] right[i] == ' '
        }),
{
}

/// Changing case touches ASCII letters only: the result has no letter of the other
/// case, is the same but for case, and a text that had none is left as it is.
pub proof fn lemma_changing_case(text: Seq<char>)
    ensures
        ascii_upper(text).len() == text.len(),
        ascii_lower(text).len() == text.len(),
        same_ignoring_case(ascii_upper(text), text),
        same_ignoring_case(ascii_lower(text), text),
        forall|i: int| 0 <= i < text.len() ==> !('a' <= #[trigger] ascii_upper(text)[i] <= 'z'),
        forall|i: int| 0 <= i < text.len() ==> !('A' <= #[trigger] ascii_lower(text)[i] <= 'Z'),
        (forall|i: int| 0 <= i < text.len() ==> !('a' <= #[trigger] text[i] <= 'z')) ==> ascii_upper(
            text,
        ) == text,
        (forall|i: int| 0 <= i < text.len() ==> !('A' <= #[trigger] text[i] <= 'Z')) ==> ascii_lower(
            text,
        ) == text,
{
    assert(ascii_lower(ascii_upper(text)) =~= ascii_lower(text));
    assert(ascii_lower(ascii_lower(text)) =~= ascii_lower(text));
    if forall|i: int| 0 <= i < text.len() ==> !('a' <= #[trigger] text[i] <= 'z') {
        assert(ascii_upper(text) =~= text);
    }
    if forall|i: int| 0 <= i < text.len() ==> !('A' <= #[trigger] text[i] <= 'Z') {
        assert(ascii_lower(text) =~= text);
    }
}

} // verus!
