//! Text rules shared by header parsing, identifiers and messages.

use vstd::prelude::*;
use vstd::string::StrSliceExecFns;
use vstd::string::StringExecFns;

verus! {

/// The character has the Unicode `White_Space` property.
pub open spec fn is_white(c: char) -> bool {
    ||| '\u{9}' <= c <= '\u{d}'
    ||| c == ' '
    ||| c == '\u{85}'
    ||| c == '\u{a0}'
    ||| c == '\u{1680}'
    ||| '\u{2000}' <= c <= '\u{200a}'
    ||| c == '\u{2028}'
    ||| c == '\u{2029}'
    ||| c == '\u{202f}'
    ||| c == '\u{205f}'
    ||| c == '\u{3000}'
}

/// `text` without its leading white space.
pub open spec fn trim_front(text: Seq<char>) -> Seq<char>
    decreases text.len(),
{
    if text.len() > 0 && is_white(text[0]) {
        trim_front(text.skip(1))
    } else {
        text
    }
}

/// `text` without its trailing white space.
pub open spec fn trim_back(text: Seq<char>) -> Seq<char>
    decreases text.len(),
{
    if text.len() > 0 && is_white(text.last()) {
        trim_back(text.drop_last())
    } else {
        text
    }
}

/// `text` without leading and trailing white space.
pub open spec fn trimmed(text: Seq<char>) -> Seq<char> {
    trim_back(trim_front(text))
}

/// The character's code point, with ASCII capitals counted as their small letters.
pub open spec fn folded(c: char) -> u32 {
    if 'A' <= c <= 'Z' {
        (c as u32 + 32) as u32
    } else {
        c as u32
    }
}

/// `text` begins with `prefix`, ASCII letters compared without regard to case.
pub open spec fn begins_with(text: Seq<char>, prefix: Seq<char>) -> bool {
    &&& prefix.len() <= text.len()
    &&& forall|i: int| 0 <= i < prefix.len() ==> folded(#[trigger] text[i]) == folded(prefix[i])
}

/// The two texts are equal, ASCII letters compared without regard to case.
pub open spec fn same_folded(a: Seq<char>, b: Seq<char>) -> bool {
    a.len() == b.len() && begins_with(a, b)
}

/// The character is an ASCII decimal digit.
pub open spec fn is_digit(c: char) -> bool {
    '0' <= c <= '9'
}

/// Every character is an ASCII decimal digit.
pub open spec fn all_digits(text: Seq<char>) -> bool {
    forall|i: int| 0 <= i < text.len() ==> is_digit(#[trigger] text[i])
}

/// The number that a sequence of decimal digits writes.
pub open spec fn digits_value(text: Seq<char>) -> nat
    decreases text.len(),
{
    if text.len() == 0 {
        0
    } else {
        digits_value(text.drop_last()) * 10 + (text.last() as nat - '0' as nat) as nat
    }
}

/// The number that a non-empty digit sequence writes, if it fits in 64 bits.
pub open spec fn digits_u64(text: Seq<char>) -> Option<u64> {
    if text.len() > 0 && all_digits(text) && digits_value(text) <= u64::MAX {
        Some(digits_value(text) as u64)
    } else {
        None
    }
}

/// The number that an unsigned decimal literal writes: digits with an optional plus sign.
pub open spec fn parsed_u64(text: Seq<char>) -> Option<u64> {
    if text.len() > 0 && text[0] == '+' {
        digits_u64(text.skip(1))
    } else {
        digits_u64(text)
    }
}

/// The decimal digits of a number, most significant first.
pub open spec fn decimal(value: nat) -> Seq<char>
    decreases value,
{
    if value < 10 {
        seq![('0' as nat + value) as char]
    } else {
        decimal(value / 10).push(('0' as nat + value % 10) as char)
    }
}

/// The characters of an optional text.
pub open spec fn viewed(text: Option<&str>) -> Option<Seq<char>> {
    match text {
        Some(text) => Some(text@),
        None => None,
    }
}

/// The characters of an optional owned text.
pub open spec fn owned(text: Option<String>) -> Option<Seq<char>> {
    match text {
        Some(text) => Some(text@),
        None => None,
    }
}

/// Borrows an optional owned text.
pub fn borrowed(text: &Option<String>) -> (view: Option<&str>)
    ensures
        viewed(view) == owned(*text),
{
    match text {
        Some(text) => Some(text.as_str()),
        None => None,
    }
}

/// Copies an optional owned text.
pub fn copied(text: &Option<String>) -> (copy: Option<String>)
    ensures
        copy == *text,
{
    match text {
        Some(text) => Some(text.clone()),
        None => None,
    }
}

/// Reports whether two texts are equal.
pub fn same(a: &str, b: &str) -> (equal: bool)
    ensures
        equal == (a@ == b@),
{
    let left = String::from_str(a);
    let right = String::from_str(b);
    left == right
}

/// Reports whether a character is Unicode white space.
pub fn white(c: char) -> (yes: bool)
    ensures
        yes == is_white(c),
{
    ('\u{9}' <= c && c <= '\u{d}') || c == ' ' || c == '\u{85}' || c == '\u{a0}' || c == '\u{1680}'
        || ('\u{2000}' <= c && c <= '\u{200a}') || c == '\u{2028}' || c == '\u{2029}' || c
        == '\u{202f}' || c == '\u{205f}' || c == '\u{3000}'
}

/// Removes leading and trailing white space.
pub fn trim(text: &str) -> (inner: &str)
    ensures
        inner@ == trimmed(text@),
{
    let count: usize = text.unicode_len();
    let mut low: usize = 0;
    proof {
        assert(text@.skip(0) =~= text@);
    }
    while low < count && white(text.get_char(low))
        invariant
            low <= count,
            count == text@.len(),
            trim_front(text@) == trim_front(text@.skip(low as int)),
        decreases count - low,
    {
        proof {
            assert(text@.skip(low as int).skip(1) =~= text@.skip(low + 1));
        }
        low = low + 1;
    }
    let mut high: usize = count;
    let ghost front = text@.skip(low as int);
    proof {
        assert(front == trim_front(text@));
        assert(text@.subrange(low as int, high as int) =~= front);
    }
    while low < high && white(text.get_char(high - 1))
        invariant
            low <= high <= count,
            count == text@.len(),
            trim_back(front) == trim_back(text@.subrange(low as int, high as int)),
        decreases high,
    {
        proof {
            let held = text@.subrange(low as int, high as int);
            assert(held.last() == text@[high - 1]);
            assert(held.drop_last() =~= text@.subrange(low as int, high - 1));
        }
        high = high - 1;
    }
    proof {
        let held = text@.subrange(low as int, high as int);
        if held.len() > 0 {
            assert(held.last() == text@[high - 1]);
        }
    }
    text.substring_char(low, high)
}

/// The character's code point, with ASCII capitals counted as their small letters.
fn fold(c: char) -> (code: u32)
    ensures
        code == folded(c),
{
    if 'A' <= c && c <= 'Z' {
        c as u32 + 32
    } else {
        c as u32
    }
}

/// Reports whether `text` begins with `prefix`, ignoring ASCII case.
pub fn starts_with(text: &str, prefix: &str) -> (yes: bool)
    ensures
        yes == begins_with(text@, prefix@),
{
    let count: usize = prefix.unicode_len();
    if text.unicode_len() < count {
        return false;
    }
    let mut index: usize = 0;
    while index < count
        invariant
            index <= count,
            count == prefix@.len(),
            count <= text@.len(),
            forall|i: int| 0 <= i < index ==> folded(#[trigger] text@[i]) == folded(prefix@[i]),
        decreases count - index,
    {
        if fold(text.get_char(index)) != fold(prefix.get_char(index)) {
            return false;
        }
        index = index + 1;
    }
    true
}

/// Reports whether two texts are equal, ignoring ASCII case.
pub fn same_ignoring_case(a: &str, b: &str) -> (yes: bool)
    ensures
        yes == same_folded(a@, b@),
{
    a.unicode_len() == b.unicode_len() && starts_with(a, b)
}

/// The first place at or behind `from` where a character stands, else the length.
pub open spec fn place_of(text: Seq<char>, c: char, from: int) -> int
    decreases text.len() - from,
{
    if from < 0 || from >= text.len() {
        text.len() as int
    } else if text[from] == c {
        from
    } else {
        place_of(text, c, from + 1)
    }
}

/// The first place at or behind `from` where a character stands, else the length.
pub fn find(text: &str, c: char, from: usize) -> (at: usize)
    requires
        from <= text@.len(),
    ensures
        at == place_of(text@, c, from as int),
        from <= at <= text@.len(),
        at < text@.len() ==> text@[at as int] == c,
{
    let length: usize = text.unicode_len();
    let mut at: usize = from;
    while at < length && text.get_char(at) != c
        invariant
            length == text@.len(),
            from <= at <= length,
            place_of(text@, c, from as int) == place_of(text@, c, at as int),
        decreases length - at,
    {
        at = at + 1;
    }
    at
}

/// The character may stand in a token of a header.
pub open spec fn is_token_char(c: char) -> bool {
    ||| ('A' <= c <= 'Z') || ('a' <= c <= 'z') || ('0' <= c <= '9')
    ||| c == '!' || c == '#' || c == '$' || c == '%' || c == '&' || c == '\'' || c == '*'
    ||| c == '+' || c == '-' || c == '.' || c == '^' || c == '_' || c == '`' || c == '|' || c == '~'
}

/// The text is a token of a header.
pub open spec fn is_token(text: Seq<char>) -> bool {
    text.len() > 0 && forall|i: int| 0 <= i < text.len() ==> is_token_char(#[trigger] text[i])
}

/// Reports whether a text is a token of a header.
pub fn token(text: &str) -> (yes: bool)
    ensures
        yes == is_token(text@),
{
    let length: usize = text.unicode_len();
    let mut index: usize = 0;
    while index < length
        invariant
            length == text@.len(),
            index <= length,
            forall|i: int| 0 <= i < index ==> is_token_char(#[trigger] text@[i]),
        decreases length - index,
    {
        let c = text.get_char(index);
        let letter: bool = ('A' <= c && c <= 'Z') || ('a' <= c && c <= 'z') || ('0' <= c && c
            <= '9');
        let sign: bool = c == '!' || c == '#' || c == '$' || c == '%' || c == '&' || c == '\''
            || c == '*' || c == '+' || c == '-' || c == '.' || c == '^' || c == '_' || c == '`'
            || c == '|' || c == '~';
        if !letter && !sign {
            proof {
                assert(!is_token_char(text@[index as int]));
            }
            return false;
        }
        index = index + 1;
    }
    length > 0
}

/// Reads a non-empty run of decimal digits, starting at character `from`.
fn digits_from(text: &str, from: usize) -> (value: Option<u64>)
    requires
        from <= text@.len(),
    ensures
        value == digits_u64(text@.skip(from as int)),
{
    let count: usize = text.unicode_len();
    let ghost digits = text@.skip(from as int);
    if from == count {
        return None;
    }
    let mut value: u64 = 0;
    let mut index: usize = from;
    let mut fits: bool = true;
    proof {
        assert(digits.take(0) =~= Seq::<char>::empty());
    }
    while index < count
        invariant
            from <= index <= count,
            count == text@.len(),
            digits == text@.skip(from as int),
            all_digits(digits.take(index - from)),
            fits ==> value == digits_value(digits.take(index - from)),
            !fits ==> digits_value(digits.take(index - from)) > u64::MAX,
        decreases count - index,
    {
        let c = text.get_char(index);
        let ghost taken = digits.take(index - from);
        let ghost next = digits.take(index + 1 - from);
        proof {
            assert(next.last() == c);
            assert(next.drop_last() =~= taken);
        }
        if !('0' <= c && c <= '9') {
            proof {
                assert(digits[index - from] == c);
                assert(!all_digits(digits));
            }
            return None;
        }
        let digit: u64 = c as u64 - '0' as u64;
        proof {
            assert(all_digits(next)) by {
                assert forall|i: int| 0 <= i < next.len() implies is_digit(#[trigger] next[i]) by {
                    if i < taken.len() {
                        assert(next[i] == taken[i]);
                    }
                }
            }
            assert(digits_value(next) == digits_value(taken) * 10 + digit);
        }
        if fits {
            match value.checked_mul(10) {
                Some(tens) => match tens.checked_add(digit) {
                    Some(sum) => {
                        value = sum;
                    },
                    None => {
                        fits = false;
                    },
                },
                None => {
                    fits = false;
                },
            }
        }
        index = index + 1;
    }
    proof {
        assert(digits.take(count - from) =~= digits);
    }
    if fits {
        Some(value)
    } else {
        None
    }
}

/// Reads an unsigned decimal literal: digits with an optional plus sign.
pub fn parse_u64(text: &str) -> (value: Option<u64>)
    ensures
        value == parsed_u64(text@),
{
    proof {
        assert(text@.skip(0) =~= text@);
    }
    if text.unicode_len() > 0 && text.get_char(0) == '+' {
        digits_from(text, 1)
    } else {
        digits_from(text, 0)
    }
}

/// Reports whether every character is a decimal digit.
pub fn only_digits(text: &str) -> (yes: bool)
    ensures
        yes == all_digits(text@),
{
    let count: usize = text.unicode_len();
    let mut index: usize = 0;
    while index < count
        invariant
            index <= count,
            count == text@.len(),
            forall|i: int| 0 <= i < index ==> is_digit(#[trigger] text@[i]),
        decreases count - index,
    {
        let c = text.get_char(index);
        if !('0' <= c && c <= '9') {
            return false;
        }
        index = index + 1;
    }
    true
}

/// The lowercase hexadecimal digit of a number below sixteen.
pub open spec fn hex_digit(value: u8) -> char {
    if value < 10 {
        ('0' as u8 + value) as char
    } else {
        ('a' as u8 + (value - 10)) as char
    }
}

/// Two lowercase hexadecimal digits for every byte.
pub open spec fn hex(bytes: Seq<u8>) -> Seq<char>
    decreases bytes.len(),
{
    if bytes.len() == 0 {
        Seq::empty()
    } else {
        hex(bytes.drop_last()).push(hex_digit(bytes.last() / 16)).push(
            hex_digit(bytes.last() % 16),
        )
    }
}

/// The text of a hexadecimal digit.
fn hex_text(value: u8) -> (digit: &'static str)
    requires
        value < 16,
    ensures
        digit@ == seq![hex_digit(value)],
{
    proof {
        reveal_strlit("0");
        reveal_strlit("1");
        reveal_strlit("2");
        reveal_strlit("3");
        reveal_strlit("4");
        reveal_strlit("5");
        reveal_strlit("6");
        reveal_strlit("7");
        reveal_strlit("8");
        reveal_strlit("9");
        reveal_strlit("a");
        reveal_strlit("b");
        reveal_strlit("c");
        reveal_strlit("d");
        reveal_strlit("e");
        reveal_strlit("f");
    }
    let digit = match value {
        0 => "0",
        1 => "1",
        2 => "2",
        3 => "3",
        4 => "4",
        5 => "5",
        6 => "6",
        7 => "7",
        8 => "8",
        9 => "9",
        10 => "a",
        11 => "b",
        12 => "c",
        13 => "d",
        14 => "e",
        _ => "f",
    };
    proof {
        assert(digit@ =~= seq![hex_digit(value)]);
    }
    digit
}

/// Writes two lowercase hexadecimal digits for every byte.
pub fn to_hex(bytes: &[u8]) -> (text: String)
    ensures
        text@ == hex(bytes@),
{
    let mut text = String::new();
    let mut index: usize = 0;
    proof {
        assert(bytes@.take(0) =~= Seq::<u8>::empty());
    }
    while index < bytes.len()
        invariant
            index <= bytes@.len(),
            text@ == hex(bytes@.take(index as int)),
        decreases bytes@.len() - index,
    {
        let byte: u8 = bytes[index];
        let ghost before = text@;
        text.append(hex_text(byte / 16));
        text.append(hex_text(byte % 16));
        proof {
            assert(bytes@.take(index + 1).drop_last() =~= bytes@.take(index as int));
            assert(text@ =~= before.push(hex_digit(byte / 16)).push(hex_digit(byte % 16)));
        }
        index = index + 1;
    }
    proof {
        assert(bytes@.take(bytes@.len() as int) =~= bytes@);
    }
    text
}

/// The value of a lowercase hexadecimal digit.
pub open spec fn hex_value(c: char) -> Option<u8> {
    if '0' <= c <= '9' {
        Some((c as u8 - '0' as u8) as u8)
    } else if 'a' <= c <= 'f' {
        Some((c as u8 - 'a' as u8 + 10) as u8)
    } else {
        None
    }
}

/// The value of a lowercase hexadecimal digit.
pub fn from_hex_digit(c: char) -> (value: Option<u8>)
    ensures
        value == hex_value(c),
{
    if '0' <= c && c <= '9' {
        Some((c as u32 - '0' as u32) as u8)
    } else if 'a' <= c && c <= 'f' {
        Some((c as u32 - 'a' as u32 + 10) as u8)
    } else {
        None
    }
}

/// Every character is a lowercase hexadecimal digit.
pub open spec fn all_hex(text: Seq<char>) -> bool {
    forall|i: int| 0 <= i < text.len() ==> hex_value(#[trigger] text[i]) is Some
}

/// The bytes that pairs of lowercase hexadecimal digits write.
pub open spec fn unhex(text: Seq<char>) -> Option<Seq<u8>>
    decreases text.len(),
{
    if text.len() == 0 {
        Some(Seq::empty())
    } else if text.len() == 1 {
        None
    } else {
        match (
            unhex(text.take(text.len() - 2)),
            hex_value(text[text.len() - 2]),
            hex_value(text[text.len() - 1]),
        ) {
            (Some(bytes), Some(high), Some(low)) => Some(bytes.push((high * 16 + low) as u8)),
            _ => None,
        }
    }
}

/// Reading hexadecimal gives back what was written, in lowercase digits, two per byte.
pub proof fn law_hex_round_trips(bytes: Seq<u8>)
    ensures
        hex(bytes).len() == 2 * bytes.len(),
        all_hex(hex(bytes)),
        unhex(hex(bytes)) == Some(bytes),
    decreases bytes.len(),
{
    if bytes.len() > 0 {
        let front = bytes.drop_last();
        law_hex_round_trips(front);
        let text = hex(bytes);
        let byte = bytes.last();
        assert(text.take(text.len() - 2) =~= hex(front));
        assert(hex_value(hex_digit(byte / 16)) == Some((byte / 16) as u8));
        assert(hex_value(hex_digit(byte % 16)) == Some((byte % 16) as u8));
        assert forall|i: int| 0 <= i < text.len() implies hex_value(#[trigger] text[i]) is Some by {
            if i < hex(front).len() {
                assert(text[i] == hex(front)[i]);
            }
        }
        assert(front.push(byte) =~= bytes);
        assert(byte / 16 * 16 + byte % 16 == byte);
    }
}

/// The two digits of one byte.
pub proof fn lemma_hex_at(bytes: Seq<u8>, at: int)
    requires
        0 <= at < bytes.len(),
    ensures
        hex(bytes).len() == 2 * bytes.len(),
        hex(bytes)[2 * at] == hex_digit(bytes[at] / 16),
        hex(bytes)[2 * at + 1] == hex_digit(bytes[at] % 16),
    decreases bytes.len(),
{
    law_hex_round_trips(bytes);
    law_hex_round_trips(bytes.drop_last());
    if at < bytes.len() - 1 {
        lemma_hex_at(bytes.drop_last(), at);
    }
}

/// The first text comes before the second: they agree up to some place, and there the first has
/// the lower character.
pub open spec fn precedes(one: Seq<char>, other: Seq<char>) -> bool {
    exists|at: int|
        0 <= at < one.len() && at < other.len() && one.take(at) == other.take(at)
            && #[trigger] one[at] < other[at]
}

/// Bytes that come first are written as a text that comes first.
pub proof fn lemma_hex_keeps_the_order(one: Seq<u8>, other: Seq<u8>, at: int)
    requires
        0 <= at < one.len(),
        at < other.len(),
        forall|i: int| 0 <= i < at ==> #[trigger] one[i] == other[i],
        one[at] < other[at],
    ensures
        precedes(hex(one), hex(other)),
{
    lemma_hex_at(one, at);
    lemma_hex_at(other, at);
    let a = hex(one);
    let b = hex(other);
    assert forall|i: int| 0 <= i < 2 * at implies a[i] == b[i] by {
        let pair = i / 2;
        assert(one[pair] == other[pair]);
        lemma_hex_at(one, pair);
        lemma_hex_at(other, pair);
        assert(i == 2 * pair || i == 2 * pair + 1);
    }
    if one[at] / 16 < other[at] / 16 {
        assert(a.take(2 * at) =~= b.take(2 * at));
        assert(a[2 * at] < b[2 * at]);
    } else {
        assert(one[at] / 16 == other[at] / 16);
        assert(one[at] % 16 < other[at] % 16);
        assert(a.take(2 * at + 1) =~= b.take(2 * at + 1));
        assert(a[2 * at + 1] < b[2 * at + 1]);
    }
}

/// Whether every character is a lowercase hexadecimal digit.
pub fn only_hex(text: &str) -> (yes: bool)
    ensures
        yes == all_hex(text@),
{
    let length: usize = text.unicode_len();
    let mut index: usize = 0;
    while index < length
        invariant
            length == text@.len(),
            index <= length,
            forall|i: int| 0 <= i < index ==> hex_value(#[trigger] text@[i]) is Some,
        decreases length - index,
    {
        if from_hex_digit(text.get_char(index)).is_none() {
            return false;
        }
        index = index + 1;
    }
    true
}

/// Reads pairs of lowercase hexadecimal digits.
pub fn from_hex(text: &str) -> (bytes: Option<Vec<u8>>)
    ensures
        (match bytes {
            Some(bytes) => Some(bytes@),
            None => None,
        }) == unhex(text@),
{
    let length: usize = text.unicode_len();
    if length % 2 == 1 {
        proof {
            lemma_unhex_needs_pairs(text@);
        }
        return None;
    }
    let mut bytes: Vec<u8> = Vec::new();
    let mut index: usize = 0;
    proof {
        assert(text@.take(0) =~= Seq::<char>::empty());
    }
    while index < length
        invariant
            length == text@.len(),
            length % 2 == 0,
            index % 2 == 0,
            index <= length,
            unhex(text@.take(index as int)) == Some(bytes@),
        decreases length - index,
    {
        let ghost longer = text@.take(index + 2);
        proof {
            assert(longer.take(longer.len() - 2) =~= text@.take(index as int));
            assert(longer[longer.len() - 2] == text@[index as int]);
            assert(longer[longer.len() - 1] == text@[index + 1]);
        }
        let high: Option<u8> = from_hex_digit(text.get_char(index));
        let low: Option<u8> = from_hex_digit(text.get_char(index + 1));
        match (high, low) {
            (Some(high), Some(low)) => {
                bytes.push(high * 16 + low);
            },
            _ => {
                proof {
                    assert(unhex(longer) is None);
                    lemma_unhex_fails_early(text@, index + 2);
                }
                return None;
            },
        }
        index = index + 2;
    }
    proof {
        assert(text@.take(length as int) =~= text@);
    }
    Some(bytes)
}

proof fn lemma_unhex_needs_pairs(text: Seq<char>)
    requires
        text.len() % 2 == 1,
    ensures
        unhex(text) is None,
    decreases text.len(),
{
    if text.len() > 1 {
        lemma_unhex_needs_pairs(text.take(text.len() - 2));
    }
}

proof fn lemma_unhex_fails_early(text: Seq<char>, at: int)
    requires
        0 <= at <= text.len(),
        at % 2 == 0,
        text.len() % 2 == 0,
        unhex(text.take(at)) is None,
    ensures
        unhex(text) is None,
    decreases text.len(),
{
    if at < text.len() {
        let front = text.take(text.len() - 2);
        assert(front.take(at) =~= text.take(at));
        lemma_unhex_fails_early(front, at);
    } else {
        assert(text.take(at) =~= text);
    }
}

/// Writes a number in decimal digits.
pub fn to_decimal(value: u64) -> (text: String)
    ensures
        text@ == decimal(value as nat),
    decreases value,
{
    let mut text = if value < 10 {
        String::new()
    } else {
        to_decimal(value / 10)
    };
    text.append(hex_text((value % 10) as u8));
    proof {
        assert(text@ =~= decimal(value as nat));
    }
    text
}

/// A number that is written in decimal reads back as itself, whatever zeros stand in front, with a
/// plus sign or without.
pub proof fn law_decimal_reads_back(value: u64, zeros: nat)
    ensures
        digits_u64(decimal(value as nat)) == Some(value),
        parsed_u64(decimal(value as nat)) == Some(value),
        digits_u64(Seq::new(zeros, |i: int| '0') + decimal(value as nat)) == Some(value),
        parsed_u64(seq!['+'] + decimal(value as nat)) == Some(value),
        digits_u64(seq!['+'] + decimal(value as nat)) is None,
{
    let written = decimal(value as nat);
    lemma_decimal(value as nat);
    lemma_leading_zeros(written, zeros);
    let padded = Seq::new(zeros, |i: int| '0') + written;
    assert forall|i: int| 0 <= i < padded.len() implies is_digit(#[trigger] padded[i]) by {
        if i >= zeros {
            assert(padded[i] == written[i - zeros]);
        }
    }
    let signed = seq!['+'] + written;
    assert(signed.skip(1) =~= written);
    assert(is_digit(written[0]));
    assert(signed[0] == '+');
    assert(!is_digit(signed[0]));
}

/// Only digits read as a number, behind at most one plus sign, and two texts of the same length
/// that read as the same number are the same text.
pub proof fn law_only_digits_read_as_a_number(one: Seq<char>, other: Seq<char>)
    ensures
        digits_u64(one) is Some ==> one.len() > 0 && forall|i: int|
            0 <= i < one.len() ==> '0' <= #[trigger] one[i] <= '9',
        parsed_u64(one) is Some ==> one.len() > 0 && ('0' <= one[0] <= '9' || (one[0] == '+'
            && one.len() > 1)) && forall|i: int|
            1 <= i < one.len() ==> '0' <= #[trigger] one[i] <= '9',
        digits_u64(one) is Some && digits_u64(one) == digits_u64(other) && one.len() == other.len()
            ==> one == other,
{
    if digits_u64(one) is Some {
        assert forall|i: int| 0 <= i < one.len() implies '0' <= #[trigger] one[i] <= '9' by {
            assert(is_digit(one[i]));
        }
        if digits_u64(one) == digits_u64(other) && one.len() == other.len() {
            lemma_digits_tell_apart(one, other);
        }
    }
    if parsed_u64(one) is Some && one[0] == '+' {
        assert forall|i: int| 1 <= i < one.len() implies '0' <= #[trigger] one[i] <= '9' by {
            assert(is_digit(one.skip(1)[i - 1]));
        }
    }
    if parsed_u64(one) is Some && one[0] != '+' {
        assert(is_digit(one[0]));
        assert forall|i: int| 1 <= i < one.len() implies '0' <= #[trigger] one[i] <= '9' by {
            assert(is_digit(one[i]));
        }
    }
}

proof fn lemma_decimal(value: nat)
    ensures
        decimal(value).len() > 0,
        all_digits(decimal(value)),
        digits_value(decimal(value)) == value,
    decreases value,
{
    if value < 10 {
        reveal_with_fuel(digits_value, 2);
        let digit = ('0' as nat + value) as char;
        assert(decimal(value) =~= seq![digit]);
        assert(decimal(value).drop_last() =~= Seq::<char>::empty());
        assert(digit as nat - '0' as nat == value);
    } else {
        lemma_decimal(value / 10);
        let front = decimal(value / 10);
        let digit = ('0' as nat + value % 10) as char;
        assert(front.push(digit).drop_last() =~= front);
        assert(digit as nat - '0' as nat == value % 10);
    }
}

proof fn lemma_leading_zeros(text: Seq<char>, zeros: nat)
    ensures
        digits_value(Seq::new(zeros, |i: int| '0') + text) == digits_value(text),
    decreases text.len() + zeros,
{
    let front = Seq::new(zeros, |i: int| '0');
    let whole = front + text;
    if text.len() > 0 {
        lemma_leading_zeros(text.drop_last(), zeros);
        assert(whole.drop_last() =~= front + text.drop_last());
    } else if zeros > 0 {
        lemma_leading_zeros(text, (zeros - 1) as nat);
        assert(whole.drop_last() =~= Seq::new((zeros - 1) as nat, |i: int| '0') + text);
        assert(whole.last() == '0');
    } else {
        assert(whole =~= text);
    }
}

proof fn lemma_digits_tell_apart(one: Seq<char>, other: Seq<char>)
    requires
        one.len() == other.len(),
        all_digits(one),
        all_digits(other),
        digits_value(one) == digits_value(other),
    ensures
        one == other,
    decreases one.len(),
{
    if one.len() > 0 {
        let last = one.len() - 1;
        assert(is_digit(one[last]) && is_digit(other[last]));
        assert forall|i: int| 0 <= i < last implies is_digit(#[trigger] one.drop_last()[i])
            && is_digit(other.drop_last()[i]) by {
            assert(is_digit(one[i]) && is_digit(other[i]));
        }
        assert(one.last() == other.last());
        lemma_digits_tell_apart(one.drop_last(), other.drop_last());
        assert(one =~= one.drop_last().push(one.last()));
        assert(other =~= other.drop_last().push(other.last()));
    } else {
        assert(one =~= other);
    }
}

/// Trimming takes white space from both ends and nothing else: what is left is a part of the text
/// that neither begins nor ends with white space, and everything around it is white space. Blanks,
/// tabs and line ends are white space, and no visible ASCII character is.
pub proof fn law_trimming_takes_white_space_alone(text: Seq<char>) -> (bounds: (int, int))
    ensures
        0 <= bounds.0 <= bounds.1 <= text.len(),
        trimmed(text) == text.subrange(bounds.0, bounds.1),
        forall|i: int| 0 <= i < bounds.0 || bounds.1 <= i < text.len() ==> is_white(
            #[trigger] text[i],
        ),
        bounds.0 < bounds.1 ==> !is_white(text[bounds.0]) && !is_white(text[bounds.1 - 1]),
        trimmed(trimmed(text)) == trimmed(text),
        forall|c: char| '!' <= c <= '~' ==> !#[trigger] is_white(c),
        forall|c: char| c == ' ' || c == '\t' || c == '\n' || c == '\r' ==> #[trigger] is_white(c),
{
    let from = lemma_trim_front(text);
    let front = trim_front(text);
    let kept = lemma_trim_back(front);
    let bounds = (from, from + kept);
    let inner = trimmed(text);
    assert(inner =~= text.subrange(bounds.0, bounds.1));
    assert forall|i: int| 0 <= i < bounds.0 || bounds.1 <= i < text.len() implies is_white(
        #[trigger] text[i],
    ) by {
        if i >= bounds.1 {
            assert(front[i - from] == text[i]);
        }
    }
    if bounds.0 < bounds.1 {
        assert(front[0] == text[bounds.0]);
        assert(front[kept - 1] == text[bounds.1 - 1]);
        assert(inner[0] == text[bounds.0]);
        assert(inner.last() == text[bounds.1 - 1]);
    }
    bounds
}

proof fn lemma_trim_front(text: Seq<char>) -> (from: int)
    ensures
        0 <= from <= text.len(),
        trim_front(text) == text.skip(from),
        forall|i: int| 0 <= i < from ==> is_white(#[trigger] text[i]),
        from < text.len() ==> !is_white(text[from]),
    decreases text.len(),
{
    if text.len() > 0 && is_white(text[0]) {
        let rest = text.skip(1);
        let from = lemma_trim_front(rest);
        assert(rest.skip(from) =~= text.skip(from + 1));
        assert forall|i: int| 0 <= i < from + 1 implies is_white(#[trigger] text[i]) by {
            if i > 0 {
                assert(rest[i - 1] == text[i]);
            }
        }
        from + 1
    } else {
        assert(text.skip(0) =~= text);
        0
    }
}

proof fn lemma_trim_back(text: Seq<char>) -> (kept: int)
    ensures
        0 <= kept <= text.len(),
        trim_back(text) == text.take(kept),
        forall|i: int| kept <= i < text.len() ==> is_white(#[trigger] text[i]),
        kept > 0 ==> !is_white(text[kept - 1]),
    decreases text.len(),
{
    if text.len() > 0 && is_white(text.last()) {
        let rest = text.drop_last();
        let kept = lemma_trim_back(rest);
        assert(rest.take(kept) =~= text.take(kept));
        assert forall|i: int| kept <= i < text.len() implies is_white(#[trigger] text[i]) by {
            if i < rest.len() {
                assert(rest[i] == text[i]);
            }
        }
        kept
    } else {
        assert(text.take(text.len() as int) =~= text);
        text.len() as int
    }
}

/// Comparing without regard to case takes two characters for the same if they are the same, or if
/// one is an ASCII capital and the other its small letter; no other two. Texts compare character
/// by character.
pub proof fn law_only_ascii_case_is_disregarded(a: char, b: char, one: Seq<char>, other: Seq<char>)
    ensures
        folded(a) == folded(b) <==> a == b || ('A' <= a <= 'Z' && b as int == a as int + 32) || (
        'A' <= b <= 'Z' && a as int == b as int + 32),
        same_folded(one, one),
        same_folded(one, other) == same_folded(other, one),
        same_folded(one, other) <==> one.len() == other.len() && forall|i: int|
            0 <= i < one.len() ==> folded(#[trigger] one[i]) == folded(other[i]),
        begins_with(one, other) <==> other.len() <= one.len() && same_folded(
            one.take(other.len() as int),
            other,
        ),
        begins_with(one + other, one),
{
    if same_folded(one, other) {
        assert forall|i: int| 0 <= i < one.len() implies folded(#[trigger] other[i]) == folded(
            one[i],
        ) by {
            assert(folded(one[i]) == folded(other[i]));
        }
    }
    if same_folded(other, one) {
        assert forall|i: int| 0 <= i < one.len() implies folded(#[trigger] one[i]) == folded(
            other[i],
        ) by {
            assert(folded(other[i]) == folded(one[i]));
        }
    }
    if other.len() <= one.len() {
        let head = one.take(other.len() as int);
        if begins_with(one, other) {
            assert forall|i: int| 0 <= i < other.len() implies folded(#[trigger] head[i]) == folded(
                other[i],
            ) by {
                assert(folded(one[i]) == folded(other[i]));
            }
        }
        if same_folded(head, other) {
            assert forall|i: int| 0 <= i < other.len() implies folded(#[trigger] one[i]) == folded(
                other[i],
            ) by {
                assert(folded(head[i]) == folded(other[i]));
            }
        }
    }
    assert forall|i: int| 0 <= i < one.len() implies folded(#[trigger] (one + other)[i]) == folded(
        one[i],
    ) by {}
}

/// The hexadecimal digits are those of every other program, in their order, and a byte is written
/// with its high half first.
pub proof fn law_hex_digits_are_the_usual_ones(bytes: Seq<u8>, at: int)
    requires
        0 <= at < bytes.len(),
    ensures
        forall|value: u8| value < 16 ==> #[trigger] hex_digit(value) == "0123456789abcdef"@[value as int],
        hex(bytes)[2 * at] == "0123456789abcdef"@[bytes[at] as int / 16],
        hex(bytes)[2 * at + 1] == "0123456789abcdef"@[bytes[at] as int % 16],
{
    reveal_strlit("0123456789abcdef");
    lemma_hex_at(bytes, at);
    assert forall|value: u8| value < 16 implies #[trigger] hex_digit(value)
        == "0123456789abcdef"@[value as int] by {}
    assert(hex_digit(bytes[at] / 16) == "0123456789abcdef"@[(bytes[at] / 16) as int]);
    assert(hex_digit(bytes[at] % 16) == "0123456789abcdef"@[(bytes[at] % 16) as int]);
}

/// The place of a character is the first at or behind the start where it stands, or the length if
/// there is none.
pub proof fn law_a_place_is_the_first(text: Seq<char>, c: char, from: int)
    requires
        0 <= from <= text.len(),
    ensures
        ({
            let at = place_of(text, c, from);
            &&& from <= at <= text.len()
            &&& at < text.len() ==> text[at] == c
            &&& forall|i: int| from <= i < at ==> #[trigger] text[i] != c
        }),
    decreases text.len() - from,
{
    if from < text.len() && text[from] != c {
        law_a_place_is_the_first(text, c, from + 1);
    }
}

/// A text that neither begins nor ends in white space has none to trim.
pub proof fn lemma_bare_ends(text: Seq<char>)
    requires
        text.len() > 0 ==> !is_white(text[0]) && !is_white(text.last()),
    ensures
        trimmed(text) == text,
{
    assert(trim_front(text) == text);
    assert(trim_back(text) == text);
}

/// The place of a character is known by what stands there and before.
pub proof fn lemma_known_place(text: Seq<char>, c: char, from: int, at: int)
    requires
        0 <= from <= at <= text.len(),
        at < text.len() ==> text[at] == c,
        forall|i: int| from <= i < at ==> #[trigger] text[i] != c,
    ensures
        place_of(text, c, from) == at,
{
    law_a_place_is_the_first(text, c, from);
    let found = place_of(text, c, from);
    if found < at {
        assert(text[found] != c);
    }
    if found > at {
        assert(text[at] != c);
    }
}

} // verus!
