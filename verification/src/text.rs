//! Text building blocks: UTF-8 lengths, decimal and hexadecimal digits, and
//! the few string operations that identifiers and host names need.
use vstd::prelude::*;
use vstd::string::*;
use vstd::utf8::*;

verus! {

/// Number of bytes that `text` occupies in UTF-8.
pub open spec fn utf8_len(text: Seq<char>) -> nat {
    encode_utf8(text).len()
}

/// UTF-8 encodes a concatenation piece by piece.
pub proof fn lemma_encode_utf8_add(a: Seq<char>, b: Seq<char>)
    ensures
        encode_utf8(a + b) == encode_utf8(a) + encode_utf8(b),
    decreases a.len(),
{
    if a.len() == 0 {
        assert(a + b =~= b);
        assert(encode_utf8(a) + encode_utf8(b) =~= encode_utf8(b));
    } else {
        assert((a + b).drop_first() =~= a.drop_first() + b);
        lemma_encode_utf8_add(a.drop_first(), b);
        assert(encode_utf8(a + b) =~= encode_utf8(a) + encode_utf8(b));
    }
}

/// Two texts with the same UTF-8 bytes are the same text.
pub proof fn lemma_encode_utf8_injective(a: Seq<char>, b: Seq<char>)
    requires
        encode_utf8(a) == encode_utf8(b),
    ensures
        a == b,
{
    encode_utf8_decode_utf8(a);
    encode_utf8_decode_utf8(b);
}

/// Byte length of `text`.
pub fn byte_len(text: &str) -> (len: usize)
    ensures
        len == utf8_len(text@),
{
    text.as_bytes().len()
}

/// Whether two texts are equal.
pub fn same_text(a: &str, b: &str) -> (same: bool)
    ensures
        same == (a@ == b@),
{
    a.to_owned() == b.to_owned()
}

/// Whether two byte strings are equal.
pub fn same_bytes(a: &[u8], b: &[u8]) -> (same: bool)
    ensures
        same == (a@ == b@),
{
    if a.len() != b.len() {
        return false;
    }
    let mut i: usize = 0;
    while i < a.len()
        invariant
            i <= a.len(),
            a.len() == b.len(),
            forall|j: int| 0 <= j < i ==> a@[j] == b@[j],
        decreases a.len() - i,
    {
        if a[i] != b[i] {
            return false;
        }
        i += 1;
    }
    assert(a@ =~= b@);
    true
}

/// Concatenation of two texts.
pub fn joined(a: &str, b: &str) -> (text: String)
    ensures
        text@ == a@ + b@,
{
    let mut text = a.to_owned();
    text.append(b);
    text
}

/// The character of a hexadecimal digit, in lower case.
pub open spec fn digit_char(digit: int) -> char {
    if digit < 10 {
        (48 + digit) as char
    } else {
        (87 + digit) as char
    }
}

/// The value of a hexadecimal digit in either case, if the byte is one.
pub open spec fn digit_value(byte: u8) -> Option<u8> {
    if 48 <= byte <= 57 {
        Some((byte - 48) as u8)
    } else if 97 <= byte <= 102 {
        Some((byte - 87) as u8)
    } else if 65 <= byte <= 70 {
        Some((byte - 55) as u8)
    } else {
        None
    }
}

/// Value of a hexadecimal digit.
pub fn hex_value(byte: u8) -> (value: Option<u8>)
    ensures
        value == digit_value(byte),
        value matches Some(v) ==> v < 16,
{
    if 48 <= byte && byte <= 57 {
        Some(byte - 48)
    } else if 97 <= byte && byte <= 102 {
        Some(byte - 87)
    } else if 65 <= byte && byte <= 70 {
        Some(byte - 55)
    } else {
        None
    }
}

/// One hexadecimal digit as text.
pub fn digit_text(digit: u8) -> (text: &'static str)
    requires
        digit < 16,
    ensures
        text@ == seq![digit_char(digit as int)],
{
    proof {
        reveal_strlit("0");
        reveal_strlit("1");
        reveal_strlit("2");
        reveal_strlit("3");
        reveal_strlit("4");
        reveal_strlit("5");
        reveal_strlit("6");
        reveal_strlit("7");
        reveal_strlit("8");
        reveal_strlit("9");
        reveal_strlit("a");
        reveal_strlit("b");
        reveal_strlit("c");
        reveal_strlit("d");
        reveal_strlit("e");
        reveal_strlit("f");
    }
    match digit {
        0 => "0",
        1 => "1",
        2 => "2",
        3 => "3",
        4 => "4",
        5 => "5",
        6 => "6",
        7 => "7",
        8 => "8",
        9 => "9",
        10 => "a",
        11 => "b",
        12 => "c",
        13 => "d",
        14 => "e",
        _ => "f",
    }
}

/// Digits of `value` in `base`, most significant first, without leading zeros.
pub open spec fn digits(value: nat, base: nat) -> Seq<char>
    decreases value,
{
    if base < 2 || value < base {
        seq![digit_char(value as int)]
    } else {
        proof {
            assert(value / base < value) by (nonlinear_arith)
                requires
                    2 <= base <= value,
            ;
        }
        digits(value / base, base).push(digit_char((value % base) as int))
    }
}

/// Decimal digits of `value`.
pub open spec fn decimal(value: nat) -> Seq<char> {
    digits(value, 10)
}

/// Digits of `value` in `base`, as text.
pub fn digits_text(value: u64, base: u64) -> (text: String)
    requires
        2 <= base <= 16,
    ensures
        text@ == digits(value as nat, base as nat),
    decreases value,
{
    if value < base {
        digit_text(value as u8).to_owned()
    } else {
        assert(value / base < value) by (nonlinear_arith)
            requires
                2 <= base <= value,
        ;
        assert(value % base < base) by (nonlinear_arith)
            requires
                2 <= base,
        ;
        let mut text = digits_text(value / base, base);
        text.append(digit_text((value % base) as u8));
        text
    }
}

/// Decimal text of `value`.
pub fn decimal_text(value: u64) -> (text: String)
    ensures
        text@ == decimal(value as nat),
{
    digits_text(value, 10)
}

/// Decimal digits of `value`, padded with leading zeros to `width` characters.
pub open spec fn padded(value: nat, width: nat) -> Seq<char>
    decreases width,
{
    if width == 0 {
        seq![]
    } else {
        padded(value / 10, (width - 1) as nat).push(digit_char((value % 10) as int))
    }
}

/// Decimal text of the last `width` digits of `value`.
pub fn padded_text(value: u32, width: u32) -> (text: String)
    ensures
        text@ == padded(value as nat, width as nat),
    decreases width,
{
    if width == 0 {
        let text = String::new();
        assert(text@ =~= padded(value as nat, 0));
        text
    } else {
        let mut text = padded_text(value / 10, width - 1);
        text.append(digit_text((value % 10) as u8));
        text
    }
}

/// Padded decimal text has exactly `width` characters, each a decimal digit.
pub proof fn lemma_padded_shape(value: nat, width: nat)
    ensures
        padded(value, width).len() == width,
        forall|i: int| 0 <= i < width ==> '0' <= #[trigger] padded(value, width)[i] <= '9',
    decreases width,
{
    if width > 0 {
        lemma_padded_shape(value / 10, (width - 1) as nat);
    }
}

/// ASCII lower case of one byte.
pub open spec fn lower_byte(byte: u8) -> u8 {
    if 65 <= byte <= 90 {
        (byte + 32) as u8
    } else {
        byte
    }
}

/// ASCII lower case of a byte string.
pub open spec fn lower_bytes(bytes: Seq<u8>) -> Seq<u8> {
    bytes.map_values(|b: u8| lower_byte(b))
}

/// UTF-8 bytes of `text` with ASCII letters in lower case.
pub fn lowered(text: &str) -> (bytes: Vec<u8>)
    ensures
        bytes@ == lower_bytes(encode_utf8(text@)),
{
    let source = text.as_bytes();
    let mut bytes: Vec<u8> = Vec::new();
    let mut i: usize = 0;
    while i < source.len()
        invariant
            i <= source.len(),
            source@ == encode_utf8(text@),
            bytes@ == lower_bytes(source@.take(i as int)),
        decreases source.len() - i,
    {
        let byte: u8 = source[i];
        bytes.push(if 65 <= byte && byte <= 90 { byte + 32 } else { byte });
        assert(bytes@ =~= lower_bytes(source@.take(i + 1)));
        i += 1;
    }
    assert(source@.take(i as int) =~= source@);
    bytes
}

/// Whether `bytes` holds `part` at position `at`.
pub open spec fn occurs_at(bytes: Seq<u8>, part: Seq<u8>, at: int) -> bool {
    &&& 0 <= at
    &&& at + part.len() <= bytes.len()
    &&& bytes.subrange(at, at + part.len()) == part
}

/// Whether `bytes` begins with `part`.
pub open spec fn begins_with(bytes: Seq<u8>, part: Seq<u8>) -> bool {
    occurs_at(bytes, part, 0)
}

/// Whether `part` occurs anywhere in `bytes`.
pub open spec fn contains_bytes(bytes: Seq<u8>, part: Seq<u8>) -> bool {
    exists|at: int| #[trigger] occurs_at(bytes, part, at)
}

/// Whether `bytes` holds the bytes of `part` at position `at`.
pub fn has_at(bytes: &[u8], part: &str, at: usize) -> (found: bool)
    ensures
        found == occurs_at(bytes@, encode_utf8(part@), at as int),
{
    let wanted = part.as_bytes();
    if at > bytes.len() || wanted.len() > bytes.len() - at {
        return false;
    }
    let mut i: usize = 0;
    while i < wanted.len()
        invariant
            i <= wanted.len(),
            wanted@ == encode_utf8(part@),
            at + wanted.len() <= bytes.len(),
            forall|j: int| 0 <= j < i ==> bytes@[at + j] == wanted@[j],
        decreases wanted.len() - i,
    {
        if bytes[at + i] != wanted[i] {
            assert(bytes@.subrange(at as int, at + wanted.len())[i as int] != wanted@[i as int]);
            return false;
        }
        i += 1;
    }
    assert(bytes@.subrange(at as int, at + wanted.len()) =~= wanted@);
    true
}

/// Whether `bytes` begins with the bytes of `part`.
pub fn starts_with(bytes: &[u8], part: &str) -> (found: bool)
    ensures
        found == begins_with(bytes@, encode_utf8(part@)),
{
    has_at(bytes, part, 0)
}

/// Whether the bytes of `part` occur in `bytes`.
pub fn contains_text(bytes: &[u8], part: &str) -> (found: bool)
    ensures
        found == contains_bytes(bytes@, encode_utf8(part@)),
{
    let mut at: usize = 0;
    while at < bytes.len()
        invariant
            at <= bytes.len(),
            forall|k: int| 0 <= k < at ==> !#[trigger] occurs_at(bytes@, encode_utf8(part@), k),
        decreases bytes.len() - at,
    {
        if has_at(bytes, part, at) {
            return true;
        }
        at += 1;
    }
    has_at(bytes, part, at)
}

/// Characters with the Unicode `White_Space` property.
pub open spec fn is_space(c: char) -> bool {
    let code = c as u32;
    ||| 9 <= code <= 13
    ||| code == 0x20
    ||| code == 0x85
    ||| code == 0xa0
    ||| code == 0x1680
    ||| 0x2000 <= code <= 0x200a
    ||| code == 0x2028
    ||| code == 0x2029
    ||| code == 0x202f
    ||| code == 0x205f
    ||| code == 0x3000
}

/// Whether `c` is white space.
pub fn is_white_space(c: char) -> (space: bool)
    ensures
        space == is_space(c),
{
    let code: u32 = c as u32;
    (9 <= code && code <= 13) || code == 0x20 || code == 0x85 || code == 0xa0 || code == 0x1680
        || (0x2000 <= code && code <= 0x200a) || code == 0x2028 || code == 0x2029 || code == 0x202f
        || code == 0x205f || code == 0x3000
}

/// `part` is `text` without its leading and trailing white space.
pub open spec fn is_trimmed(text: Seq<char>, part: Seq<char>) -> bool {
    exists|from: int, to: int| #[trigger] trims_to(text, from, to) && part == text.subrange(from, to)
}

/// Positions `from..to` are what trimming leaves of `text`.
pub open spec fn trims_to(text: Seq<char>, from: int, to: int) -> bool {
    &&& 0 <= from <= to <= text.len()
    &&& forall|i: int| 0 <= i < from ==> is_space(#[trigger] text[i])
    &&& forall|i: int| to <= i < text.len() ==> is_space(#[trigger] text[i])
    &&& from < to ==> !is_space(text[from]) && !is_space(text[to - 1])
}

/// `text` without its leading and trailing white space.
pub open spec fn trimmed(text: Seq<char>) -> Seq<char> {
    choose|part: Seq<char>| is_trimmed(text, part)
}

/// Trimming leaves one text.
pub proof fn lemma_trimmed(text: Seq<char>, part: Seq<char>)
    requires
        is_trimmed(text, part),
    ensures
        part == trimmed(text),
{
    let other = trimmed(text);
    let (a, b) = choose|a: int, b: int| #[trigger] trims_to(text, a, b) && part == text.subrange(a, b);
    let (c, d) = choose|c: int, d: int| #[trigger]
        trims_to(text, c, d) && other == text.subrange(c, d);
    if a < b {
        assert(!is_space(text[a]) && !is_space(text[b - 1]));
        assert(c <= a && b <= d);
        assert(!is_space(text[c]) && !is_space(text[d - 1]));
        assert(a == c && b == d);
    } else if c < d {
        assert(!is_space(text[c]));
        assert(is_space(text[c]));
    } else {
        assert(part =~= other);
    }
}

/// `text` without leading and trailing white space.
pub fn trim(text: &str) -> (part: &str)
    ensures
        part@ == trimmed(text@),
        is_trimmed(text@, part@),
{
    let len: usize = text.unicode_len();
    let mut from: usize = 0;
    while from < len && is_white_space(text.get_char(from))
        invariant
            from <= len,
            len == text@.len(),
            forall|i: int| 0 <= i < from ==> is_space(#[trigger] text@[i]),
        decreases len - from,
    {
        from += 1;
    }
    let mut to: usize = len;
    while to > from && is_white_space(text.get_char(to - 1))
        invariant
            from <= to <= len,
            len == text@.len(),
            forall|i: int| to <= i < len ==> is_space(#[trigger] text@[i]),
        decreases to,
    {
        to -= 1;
    }
    let part = text.substring_char(from, to);
    proof {
        assert(trims_to(text@, from as int, to as int));
        lemma_trimmed(text@, part@);
    }
    part
}

/// Whether any character of `text` is white space.
pub fn has_white_space(text: &str) -> (found: bool)
    ensures
        found == exists|i: int| 0 <= i < text@.len() && is_space(#[trigger] text@[i]),
{
    let len: usize = text.unicode_len();
    let mut i: usize = 0;
    while i < len
        invariant
            i <= len,
            len == text@.len(),
            forall|j: int| 0 <= j < i ==> !is_space(#[trigger] text@[j]),
        decreases len - i,
    {
        if is_white_space(text.get_char(i)) {
            assert(is_space(text@[i as int]));
            return true;
        }
        i += 1;
    }
    false
}

/// The number that decimal digits stand for, if all bytes are digits.
pub open spec fn digits_value(bytes: Seq<u8>) -> Option<nat>
    decreases bytes.len(),
{
    if bytes.len() == 0 {
        Some(0)
    } else if !(48 <= bytes.last() <= 57) {
        None
    } else {
        match digits_value(bytes.drop_last()) {
            Some(high) => Some(high * 10 + (bytes.last() - 48) as nat),
            None => None,
        }
    }
}

/// The number that an optional plus sign and decimal digits stand for, if it
/// is at most `limit`.
pub open spec fn parsed_number(bytes: Seq<u8>, limit: nat) -> Option<nat> {
    let digits = if bytes.len() > 0 && bytes[0] == 43 {
        bytes.skip(1)
    } else {
        bytes
    };
    match digits_value(digits) {
        Some(value) => if digits.len() > 0 && value <= limit {
            Some(value)
        } else {
            None
        },
        None => None,
    }
}

proof fn lemma_digits_value_prefix(bytes: Seq<u8>, count: int)
    requires
        0 <= count <= bytes.len(),
    ensures
        digits_value(bytes) matches Some(value) ==> (digits_value(bytes.take(count)) matches Some(
            part,
        ) && part <= value),
    decreases bytes.len() - count,
{
    if count == bytes.len() {
        assert(bytes.take(count) =~= bytes);
    } else {
        lemma_digits_value_prefix(bytes, count + 1);
        assert(bytes.take(count + 1).drop_last() =~= bytes.take(count));
    }
}

/// Reads a decimal number that is at most `limit`.
pub fn parse_number(text: &str, limit: u32) -> (number: Option<u32>)
    ensures
        match number {
            Some(value) => parsed_number(encode_utf8(text@), limit as nat) == Some(value as nat),
            None => parsed_number(encode_utf8(text@), limit as nat) is None,
        },
{
    let bytes = text.as_bytes();
    let start: usize = if bytes.len() > 0 && bytes[0] == 43 {
        1
    } else {
        0
    };
    let ghost digits = if bytes@.len() > 0 && bytes@[0] == 43 {
        bytes@.skip(1)
    } else {
        bytes@
    };
    assert(digits =~= bytes@.skip(start as int));
    if start == bytes.len() {
        return None;
    }
    assert(bytes@.skip(0) =~= bytes@);
    let mut value: u64 = 0;
    let mut i: usize = start;
    while i < bytes.len()
        invariant
            start <= i <= bytes.len(),
            start < bytes.len(),
            bytes@ == encode_utf8(text@),
            start == (if bytes@.len() > 0 && bytes@[0] == 43 {
                1int
            } else {
                0int
            }),
            digits == bytes@.skip(start as int),
            bytes@.skip(0) == bytes@,
            digits_value(digits.take(i - start)) == Some(value as nat),
            value <= limit,
        decreases bytes.len() - i,
    {
        let byte: u8 = bytes[i];
        proof {
            assert(digits.take(i + 1 - start).drop_last() =~= digits.take(i - start));
            assert(digits.take(i + 1 - start).last() == byte);
            lemma_digits_value_prefix(digits, i + 1 - start);
        }
        if byte < 48 || byte > 57 {
            return None;
        }
        value = value * 10 + (byte - 48) as u64;
        if value > limit as u64 {
            return None;
        }
        i += 1;
    }
    assert(digits.take(i - start) =~= digits);
    Some(value as u32)
}

proof fn lemma_digits_value_push(bytes: Seq<u8>, digit: u8)
    requires
        digit < 10,
        digits_value(bytes) is Some,
    ensures
        digits_value(bytes.push((48 + digit) as u8)) == Some(
            (digits_value(bytes)->0 * 10 + digit) as nat,
        ),
{
    assert(bytes.push((48 + digit) as u8).drop_last() =~= bytes);
}

/// Decimal text is ASCII and not empty, and holds only digits.
pub proof fn lemma_decimal_ascii(value: nat)
    ensures
        is_ascii_chars(decimal(value)),
        decimal(value).len() > 0,
        forall|i: int| 0 <= i < decimal(value).len() ==> '0' <= #[trigger] decimal(value)[i] <= '9',
    decreases value,
{
    if value >= 10 {
        lemma_decimal_ascii(value / 10);
    }
}

/// A number of 32 bits has at most ten decimal digits.
pub proof fn lemma_decimal_short(value: u32)
    ensures
        1 <= utf8_len(decimal(value as nat)) <= 10,
{
    reveal_with_fuel(digits, 10);
    lemma_decimal_ascii(value as nat);
    is_ascii_chars_encode_utf8(decimal(value as nat));
}

proof fn lemma_decimal_value(value: nat)
    ensures
        digits_value(encode_utf8(decimal(value))) == Some(value),
    decreases value,
{
    lemma_decimal_ascii(value);
    is_ascii_chars_encode_utf8(decimal(value));
    if value >= 10 {
        lemma_decimal_value(value / 10);
        lemma_decimal_ascii(value / 10);
        is_ascii_chars_encode_utf8(decimal(value / 10));
        assert(encode_utf8(decimal(value)) =~= encode_utf8(decimal(value / 10)).push(
            (48 + value % 10) as u8,
        ));
        lemma_digits_value_push(encode_utf8(decimal(value / 10)), (value % 10) as u8);
    } else {
        assert(encode_utf8(decimal(value)).drop_last() =~= seq![]);
        assert(digits_value(encode_utf8(decimal(value)).drop_last()) == Some(0nat));
        assert(encode_utf8(decimal(value)).last() == 48 + value);
    }
}

/// Reading back the decimal text of a number gives the number.
pub proof fn lemma_decimal_round_trip(value: nat, limit: nat)
    requires
        value <= limit,
    ensures
        parsed_number(encode_utf8(decimal(value)), limit) == Some(value),
{
    lemma_decimal_value(value);
    lemma_decimal_ascii(value);
    is_ascii_chars_encode_utf8(decimal(value));
}

/// A copy of bytes.
pub fn copy_bytes(bytes: &[u8]) -> (copy: Vec<u8>)
    ensures
        copy@ == bytes@,
{
    let mut copy: Vec<u8> = Vec::new();
    let mut i: usize = 0;
    while i < bytes.len()
        invariant
            i <= bytes.len(),
            copy@ == bytes@.take(i as int),
        decreases bytes.len() - i,
    {
        copy.push(bytes[i]);
        i += 1;
        assert(copy@ =~= bytes@.take(i as int));
    }
    assert(bytes@.take(i as int) =~= bytes@);
    copy
}

/// `text` without the copies of `prefix` in front of it.
pub open spec fn stripped(text: Seq<char>, prefix: Seq<char>) -> Seq<char>
    decreases text.len(),
{
    if prefix.len() > 0 && prefix.is_prefix_of(text) {
        stripped(text.skip(prefix.len() as int), prefix)
    } else {
        text
    }
}

fn has_prefix(text: &str, prefix: &str) -> (found: bool)
    ensures
        found == prefix@.is_prefix_of(text@),
{
    let len: usize = prefix.unicode_len();
    if text.unicode_len() < len {
        return false;
    }
    let found = same_text(text.substring_char(0, len), prefix);
    assert(text@.subrange(0, len as int) == prefix@ <==> prefix@.is_prefix_of(text@));
    found
}

/// `text` without the copies of `prefix` in front of it.
pub fn strip_start<'a>(text: &'a str, prefix: &str) -> (rest: &'a str)
    ensures
        rest@ == stripped(text@, prefix@),
{
    let len: usize = prefix.unicode_len();
    let mut rest: &'a str = text;
    while len > 0 && has_prefix(rest, prefix)
        invariant
            len == prefix@.len(),
            stripped(rest@, prefix@) == stripped(text@, prefix@),
        decreases rest@.len(),
    {
        let ghost before = rest@;
        let total: usize = rest.unicode_len();
        assert(prefix@.len() <= rest@.len());
        rest = rest.substring_char(len, total);
        assert(rest@ =~= before.skip(len as int));
    }
    rest
}

/// The text of the first `count` bytes, where they end between two characters.
pub open spec fn head(text: Seq<char>, count: int) -> Seq<char> {
    choose|part: Seq<char>| encode_utf8(part) == encode_utf8(text).subrange(0, count)
}

/// The text of the first `count` bytes.
pub fn text_head(text: &str, count: usize) -> (part: &str)
    requires
        is_char_boundary(encode_utf8(text@), count as int),
    ensures
        part@ == head(text@, count as int),
        encode_utf8(part@) == encode_utf8(text@).subrange(0, count as int),
{
    let (part, _) = text.split_at(count);
    proof {
        assert(encode_utf8(part@) == encode_utf8(text@).subrange(0, count as int));
        lemma_encode_utf8_injective(part@, head(text@, count as int));
    }
    part
}

/// Trimming takes away the white space around a text, and nothing of the text.
pub proof fn law_trimming(before: Seq<char>, text: Seq<char>, after: Seq<char>)
    requires
        forall|i: int| 0 <= i < before.len() ==> is_space(#[trigger] before[i]),
        forall|i: int| 0 <= i < after.len() ==> is_space(#[trigger] after[i]),
        text.len() > 0 ==> !is_space(text[0]) && !is_space(text[text.len() - 1]),
    ensures
        trimmed(before + text + after) == text,
{
    let whole = before + text + after;
    let from = before.len() as int;
    let to = from + text.len();
    assert forall|i: int| to <= i < whole.len() implies is_space(#[trigger] whole[i]) by {
        assert(whole[i] == after[i - to]);
    }
    assert forall|i: int| 0 <= i < from implies is_space(#[trigger] whole[i]) by {
        assert(whole[i] == before[i]);
    }
    assert(trims_to(whole, from, to));
    assert(whole.subrange(from, to) =~= text);
    assert(is_trimmed(whole, text));
    lemma_trimmed(whole, text);
}

/// The decimal digits of a number: the last one is what is left over ten, and the
/// others are those of the tenth part.
pub proof fn law_decimal_digits(value: nat)
    ensures
        value < 10 ==> decimal(value).len() == 1,
        value >= 10 ==> decimal(value).drop_last() == decimal(value / 10),
        decimal(value).last() as int - '0' as int == value % 10,
{
    if value >= 10 {
        assert(decimal(value).drop_last() =~= decimal(value / 10));
    }
}

} // verus!
