//! Characters, decimal and hexadecimal digits, and the parts of std's text
//! handling that the library relies on.

use vstd::prelude::*;
use vstd::utf8::{decode_utf8, valid_utf8};

pub mod laws;

verus! {

/// `String::push` appends one character at the end of the string.
pub assume_specification[ String::push ](string: &mut String, c: char)
    ensures
        final(string)@ == old(string)@.push(c),
;

/// What std says about bytes that are not UTF-8.
pub uninterp spec fn utf8_error_text(bytes: Seq<u8>) -> Seq<char>;

/// `String::from_utf8`: the text that the bytes encode, or std's complaint if
/// they are not UTF-8.
#[verifier::external_body]
pub(crate) fn string_from_utf8(bytes: Vec<u8>) -> (result: Result<String, String>)
    ensures
        match result {
            Ok(text) => valid_utf8(bytes@) && text@ == decode_utf8(bytes@),
            Err(complaint) => !valid_utf8(bytes@) && complaint@ == utf8_error_text(bytes@),
        },
{
    String::from_utf8(bytes).map_err(|error| error.to_string())
}

/// What std says about text that is no `i64`.
pub uninterp spec fn i64_error_text(text: Seq<char>) -> Seq<char>;

/// What std says about text that is no `usize`.
pub uninterp spec fn usize_error_text(text: Seq<char>) -> Seq<char>;

/// `i64::from_str`: an optional `+` or `-` followed by one or more of the digits
/// `0` to `9`, nothing else, naming a number in the range of `i64`.
#[verifier::external_body]
pub(crate) fn parse_i64(text: &str) -> (result: Result<i64, String>)
    ensures
        match result {
            Ok(value) => i64_of_text(text@) == Some(value as int),
            Err(complaint) => i64_of_text(text@) is None && complaint@ == i64_error_text(text@),
        },
{
    text.parse::<i64>().map_err(|error| error.to_string())
}

/// `usize::from_str`: an optional `+` followed by one or more of the digits `0` to
/// `9`, nothing else, naming a number in the range of `usize`.
#[verifier::external_body]
pub(crate) fn parse_usize(text: &str) -> (result: Result<usize, String>)
    ensures
        match result {
            Ok(value) => usize_of_text(text@) == Some(value as int),
            Err(complaint) => usize_of_text(text@) is None && complaint@ == usize_error_text(
                text@,
            ),
        },
{
    text.parse::<usize>().map_err(|error| error.to_string())
}

/// What std says about a slice of the wrong length for an array.
pub uninterp spec fn array_error_text(len: nat) -> Seq<char>;

/// `<[u8; 20]>::try_from` of a slice: a copy of it, if it has twenty bytes.
#[verifier::external_body]
pub(crate) fn array_of_20(bytes: &[u8]) -> (result: Result<[u8; 20], String>)
    ensures
        match result {
            Ok(array) => bytes@.len() == 20 && array@ == bytes@,
            Err(complaint) => bytes@.len() != 20 && complaint@ == array_error_text(bytes@.len()),
        },
{
    <[u8; 20]>::try_from(bytes).map_err(|error| error.to_string())
}

/// What std says about an integer that is no `usize`.
pub uninterp spec fn usize_range_text(value: int) -> Seq<char>;

/// `usize::try_from` of an `i64`: the same number, if it is in the range of `usize`.
#[verifier::external_body]
pub(crate) fn usize_of_i64(value: i64) -> (result: Result<usize, String>)
    ensures
        match result {
            Ok(converted) => converted == value,
            Err(complaint) => !(0 <= value <= usize::MAX) && complaint@ == usize_range_text(
                value as int,
            ),
        },
{
    usize::try_from(value).map_err(|error| error.to_string())
}

pub open spec fn is_digit(c: char) -> bool {
    '0' <= c <= '9'
}

/// The number that a run of decimal digits writes.
pub open spec fn digits_value(digits: Seq<char>) -> int
    decreases digits.len(),
{
    if digits.len() == 0 {
        0
    } else {
        digits_value(digits.drop_last()) * 10 + (digits.last() as int - '0' as int)
    }
}

/// One or more decimal digits.
pub open spec fn is_number(digits: Seq<char>) -> bool {
    &&& digits.len() > 0
    &&& forall|i: int| 0 <= i < digits.len() ==> is_digit(#[trigger] digits[i])
}

/// The number that digits after an optional `+` write.
pub open spec fn unsigned_of_text(text: Seq<char>) -> Option<int> {
    let digits = if text.len() > 0 && text[0] == '+' {
        text.drop_first()
    } else {
        text
    };
    if is_number(digits) {
        Some(digits_value(digits))
    } else {
        None
    }
}

/// The number that digits after an optional `+` or `-` write.
pub open spec fn signed_of_text(text: Seq<char>) -> Option<int> {
    if text.len() > 0 && text[0] == '-' {
        if is_number(text.drop_first()) {
            Some(-digits_value(text.drop_first()))
        } else {
            None
        }
    } else {
        unsigned_of_text(text)
    }
}

pub open spec fn i64_of_text(text: Seq<char>) -> Option<int> {
    match signed_of_text(text) {
        Some(value) if i64::MIN <= value <= i64::MAX => Some(value),
        _ => None,
    }
}

pub open spec fn usize_of_text(text: Seq<char>) -> Option<int> {
    match unsigned_of_text(text) {
        Some(value) if value <= usize::MAX => Some(value),
        _ => None,
    }
}

/// The `i64` that bytes write, or what std says about them.
pub open spec fn i64_of_bytes(bytes: Seq<u8>) -> Result<int, Seq<char>> {
    if !valid_utf8(bytes) {
        Err(utf8_error_text(bytes))
    } else {
        match i64_of_text(decode_utf8(bytes)) {
            Some(value) => Ok(value),
            None => Err(i64_error_text(decode_utf8(bytes))),
        }
    }
}

/// The `usize` that bytes write, or what std says about them.
pub open spec fn usize_of_bytes(bytes: Seq<u8>) -> Result<int, Seq<char>> {
    if !valid_utf8(bytes) {
        Err(utf8_error_text(bytes))
    } else {
        match usize_of_text(decode_utf8(bytes)) {
            Some(value) => Ok(value),
            None => Err(usize_error_text(decode_utf8(bytes))),
        }
    }
}

pub open spec fn digit_char(digit: int) -> char {
    ('0' as int + digit) as u8 as char
}

/// A natural number in decimal digits, without leading zeros.
pub open spec fn decimal_nat(n: nat) -> Seq<char>
    decreases n,
{
    if n < 10 {
        seq![digit_char(n as int)]
    } else {
        decimal_nat(n / 10).push(digit_char((n % 10) as int))
    }
}

/// An integer in decimal digits, with a leading `-` if it is negative.
pub open spec fn decimal(n: int) -> Seq<char> {
    if n < 0 {
        seq!['-'] + decimal_nat((-n) as nat)
    } else {
        decimal_nat(n as nat)
    }
}

/// The lower-case hexadecimal digit of a number below 16.
pub open spec fn hex_digit(n: int) -> char {
    if n < 10 {
        ('0' as int + n) as u8 as char
    } else {
        ('a' as int + n - 10) as u8 as char
    }
}

/// The upper-case hexadecimal digit of a number below 16.
pub open spec fn hex_digit_upper(n: int) -> char {
    if n < 10 {
        ('0' as int + n) as u8 as char
    } else {
        ('A' as int + n - 10) as u8 as char
    }
}

/// A byte as two lower-case hexadecimal digits.
pub open spec fn hex_byte(byte: u8) -> Seq<char> {
    seq![hex_digit(byte as int / 16), hex_digit(byte as int % 16)]
}

/// A byte as two upper-case hexadecimal digits.
pub open spec fn hex_byte_upper(byte: u8) -> Seq<char> {
    seq![hex_digit_upper(byte as int / 16), hex_digit_upper(byte as int % 16)]
}

/// Text of which every byte gives a part of its own.
pub open spec fn concat_text(bytes: Seq<u8>, part: spec_fn(u8) -> Seq<char>) -> Seq<char>
    decreases bytes.len(),
{
    if bytes.len() == 0 {
        seq![]
    } else {
        concat_text(bytes.drop_last(), part) + part(bytes.last())
    }
}

/// Append a number in decimal.
pub fn push_decimal(out: &mut String, n: u128)
    ensures
        final(out)@ == old(out)@ + decimal_nat(n as nat),
    decreases n,
{
    if n >= 10 {
        push_decimal(out, n / 10);
    }
    let digit: u8 = '0' as u8 + (n % 10) as u8;
    out.push(digit as char);
}

/// A number in decimal.
pub fn decimal_string(n: i64) -> (text: String)
    ensures
        text@ == decimal(n as int),
{
    let mut text = String::new();
    if n < 0 {
        text.push('-');
        push_decimal(&mut text, (0 - n as i128) as u128);
    } else {
        push_decimal(&mut text, n as u128);
    }
    text
}

/// A number in decimal.
pub fn decimal_string_u64(n: u64) -> (text: String)
    ensures
        text@ == decimal_nat(n as nat),
{
    let mut text = String::new();
    push_decimal(&mut text, n as u128);
    text
}

/// Append a byte as two lower-case hexadecimal digits.
pub fn push_hex_byte(out: &mut String, byte: u8)
    ensures
        final(out)@ == old(out)@ + hex_byte(byte),
{
    let high: u8 = byte / 16;
    let low: u8 = byte % 16;
    let high_digit: u8 = if high < 10 { '0' as u8 + high } else { 'a' as u8 + (high - 10) };
    let low_digit: u8 = if low < 10 { '0' as u8 + low } else { 'a' as u8 + (low - 10) };
    out.push(high_digit as char);
    out.push(low_digit as char);
}

/// Append a byte as two upper-case hexadecimal digits.
pub fn push_hex_byte_upper(out: &mut String, byte: u8)
    ensures
        final(out)@ == old(out)@ + hex_byte_upper(byte),
{
    let high: u8 = byte / 16;
    let low: u8 = byte % 16;
    let high_digit: u8 = if high < 10 { '0' as u8 + high } else { 'A' as u8 + (high - 10) };
    let low_digit: u8 = if low < 10 { '0' as u8 + low } else { 'A' as u8 + (low - 10) };
    out.push(high_digit as char);
    out.push(low_digit as char);
}

/// Whether two byte strings hold the same bytes.
pub fn same_bytes(a: &[u8], b: &[u8]) -> (same: bool)
    ensures
        same == (a@ == b@),
{
    if a.len() != b.len() {
        return false;
    }
    let mut i: usize = 0;
    while i < a.len()
        invariant
            0 <= i <= a.len(),
            a.len() == b.len(),
            forall|j: int| 0 <= j < i ==> a@[j] == b@[j],
        decreases a.len() - i,
    {
        if a[i] != b[i] {
            return false;
        }
        i = i + 1;
    }
    assert(a@ =~= b@);
    true
}

/// Whether two texts are the same.
pub fn same_text(a: &str, b: &str) -> (same: bool)
    ensures
        same == (a@ == b@),
{
    let same = same_bytes(a.as_bytes(), b.as_bytes());
    proof {
        vstd::utf8::encode_utf8_decode_utf8(a@);
        vstd::utf8::encode_utf8_decode_utf8(b@);
    }
    same
}

/// A copy of a byte slice.
pub fn bytes_to_vec(bytes: &[u8]) -> (copy: Vec<u8>)
    ensures
        copy@ == bytes@,
{
    vstd::slice::slice_to_vec(bytes)
}

/// The characters of a text.
pub fn chars_of(text: &str) -> (chars: Vec<char>)
    ensures
        chars@ == text@,
{
    let mut chars: Vec<char> = Vec::new();
    for c in it: text.chars()
        invariant
            it.seq() == text@,
            chars@ == it.seq().take(it.index()),
    {
        chars.push(c);
    }
    assert(text@.take(text@.len() as int) =~= text@);
    chars
}

/// The text made of the given characters.
pub fn string_of_chars(chars: &[char]) -> (text: String)
    ensures
        text@ == chars@,
{
    let mut text = String::new();
    let mut i: usize = 0;
    while i < chars.len()
        invariant
            0 <= i <= chars.len(),
            text@ == chars@.take(i as int),
        decreases chars.len() - i,
    {
        text.push(chars[i]);
        i = i + 1;
    }
    assert(chars@.take(chars@.len() as int) =~= chars@);
    text
}

/// The first position of a character.
pub open spec fn find_char(text: Seq<char>, c: char) -> Option<int>
    decreases text.len(),
{
    if text.len() == 0 {
        None
    } else if text[0] == c {
        Some(0)
    } else {
        match find_char(text.drop_first(), c) {
            Some(at) => Some(at + 1),
            None => None,
        }
    }
}

pub proof fn lemma_find_char(text: Seq<char>, c: char)
    ensures
        match find_char(text, c) {
            Some(at) => 0 <= at < text.len() && text[at] == c && forall|i: int|
                0 <= i < at ==> text[i] != c,
            None => forall|i: int| 0 <= i < text.len() ==> text[i] != c,
        },
    decreases text.len(),
{
    if text.len() > 0 && text[0] != c {
        let rest = text.drop_first();
        lemma_find_char(rest, c);
        assert(forall|i: int| 0 < i < text.len() ==> text[i] == rest[i - 1]);
    }
}

/// The first position of a character.
pub fn position_of_char(text: &[char], c: char) -> (at: Option<usize>)
    ensures
        match at {
            Some(at) => find_char(text@, c) == Some(at as int) && at < text@.len(),
            None => find_char(text@, c) is None,
        },
{
    let mut i: usize = 0;
    while i < text.len()
        invariant
            0 <= i <= text.len(),
            forall|j: int| 0 <= j < i ==> text@[j] != c,
        decreases text.len() - i,
    {
        if text[i] == c {
            proof {
                lemma_find_char(text@, c);
            }
            return Some(i);
        }
        i = i + 1;
    }
    proof {
        lemma_find_char(text@, c);
    }
    None
}

/// The parts of a text between occurrences of a separator.
pub open spec fn split_text(text: Seq<char>, separator: char) -> Seq<Seq<char>>
    decreases text.len(),
{
    match find_char(text, separator) {
        Some(at) if 0 <= at < text.len() => seq![text.take(at)] + split_text(
            text.skip(at + 1),
            separator,
        ),
        _ => seq![text],
    }
}

/// The parts of a text before and after the first occurrence of a separator.
pub open spec fn split_once_text(text: Seq<char>, separator: char) -> Option<
    (Seq<char>, Seq<char>),
> {
    match find_char(text, separator) {
        Some(at) => Some((text.take(at), text.skip(at + 1))),
        None => None,
    }
}

/// The parts of a text between occurrences of a separator.
pub fn split_chars(text: &[char], separator: char) -> (parts: Vec<Vec<char>>)
    ensures
        parts@.len() == split_text(text@, separator).len(),
        forall|i: int|
            0 <= i < parts@.len() ==> (#[trigger] parts@[i])@ == split_text(text@, separator)[i],
{
    let mut parts: Vec<Vec<char>> = Vec::new();
    let ghost all = split_text(text@, separator);
    let mut rest: &[char] = text;
    let ghost mut done: Seq<Seq<char>> = seq![];
    assert(done + split_text(rest@, separator) =~= all);
    loop
        invariant
            all == split_text(text@, separator),
            done + split_text(rest@, separator) == all,
            parts@.len() == done.len(),
            forall|i: int| 0 <= i < parts@.len() ==> (#[trigger] parts@[i])@ == done[i],
        decreases rest@.len(),
    {
        let n: usize = rest.len();
        match position_of_char(rest, separator) {
            Some(at) => {
                let part = vstd::slice::slice_subrange(rest, 0, at);
                let ghost before = rest@;
                parts.push(copy_chars(part));
                rest = vstd::slice::slice_subrange(rest, at + 1, n);
                proof {
                    assert(part@ =~= before.take(at as int));
                    assert(rest@ =~= before.skip(at + 1));
                    assert(done + (seq![part@] + split_text(rest@, separator)) =~= done.push(
                        part@,
                    ) + split_text(rest@, separator));
                    done = done.push(part@);
                }
            },
            None => {
                parts.push(copy_chars(rest));
                assert(all =~= done.push(rest@));
                return parts;
            },
        }
    }
}

/// A copy of some characters.
pub fn copy_chars(chars: &[char]) -> (copy: Vec<char>)
    ensures
        copy@ == chars@,
{
    let mut copy: Vec<char> = Vec::new();
    let mut i: usize = 0;
    while i < chars.len()
        invariant
            0 <= i <= chars.len(),
            copy@ == chars@.take(i as int),
        decreases chars.len() - i,
    {
        copy.push(chars[i]);
        i = i + 1;
    }
    assert(chars@.take(chars@.len() as int) =~= chars@);
    copy
}

/// The texts that strings hold.
pub open spec fn texts(list: Seq<String>) -> Seq<Seq<char>> {
    list.map_values(|text: String| text@)
}

/// The text that a string holds, if there is one.
pub open spec fn some_text(text: Option<String>) -> Option<Seq<char>> {
    match text {
        Some(text) => Some(text@),
        None => None,
    }
}

/// A copy of some strings.
pub fn copy_texts(list: &Vec<String>) -> (copy: Vec<String>)
    ensures
        texts(copy@) == texts(list@),
{
    let mut copy: Vec<String> = Vec::new();
    let mut i: usize = 0;
    while i < list.len()
        invariant
            0 <= i <= list.len(),
            copy@.len() == i,
            forall|j: int| 0 <= j < i ==> (#[trigger] copy@[j])@ == list@[j]@,
        decreases list.len() - i,
    {
        copy.push(list[i].clone());
        i = i + 1;
    }
    assert(texts(copy@) =~= texts(list@));
    copy
}

/// A copy of a string, if there is one.
pub fn copy_some_text(text: &Option<String>) -> (copy: Option<String>)
    ensures
        some_text(copy) == some_text(*text),
{
    match text {
        Some(text) => Some(text.clone()),
        None => None,
    }
}

/// Whether characters spell a text.
pub fn chars_are(chars: &[char], text: &str) -> (same: bool)
    ensures
        same == (chars@ == text@),
{
    same_text(string_of_chars(chars).as_str(), text)
}

/// Whether characters begin with a text.
pub fn chars_start_with(chars: &[char], prefix: &str) -> (starts: bool)
    ensures
        starts == (chars@.len() >= prefix@.len() && chars@.take(prefix@.len() as int) == prefix@),
{
    let n: usize = prefix.unicode_len();
    if chars.len() < n {
        return false;
    }
    let head = vstd::slice::slice_subrange(chars, 0, n);
    assert(head@ =~= chars@.take(n as int));
    chars_are(head, prefix)
}

proof fn lemma_digits_value_not_negative(digits: Seq<char>)
    requires
        forall|i: int| 0 <= i < digits.len() ==> is_digit(#[trigger] digits[i]),
    ensures
        digits_value(digits) >= 0,
    decreases digits.len(),
{
    if digits.len() > 0 {
        lemma_digits_value_not_negative(digits.drop_last());
        assert(is_digit(digits[digits.len() - 1]));
    }
}

/// A length that is read is not negative.
pub proof fn lemma_usize_of_text(text: Seq<char>)
    ensures
        usize_of_text(text) matches Some(n) ==> 0 <= n <= usize::MAX,
{
    let digits = if text.len() > 0 && text[0] == '+' {
        text.drop_first()
    } else {
        text
    };
    if is_number(digits) {
        lemma_digits_value_not_negative(digits);
    }
}

proof fn lemma_char_not_negative(c: char)
    ensures
        '\0' <= c,
{
}

pub proof fn lemma_ascii(text: Seq<char>)
    requires
        forall|i: int| 0 <= i < text.len() ==> #[trigger] text[i] <= '\u{7f}',
    ensures
        vstd::utf8::is_ascii_chars(text),
{
    assert forall|i: int| 0 <= i < text.len() implies '\0' <= #[trigger] text[i] <= '\u{7f}' by {
        lemma_char_not_negative(text[i]);
    }
}

/// Decimal digits read back as the number that they write.
pub proof fn decimal_nat_reads_back(n: nat)
    ensures
        is_number(decimal_nat(n)),
        digits_value(decimal_nat(n)) == n,
    decreases n,
{
    if n < 10 {
        let digits = seq![digit_char(n as int)];
        assert(digits.drop_last() =~= Seq::<char>::empty());
        assert(digits_value(digits.drop_last()) == 0);
    } else {
        decimal_nat_reads_back(n / 10);
        let head = decimal_nat(n / 10);
        let digits = head.push(digit_char((n % 10) as int));
        assert(digits.drop_last() =~= head);
    }
}

/// An integer written in decimal reads back as itself.
pub proof fn decimal_reads_back(n: int)
    ensures
        signed_of_text(decimal(n)) == Some(n),
        n >= 0 ==> unsigned_of_text(decimal(n)) == Some(n),
{
    if n < 0 {
        decimal_nat_reads_back((-n) as nat);
        assert(decimal(n).drop_first() =~= decimal_nat((-n) as nat));
    } else {
        decimal_nat_reads_back(n as nat);
        assert(is_digit(decimal(n)[0]));
    }
}

} // verus!
