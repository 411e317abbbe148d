//! Text by its characters: the small operations that the rest of the library is written with.
use vstd::prelude::*;

verus! {

/// `String::push` appends the character to the end of the text.
pub assume_specification[ String::push ](string: &mut String, c: char)
    ensures
        final(string)@ == old(string)@.push(c),
;

/// `str::eq` tells whether two texts spell the same characters.
pub assume_specification[ <str as PartialEq>::eq ](a: &str, b: &str) -> (same: bool)
    ensures
        same == (a@ == b@),
;

/// The bytes of a text in UTF-8.
pub open spec fn utf8(text: Seq<char>) -> Seq<u8> {
    vstd::utf8::encode_utf8(text)
}

/// The characters of a text.
pub fn chars_of(text: &str) -> (chars: Vec<char>)
    ensures
        chars@ == text@,
{
    let mut chars: Vec<char> = Vec::new();
    for c in it: text.chars()
        invariant
            it.seq() == text@,
            chars@ == text@.take(it.index() as int),
    {
        chars.push(c);
        assert(chars@ =~= text@.take(it.index() + 1));
    }
    assert(text@.take(text@.len() as int) =~= text@);
    chars
}

/// The text that a range of characters spells.
pub fn text_of(chars: &[char], from: usize, to: usize) -> (text: String)
    requires
        from <= to <= chars@.len(),
    ensures
        text@ == chars@.subrange(from as int, to as int),
{
    let mut text = String::new();
    let mut i = from;
    while i < to
        invariant
            from <= i <= to <= chars@.len(),
            text@ == chars@.subrange(from as int, i as int),
        decreases to - i,
    {
        text.push(chars[i]);
        i += 1;
        assert(text@ =~= chars@.subrange(from as int, i as int));
    }
    text
}

/// Whether two texts spell the same characters.
pub fn same_text(a: &str, b: &str) -> (same: bool)
    ensures
        same == (a@ == b@),
{
    *a == *b
}

/// Whether the text holds the character.
pub fn has_char(text: &str, wanted: char) -> (found: bool)
    ensures
        found == text@.contains(wanted),
{
    let chars = chars_of(text);
    let mut i: usize = 0;
    while i < chars.len()
        invariant
            i <= chars@.len(),
            chars@ == text@,
            forall|j: int| 0 <= j < i ==> chars@[j] != wanted,
        decreases chars@.len() - i,
    {
        if chars[i] == wanted {
            assert(text@[i as int] == wanted);
            return true;
        }
        i += 1;
    }
    false
}

/// Whether `part` stands in `whole` from the place `at` on.
pub open spec fn stands_at(whole: Seq<char>, at: int, part: Seq<char>) -> bool {
    &&& 0 <= at
    &&& at + part.len() <= whole.len()
    &&& whole.subrange(at, at + part.len()) == part
}

/// Whether `part` stands somewhere in `whole`.
pub open spec fn has_part(whole: Seq<char>, part: Seq<char>) -> bool {
    exists|at: int| stands_at(whole, at, part)
}

/// Tells whether one run of characters stands in another from a given place on.
pub fn stands_at_place(whole: &[char], at: usize, part: &[char]) -> (stands: bool)
    ensures
        stands == stands_at(whole@, at as int, part@),
{
    let len = whole.len();
    if at > len || part.len() > len - at {
        return false;
    }
    let mut i: usize = 0;
    while i < part.len()
        invariant
            len == whole@.len(),
            at + part@.len() <= len,
            i <= part@.len(),
            forall|j: int| 0 <= j < i ==> whole@[at + j] == part@[j],
        decreases part@.len() - i,
    {
        if whole[at + i] != part[i] {
            assert(whole@.subrange(at as int, at + part@.len())[i as int] != part@[i as int]);
            return false;
        }
        i += 1;
    }
    assert(whole@.subrange(at as int, at + part@.len()) =~= part@);
    true
}

/// Tells whether one run of characters stands somewhere in another.
pub fn has_part_in(whole: &[char], part: &[char]) -> (found: bool)
    ensures
        found == has_part(whole@, part@),
{
    let mut at: usize = 0;
    loop
        invariant
            at <= whole@.len(),
            forall|j: int| 0 <= j < at ==> !stands_at(whole@, j, part@),
        decreases whole@.len() - at,
    {
        if stands_at_place(whole, at, part) {
            return true;
        }
        if at == whole.len() {
            return false;
        }
        at += 1;
    }
}

/// Whether the text begins with the prefix.
pub fn starts_with(text: &str, prefix: &str) -> (starts: bool)
    ensures
        starts == stands_at(text@, 0, prefix@),
{
    let text = chars_of(text);
    let prefix = chars_of(prefix);
    stands_at_place(text.as_slice(), 0, prefix.as_slice())
}

/// Tells whether the text begins with the character.
pub fn starts_with_char(text: &str, first: char) -> (starts: bool)
    ensures
        starts == (text@.len() > 0 && text@[0] == first),
{
    let chars = chars_of(text);
    chars.len() > 0 && chars[0] == first
}

/// A to Z.
pub open spec fn is_upper(c: char) -> bool {
    'A' <= c <= 'Z'
}

/// a to z.
pub open spec fn is_lower(c: char) -> bool {
    'a' <= c <= 'z'
}

/// 0 to 9.
pub open spec fn is_digit(c: char) -> bool {
    '0' <= c <= '9'
}

/// An ASCII letter or digit.
pub open spec fn is_alphanumeric(c: char) -> bool {
    is_upper(c) || is_lower(c) || is_digit(c)
}

/// The character in lower case, where it is one of A to Z.
pub open spec fn lower(c: char) -> char {
    if is_upper(c) {
        ((c as u8) + 32) as u8 as char
    } else {
        c
    }
}

/// The text with A to Z in lower case.
pub open spec fn lower_text(text: Seq<char>) -> Seq<char> {
    text.map_values(|c: char| lower(c))
}

/// Tells whether the character is one of A to Z.
pub fn upper(c: char) -> (yes: bool)
    ensures
        yes == is_upper(c),
{
    'A' <= c && c <= 'Z'
}

/// Tells whether the character is one of 0 to 9.
pub fn digit(c: char) -> (yes: bool)
    ensures
        yes == is_digit(c),
{
    '0' <= c && c <= '9'
}

/// Tells whether the character is one of a to z.
pub fn lower_case(c: char) -> (yes: bool)
    ensures
        yes == is_lower(c),
{
    'a' <= c && c <= 'z'
}

/// Tells whether the character is an ASCII letter or digit.
pub fn alphanumeric(c: char) -> (yes: bool)
    ensures
        yes == is_alphanumeric(c),
{
    upper(c) || lower_case(c) || digit(c)
}

/// The characters of the text, with A to Z in lower case.
pub fn lower_chars(text: &str) -> (chars: Vec<char>)
    ensures
        chars@ == lower_text(text@),
{
    let source = chars_of(text);
    let mut chars: Vec<char> = Vec::new();
    let mut i: usize = 0;
    while i < source.len()
        invariant
            source@ == text@,
            i <= source@.len(),
            chars@ == lower_text(text@).take(i as int),
        decreases source@.len() - i,
    {
        let c = source[i];
        if upper(c) {
            chars.push(((c as u8) + 32) as char);
        } else {
            chars.push(c);
        }
        i += 1;
        assert(chars@ =~= lower_text(text@).take(i as int));
    }
    assert(lower_text(text@).take(i as int) =~= lower_text(text@));
    chars
}

/// Tells whether two texts are the same but for the case of A to Z.
pub fn same_ignoring_case(a: &str, b: &str) -> (same: bool)
    ensures
        same == (lower_text(a@) == lower_text(b@)),
{
    let a = lower_chars(a);
    let b = lower_chars(b);
    if a.len() != b.len() {
        return false;
    }
    let same = stands_at_place(a.as_slice(), 0, b.as_slice());
    assert(a@.subrange(0, a@.len() as int) =~= a@);
    same
}

/// Unicode's White_Space property.
pub open spec fn is_white_space(c: char) -> bool {
    ||| '\u{9}' <= c <= '\u{d}'
    ||| c == '\u{20}'
    ||| c == '\u{85}'
    ||| c == '\u{a0}'
    ||| c == '\u{1680}'
    ||| '\u{2000}' <= c <= '\u{200a}'
    ||| c == '\u{2028}'
    ||| c == '\u{2029}'
    ||| c == '\u{202f}'
    ||| c == '\u{205f}'
    ||| c == '\u{3000}'
}

/// Tells whether the character is white space.
pub fn white_space(c: char) -> (yes: bool)
    ensures
        yes == is_white_space(c),
{
    ('\u{9}' <= c && c <= '\u{d}') || c == '\u{20}' || c == '\u{85}' || c == '\u{a0}' || c
        == '\u{1680}' || ('\u{2000}' <= c && c <= '\u{200a}') || c == '\u{2028}' || c == '\u{2029}'
        || c == '\u{202f}' || c == '\u{205f}' || c == '\u{3000}'
}

/// The text without the white space that it begins with.
pub open spec fn trim_start(text: Seq<char>) -> Seq<char>
    decreases text.len(),
{
    if text.len() > 0 && is_white_space(text[0]) {
        trim_start(text.drop_first())
    } else {
        text
    }
}

/// The text without the white space that it ends with.
pub open spec fn trim_end(text: Seq<char>) -> Seq<char>
    decreases text.len(),
{
    if text.len() > 0 && is_white_space(text.last()) {
        trim_end(text.drop_last())
    } else {
        text
    }
}

/// The text without the white space around it.
pub open spec fn trim(text: Seq<char>) -> Seq<char> {
    trim_end(trim_start(text))
}

/// The characters without the white space around them.
pub fn trimmed(chars: &[char]) -> (text: String)
    ensures
        text@ == trim(chars@),
{
    let mut from: usize = 0;
    let mut to = chars.len();
    assert(chars@.subrange(0, to as int) =~= chars@);
    while from < to && white_space(chars[from])
        invariant
            to == chars@.len(),
            from <= to,
            trim_start(chars@.subrange(from as int, to as int)) == trim_start(chars@),
        decreases to - from,
    {
        assert(chars@.subrange(from as int, to as int).drop_first() =~= chars@.subrange(
            from + 1,
            to as int,
        ));
        from += 1;
    }
    assert(chars@.subrange(from as int, to as int) == trim_start(chars@));
    while from < to && white_space(chars[to - 1])
        invariant
            from <= to <= chars@.len(),
            trim_end(chars@.subrange(from as int, to as int)) == trim(chars@),
        decreases to - from,
    {
        assert(chars@.subrange(from as int, to as int).drop_last() =~= chars@.subrange(
            from as int,
            to - 1,
        ));
        to -= 1;
    }
    text_of(chars, from, to)
}

/// The text without the white space around it.
pub fn trimmed_text(text: &str) -> (result: String)
    ensures
        result@ == trim(text@),
{
    let chars = chars_of(text);
    trimmed(chars.as_slice())
}

/// The digit that stands for a number below ten.
pub open spec fn digit_of(n: int) -> char {
    (48 + n) as char
}

/// A natural number in decimal.
pub open spec fn decimal_nat(n: nat) -> Seq<char>
    decreases n,
{
    if n < 10 {
        seq![digit_of(n as int)]
    } else {
        decimal_nat(n / 10).push(digit_of((n % 10) as int))
    }
}

/// An integer in decimal.
pub open spec fn decimal(n: int) -> Seq<char> {
    if n < 0 {
        seq!['-'] + decimal_nat((-n) as nat)
    } else {
        decimal_nat(n as nat)
    }
}

/// The number in decimal.
pub fn unsigned_text(n: u64) -> (text: String)
    ensures
        text@ == decimal(n as int),
    decreases n,
{
    if n < 10 {
        let mut text = String::new();
        text.push((48u8 + n as u8) as char);
        assert(text@ =~= decimal_nat(n as nat));
        text
    } else {
        let mut text = unsigned_text(n / 10);
        text.push((48u8 + (n % 10) as u8) as char);
        text
    }
}

/// The number in decimal.
pub fn signed_text(n: i64) -> (text: String)
    ensures
        text@ == decimal(n as int),
{
    if n < 0 {
        let size: u64 = (-(n + 1)) as u64 + 1;
        let mut text = String::new();
        text.push('-');
        text.append(unsigned_text(size).as_str());
        assert(text@ =~= decimal(n as int));
        text
    } else {
        unsigned_text(n as u64)
    }
}

/// A number in decimal, filled up with leading zeros to six characters.
pub open spec fn six_digits(n: nat) -> Seq<char> {
    if decimal_nat(n).len() < 6 {
        Seq::new((6 - decimal_nat(n).len()) as nat, |i: int| '0') + decimal_nat(n)
    } else {
        decimal_nat(n)
    }
}

/// The number in decimal, filled up with leading zeros to six characters.
pub fn six_digit_text(n: u32) -> (text: String)
    ensures
        text@ == six_digits(n as nat),
{
    let number = unsigned_text(n as u64);
    let width = number.as_str().unicode_len();
    let mut text = String::new();
    let mut filled = width;
    while filled < 6
        invariant
            width == number@.len(),
            filled >= width,
            filled == width || filled <= 6,
            text@ == Seq::new((filled - width) as nat, |i: int| '0'),
        decreases 6 - filled,
    {
        text.push('0');
        filled += 1;
        assert(text@ =~= Seq::new((filled - width) as nat, |i: int| '0'));
    }
    text.append(number.as_str());
    assert(text@ =~= six_digits(n as nat));
    text
}

/// The number that a run of decimal digits spells.
pub open spec fn digits_value(digits: Seq<char>) -> nat
    decreases digits.len(),
{
    if digits.len() == 0 {
        0
    } else {
        digits_value(digits.drop_last()) * 10 + (digits.last() as u32 as nat - 48) as nat
    }
}

/// The text without one leading plus sign.
pub open spec fn without_plus(text: Seq<char>) -> Seq<char> {
    if text.len() > 0 && text[0] == '+' {
        text.drop_first()
    } else {
        text
    }
}

/// The number that a text spells: one or more decimal digits, with or without a plus sign before
/// them.
pub open spec fn parse_nat(text: Seq<char>) -> Option<nat> {
    let digits = without_plus(text);
    if digits.len() > 0 && (forall|i: int| 0 <= i < digits.len() ==> is_digit(digits[i])) {
        Some(digits_value(digits))
    } else {
        None
    }
}

proof fn lemma_digits_value_grows(digits: Seq<char>, n: int)
    requires
        0 <= n <= digits.len(),
    ensures
        digits_value(digits.take(n)) <= digits_value(digits),
    decreases digits.len() - n,
{
    if n < digits.len() {
        assert(digits.take(n + 1).drop_last() =~= digits.take(n));
        lemma_digits_value_grows(digits, n + 1);
    } else {
        assert(digits.take(n) =~= digits);
    }
}

/// The number that the text spells, unless it spells none or one beyond the limit.
pub fn parse_unsigned(text: &str, limit: u64) -> (number: Option<u64>)
    ensures
        match number {
            Some(n) => parse_nat(text@) == Some(n as nat) && n <= limit,
            None => parse_nat(text@) is None || parse_nat(text@)->0 > limit,
        },
{
    let chars = chars_of(text);
    let from: usize = if chars.len() > 0 && chars[0] == '+' {
        1
    } else {
        0
    };
    let ghost digits = without_plus(text@);
    assert(digits =~= chars@.subrange(from as int, chars@.len() as int));
    if from == chars.len() {
        return None;
    }
    let mut value: u64 = 0;
    let mut i = from;
    assert(digits.take(0) =~= Seq::empty());
    while i < chars.len()
        invariant
            from <= i <= chars@.len(),
            digits == chars@.subrange(from as int, chars@.len() as int),
            digits == without_plus(text@),
            digits.len() > 0,
            value <= limit,
            value == digits_value(digits.take(i - from)),
            forall|j: int| 0 <= j < i - from ==> is_digit(digits[j]),
        decreases chars@.len() - i,
    {
        let c = chars[i];
        assert(c == digits[i - from]);
        if !digit(c) {
            return None;
        }
        let next: u128 = value as u128 * 10 + (c as u32 - 48) as u128;
        proof {
            assert(digits.take(i - from + 1).drop_last() =~= digits.take(i - from));
            lemma_digits_value_grows(digits, i - from + 1);
        }
        if next > limit as u128 {
            return None;
        }
        value = next as u64;
        i += 1;
    }
    assert(digits.take(i - from) =~= digits);
    Some(value)
}

/// The order of texts by their characters' code points, first difference first.
pub open spec fn text_le(a: Seq<char>, b: Seq<char>) -> bool
    decreases a.len(),
{
    if a.len() == 0 {
        true
    } else if b.len() == 0 {
        false
    } else if a[0] != b[0] {
        a[0] < b[0]
    } else {
        text_le(a.drop_first(), b.drop_first())
    }
}

/// Tells whether the first text stands before the second or is the same.
pub fn not_after(a: &str, b: &str) -> (le: bool)
    ensures
        le == text_le(a@, b@),
{
    let left = chars_of(a);
    let right = chars_of(b);
    let mut i: usize = 0;
    assert(left@.skip(0) =~= left@);
    assert(right@.skip(0) =~= right@);
    while i < left.len()
        invariant
            left@ == a@,
            right@ == b@,
            i <= left@.len(),
            i <= right@.len(),
            text_le(left@.skip(i as int), right@.skip(i as int)) == text_le(a@, b@),
        decreases left@.len() - i,
    {
        if i == right.len() {
            return false;
        }
        if left[i] != right[i] {
            return left[i] < right[i];
        }
        assert(left@.skip(i as int).drop_first() =~= left@.skip(i + 1));
        assert(right@.skip(i as int).drop_first() =~= right@.skip(i + 1));
        i += 1;
    }
    true
}

/// The hexadecimal digit of a number below sixteen, in lower case.
pub open spec fn hex_digit(n: int) -> char {
    if n < 10 {
        (48 + n) as char
    } else {
        (87 + n) as char
    }
}

/// The hexadecimal digit of a number below sixteen, in upper case.
pub open spec fn hex_digit_upper(n: int) -> char {
    if n < 10 {
        (48 + n) as char
    } else {
        (55 + n) as char
    }
}

/// Bytes in hexadecimal, two lower-case digits for each.
pub open spec fn hex_text(bytes: Seq<u8>) -> Seq<char>
    decreases bytes.len(),
{
    if bytes.len() == 0 {
        Seq::empty()
    } else {
        hex_text(bytes.drop_last()) + seq![
            hex_digit(bytes.last() as int / 16),
            hex_digit(bytes.last() as int % 16),
        ]
    }
}

/// The bytes in hexadecimal, two lower-case digits for each.
pub fn hex(bytes: &[u8]) -> (text: String)
    ensures
        text@ == hex_text(bytes@),
{
    let mut text = String::new();
    let mut i: usize = 0;
    assert(bytes@.take(0) =~= Seq::empty());
    while i < bytes.len()
        invariant
            i <= bytes@.len(),
            text@ == hex_text(bytes@.take(i as int)),
        decreases bytes@.len() - i,
    {
        let high = bytes[i] / 16;
        let low = bytes[i] % 16;
        text.push((if high < 10 { 48 + high } else { 87 + high }) as char);
        text.push((if low < 10 { 48 + low } else { 87 + low }) as char);
        i += 1;
        assert(bytes@.take(i as int).drop_last() =~= bytes@.take(i - 1));
        assert(text@ =~= hex_text(bytes@.take(i as int)));
    }
    assert(bytes@.take(i as int) =~= bytes@);
    text
}

/// A byte that a URL may hold as it is: a letter, a digit, or one of `-._~`.
pub open spec fn is_unreserved(byte: u8) -> bool {
    ||| is_alphanumeric(byte as char)
    ||| byte == 0x2d
    ||| byte == 0x2e
    ||| byte == 0x5f
    ||| byte == 0x7e
}

/// Bytes in percent-encoding: an unreserved byte as its character, any other as `%` and two
/// upper-case hexadecimal digits.
pub open spec fn percent_text(bytes: Seq<u8>) -> Seq<char>
    decreases bytes.len(),
{
    if bytes.len() == 0 {
        Seq::empty()
    } else if is_unreserved(bytes.last()) {
        percent_text(bytes.drop_last()).push(bytes.last() as char)
    } else {
        percent_text(bytes.drop_last()) + seq![
            '%',
            hex_digit_upper(bytes.last() as int / 16),
            hex_digit_upper(bytes.last() as int % 16),
        ]
    }
}

/// The text's bytes in percent-encoding.
pub fn percent_encode(value: &str) -> (text: String)
    ensures
        text@ == percent_text(utf8(value@)),
{
    let bytes = value.as_bytes();
    let mut text = String::new();
    let mut i: usize = 0;
    assert(bytes@.take(0) =~= Seq::empty());
    while i < bytes.len()
        invariant
            i <= bytes@.len(),
            text@ == percent_text(bytes@.take(i as int)),
        decreases bytes@.len() - i,
    {
        let byte = bytes[i];
        if alphanumeric(byte as char) || byte == 0x2d || byte == 0x2e || byte == 0x5f || byte
            == 0x7e {
            text.push(byte as char);
        } else {
            let high = byte / 16;
            let low = byte % 16;
            text.push('%');
            text.push((if high < 10 { 48 + high } else { 55 + high }) as char);
            text.push((if low < 10 { 48 + low } else { 55 + low }) as char);
        }
        i += 1;
        assert(bytes@.take(i as int).drop_last() =~= bytes@.take(i - 1));
        assert(text@ =~= percent_text(bytes@.take(i as int)));
    }
    assert(bytes@.take(i as int) =~= bytes@);
    text
}

/// A list of texts, each by its characters.
pub open spec fn texts(list: Seq<String>) -> Seq<Seq<char>> {
    list.map_values(|text: String| text@)
}

/// Tells whether the list holds the text.
pub fn has_text(list: &Vec<String>, wanted: &str) -> (found: bool)
    ensures
        found == texts(list@).contains(wanted@),
{
    let mut i: usize = 0;
    while i < list.len()
        invariant
            i <= list@.len(),
            forall|j: int| 0 <= j < i ==> texts(list@)[j] != wanted@,
        decreases list@.len() - i,
    {
        if same_text(list[i].as_str(), wanted) {
            assert(texts(list@)[i as int] == wanted@);
            return true;
        }
        i += 1;
    }
    false
}

/// The list without every occurrence of the text.
pub open spec fn without(list: Seq<Seq<char>>, unwanted: Seq<char>) -> Seq<Seq<char>>
    decreases list.len(),
{
    if list.len() == 0 {
        Seq::empty()
    } else if list.last() == unwanted {
        without(list.drop_last(), unwanted)
    } else {
        without(list.drop_last(), unwanted).push(list.last())
    }
}

/// What is left of a list without a text is what it held but for that text, each of it as often as
/// before.
pub proof fn lemma_without(list: Seq<Seq<char>>, unwanted: Seq<char>)
    ensures
        without(list, unwanted).len() <= list.len(),
        forall|text: Seq<char>| #[trigger]
            without(list, unwanted).contains(text) <==> list.contains(text) && text != unwanted,
        list.no_duplicates() ==> without(list, unwanted).no_duplicates(),
    decreases list.len(),
{
    if list.len() > 0 {
        let rest = list.drop_last();
        lemma_without(rest, unwanted);
        let left = without(list, unwanted);
        assert forall|text: Seq<char>| #[trigger] left.contains(text) <==> list.contains(text)
            && text != unwanted by {
            if left.contains(text) {
                let i = choose|i: int| 0 <= i < left.len() && left[i] == text;
                if i < without(rest, unwanted).len() {
                    assert(without(rest, unwanted)[i] == text);
                    assert(without(rest, unwanted).contains(text));
                    let j = choose|j: int| 0 <= j < rest.len() && rest[j] == text;
                    assert(list[j] == text);
                } else {
                    assert(list[list.len() - 1] == text);
                }
            }
            if list.contains(text) && text != unwanted {
                let j = choose|j: int| 0 <= j < list.len() && list[j] == text;
                if j < rest.len() {
                    assert(rest[j] == text);
                    assert(without(rest, unwanted).contains(text));
                    let i = choose|i: int|
                        0 <= i < without(rest, unwanted).len() && without(rest, unwanted)[i] == text;
                    assert(left[i] == text);
                } else {
                    assert(left[left.len() - 1] == text);
                }
            }
        }
        if list.no_duplicates() && list.last() != unwanted {
            assert(!without(rest, unwanted).contains(list.last())) by {
                if rest.contains(list.last()) {
                    let j = choose|j: int| 0 <= j < rest.len() && rest[j] == list.last();
                    assert(list[j] == list[list.len() - 1]);
                }
            }
            assert forall|i: int, j: int|
                0 <= i < left.len() && 0 <= j < left.len() && i != j implies left[i] != left[j] by {
                let kept = without(rest, unwanted);
                if i == left.len() - 1 {
                    assert(kept[j] == left[j]);
                    assert(kept.contains(left[j]));
                } else if j == left.len() - 1 {
                    assert(kept[i] == left[i]);
                    assert(kept.contains(left[i]));
                }
            }
        }
    }
}

/// A copy of the list without every occurrence of the text.
pub fn list_without(list: &Vec<String>, unwanted: &str) -> (left: Vec<String>)
    ensures
        texts(left@) == without(texts(list@), unwanted@),
{
    let mut left: Vec<String> = Vec::new();
    let mut i: usize = 0;
    let ghost all = texts(list@);
    assert(all.take(0) =~= Seq::empty());
    assert(texts(left@) =~= Seq::empty());
    while i < list.len()
        invariant
            i <= list@.len(),
            all == texts(list@),
            texts(left@) == without(all.take(i as int), unwanted@),
        decreases list@.len() - i,
    {
        let ghost before = texts(left@);
        if !same_text(list[i].as_str(), unwanted) {
            left.push(list[i].clone());
            assert(texts(left@) =~= before.push(all[i as int]));
        }
        i += 1;
        assert(all.take(i as int).drop_last() =~= all.take(i - 1));
    }
    assert(all.take(i as int) =~= all);
    left
}

/// A text that may be missing, by its characters.
pub open spec fn optional(text: Option<String>) -> Option<Seq<char>> {
    match text {
        Some(text) => Some(text@),
        None => None,
    }
}

/// A borrowed text that may be missing, by its characters.
pub open spec fn optional_str(text: Option<&str>) -> Option<Seq<char>> {
    match text {
        Some(text) => Some(text@),
        None => None,
    }
}

/// A copy of a text that may be missing.
pub fn copy_optional(text: &Option<String>) -> (copy: Option<String>)
    ensures
        optional(copy) == optional(*text),
{
    match text {
        Some(text) => Some(text.clone()),
        None => None,
    }
}

/// Any two texts stand in one order or the other.
pub proof fn lemma_text_le_total(a: Seq<char>, b: Seq<char>)
    ensures
        text_le(a, b) || text_le(b, a),
    decreases a.len(),
{
    if a.len() > 0 && b.len() > 0 && a[0] == b[0] {
        lemma_text_le_total(a.drop_first(), b.drop_first());
    }
}

/// The order of texts carries over.
pub proof fn lemma_text_le_transitive(a: Seq<char>, b: Seq<char>, c: Seq<char>)
    requires
        text_le(a, b),
        text_le(b, c),
    ensures
        text_le(a, c),
    decreases a.len(),
{
    if a.len() > 0 && a[0] == b[0] && b[0] == c[0] {
        lemma_text_le_transitive(a.drop_first(), b.drop_first(), c.drop_first());
    }
}

proof fn lemma_decimal_digits(n: nat)
    ensures
        decimal_nat(n).len() >= 1,
        forall|i: int| 0 <= i < decimal_nat(n).len() ==> is_digit(#[trigger] decimal_nat(n)[i]),
    decreases n,
{
    if n >= 10 {
        lemma_decimal_digits(n / 10);
    }
}

/// A number of at most six digits, filled up to six, is six digits.
pub proof fn lemma_six_digits(n: nat)
    requires
        n < 1_000_000,
    ensures
        six_digits(n).len() == 6,
        forall|i: int| 0 <= i < 6 ==> is_digit(#[trigger] six_digits(n)[i]),
{
    lemma_decimal_digits(n);
    reveal_with_fuel(decimal_nat, 7);
    assert(decimal_nat(n).len() <= 6);
}

/// The first place of the character, or the end where it is not there.
pub open spec fn place_of_char(text: Seq<char>, wanted: char) -> int
    decreases text.len(),
{
    if text.len() == 0 || text[0] == wanted {
        0
    } else {
        1 + place_of_char(text.drop_first(), wanted)
    }
}

/// The first place of the character from a place on, or the end where it is not there.
pub fn find_char(chars: &[char], from: usize, wanted: char) -> (place: usize)
    requires
        from <= chars@.len(),
    ensures
        from <= place <= chars@.len(),
        place == from + place_of_char(chars@.skip(from as int), wanted),
{
    let mut place: usize = from;
    let ghost rest = chars@.skip(from as int);
    assert(rest.skip(0) =~= rest);
    while place < chars.len() && chars[place] != wanted
        invariant
            from <= place <= chars@.len(),
            rest == chars@.skip(from as int),
            place_of_char(rest.skip(place - from), wanted) + place - from == place_of_char(
                rest,
                wanted,
            ),
        decreases chars@.len() - place,
    {
        assert(rest.skip(place - from).drop_first() =~= rest.skip(place - from + 1));
        place += 1;
    }
    place
}

/// Text in UTF-8 is the text's parts in UTF-8, one after the other.
pub proof fn lemma_utf8_concat(a: Seq<char>, b: Seq<char>)
    ensures
        utf8(a + b) == utf8(a) + utf8(b),
    decreases a.len(),
{
    if a.len() == 0 {
        assert(a + b =~= b);
        assert(utf8(a) + utf8(b) =~= utf8(b));
    } else {
        assert((a + b).drop_first() =~= a.drop_first() + b);
        lemma_utf8_concat(a.drop_first(), b);
        assert(utf8(a + b) =~= utf8(a) + utf8(b));
    }
}

proof fn lemma_decimal_nat_value(n: nat)
    ensures
        digits_value(decimal_nat(n)) == n,
        decimal_nat(n).len() > 1 ==> decimal_nat(n)[0] != '0',
        n > 0 ==> decimal_nat(n)[0] != '0',
    decreases n,
{
    reveal_with_fuel(digits_value, 2);
    lemma_decimal_digits(n);
    if n < 10 {
        assert(decimal_nat(n).drop_last() =~= Seq::empty());
    } else {
        let front = decimal_nat(n / 10);
        lemma_decimal_digits(n / 10);
        lemma_decimal_nat_value(n / 10);
        assert(decimal_nat(n).drop_last() =~= front);
        assert(decimal_nat(n)[0] == front[0]);
    }
}

/// A number in decimal is a run of digits that spells the number, without zeros before it; one below
/// zero has a minus sign before the digits of its size. So no two numbers look the same.
pub proof fn law_decimal(n: int)
    ensures
        n >= 0 ==> {
            &&& decimal(n).len() >= 1
            &&& forall|i: int| 0 <= i < decimal(n).len() ==> is_digit(#[trigger] decimal(n)[i])
            &&& digits_value(decimal(n)) == n
            &&& decimal(n).len() > 1 ==> decimal(n)[0] != '0'
            &&& parse_nat(decimal(n)) == Some(n as nat)
        },
        n < 0 ==> decimal(n).len() > 0 && decimal(n)[0] == '-' && decimal(n).skip(1) == decimal(-n),
        forall|m: int| #[trigger] decimal(m) == decimal(n) ==> m == n,
{
    lemma_decimal_nat_value(if n < 0 { (-n) as nat } else { n as nat });
    lemma_decimal_digits(if n < 0 { (-n) as nat } else { n as nat });
    if n < 0 {
        assert(decimal(n).skip(1) =~= decimal_nat((-n) as nat));
    } else {
        assert(is_digit(decimal(n)[0]));
        assert(without_plus(decimal(n)) == decimal(n));
    }
    assert forall|m: int| #[trigger] decimal(m) == decimal(n) implies m == n by {
        let size = if m < 0 { (-m) as nat } else { m as nat };
        lemma_decimal_nat_value(size);
        lemma_decimal_digits(size);
        if m >= 0 {
            assert(is_digit(decimal(m)[0]));
        } else {
            assert(decimal(m).skip(1) =~= decimal_nat(size));
        }
        if n >= 0 {
            assert(is_digit(decimal(n)[0]));
        }
    }
}

/// The value of a run of digits goes by their places: each digit weighs ten times the next.
pub proof fn law_digits_value(front: Seq<char>, digit: char)
    requires
        is_digit(digit),
    ensures
        digits_value(front.push(digit)) == 10 * digits_value(front) + (digit as u32 - '0' as u32),
        digits_value(Seq::empty()) == 0,
{
    assert(front.push(digit).drop_last() =~= front);
}

/// A text spells a number where it is a run of digits, with or without one plus sign before it, and
/// no other text does.
pub proof fn law_parse_nat(digits: Seq<char>, other: Seq<char>)
    requires
        digits.len() > 0,
        forall|i: int| 0 <= i < digits.len() ==> '0' <= #[trigger] digits[i] <= '9',
        other.len() == 0 || other == seq!['+'] || exists|i: int|
            0 <= i < other.len() && !('0' <= #[trigger] other[i] <= '9') && (i > 0 || other[i]
                != '+'),
    ensures
        parse_nat(digits) == Some(digits_value(digits)),
        parse_nat(seq!['+'] + digits) == Some(digits_value(digits)),
        parse_nat(other) is None,
{
    assert((seq!['+'] + digits).drop_first() =~= digits);
    assert(is_digit(digits[0]));
    assert(forall|i: int| 0 <= i < digits.len() ==> is_digit(digits[i]));
    let rest = without_plus(other);
    if other.len() > 0 && other != seq!['+'] {
        let i = choose|i: int|
            0 <= i < other.len() && !('0' <= #[trigger] other[i] <= '9') && (i > 0 || other[i]
                != '+');
        if other[0] == '+' {
            assert(rest[i - 1] == other[i]);
            assert(!is_digit(rest[i - 1]));
        } else {
            assert(!is_digit(rest[i]));
        }
    } else if other == seq!['+'] {
        assert(other[0] == '+');
        assert(rest.len() == 0);
    }
}

/// A number in six characters is the number in decimal with zeros before it, and spells the number.
pub proof fn law_six_digits(n: nat)
    ensures
        six_digits(n).len() >= 6,
        six_digits(n).len() > 6 ==> six_digits(n)[0] != '0',
        forall|i: int| 0 <= i < six_digits(n).len() ==> is_digit(#[trigger] six_digits(n)[i]),
        digits_value(six_digits(n)) == n,
{
    lemma_decimal_digits(n);
    lemma_decimal_nat_value(n);
    let digits = decimal_nat(n);
    if digits.len() < 6 {
        let count = (6 - digits.len()) as nat;
        lemma_zeros_before(count, digits);
    }
}

proof fn lemma_zeros_before(count: nat, digits: Seq<char>)
    ensures
        digits_value(Seq::new(count, |i: int| '0') + digits) == digits_value(digits),
    decreases count + digits.len(),
{
    let zeros = Seq::new(count, |i: int| '0');
    if digits.len() > 0 {
        assert((zeros + digits).drop_last() =~= zeros + digits.drop_last());
        lemma_zeros_before(count, digits.drop_last());
    } else if count > 0 {
        let fewer = Seq::new((count - 1) as nat, |i: int| '0');
        assert((zeros + digits).drop_last() =~= fewer + digits);
        lemma_zeros_before((count - 1) as nat, digits);
    } else {
        assert(zeros + digits =~= digits);
    }
}

/// The order of texts goes by the first place at which they differ: there the lesser character, or
/// the end, stands before.
pub proof fn law_text_order(a: Seq<char>, b: Seq<char>, place: int)
    requires
        0 <= place <= a.len(),
        place <= b.len(),
        forall|i: int| 0 <= i < place ==> a[i] == b[i],
        place == a.len() || (place < b.len() && a[place] < b[place]),
    ensures
        text_le(a, b),
        text_le(b, a) <==> a == b,
    decreases place,
{
    if place > 0 {
        assert forall|i: int| 0 <= i < place - 1 implies a.drop_first()[i] == b.drop_first()[i] by {
            assert(a[i + 1] == b[i + 1]);
        }
        law_text_order(a.drop_first(), b.drop_first(), place - 1);
        if a.drop_first() == b.drop_first() {
            assert(a =~= seq![a[0]] + a.drop_first());
            assert(b =~= seq![b[0]] + b.drop_first());
        }
    } else if a.len() == 0 && b.len() == 0 {
        assert(a =~= b);
    }
}

proof fn lemma_trim_start(text: Seq<char>) -> (from: int)
    ensures
        0 <= from <= text.len(),
        trim_start(text) == text.skip(from),
        forall|i: int| 0 <= i < from ==> is_white_space(#[trigger] text[i]),
        from < text.len() ==> !is_white_space(text[from]),
    decreases text.len(),
{
    if text.len() > 0 && is_white_space(text[0]) {
        let rest = lemma_trim_start(text.drop_first());
        assert(text.drop_first().skip(rest) =~= text.skip(rest + 1));
        assert forall|i: int| 0 <= i < rest + 1 implies is_white_space(#[trigger] text[i]) by {
            if i > 0 {
                assert(text.drop_first()[i - 1] == text[i]);
            }
        }
        rest + 1
    } else {
        assert(text.skip(0) =~= text);
        0
    }
}

proof fn lemma_trim_end(text: Seq<char>) -> (to: int)
    ensures
        0 <= to <= text.len(),
        trim_end(text) == text.take(to),
        forall|i: int| to <= i < text.len() ==> is_white_space(#[trigger] text[i]),
        to > 0 ==> !is_white_space(text[to - 1]),
    decreases text.len(),
{
    if text.len() > 0 && is_white_space(text.last()) {
        let to = lemma_trim_end(text.drop_last());
        assert(text.drop_last().take(to) =~= text.take(to));
        assert forall|i: int| to <= i < text.len() implies is_white_space(#[trigger] text[i]) by {
            if i < text.len() - 1 {
                assert(text.drop_last()[i] == text[i]);
            }
        }
        to
    } else {
        assert(text.take(text.len() as int) =~= text);
        text.len() as int
    }
}

/// A trimmed text is a part of the text: what stands before it and after it is white space, and it
/// neither begins nor ends with white space itself.
pub proof fn law_trim(text: Seq<char>) -> (ends: (int, int))
    ensures
        0 <= ends.0 <= ends.1 <= text.len(),
        trim(text) == text.subrange(ends.0, ends.1),
        forall|i: int|
            0 <= i < ends.0 || ends.1 <= i < text.len() ==> is_white_space(#[trigger] text[i]),
        ends.0 < ends.1 ==> !is_white_space(text[ends.0]) && !is_white_space(text[ends.1 - 1]),
{
    let from = lemma_trim_start(text);
    let rest = text.skip(from);
    let to = lemma_trim_end(rest);
    assert(rest.take(to) =~= text.subrange(from, from + to));
    assert forall|i: int| 0 <= i < from || from + to <= i < text.len() implies is_white_space(
        #[trigger] text[i],
    ) by {
        if i >= from {
            assert(rest[i - from] == text[i]);
        }
    }
    if to > 0 {
        assert(rest[to - 1] == text[from + to - 1]);
    }
    (from, from + to)
}

/// In lower case a text keeps its length and every character but A to Z; each of those becomes the
/// small letter, which lies 32 places on.
pub proof fn law_lower_text(text: Seq<char>, place: int)
    requires
        0 <= place < text.len(),
    ensures
        lower_text(text).len() == text.len(),
        'A' <= text[place] <= 'Z' ==> lower_text(text)[place] as u32 == text[place] as u32 + 32,
        !('A' <= text[place] <= 'Z') ==> lower_text(text)[place] == text[place],
        lower_text(lower_text(text)) == lower_text(text),
{
    assert(lower_text(lower_text(text)) =~= lower_text(text));
}

/// Bytes in hexadecimal are two digits for each byte, the one of more weight first.
pub proof fn law_hex_text(bytes: Seq<u8>, place: int)
    requires
        0 <= place < bytes.len(),
    ensures
        hex_text(bytes).len() == 2 * bytes.len(),
        hex_text(bytes)[2 * place] == "0123456789abcdef"@[bytes[place] as int / 16],
        hex_text(bytes)[2 * place + 1] == "0123456789abcdef"@[bytes[place] as int % 16],
    decreases bytes.len(),
{
    reveal_strlit("0123456789abcdef");
    lemma_hex_len(bytes.drop_last());
    if place < bytes.len() - 1 {
        law_hex_text(bytes.drop_last(), place);
    }
}

proof fn lemma_hex_len(bytes: Seq<u8>)
    ensures
        hex_text(bytes).len() == 2 * bytes.len(),
    decreases bytes.len(),
{
    if bytes.len() > 0 {
        lemma_hex_len(bytes.drop_last());
    }
}

/// Percent-encoding goes byte by byte: a letter, a digit, or one of `-._~` stands for itself, any
/// other byte is `%` and its two hexadecimal digits in capitals.
pub proof fn law_percent_text(a: Seq<u8>, byte: u8, b: Seq<u8>)
    ensures
        percent_text(a + b) == percent_text(a) + percent_text(b),
        percent_text(seq![byte]) == (if 'A' <= byte as char <= 'Z' || 'a' <= byte as char <= 'z'
            || '0' <= byte as char <= '9' || byte as char == '-' || byte as char == '.'
            || byte as char == '_' || byte as char == '~' {
            seq![byte as char]
        } else {
            seq![
                '%',
                "0123456789ABCDEF"@[byte as int / 16],
                "0123456789ABCDEF"@[byte as int % 16],
            ]
        }),
        percent_text(Seq::empty()).len() == 0,
    decreases b.len(),
{
    reveal_strlit("0123456789ABCDEF");
    reveal_with_fuel(percent_text, 2);
    assert(seq![byte].drop_last() =~= Seq::empty());
    let one = percent_text(seq![byte]);
    if is_unreserved(byte) {
        assert(one =~= seq![byte as char]);
    } else {
        assert(one =~= seq![
            '%',
            "0123456789ABCDEF"@[byte as int / 16],
            "0123456789ABCDEF"@[byte as int % 16],
        ]);
    }
    if b.len() == 0 {
        assert(a + b =~= a);
        assert(percent_text(a) + percent_text(b) =~= percent_text(a));
    } else {
        assert((a + b).drop_last() =~= a + b.drop_last());
        law_percent_text(a, byte, b.drop_last());
        assert(percent_text(a + b) =~= percent_text(a) + percent_text(b));
    }
}

/// Leaving a text out of a list leaves the order of the others as it is: it goes part by part.
pub proof fn law_without(
    a: Seq<Seq<char>>,
    text: Seq<char>,
    b: Seq<Seq<char>>,
    unwanted: Seq<char>,
)
    ensures
        without(a + b, unwanted) == without(a, unwanted) + without(b, unwanted),
        without(seq![text], unwanted) == (if text == unwanted {
            Seq::empty()
        } else {
            seq![text]
        }),
        without(Seq::empty(), unwanted).len() == 0,
    decreases b.len(),
{
    reveal_with_fuel(without, 2);
    assert(seq![text].drop_last() =~= Seq::empty());
    assert(without(seq![text], unwanted) =~= (if text == unwanted {
        Seq::empty()
    } else {
        seq![text]
    }));
    if b.len() == 0 {
        assert(a + b =~= a);
        assert(without(a, unwanted) + without(b, unwanted) =~= without(a, unwanted));
    } else {
        assert((a + b).drop_last() =~= a + b.drop_last());
        law_without(a, text, b.drop_last(), unwanted);
        assert(without(a + b, unwanted) =~= without(a, unwanted) + without(b, unwanted));
    }
}

/// The place of a character is the first at which it stands, or the end.
pub proof fn law_place_of_char(text: Seq<char>, wanted: char)
    ensures
        0 <= place_of_char(text, wanted) <= text.len(),
        forall|i: int| 0 <= i < place_of_char(text, wanted) ==> #[trigger] text[i] != wanted,
        place_of_char(text, wanted) < text.len() ==> text[place_of_char(text, wanted)] == wanted,
    decreases text.len(),
{
    if text.len() > 0 && text[0] != wanted {
        let rest = text.drop_first();
        law_place_of_char(rest, wanted);
        assert forall|i: int| 0 <= i < place_of_char(text, wanted) implies #[trigger] text[i]
            != wanted by {
            if i > 0 {
                assert(rest[i - 1] == text[i]);
            }
        }
    }
}

/// One text stands in another at a place where, from there on, it agrees with it character by
/// character.
pub proof fn law_stands_at(whole: Seq<char>, at: int, part: Seq<char>)
    ensures
        stands_at(whole, at, part) <==> {
            &&& 0 <= at
            &&& at + part.len() <= whole.len()
            &&& forall|i: int| 0 <= i < part.len() ==> whole[at + i] == #[trigger] part[i]
        },
{
    if 0 <= at && at + part.len() <= whole.len() {
        let there = whole.subrange(at, at + part.len());
        if forall|i: int| 0 <= i < part.len() ==> whole[at + i] == #[trigger] part[i] {
            assert(there =~= part);
        }
        if there == part {
            assert forall|i: int| 0 <= i < part.len() implies whole[at + i] == #[trigger] part[i] by {
                assert(there[i] == whole[at + i]);
            }
        }
    }
}

/// Letters and digits are those of ASCII, and white space is what Unicode counts as such.
pub proof fn law_char_classes(c: char)
    ensures
        is_upper(c) <==> 65 <= c as u32 <= 90,
        is_lower(c) <==> 97 <= c as u32 <= 122,
        is_digit(c) <==> 48 <= c as u32 <= 57,
        is_alphanumeric(c) <==> 48 <= c as u32 <= 57 || 65 <= c as u32 <= 90 || 97 <= c as u32
            <= 122,
        is_white_space(c) <==> 9 <= c as u32 <= 13 || c as u32 == 32 || c as u32 == 133 || c as u32
            == 160 || c as u32 == 5760 || 8192 <= c as u32 <= 8202 || c as u32 == 8232 || c as u32
            == 8233 || c as u32 == 8239 || c as u32 == 8287 || c as u32 == 12288,
{
}

/// A list of texts by their characters has each text in its place.
pub proof fn law_texts(list: Seq<String>, place: int)
    requires
        0 <= place < list.len(),
    ensures
        texts(list).len() == list.len(),
        texts(list)[place] == list[place]@,
        optional(Some(list[place])) == Some(list[place]@),
        optional(None) is None,
{
}

} // verus!
