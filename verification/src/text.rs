//! Text helpers: the few string operations of the standard library that the
//! rest of the crate relies on, each with the meaning it is given in
//! contracts.

use vstd::prelude::*;

verus! {

/// The lower-case form of a text, as the standard library computes it from
/// the Unicode tables it ships with.
pub uninterp spec fn lowercase(s: Seq<char>) -> Seq<char>;

/// Whether `needle` occurs in `hay` as a contiguous run of characters.
pub open spec fn occurs_in(needle: Seq<char>, hay: Seq<char>) -> bool {
    exists|i: int|
        0 <= i && i + needle.len() <= hay.len() && #[trigger] hay.subrange(i, i + needle.len())
            == needle
}

/// Whether `c` is one of the ten decimal digits.
pub open spec fn is_digit(c: char) -> bool {
    '0' <= c && c <= '9'
}

/// The number that a run of decimal digits denotes.
pub open spec fn digits_value(s: Seq<char>) -> nat
    decreases s.len(),
{
    if s.len() == 0 {
        0
    } else {
        digits_value(s.drop_last()) * 10 + (s.last() as nat - '0' as nat) as nat
    }
}

/// What is left of a numeral once an optional leading plus sign is taken off.
pub open spec fn unsigned_part(s: Seq<char>) -> Seq<char> {
    if s.len() > 0 && s[0] == '+' {
        s.subrange(1, s.len() as int)
    } else {
        s
    }
}

/// The `u32` that a text denotes: an optional plus sign followed by at least
/// one decimal digit and nothing else, with a value that fits.
pub open spec fn parsed_u32(s: Seq<char>) -> Option<u32> {
    let digits = unsigned_part(s);
    if digits.len() > 0 && (forall|i: int| 0 <= i < digits.len() ==> is_digit(#[trigger] digits[i]))
        && digits_value(digits) <= u32::MAX {
        Some(digits_value(digits) as u32)
    } else {
        None
    }
}

/// The character that stands for a digit below ten.
pub open spec fn digit_char(d: nat) -> char {
    (('0' as nat) + d) as char
}

/// The decimal numeral of a number, without sign or leading zeros.
pub open spec fn decimal(n: nat) -> Seq<char>
    decreases n,
{
    if n < 10 {
        seq![digit_char(n)]
    } else {
        decimal(n / 10).push(digit_char(n % 10))
    }
}

/// `str::to_lowercase`: the result is the lower-case form of the argument.
pub assume_specification[ str::to_lowercase ](s: &str) -> (lower: String)
    ensures
        lower@ == lowercase(s@),
;

/// `==` on string slices: true exactly when both hold the same characters.
pub assume_specification[ <str as PartialEq>::eq ](left: &str, right: &str) -> (same: bool)
    ensures
        same == (left@ == right@),
;

/// `str::contains` with a string pattern: true exactly when the pattern
/// occurs in the text.
#[verifier::external_body]
pub(crate) fn str_contains(hay: &str, needle: &str) -> (found: bool)
    ensures
        found == occurs_in(needle@, hay@),
{
    hay.contains(needle)
}

/// `str::ends_with` with a string pattern: true exactly when the text ends
/// in the pattern.
#[verifier::external_body]
pub(crate) fn str_ends_with(text: &str, suffix: &str) -> (found: bool)
    ensures
        found == suffix@.is_suffix_of(text@),
{
    text.ends_with(suffix)
}

/// `str::strip_prefix` with a string pattern: the rest of the text after the
/// prefix, or nothing when the text does not start with it.
#[verifier::external_body]
pub(crate) fn str_strip_prefix<'a>(text: &'a str, prefix: &str) -> (rest: Option<&'a str>)
    ensures
        match rest {
            Some(tail) => text@ == prefix@ + tail@,
            None => !prefix@.is_prefix_of(text@),
        },
{
    text.strip_prefix(prefix)
}

/// `str::split_once` with a character: the text before and after the first
/// occurrence of the delimiter, or nothing when it does not occur.
#[verifier::external_body]
pub(crate) fn str_split_once<'a>(text: &'a str, delimiter: char) -> (parts: Option<(&'a str, &'a str)>)
    ensures
        match parts {
            Some((head, tail)) => text@ == head@.push(delimiter) + tail@ && !head@.contains(
                delimiter,
            ),
            None => !text@.contains(delimiter),
        },
{
    text.split_once(delimiter)
}

/// `str::parse` at `u32`: the number that the text denotes, or nothing when
/// it is no numeral of a `u32`.
#[verifier::external_body]
pub(crate) fn str_parse_u32(text: &str) -> (number: Option<u32>)
    ensures
        number == parsed_u32(text@),
{
    text.parse::<u32>().ok()
}

/// `ToString::to_string` at `u32`: the decimal numeral of the number.
#[verifier::external_body]
pub(crate) fn u32_to_string(number: u32) -> (numeral: String)
    ensures
        numeral@ == decimal(number as nat),
{
    number.to_string()
}

/// The text that is left of `text` when it is cut to its first `new_len`
/// bytes; a text that is no longer than that is left whole.
pub open spec fn cut_to(text: Seq<char>, new_len: int) -> Seq<char> {
    if new_len < vstd::utf8::encode_utf8(text).len() {
        vstd::utf8::decode_utf8(vstd::utf8::encode_utf8(text).take(new_len))
    } else {
        text
    }
}

/// `String::truncate`: cuts the text to its first `new_len` bytes and leaves
/// a text that is no longer than that as it is. The cut has to fall between
/// two characters.
pub assume_specification[ String::truncate ](text: &mut String, new_len: usize)
    requires
        new_len < vstd::utf8::encode_utf8(old(text)@).len() ==> vstd::utf8::is_char_boundary(
            vstd::utf8::encode_utf8(old(text)@),
            new_len as int,
        ),
    ensures
        final(text)@ == cut_to(old(text)@, new_len as int),
;

/// The numeral of a number is made of digits, at least one, and denotes
/// the number.
pub proof fn lemma_decimal_digits(n: nat)
    ensures
        decimal(n).len() > 0,
        forall|i: int| 0 <= i < decimal(n).len() ==> is_digit(#[trigger] decimal(n)[i]),
        digits_value(decimal(n)) == n,
    decreases n,
{
    let last = digit_char(n % 10);
    assert(is_digit(last) && last as nat - '0' as nat == n % 10) by {
        assert('0' as nat == 48);
        assert(48 + n % 10 < 58);
    }
    if n < 10 {
        let numeral = seq![digit_char(n)];
        assert(numeral.drop_last() =~= Seq::<char>::empty());
        assert(digits_value(numeral.drop_last()) == 0);
        assert(numeral.last() == last);
    } else {
        lemma_decimal_digits(n / 10);
        let front = decimal(n / 10);
        let numeral = front.push(last);
        assert(numeral.drop_last() =~= front);
        assert(numeral.last() == last);
        assert forall|i: int| 0 <= i < numeral.len() implies is_digit(#[trigger] numeral[i]) by {
            if i < front.len() {
                assert(numeral[i] == front[i]);
            }
        }
        assert((n / 10) * 10 + n % 10 == n);
    }
}

/// The numeral of a number that fits into a `u32` is read back as that
/// number.
pub proof fn lemma_decimal_parses(n: u32)
    ensures
        parsed_u32(decimal(n as nat)) == Some(n),
{
    lemma_decimal_digits(n as nat);
    let numeral = decimal(n as nat);
    assert(is_digit(numeral[0]));
    assert(numeral[0] != '+');
    assert(unsigned_part(numeral) == numeral);
}

} // verus!
