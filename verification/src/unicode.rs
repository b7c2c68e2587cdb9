//! Character properties that reach beyond ASCII.
//!
//! Everything the library decides about a non-ASCII digit, word character or
//! lower-case mapping is decided by the `regex` crate or by the standard
//! library; the ASCII half of each rule is written out and proved here.

use vstd::prelude::*;

use crate::text::{chars_of, string_of};

verus! {

/// Appending one character to a `String`, as `String::push` documents it.
pub assume_specification[ String::push ](s: &mut String, c: char)
    ensures
        final(s)@ == old(s)@.push(c),
;

/// What `regex` answers for the pattern `^\d$` on a single character.
pub uninterp spec fn regex_decimal(c: char) -> bool;

/// What `regex` answers for the pattern `^\w$` on a single character.
pub uninterp spec fn regex_word(c: char) -> bool;

/// What `str::to_lowercase` makes of a text.
pub uninterp spec fn unicode_lowercase(s: Seq<char>) -> Seq<char>;

/// Asks `regex::Regex::is_match` whether one character is a decimal digit
/// (`\d`, Unicode category `Nd`). The answer depends on the character alone.
#[verifier::external_body]
fn matches_decimal(c: char) -> (r: bool)
    ensures
        r == regex_decimal(c),
{
    regex::Regex::new(r"^\d$").unwrap().is_match(c.encode_utf8(&mut [0; 4]))
}

/// Asks `regex::Regex::is_match` whether one character is a word character
/// (`\w`). The answer depends on the character alone.
#[verifier::external_body]
fn matches_word(c: char) -> (r: bool)
    ensures
        r == regex_word(c),
{
    regex::Regex::new(r"^\w$").unwrap().is_match(c.encode_utf8(&mut [0; 4]))
}

/// Calls `str::to_lowercase`. The result depends on the text alone.
#[verifier::external_body]
fn std_lowercase(s: &str) -> (r: String)
    ensures
        r@ == unicode_lowercase(s@),
{
    s.to_lowercase()
}

/// Whether `c` is one of the 128 ASCII characters.
pub open spec fn ascii(c: char) -> bool {
    c as int <= 127
}

/// `0` to `9`.
pub open spec fn ascii_digit(c: char) -> bool {
    '0' <= c && c <= '9'
}

/// `A` to `Z`, `a` to `z`, `0` to `9` or `_`.
pub open spec fn ascii_word(c: char) -> bool {
    ||| 'A' <= c && c <= 'Z'
    ||| 'a' <= c && c <= 'z'
    ||| ascii_digit(c)
    ||| c == '_'
}

/// The decimal digits: the ten ASCII ones, and those `regex` adds beyond ASCII.
pub open spec fn decimal(c: char) -> bool {
    if ascii(c) {
        ascii_digit(c)
    } else {
        regex_decimal(c)
    }
}

/// The word characters: the ASCII ones, and those `regex` adds beyond ASCII.
pub open spec fn word(c: char) -> bool {
    if ascii(c) {
        ascii_word(c)
    } else {
        regex_word(c)
    }
}

/// The Unicode `White_Space` property.
pub open spec fn white_space(c: char) -> bool {
    ||| '\t' <= c && c <= '\r'
    ||| c == ' '
    ||| c == '\u{85}'
    ||| c == '\u{a0}'
    ||| c == '\u{1680}'
    ||| '\u{2000}' <= c && c <= '\u{200a}'
    ||| c == '\u{2028}'
    ||| c == '\u{2029}'
    ||| c == '\u{202f}'
    ||| c == '\u{205f}'
    ||| c == '\u{3000}'
}

/// `A` to `Z` mapped to `a` to `z`; every other character unchanged.
pub open spec fn ascii_lower(c: char) -> char {
    if 'A' <= c && c <= 'Z' {
        (c as int + 32) as char
    } else {
        c
    }
}

/// [`ascii_lower`] on every character.
pub open spec fn ascii_lower_text(s: Seq<char>) -> Seq<char> {
    Seq::new(s.len(), |i: int| ascii_lower(s[i]))
}

/// Lower case of a text: letter by letter when it is all ASCII, otherwise what
/// the standard library's Unicode mapping gives.
pub open spec fn lower_text(s: Seq<char>) -> Seq<char> {
    if forall|i: int| 0 <= i < s.len() ==> ascii(#[trigger] s[i]) {
        ascii_lower_text(s)
    } else {
        unicode_lowercase(s)
    }
}

pub fn is_ascii_digit(c: char) -> (r: bool)
    ensures
        r == ascii_digit(c),
{
    '0' <= c && c <= '9'
}

pub fn is_ascii_word(c: char) -> (r: bool)
    ensures
        r == ascii_word(c),
{
    ('A' <= c && c <= 'Z') || ('a' <= c && c <= 'z') || is_ascii_digit(c) || c == '_'
}

pub fn is_ascii_char(c: char) -> (r: bool)
    ensures
        r == ascii(c),
{
    c as u32 <= 127
}

pub fn is_decimal(c: char) -> (r: bool)
    ensures
        r == decimal(c),
{
    if is_ascii_char(c) {
        is_ascii_digit(c)
    } else {
        matches_decimal(c)
    }
}

pub fn is_word(c: char) -> (r: bool)
    ensures
        r == word(c),
{
    if is_ascii_char(c) {
        is_ascii_word(c)
    } else {
        matches_word(c)
    }
}

pub fn is_white_space(c: char) -> (r: bool)
    ensures
        r == white_space(c),
{
    ('\t' <= c && c <= '\r') || c == ' ' || c == '\u{85}' || c == '\u{a0}' || c == '\u{1680}' || (
    '\u{2000}' <= c && c <= '\u{200a}') || c == '\u{2028}' || c == '\u{2029}' || c == '\u{202f}'
        || c == '\u{205f}' || c == '\u{3000}'
}

pub fn to_ascii_lower(c: char) -> (r: char)
    ensures
        r == ascii_lower(c),
{
    if 'A' <= c && c <= 'Z' {
        (c as u8 + 32) as char
    } else {
        c
    }
}

pub fn to_ascii_lower_text(s: &[char]) -> (r: Vec<char>)
    ensures
        r@ == ascii_lower_text(s@),
{
    let mut out: Vec<char> = Vec::new();
    let mut i: usize = 0;
    while i < s.len()
        invariant
            i <= s@.len(),
            out@ == ascii_lower_text(s@.take(i as int)),
        decreases s@.len() - i,
    {
        out.push(to_ascii_lower(s[i]));
        i += 1;
    }
    assert(s@.take(i as int) == s@);
    out
}

/// Lower case of a text.
pub fn to_lower_text(s: &[char]) -> (r: Vec<char>)
    ensures
        r@ == lower_text(s@),
{
    let mut i: usize = 0;
    while i < s.len()
        invariant
            i <= s@.len(),
            forall|j: int| 0 <= j < i ==> ascii(#[trigger] s@[j]),
        decreases s@.len() - i,
    {
        if !is_ascii_char(s[i]) {
            let lowered = std_lowercase(string_of(s).as_str());
            return chars_of(lowered.as_str());
        }
        i += 1;
    }
    to_ascii_lower_text(s)
}

/// `str::eq_ignore_ascii_case`.
pub fn same_ignoring_ascii_case(a: &[char], b: &[char]) -> (r: bool)
    ensures
        r == (ascii_lower_text(a@) == ascii_lower_text(b@)),
{
    let x = to_ascii_lower_text(a);
    let y = to_ascii_lower_text(b);
    crate::text::same_text(x.as_slice(), y.as_slice())
}

} // verus!
