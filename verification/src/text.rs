//! Texts as sequences of characters.
//!
//! A `&str` is unpacked into characters once, cut up by index, and packed into
//! `String`s again where a caller needs one. The specification functions take
//! the text and an index to start from, so that a scanner and its
//! specification walk over the same positions.

use vstd::prelude::*;

use crate::unicode::{
    ascii_digit, ascii_word, decimal, is_ascii_digit, is_ascii_word, is_decimal, is_white_space,
    is_word, white_space, word,
};

verus! {

/// The character sequences of some strings.
pub open spec fn strings(v: Seq<String>) -> Seq<Seq<char>> {
    Seq::new(v.len(), |i: int| v[i]@)
}

/// The character sequences of some unpacked texts.
pub open spec fn texts(v: Seq<Vec<char>>) -> Seq<Seq<char>> {
    Seq::new(v.len(), |i: int| v[i]@)
}

/// The characters of an optional string.
pub open spec fn opt_text(s: Option<String>) -> Option<Seq<char>> {
    match s {
        Some(t) => Some(t@),
        None => None,
    }
}

pub fn chars_of(s: &str) -> (r: Vec<char>)
    ensures
        r@ == s@,
{
    let mut out: Vec<char> = Vec::new();
    for c in it: s.chars()
        invariant
            out@ == it.seq().take(it.index() as int),
            it.seq() == s@,
    {
        out.push(c);
    }
    out
}

pub fn string_of(v: &[char]) -> (r: String)
    ensures
        r@ == v@,
{
    let mut out = String::new();
    let mut i: usize = 0;
    while i < v.len()
        invariant
            i <= v@.len(),
            out@ == v@.take(i as int),
        decreases v@.len() - i,
    {
        out.push(v[i]);
        i += 1;
    }
    out
}

/// The characters `s[i..j]`.
pub fn slice(s: &[char], i: usize, j: usize) -> (r: Vec<char>)
    requires
        i <= j <= s@.len(),
    ensures
        r@ == s@.subrange(i as int, j as int),
{
    let mut out: Vec<char> = Vec::new();
    let mut k: usize = i;
    while k < j
        invariant
            i <= k <= j <= s@.len(),
            out@ == s@.subrange(i as int, k as int),
        decreases j - k,
    {
        out.push(s[k]);
        k += 1;
    }
    out
}

/// Appends every character of `t`.
pub fn extend(out: &mut Vec<char>, t: &[char])
    ensures
        final(out)@ == old(out)@ + t@,
{
    let mut i: usize = 0;
    while i < t.len()
        invariant
            i <= t@.len(),
            out@ == old(out)@ + t@.take(i as int),
        decreases t@.len() - i,
    {
        out.push(t[i]);
        i += 1;
    }
    assert(t@.take(i as int) == t@);
}

pub fn same_text(a: &[char], b: &[char]) -> (r: bool)
    ensures
        r == (a@ == b@),
{
    if a.len() != b.len() {
        return false;
    }
    let mut i: usize = 0;
    while i < a.len()
        invariant
            i <= a@.len(),
            a@.len() == b@.len(),
            forall|j: int| 0 <= j < i ==> a@[j] == b@[j],
        decreases a@.len() - i,
    {
        if a[i] != b[i] {
            return false;
        }
        i += 1;
    }
    assert(a@ == b@);
    true
}

pub fn is_text(a: &[char], b: &str) -> (r: bool)
    ensures
        r == (a@ == b@),
{
    let c = chars_of(b);
    same_text(a, c.as_slice())
}

pub fn same_str(a: &str, b: &str) -> (r: bool)
    ensures
        r == (a@ == b@),
{
    let c = chars_of(a);
    is_text(c.as_slice(), b)
}

/// Two texts put together.
pub fn concat(a: &str, b: &str) -> (r: String)
    ensures
        r@ == a@ + b@,
{
    let mut out = a.to_owned();
    out.append(b);
    out
}

/// The number of bytes of a character in UTF-8.
pub open spec fn char_width(c: char) -> nat {
    if c as int <= 0x7f {
        1
    } else if c as int <= 0x7ff {
        2
    } else if c as int <= 0xffff {
        3
    } else {
        4
    }
}

/// The number of bytes of a text in UTF-8.
pub open spec fn utf8_width(s: Seq<char>) -> nat
    decreases s.len(),
{
    if s.len() == 0 {
        0
    } else {
        utf8_width(s.drop_last()) + char_width(s.last())
    }
}

proof fn lemma_width_grows(s: Seq<char>, i: int)
    requires
        0 <= i <= s.len(),
    ensures
        utf8_width(s.take(i)) <= utf8_width(s),
    decreases s.len(),
{
    if i < s.len() {
        lemma_width_grows(s.drop_last(), i);
        assert(s.drop_last().take(i) == s.take(i));
    } else {
        assert(s.take(i) == s);
    }
}

fn width_of(c: char) -> (r: usize)
    ensures
        r == char_width(c),
{
    let code: u32 = c as u32;
    if code <= 0x7f {
        1
    } else if code <= 0x7ff {
        2
    } else if code <= 0xffff {
        3
    } else {
        4
    }
}

/// The width of a text, or one more than `limit` where it is wider than that.
pub fn width_up_to(s: &[char], limit: usize) -> (r: usize)
    requires
        limit <= usize::MAX - 4,
    ensures
        r == if utf8_width(s@) <= limit {
            utf8_width(s@) as int
        } else {
            limit + 1
        },
{
    let mut width: usize = 0;
    let mut i: usize = 0;
    while i < s.len()
        invariant
            i <= s@.len(),
            limit <= usize::MAX - 4,
            width == utf8_width(s@.take(i as int)),
            width <= limit,
        decreases s@.len() - i,
    {
        proof {
            assert(s@.take(i + 1).drop_last() == s@.take(i as int));
            lemma_width_grows(s@, i + 1);
        }
        width += width_of(s[i]);
        if width > limit {
            return limit + 1;
        }
        i += 1;
    }
    assert(s@.take(i as int) == s@);
    width
}

// ---------------------------------------------------------------------------
// Character classes and maximal runs
// ---------------------------------------------------------------------------

/// A set of characters a scanner can run over.
#[derive(Clone, Copy, PartialEq, Eq, Structural)]
pub enum Class {
    /// Unicode white space.
    Space,
    /// Anything but white space.
    Solid,
    /// A decimal digit, ASCII or not.
    Decimal,
    /// A word character, ASCII or not.
    Word,
    /// `0` to `9`.
    AsciiDigit,
    /// An ASCII letter, digit or underscore.
    AsciiWord,
    /// Exactly this character.
    Only(char),
    /// Any character but this one.
    Not(char),
}

pub open spec fn in_class(k: Class, c: char) -> bool {
    match k {
        Class::Space => white_space(c),
        Class::Solid => !white_space(c),
        Class::Decimal => decimal(c),
        Class::Word => word(c),
        Class::AsciiDigit => ascii_digit(c),
        Class::AsciiWord => ascii_word(c),
        Class::Only(x) => c == x,
        Class::Not(x) => c != x,
    }
}

pub fn is_in_class(k: Class, c: char) -> (r: bool)
    ensures
        r == in_class(k, c),
{
    match k {
        Class::Space => is_white_space(c),
        Class::Solid => !is_white_space(c),
        Class::Decimal => is_decimal(c),
        Class::Word => is_word(c),
        Class::AsciiDigit => is_ascii_digit(c),
        Class::AsciiWord => is_ascii_word(c),
        Class::Only(x) => c == x,
        Class::Not(x) => c != x,
    }
}

/// Where the longest run of `k` that starts at `i` ends.
pub open spec fn run_end(s: Seq<char>, i: int, k: Class) -> int
    decreases s.len() - i,
{
    if 0 <= i < s.len() && in_class(k, s[i]) {
        run_end(s, i + 1, k)
    } else {
        i
    }
}

/// Where the longest run of `k` that ends before `j` starts.
pub open spec fn run_start(s: Seq<char>, j: int, k: Class) -> int
    decreases j,
{
    if 0 < j <= s.len() && in_class(k, s[j - 1]) {
        run_start(s, j - 1, k)
    } else {
        j
    }
}

/// A run stays inside the text, holds only its class, and is maximal.
pub broadcast proof fn lemma_run_end(s: Seq<char>, i: int, k: Class)
    requires
        0 <= i <= s.len(),
    ensures
        i <= #[trigger] run_end(s, i, k) <= s.len(),
        forall|j: int| i <= j < run_end(s, i, k) ==> in_class(k, #[trigger] s[j]),
        run_end(s, i, k) < s.len() ==> !in_class(k, s[run_end(s, i, k)]),
    decreases s.len() - i,
{
    if i < s.len() && in_class(k, s[i]) {
        lemma_run_end(s, i + 1, k);
    }
}

pub broadcast proof fn lemma_run_start(s: Seq<char>, j: int, k: Class)
    requires
        0 <= j <= s.len(),
    ensures
        0 <= #[trigger] run_start(s, j, k) <= j,
        forall|i: int| run_start(s, j, k) <= i < j ==> in_class(k, #[trigger] s[i]),
        run_start(s, j, k) > 0 ==> !in_class(k, s[run_start(s, j, k) - 1]),
    decreases j,
{
    if 0 < j && in_class(k, s[j - 1]) {
        lemma_run_start(s, j - 1, k);
    }
}

/// The end of a run is determined by being maximal.
pub proof fn lemma_run_end_is(s: Seq<char>, i: int, k: Class, e: int)
    requires
        0 <= i <= e <= s.len(),
        forall|j: int| i <= j < e ==> in_class(k, #[trigger] s[j]),
        e < s.len() ==> !in_class(k, s[e]),
    ensures
        run_end(s, i, k) == e,
    decreases s.len() - i,
{
    if i < e {
        assert(in_class(k, s[i]));
        lemma_run_end_is(s, i + 1, k, e);
    }
}

pub fn find_run_end(s: &[char], i: usize, k: Class) -> (r: usize)
    requires
        i <= s@.len(),
    ensures
        r == run_end(s@, i as int, k),
        i <= r <= s@.len(),
{
    let mut j: usize = i;
    while j < s.len() && is_in_class(k, s[j])
        invariant
            i <= j <= s@.len(),
            run_end(s@, i as int, k) == run_end(s@, j as int, k),
        decreases s@.len() - j,
    {
        j += 1;
    }
    j
}

pub fn find_run_start(s: &[char], j: usize, k: Class) -> (r: usize)
    requires
        j <= s@.len(),
    ensures
        r == run_start(s@, j as int, k),
        r <= j,
{
    let mut i: usize = j;
    while i > 0 && is_in_class(k, s[i - 1])
        invariant
            i <= j <= s@.len(),
            run_start(s@, j as int, k) == run_start(s@, i as int, k),
        decreases i,
    {
        i -= 1;
    }
    i
}

/// Whether every character belongs to `k`.
pub open spec fn all_in(s: Seq<char>, k: Class) -> bool {
    forall|i: int| 0 <= i < s.len() ==> in_class(k, #[trigger] s[i])
}

pub fn is_all_in(s: &[char], k: Class) -> (r: bool)
    ensures
        r == all_in(s@, k),
{
    broadcast use lemma_run_end;

    find_run_end(s, 0, k) == s.len()
}

// ---------------------------------------------------------------------------
// Trimming and splitting
// ---------------------------------------------------------------------------

pub open spec fn trim_start(s: Seq<char>) -> Seq<char> {
    s.skip(run_end(s, 0, Class::Space))
}

pub open spec fn trim_end(s: Seq<char>) -> Seq<char> {
    s.take(run_start(s, s.len() as int, Class::Space))
}

/// The text without the white space around it.
pub open spec fn trim(s: Seq<char>) -> Seq<char> {
    trim_end(trim_start(s))
}

pub fn trimmed_start(s: &[char]) -> (r: Vec<char>)
    ensures
        r@ == trim_start(s@),
{
    let i = find_run_end(s, 0, Class::Space);
    slice(s, i, s.len())
}

pub fn trimmed_end(s: &[char]) -> (r: Vec<char>)
    ensures
        r@ == trim_end(s@),
{
    let j = find_run_start(s, s.len(), Class::Space);
    slice(s, 0, j)
}

pub fn trimmed(s: &[char]) -> (r: Vec<char>)
    ensures
        r@ == trim(s@),
{
    let t = trimmed_start(s);
    trimmed_end(t.as_slice())
}

/// The pieces between the occurrences of `c` from `i` on; there is always at
/// least one piece.
pub open spec fn split_from(s: Seq<char>, i: int, c: char) -> Seq<Seq<char>>
    decreases s.len() - i,
    via split_from_terminates
{
    let e = run_end(s, i, Class::Not(c));
    if 0 <= i <= s.len() && e < s.len() {
        seq![s.subrange(i, e)] + split_from(s, e + 1, c)
    } else {
        seq![s.subrange(i, e)]
    }
}

#[via_fn]
proof fn split_from_terminates(s: Seq<char>, i: int, c: char) {
    if 0 <= i <= s.len() {
        lemma_run_end(s, i, Class::Not(c));
    }
}

/// The whole text cut at every `c`.
pub open spec fn split(s: Seq<char>, c: char) -> Seq<Seq<char>> {
    split_from(s, 0, c)
}

pub fn split_at_char(s: &[char], c: char) -> (r: Vec<Vec<char>>)
    ensures
        texts(r@) == split(s@, c),
        r@.len() >= 1,
{
    broadcast use lemma_run_end;

    let mut out: Vec<Vec<char>> = Vec::new();
    let mut i: usize = 0;
    let mut e: usize = find_run_end(s, 0, Class::Not(c));
    while e < s.len()
        invariant
            i <= e <= s@.len(),
            e == run_end(s@, i as int, Class::Not(c)),
            split(s@, c) == texts(out@) + split_from(s@, i as int, c),
        decreases s@.len() - e,
    {
        let ghost before = out@;
        out.push(slice(s, i, e));
        assert(texts(out@) == texts(before).push(s@.subrange(i as int, e as int)));
        assert(texts(out@) + split_from(s@, e + 1, c) == texts(before) + (seq![
            s@.subrange(i as int, e as int),
        ] + split_from(s@, e + 1, c)));
        i = e + 1;
        e = find_run_end(s, i, Class::Not(c));
    }
    let ghost before = out@;
    out.push(slice(s, i, e));
    assert(texts(out@) == texts(before).push(s@.subrange(i as int, e as int)));
    out
}

/// The white-space separated words from `i` on.
pub open spec fn words_from(s: Seq<char>, i: int) -> Seq<Seq<char>>
    decreases s.len() - i,
    via words_from_terminates
{
    let a = run_end(s, i, Class::Space);
    let b = run_end(s, a, Class::Solid);
    if 0 <= i <= s.len() && a < s.len() {
        seq![s.subrange(a, b)] + words_from(s, b)
    } else {
        seq![]
    }
}

#[via_fn]
proof fn words_from_terminates(s: Seq<char>, i: int) {
    if 0 <= i <= s.len() {
        lemma_run_end(s, i, Class::Space);
        let a = run_end(s, i, Class::Space);
        lemma_run_end(s, a, Class::Solid);
    }
}

/// The white-space separated words of a text.
pub open spec fn words(s: Seq<char>) -> Seq<Seq<char>> {
    words_from(s, 0)
}

pub fn split_words(s: &[char]) -> (r: Vec<Vec<char>>)
    ensures
        texts(r@) == words(s@),
{
    broadcast use lemma_run_end;

    let mut out: Vec<Vec<char>> = Vec::new();
    let mut i: usize = 0;
    let mut a: usize = find_run_end(s, 0, Class::Space);
    while a < s.len()
        invariant
            i <= a <= s@.len(),
            a == run_end(s@, i as int, Class::Space),
            words(s@) == texts(out@) + words_from(s@, i as int),
        decreases s@.len() - i,
    {
        let b = find_run_end(s, a, Class::Solid);
        let ghost before = out@;
        out.push(slice(s, a, b));
        assert(texts(out@) == texts(before).push(s@.subrange(a as int, b as int)));
        assert(texts(out@) + words_from(s@, b as int) == texts(before) + (seq![
            s@.subrange(a as int, b as int),
        ] + words_from(s@, b as int)));
        i = b;
        a = find_run_end(s, i, Class::Space);
    }
    out
}

/// The pieces put together with `sep` between them.
pub open spec fn join(parts: Seq<Seq<char>>, sep: Seq<char>) -> Seq<char>
    decreases parts.len(),
{
    if parts.len() == 0 {
        seq![]
    } else if parts.len() == 1 {
        parts[0]
    } else {
        join(parts.drop_last(), sep) + sep + parts.last()
    }
}

/// Joins `parts[from..]`.
pub fn joined(parts: &Vec<Vec<char>>, from: usize, sep: char) -> (r: Vec<char>)
    requires
        from <= parts@.len(),
    ensures
        r@ == join(texts(parts@).skip(from as int), seq![sep]),
{
    let ghost all = texts(parts@).skip(from as int);
    let mut out: Vec<char> = Vec::new();
    let mut i: usize = from;
    while i < parts.len()
        invariant
            from <= i <= parts@.len(),
            all == texts(parts@).skip(from as int),
            out@ == join(all.take(i - from), seq![sep]),
        decreases parts@.len() - i,
    {
        if i > from {
            out.push(sep);
        }
        extend(&mut out, parts[i].as_slice());
        i += 1;
        assert(all.take(i - from).drop_last() == all.take(i - from - 1));
        assert(all.take(i - from).last() == parts@[i - 1]@);
    }
    assert(all.take(i - from) == all);
    out
}

// ---------------------------------------------------------------------------
// Decimal numbers
// ---------------------------------------------------------------------------

/// The character of a digit value.
pub open spec fn digit_char(d: int) -> char {
    ('0' as int + d) as char
}

/// The value of an ASCII digit.
pub open spec fn digit_value(c: char) -> int {
    c as int - '0' as int
}

/// A natural number in decimal, without leading zeros.
pub open spec fn dec_nat(n: nat) -> Seq<char>
    decreases n,
{
    if n < 10 {
        seq![digit_char(n as int)]
    } else {
        dec_nat(n / 10).push(digit_char((n % 10) as int))
    }
}

/// An integer in decimal.
pub open spec fn dec(n: int) -> Seq<char> {
    if n < 0 {
        seq!['-'] + dec_nat((-n) as nat)
    } else {
        dec_nat(n as nat)
    }
}

/// The number that some ASCII digits write.
pub open spec fn number(s: Seq<char>) -> nat
    decreases s.len(),
{
    if s.len() == 0 {
        0
    } else {
        number(s.drop_last()) * 10 + digit_value(s.last()) as nat
    }
}

fn char_of_digit(d: u64) -> (r: char)
    requires
        d < 10,
    ensures
        r == digit_char(d as int),
{
    (48 + d as u8) as char
}

pub fn nat_text(n: u64) -> (r: Vec<char>)
    ensures
        r@ == dec_nat(n as nat),
    decreases n,
{
    let mut out: Vec<char> = if n < 10 {
        Vec::new()
    } else {
        nat_text(n / 10)
    };
    out.push(char_of_digit(n % 10));
    out
}

pub fn int_text(n: i64) -> (r: Vec<char>)
    ensures
        r@ == dec(n as int),
{
    if n < 0 {
        let mut out: Vec<char> = Vec::new();
        out.push('-');
        let digits = nat_text((-(n + 1)) as u64 + 1);
        extend(&mut out, digits.as_slice());
        out
    } else {
        nat_text(n as u64)
    }
}

/// What `str::parse::<u32>` gives for a non-empty text of decimal digits, with
/// `0` where the number does not fit or a digit is not ASCII.
pub open spec fn u32_or_zero(s: Seq<char>) -> u32 {
    if s.len() > 0 && all_in(s, Class::AsciiDigit) && number(s) <= u32::MAX {
        number(s) as u32
    } else {
        0
    }
}

pub proof fn lemma_number_grows(s: Seq<char>, i: int)
    requires
        0 <= i <= s.len(),
        all_in(s, Class::AsciiDigit),
    ensures
        number(s.take(i)) <= number(s),
    decreases s.len(),
{
    if i < s.len() {
        let t = s.drop_last();
        assert(all_in(t, Class::AsciiDigit)) by {
            assert forall|j: int| 0 <= j < t.len() implies in_class(
                Class::AsciiDigit,
                #[trigger] t[j],
            ) by {
                assert(t[j] == s[j]);
            }
        }
        lemma_number_grows(t, i);
        assert(t.take(i) == s.take(i));
        assert(in_class(Class::AsciiDigit, s[s.len() - 1]));
    } else {
        assert(s.take(i) == s);
    }
}

pub fn parse_u32_or_zero(s: &[char]) -> (r: u32)
    ensures
        r == u32_or_zero(s@),
{
    if s.len() == 0 || !is_all_in(s, Class::AsciiDigit) {
        return 0;
    }
    let mut value: u64 = 0;
    let mut i: usize = 0;
    while i < s.len()
        invariant
            i <= s@.len(),
            all_in(s@, Class::AsciiDigit),
            value == number(s@.take(i as int)),
            value <= u32::MAX,
        decreases s@.len() - i,
    {
        proof {
            assert(in_class(Class::AsciiDigit, s@[i as int]));
            assert(s@.take(i + 1).drop_last() == s@.take(i as int));
            lemma_number_grows(s@, i + 1);
        }
        value = value * 10 + (s[i] as u64 - 48);
        if value > 0xffff_ffff {
            return 0;
        }
        i += 1;
    }
    assert(s@.take(i as int) == s@);
    value as u32
}

/// What `str::parse::<usize>` gives: an optional `+` sign followed by only
/// digits, at least one, where the number fits.
pub open spec fn usize_of(s: Seq<char>) -> Option<usize> {
    let digits = if s.len() > 0 && s[0] == '+' {
        s.skip(1)
    } else {
        s
    };
    if digits.len() > 0 && all_in(digits, Class::AsciiDigit) && number(digits) <= usize::MAX {
        Some(number(digits) as usize)
    } else {
        None
    }
}

pub fn parse_usize(s: &[char]) -> (r: Option<usize>)
    ensures
        r == usize_of(s@),
{
    let start: usize = if s.len() > 0 && s[0] == '+' {
        1
    } else {
        0
    };
    let digits = slice(s, start, s.len());
    assert(digits@ == if start == 1 {
        s@.skip(1)
    } else {
        s@
    });
    if digits.len() == 0 || !is_all_in(digits.as_slice(), Class::AsciiDigit) {
        return None;
    }
    let mut value: u128 = 0;
    let mut i: usize = 0;
    while i < digits.len()
        invariant
            i <= digits@.len(),
            all_in(digits@, Class::AsciiDigit),
            value == number(digits@.take(i as int)),
            value <= usize::MAX,
            digits@.len() > 0,
            usize_of(s@) == if number(digits@) <= usize::MAX {
                Some(number(digits@) as usize)
            } else {
                None
            },
        decreases digits@.len() - i,
    {
        proof {
            assert(in_class(Class::AsciiDigit, digits@[i as int]));
            assert(digits@.take(i + 1).drop_last() == digits@.take(i as int));
            lemma_number_grows(digits@, i + 1);
        }
        value = value * 10 + (digits[i] as u128 - 48);
        if value > usize::MAX as u128 {
            return None;
        }
        i += 1;
    }
    assert(digits@.take(i as int) == digits@);
    Some(value as usize)
}

} // verus!
