//! What the text primitives are for: cutting texts up and putting them together
//! again, and writing and reading numbers.

use vstd::prelude::*;

use crate::text::{
    all_in, char_width, dec, dec_nat, in_class, join, lemma_run_end, lemma_run_end_is,
    lemma_run_start, number, run_end, run_start, split, split_from, trim, trim_end, trim_start,
    u32_or_zero, usize_of, utf8_width, words, words_from, Class,
};
use crate::unicode::{
    ascii_digit, ascii_lower, ascii_lower_text, ascii_word, decimal, white_space, word,
};

verus! {

// ---------------------------------------------------------------------------
// White space
// ---------------------------------------------------------------------------

/// Whether a text is nothing but white space.
pub open spec fn all_white(s: Seq<char>) -> bool {
    forall|i: int| 0 <= i < s.len() ==> white_space(#[trigger] s[i])
}

/// Whether a text holds no white space.
pub open spec fn all_solid(s: Seq<char>) -> bool {
    forall|i: int| 0 <= i < s.len() ==> !white_space(#[trigger] s[i])
}

/// Trimming takes away the white space at the ends of a text, all of it, and
/// nothing else: whatever white space stands around a text that neither starts
/// nor ends with any, trimming gives that text.
pub proof fn law_trimming_takes_the_white_space(a: Seq<char>, s: Seq<char>, b: Seq<char>)
    requires
        all_white(a),
        all_white(b),
        s.len() > 0 ==> !white_space(s[0]) && !white_space(s.last()),
    ensures
        trim(a + s + b) == s,
        s.len() > 0 ==> trim_start(a + s + b) == s + b,
        trim_end(a + s + b) == if s.len() > 0 {
            a + s
        } else {
            seq![]
        },
{
    let t = a + s + b;
    if s.len() == 0 {
        assert(t =~= a + b);
        assert forall|j: int| 0 <= j < t.len() implies in_class(Class::Space, #[trigger] t[j]) by {
            if j < a.len() {
                assert(t[j] == a[j]);
            } else {
                assert(t[j] == b[j - a.len()]);
            }
        }
        lemma_run_end_is(t, 0, Class::Space, t.len() as int);
        assert(trim_start(t) =~= seq![]);
        lemma_run_start(t, t.len() as int, Class::Space);
        let e = run_start(t, t.len() as int, Class::Space);
        if e > 0 {
            assert(in_class(Class::Space, t[e - 1]));
        }
        assert(trim_end(t) =~= seq![]);
        assert(trim_end(Seq::<char>::empty()) =~= seq![]);
    } else {
        assert forall|j: int| 0 <= j < a.len() implies in_class(Class::Space, #[trigger] t[j]) by {
            assert(t[j] == a[j]);
        }
        assert(t[a.len() as int] == s[0]);
        lemma_run_end_is(t, 0, Class::Space, a.len() as int);
        assert(trim_start(t) =~= s + b);
        lemma_trimmed_end(s, b);
        lemma_trimmed_end(a + s, b);
        assert((a + s).last() == s.last());
    }
}

proof fn lemma_trimmed_end(s: Seq<char>, b: Seq<char>)
    requires
        all_white(b),
        s.len() > 0,
        !white_space(s.last()),
    ensures
        trim_end(s + b) == s,
{
    let t = s + b;
    let n = t.len() as int;
    let e = run_start(t, n, Class::Space);
    lemma_run_start(t, n, Class::Space);
    assert(t[s.len() - 1] == s.last());
    if e < s.len() {
        assert(in_class(Class::Space, t[s.len() - 1]));
    }
    if e > s.len() {
        assert(t[e - 1] == b[e - 1 - s.len()]);
        assert(white_space(b[e - 1 - s.len()]));
    }
    assert(t.take(e) =~= s);
}

/// Words are what stands between white space: a text of white space holds none,
/// and a solid text behind white space, up to the next white space, is the first
/// word of what it starts.
pub proof fn law_words_stand_between_white_space(a: Seq<char>, w: Seq<char>, b: Seq<char>)
    requires
        all_white(a),
        all_solid(w),
        w.len() > 0,
        b.len() > 0 ==> white_space(b[0]),
    ensures
        words(a) == Seq::<Seq<char>>::empty(),
        words(a + w + b) == seq![w] + words(b),
{
    assert forall|j: int| 0 <= j < a.len() implies in_class(Class::Space, #[trigger] a[j]) by {}
    lemma_run_end_is(a, 0, Class::Space, a.len() as int);
    let t = a + w + b;
    let i = a.len() as int;
    let e = i + w.len();
    assert forall|j: int| 0 <= j < i implies in_class(Class::Space, #[trigger] t[j]) by {
        assert(t[j] == a[j]);
    }
    assert(t[i] == w[0]);
    lemma_run_end_is(t, 0, Class::Space, i);
    assert forall|j: int| i <= j < e implies in_class(Class::Solid, #[trigger] t[j]) by {
        assert(t[j] == w[j - i]);
    }
    if e < t.len() {
        assert(t[e] == b[0]);
    }
    lemma_run_end_is(t, i, Class::Solid, e);
    assert(t.subrange(i, e) =~= w);
    assert(t.skip(e) =~= b.skip(0));
    lemma_words_shift(t, e, b, 0);
}

/// The words of a text do not depend on what stands before it.
proof fn lemma_words_shift(t: Seq<char>, i: int, b: Seq<char>, j: int)
    requires
        0 <= i <= t.len(),
        0 <= j <= b.len(),
        t.skip(i) == b.skip(j),
    ensures
        words_from(t, i) == words_from(b, j),
    decreases b.len() - j,
{
    assert(t.len() - i == t.skip(i).len() == b.skip(j).len() == b.len() - j);
    lemma_run_shift(t, i, b, j, Class::Space);
    let a = run_end(b, j, Class::Space);
    lemma_run_end(b, j, Class::Space);
    assert(t.skip(i + (a - j)) =~= t.skip(i).skip(a - j));
    assert(b.skip(a) =~= b.skip(j).skip(a - j));
    lemma_run_shift(t, i + (a - j), b, a, Class::Solid);
    let e = run_end(b, a, Class::Solid);
    lemma_run_end(b, a, Class::Solid);
    if a < b.len() {
        assert(in_class(Class::Solid, b[a]));
        assert(a < e);
        assert(t.skip(i + (e - j)) =~= t.skip(i).skip(e - j));
        assert(b.skip(e) =~= b.skip(j).skip(e - j));
        lemma_words_shift(t, i + (e - j), b, e);
        assert(t.subrange(i + (a - j), i + (e - j)) =~= t.skip(i).subrange(a - j, e - j));
        assert(b.subrange(a, e) =~= b.skip(j).subrange(a - j, e - j));
    }
}

/// A run does not depend on what stands before it.
pub proof fn lemma_run_shift(t: Seq<char>, i: int, b: Seq<char>, j: int, k: Class)
    requires
        0 <= i <= t.len(),
        0 <= j <= b.len(),
        t.skip(i) == b.skip(j),
    ensures
        t.len() - i == b.len() - j,
        run_end(t, i, k) - i == run_end(b, j, k) - j,
    decreases b.len() - j,
{
    assert(t.len() - i == t.skip(i).len() == b.skip(j).len() == b.len() - j);
    if j < b.len() {
        assert(t[i] == t.skip(i)[0] == b.skip(j)[0] == b[j]);
        assert(t.skip(i + 1) =~= t.skip(i).skip(1));
        assert(b.skip(j + 1) =~= b.skip(j).skip(1));
        lemma_run_shift(t, i + 1, b, j + 1, k);
    }
}

// ---------------------------------------------------------------------------
// Cutting and joining
// ---------------------------------------------------------------------------

/// Whether a text does not hold a character.
pub open spec fn holds_no(s: Seq<char>, c: char) -> bool {
    forall|i: int| 0 <= i < s.len() ==> #[trigger] s[i] != c
}

/// Cutting a text at a character cuts it there, everywhere and nowhere else: the
/// first piece is what stands before the first such character, and the others are
/// the pieces of what stands behind it.
pub proof fn law_cuts_are_at_the_character(a: Seq<char>, b: Seq<char>, c: char)
    requires
        holds_no(a, c),
    ensures
        split(a, c) == seq![a],
        split(a + seq![c] + b, c) == seq![a] + split(b, c),
{
    lemma_run_end_is(a, 0, Class::Not(c), a.len() as int);
    assert(a.subrange(0, a.len() as int) =~= a);
    let t = a + seq![c] + b;
    assert forall|j: int| 0 <= j < a.len() implies in_class(Class::Not(c), #[trigger] t[j]) by {
        assert(t[j] == a[j]);
    }
    lemma_run_end_is(t, 0, Class::Not(c), a.len() as int);
    assert(t.subrange(0, a.len() as int) =~= a);
    assert(t.skip(a.len() + 1int) =~= b.skip(0));
    lemma_split_shift(t, a.len() + 1int, b, 0, c);
}

proof fn lemma_split_shift(t: Seq<char>, i: int, b: Seq<char>, j: int, c: char)
    requires
        0 <= i <= t.len(),
        0 <= j <= b.len(),
        t.skip(i) == b.skip(j),
    ensures
        split_from(t, i, c) == split_from(b, j, c),
    decreases b.len() - j,
{
    assert(t.len() - i == t.skip(i).len() == b.skip(j).len() == b.len() - j);
    lemma_run_shift(t, i, b, j, Class::Not(c));
    lemma_run_end(b, j, Class::Not(c));
    let e = run_end(b, j, Class::Not(c));
    assert(t.subrange(i, i + (e - j)) =~= t.skip(i).subrange(0, e - j));
    assert(b.subrange(j, e) =~= b.skip(j).subrange(0, e - j));
    if e < b.len() {
        assert(t.skip(i + (e + 1 - j)) =~= t.skip(i).skip(e + 1 - j));
        assert(b.skip(e + 1) =~= b.skip(j).skip(e + 1 - j));
        lemma_split_shift(t, i + (e + 1 - j), b, e + 1, c);
    }
}

/// Joining puts the separator between the pieces, and nowhere else.
pub proof fn law_joins_put_the_separator_between(
    parts: Seq<Seq<char>>,
    last: Seq<char>,
    sep: Seq<char>,
)
    ensures
        join(Seq::<Seq<char>>::empty(), sep) == Seq::<char>::empty(),
        join(seq![last], sep) == last,
        parts.len() > 0 ==> join(parts.push(last), sep) == join(parts, sep) + sep + last,
{
    assert(parts.push(last).drop_last() =~= parts);
}

/// What was cut at a character is joined with it to the same text.
pub proof fn law_cut_texts_join_again(s: Seq<char>, c: char)
    ensures
        join(split(s, c), seq![c]) == s,
{
    lemma_split_joins(s, 0, c);
    assert(s.skip(0) =~= s);
}

proof fn lemma_split_joins(s: Seq<char>, i: int, c: char)
    requires
        0 <= i <= s.len(),
    ensures
        join(split_from(s, i, c), seq![c]) == s.skip(i),
        split_from(s, i, c).len() > 0,
    decreases s.len() - i,
{
    lemma_run_end(s, i, Class::Not(c));
    let e = run_end(s, i, Class::Not(c));
    if e < s.len() {
        lemma_split_joins(s, e + 1, c);
        let rest = split_from(s, e + 1, c);
        lemma_join_front(s.subrange(i, e), rest, seq![c]);
        assert(s[e] == c);
        assert(s.subrange(i, e) + seq![c] + s.skip(e + 1) =~= s.skip(i));
    } else {
        assert(s.subrange(i, e) =~= s.skip(i));
    }
}

pub proof fn lemma_join_front(first: Seq<char>, rest: Seq<Seq<char>>, sep: Seq<char>)
    requires
        rest.len() > 0,
    ensures
        join(seq![first] + rest, sep) == first + sep + join(rest, sep),
    decreases rest.len(),
{
    let all = seq![first] + rest;
    reveal_with_fuel(join, 2);
    if rest.len() == 1 {
        assert(all.drop_last() =~= seq![first]);
        assert(all.last() == rest[0]);
    } else {
        lemma_join_front(first, rest.drop_last(), sep);
        assert(all.drop_last() =~= seq![first] + rest.drop_last());
        assert(all.last() == rest.last());
        assert(first + sep + join(rest.drop_last(), sep) + sep + rest.last() =~= first + sep + (
        join(rest.drop_last(), sep) + sep + rest.last()));
    }
}

// ---------------------------------------------------------------------------
// Numbers
// ---------------------------------------------------------------------------

/// The integer that a numeral stands for: its digits, place by place, with a
/// minus sign before them where it is negative.
pub open spec fn integer(s: Seq<char>) -> int {
    if s.len() > 0 && s[0] == '-' {
        -place_value(s.skip(1))
    } else {
        place_value(s)
    }
}

/// The number that some digits stand for: ten times the number of all but the
/// last, and the last.
pub open spec fn place_value(s: Seq<char>) -> int
    decreases s.len(),
{
    if s.len() == 0 {
        0
    } else {
        10 * place_value(s.drop_last()) + (s.last() as int - '0' as int)
    }
}

/// Whether a text is a numeral: digits, at least one, without zeros in front that
/// stand for nothing.
pub open spec fn numeral(s: Seq<char>) -> bool {
    &&& s.len() > 0
    &&& forall|i: int| 0 <= i < s.len() ==> '0' <= #[trigger] s[i] <= '9'
    &&& s.len() > 1 ==> s[0] != '0'
}

/// Numbers are written so that they can be read: as the one numeral that stands
/// for them, with a sign where they are negative.
pub proof fn law_numbers_read_back(n: int)
    ensures
        integer(dec(n)) == n,
        n >= 0 ==> dec(n) == dec_nat(n as nat) && numeral(dec(n)),
        n < 0 ==> dec(n)[0] == '-' && numeral(dec(n).skip(1)),
{
    let m = if n < 0 {
        (-n) as nat
    } else {
        n as nat
    };
    lemma_dec_nat_reads_back(m);
    if n < 0 {
        assert(dec(n).skip(1) =~= dec_nat(m));
    } else {
        assert(dec_nat(m)[0] != '-');
    }
}

proof fn lemma_dec_nat_reads_back(n: nat)
    ensures
        place_value(dec_nat(n)) == n,
        numeral(dec_nat(n)),
        dec_nat(n)[0] == '0' ==> n == 0,
    decreases n,
{
    reveal_with_fuel(place_value, 2);
    if n >= 10 {
        lemma_dec_nat_reads_back(n / 10);
        assert(dec_nat(n).drop_last() =~= dec_nat(n / 10));
        assert(dec_nat(n)[0] == dec_nat(n / 10)[0]);
    } else {
        assert(dec_nat(n).drop_last() =~= seq![]);
    }
}

/// Numbers are read place by place.
pub proof fn law_numbers_are_read_by_place(s: Seq<char>)
    requires
        forall|i: int| 0 <= i < s.len() ==> '0' <= #[trigger] s[i] <= '9',
    ensures
        number(s) == place_value(s),
        s.len() > 0 && place_value(s) <= u32::MAX ==> u32_or_zero(s) == place_value(s),
        s.len() > 0 && place_value(s) <= usize::MAX ==> {
            &&& usize_of(s) matches Some(n) && n == place_value(s)
            &&& usize_of(seq!['+'] + s) matches Some(n) && n == place_value(s)
        },
        place_value(s) > u32::MAX ==> u32_or_zero(s) == 0,
        place_value(s) > usize::MAX ==> usize_of(s) is None && usize_of(seq!['+'] + s) is None,
{
    lemma_number_is_place_value(s);
    assert(all_in(s, Class::AsciiDigit));
    if s.len() > 0 {
        assert(s[0] != '+');
    }
    assert((seq!['+'] + s).skip(1) =~= s);
}

proof fn lemma_number_is_place_value(s: Seq<char>)
    requires
        forall|i: int| 0 <= i < s.len() ==> '0' <= #[trigger] s[i] <= '9',
    ensures
        number(s) == place_value(s),
    decreases s.len(),
{
    if s.len() > 0 {
        let t = s.drop_last();
        assert forall|i: int| 0 <= i < t.len() implies '0' <= #[trigger] t[i] <= '9' by {
            assert(t[i] == s[i]);
        }
        lemma_number_is_place_value(t);
        assert('0' <= s[s.len() - 1] <= '9');
    }
}

/// What is no number is not read as one: a worker count needs digits, at least
/// one, behind at most one plus sign.
pub proof fn law_only_digits_are_numbers(s: Seq<char>)
    requires
        usize_of(s) is Some,
    ensures
        ({
            let digits = if s.len() > 0 && s[0] == '+' {
                s.skip(1)
            } else {
                s
            };
            digits.len() > 0 && forall|i: int|
                0 <= i < digits.len() ==> '0' <= #[trigger] digits[i] <= '9'
        }),
{
    let digits = if s.len() > 0 && s[0] == '+' {
        s.skip(1)
    } else {
        s
    };
    assert forall|i: int| 0 <= i < digits.len() implies '0' <= #[trigger] digits[i] <= '9' by {
        assert(in_class(Class::AsciiDigit, digits[i]));
    }
}

// ---------------------------------------------------------------------------
// Letters
// ---------------------------------------------------------------------------

/// Lower case touches the letters from `A` to `Z`, which it moves to their
/// counterparts, and nothing else; texts keep their length.
pub proof fn law_lower_case_touches_capitals(s: Seq<char>, i: int)
    requires
        0 <= i < s.len(),
    ensures
        ascii_lower_text(s).len() == s.len(),
        'A' <= s[i] <= 'Z' ==> ascii_lower_text(s)[i] as int - s[i] as int == 'a' as int
            - 'A' as int,
        !('A' <= s[i] <= 'Z') ==> ascii_lower_text(s)[i] == s[i],
        ascii_lower(s[i]) == ascii_lower_text(s)[i],
{
}

/// Texts are as wide as their characters, of one to four bytes each; ASCII takes
/// one.
pub proof fn law_widths_add_up(s: Seq<char>, c: char)
    ensures
        utf8_width(Seq::<char>::empty()) == 0,
        utf8_width(s.push(c)) == utf8_width(s) + char_width(c),
        c as int <= 0x7f ==> char_width(c) == 1,
        0x7f < c as int <= 0x7ff ==> char_width(c) == 2,
        0x7ff < c as int <= 0xffff ==> char_width(c) == 3,
        0xffff < c as int ==> char_width(c) == 4,
{
    assert(s.push(c).drop_last() =~= s);
}

/// Which characters count as what: white space as Unicode has it, digits and word
/// characters as everybody knows them among the ASCII ones.
pub proof fn law_characters_and_their_classes(c: char)
    ensures
        white_space(c) <==> {
            ||| 0x09 <= c as int <= 0x0d
            ||| c as int == 0x20
            ||| c as int == 0x85
            ||| c as int == 0xa0
            ||| c as int == 0x1680
            ||| 0x2000 <= c as int <= 0x200a
            ||| c as int == 0x2028
            ||| c as int == 0x2029
            ||| c as int == 0x202f
            ||| c as int == 0x205f
            ||| c as int == 0x3000
        },
        c as int <= 0x7f ==> (decimal(c) <==> '0' <= c <= '9'),
        c as int <= 0x7f ==> (word(c) <==> 'a' <= c <= 'z' || 'A' <= c <= 'Z' || '0' <= c <= '9'
            || c == '_'),
        ascii_digit(c) <==> '0' <= c <= '9',
        ascii_word(c) <==> 'a' <= c <= 'z' || 'A' <= c <= 'Z' || '0' <= c <= '9' || c == '_',
        in_class(Class::Space, c) == white_space(c),
        in_class(Class::Solid, c) == !white_space(c),
        in_class(Class::Decimal, c) == decimal(c),
        in_class(Class::Word, c) == word(c),
        in_class(Class::AsciiDigit, c) == ascii_digit(c),
        in_class(Class::AsciiWord, c) == ascii_word(c),
        forall|x: char| #[trigger] in_class(Class::Only(x), c) == (c == x),
        forall|x: char| #[trigger] in_class(Class::Not(x), c) == (c != x),
{
}

/// A run goes on as long as its class does, and no longer.
pub proof fn law_runs_are_maximal(s: Seq<char>, i: int, k: Class)
    requires
        0 <= i <= s.len(),
    ensures
        i <= run_end(s, i, k) <= s.len(),
        forall|j: int| i <= j < run_end(s, i, k) ==> in_class(k, #[trigger] s[j]),
        run_end(s, i, k) < s.len() ==> !in_class(k, s[run_end(s, i, k)]),
        all_in(s, k) <==> run_end(s, 0, k) == s.len(),
{
    lemma_run_end(s, i, k);
    lemma_run_end(s, 0, k);
    if all_in(s, k) && run_end(s, 0, k) < s.len() {
        assert(in_class(k, s[run_end(s, 0, k)]));
    }
}

} // verus!
