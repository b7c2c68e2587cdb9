//! What the strict checks take for a tag, a move, a number, a comment or a
//! section: each form, and nothing but it.

use vstd::prelude::*;

use crate::board::{file_char, piece_char, piece_move_san, promotion_char, rank_char, san_head_end};
use crate::pgn::{drop_quality, marked_result};
use crate::pgn_export::escaped;
use crate::pgn_faults::Fault;
use crate::pgn_laws::law_escapes_read_back;
use crate::pgn_movetext::{
    annotation_at, annotation_faults, clock_command, command_faults, command_start, comment_faults,
    eval_command, item_of, number_text, san_form, scan_items, variation_end, Item, ItemScan,
};
use crate::pgn_tags::{
    first_difference, has_name, missing_roster_tags, names, roster, roster_faults, roster_names,
    tag_of_line, valid_escapes, value_end, SEVEN_TAG_ROSTER,
};
use crate::pgn_validator::{
    after_blanks, after_tags, blank, lines_of, opens_tag, sections, with_newlines, Sections, Tags,
};
use crate::text::{
    dec_nat, in_class, join, lemma_run_end, lemma_run_end_is, lemma_run_start, run_end, run_start,
    split, trim, trim_start, Class,
};
use crate::text_laws::{
    all_white, holds_no, law_numbers_are_read_by_place, law_trimming_takes_the_white_space,
    place_value,
};
use crate::unicode::{ascii_word, decimal, white_space, word};

verus! {

// ---------------------------------------------------------------------------
// Tags
// ---------------------------------------------------------------------------

/// A line that is written as a tag is read as one: the name of ASCII word
/// characters, white space, and the value with its escapes in quotes, in
/// brackets.
pub proof fn law_written_tags_are_tags(name: Seq<char>, gap: Seq<char>, value: Seq<char>)
    requires
        name.len() > 0,
        forall|i: int| 0 <= i < name.len() ==> ascii_word(#[trigger] name[i]),
        gap.len() > 0,
        all_white(gap),
        holds_no(value, '\n'),
    ensures
        tag_of_line(seq!['['] + name + gap + seq!['"'] + escaped(value, 0) + seq!['"', ']'])
            == Some((name, escaped(value, 0))),
        valid_escapes(escaped(value, 0), 0),
{
    let raw = escaped(value, 0);
    let s = seq!['['] + name + gap + seq!['"'] + raw + seq!['"', ']'];
    let a = 1 + name.len() as int;
    let b = a + gap.len();
    assert forall|j: int| 1 <= j < a implies in_class(Class::AsciiWord, #[trigger] s[j]) by {
        assert(s[j] == name[j - 1]);
    }
    assert(s[a] == gap[0]);
    lemma_run_end_is(s, 1, Class::AsciiWord, a);
    assert forall|j: int| a <= j < b implies in_class(Class::Space, #[trigger] s[j]) by {
        assert(s[j] == gap[j - a]);
    }
    assert(s[b] == '"');
    lemma_run_end_is(s, a, Class::Space, b);
    assert(s.skip(b + 1) =~= escaped(value, 0) + seq!['"'] + seq![']']);
    lemma_value_end(s, b + 1, value, 0, seq![']']);
    assert(s.subrange(1, a) =~= name);
    assert(s.subrange(b + 1, b + 1 + raw.len()) =~= raw);
    law_escapes_read_back(value);
}

/// A quoted value ends at the first quote that is not escaped.
proof fn lemma_value_end(s: Seq<char>, i: int, value: Seq<char>, k: int, rest: Seq<char>)
    requires
        0 <= i <= s.len(),
        0 <= k <= value.len(),
        holds_no(value, '\n'),
        s.skip(i) == escaped(value, k) + seq!['"'] + rest,
    ensures
        value_end(s, i) == i + escaped(value, k).len(),
    decreases value.len() - k,
{
    let tail = s.skip(i);
    assert(tail.len() == s.len() - i);
    if k < value.len() {
        let more = escaped(value, k + 1);
        assert(value[k] != '\n');
        if value[k] == '\\' || value[k] == '"' {
            assert(tail[0] == '\\' && tail[1] == value[k]);
            assert(s[i] == tail[0] && s[i + 1] == tail[1]);
            assert(s.skip(i + 2) =~= more + seq!['"'] + rest) by {
                assert(s.skip(i + 2) =~= tail.skip(2));
                assert((seq!['\\', value[k]] + more + seq!['"'] + rest).skip(2) =~= more + seq!['"']
                    + rest);
            }
            lemma_value_end(s, i + 2, value, k + 1, rest);
        } else {
            assert(tail[0] == value[k]);
            assert(s[i] == tail[0]);
            assert(s.skip(i + 1) =~= more + seq!['"'] + rest) by {
                assert(s.skip(i + 1) =~= tail.skip(1));
                assert((seq![value[k]] + more + seq!['"'] + rest).skip(1) =~= more + seq!['"']
                    + rest);
            }
            lemma_value_end(s, i + 1, value, k + 1, rest);
        }
    } else {
        assert(tail[0] == '"');
        assert(s[i] == tail[0]);
    }
}

/// What is read as a tag is one: nothing stands before its bracket or behind the
/// other, its name is not empty, and what is escaped is a quote or a backslash.
pub proof fn law_what_is_read_is_a_tag(s: Seq<char>)
    requires
        tag_of_line(s) is Some,
    ensures
        ({
            let (name, raw) = tag_of_line(s)->0;
            let n = s.len() as int;
            let a = 1 + name.len() as int;
            let b = n - 3 - raw.len();
            &&& name.len() > 0
            &&& a < b
            &&& s[0] == '['
            &&& s.subrange(1, a) == name
            &&& forall|i: int| 0 <= i < name.len() ==> ascii_word(#[trigger] name[i])
            &&& all_white(s.subrange(a, b))
            &&& s[b] == '"'
            &&& s.subrange(b + 1, n - 2) == raw
            &&& s[n - 2] == '"'
            &&& s[n - 1] == ']'
            &&& holds_no(raw, '\\') ==> holds_no(raw, '"')
        }),
{
    let (name, raw) = tag_of_line(s)->0;
    let a = run_end(s, 1, Class::AsciiWord);
    let b = run_end(s, a, Class::Space);
    lemma_run_end(s, 1, Class::AsciiWord);
    lemma_run_end(s, a, Class::Space);
    crate::pgn_tags::lemma_value_end(s, b + 1);
    if holds_no(raw, '\\') {
        let close = value_end(s, b + 1);
        assert forall|j: int| b + 1 <= j < close implies #[trigger] s[j] != '\\' by {
            assert(s[j] == raw[j - (b + 1)]);
        }
        lemma_unescaped_value(s, b + 1, close);
        assert forall|j: int| 0 <= j < raw.len() implies #[trigger] raw[j] != '"' by {
            assert(raw[j] == s[b + 1 + j]);
        }
    }
    assert forall|j: int| 0 <= j < name.len() implies ascii_word(#[trigger] name[j]) by {
        assert(name[j] == s[1 + j]);
        assert(in_class(Class::AsciiWord, s[1 + j]));
    }
    let gap = s.subrange(a, b);
    assert forall|j: int| 0 <= j < gap.len() implies white_space(#[trigger] gap[j]) by {
        assert(gap[j] == s[a + j]);
        assert(in_class(Class::Space, s[a + j]));
    }
}

/// A value without backslashes holds no quote before its end.
proof fn lemma_unescaped_value(s: Seq<char>, i: int, e: int)
    requires
        0 <= i <= e <= s.len(),
        e == value_end(s, i),
        forall|j: int| i <= j < e ==> #[trigger] s[j] != '\\',
    ensures
        forall|j: int| i <= j < e ==> #[trigger] s[j] != '"',
    decreases e - i,
{
    if i < e {
        assert(s[i] != '\\');
        lemma_unescaped_value(s, i + 1, e);
    }
}

/// A backslash has to stand before a quote or a backslash, and is all that is
/// asked of a value.
pub proof fn law_backslashes_escape(a: Seq<char>, c: char, b: Seq<char>)
    requires
        holds_no(a, '\\'),
    ensures
        valid_escapes(a, 0),
        !valid_escapes(a + seq!['\\'], 0),
        valid_escapes(a + seq!['\\', c] + b, 0) <==> (c == '"' || c == '\\') && valid_escapes(b, 0),
{
    let n = a.len() as int;
    lemma_escapes_before(a, 0, n);
    let u = a + seq!['\\'];
    assert forall|j: int| 0 <= j < n implies #[trigger] u[j] != '\\' by {
        assert(u[j] == a[j]);
    }
    lemma_escapes_before(u, 0, n);
    assert(u[n] == '\\');
    let t = a + seq!['\\', c] + b;
    assert forall|j: int| 0 <= j < n implies #[trigger] t[j] != '\\' by {
        assert(t[j] == a[j]);
    }
    lemma_escapes_before(t, 0, n);
    assert(t[n] == '\\' && t[n + 1] == c);
    assert(t.skip(n + 2) =~= b.skip(0));
    lemma_escapes_shift(t, n + 2, b, 0);
}

proof fn lemma_escapes_before(s: Seq<char>, i: int, n: int)
    requires
        0 <= i <= n <= s.len(),
        forall|j: int| 0 <= j < n ==> #[trigger] s[j] != '\\',
    ensures
        valid_escapes(s, i) == valid_escapes(s, n),
    decreases n - i,
{
    if i < n {
        lemma_escapes_before(s, i + 1, n);
    }
}

proof fn lemma_escapes_shift(t: Seq<char>, i: int, b: Seq<char>, j: int)
    requires
        0 <= i <= t.len(),
        0 <= j <= b.len(),
        t.skip(i) == b.skip(j),
    ensures
        valid_escapes(t, i) == valid_escapes(b, j),
    decreases b.len() - j,
{
    assert(t.len() - i == t.skip(i).len() == b.skip(j).len() == b.len() - j);
    if j < b.len() {
        assert(t[i] == t.skip(i)[0] == b.skip(j)[0] == b[j]);
        assert(t.skip(i + 1) =~= t.skip(i).skip(1));
        assert(b.skip(j + 1) =~= b.skip(j).skip(1));
        if b[j] == '\\' {
            if j + 1 < b.len() {
                assert(t[i + 1] == t.skip(i)[1] == b.skip(j)[1] == b[j + 1]);
                assert(t.skip(i + 2) =~= t.skip(i).skip(2));
                assert(b.skip(j + 2) =~= b.skip(j).skip(2));
                lemma_escapes_shift(t, i + 2, b, j + 2);
            }
        } else {
            lemma_escapes_shift(t, i + 1, b, j + 1);
        }
    }
}

/// The seven tags that every document opens with.
pub open spec fn seven_tags() -> Seq<Seq<char>> {
    seq!["Event"@, "Site"@, "Date"@, "Round"@, "White"@, "Black"@, "Result"@]
}

/// The roster is these seven tags.
pub proof fn law_the_roster_has_seven_tags()
    ensures
        roster() == seven_tags(),
{
    let t = SEVEN_TAG_ROSTER@;
    assert(t[0]@ == "Event"@);
    assert(t[1]@ == "Site"@);
    assert(t[2]@ == "Date"@);
    assert(t[3]@ == "Round"@);
    assert(t[4]@ == "White"@);
    assert(t[5]@ == "Black"@);
    assert(t[6]@ == "Result"@);
    assert(roster() =~= seven_tags());
}

/// Tags that open with the roster, in its order, and name none of it again, pass.
pub proof fn law_rosters_in_order_pass(tags: Tags)
    requires
        tags.len() >= 7,
        forall|i: int| 0 <= i < 7 ==> (#[trigger] tags[i]).0 == seven_tags()[i],
        forall|i: int| 7 <= i < tags.len() ==> !seven_tags().contains((#[trigger] tags[i]).0),
    ensures
        roster_faults(tags).len() == 0,
{
    law_the_roster_has_seven_tags();
    lemma_no_missing(tags, 7);
    let all = names(tags);
    assert forall|i: int| 0 <= i < 7 implies #[trigger] all[i] == seven_tags()[i] by {
        assert(all[i] == tags[i].0);
    }
    assert forall|i: int| 7 <= i < all.len() implies !seven_tags().contains(
        #[trigger] all[i],
    ) by {
        assert(all[i] == tags[i].0);
    }
    lemma_observed(all, all.len() as int);
    assert(seven_tags().take(7) =~= seven_tags());
    assert forall|i: int| 0 <= i < 7 implies roster().contains(#[trigger] all[i]) by {
        assert(all[i] == roster()[i]);
    }
}

proof fn lemma_no_missing(tags: Tags, n: int)
    requires
        0 <= n <= 7 <= tags.len(),
        roster() == seven_tags(),
        forall|i: int| 0 <= i < 7 ==> (#[trigger] tags[i]).0 == seven_tags()[i],
    ensures
        missing_roster_tags(tags, n).len() == 0,
    decreases n,
{
    if n > 0 {
        lemma_no_missing(tags, n - 1);
        assert(tags[n - 1].0 == roster()[n - 1]);
    }
}

proof fn lemma_observed(all: Seq<Seq<char>>, n: int)
    requires
        roster() == seven_tags(),
        all.len() >= 7,
        0 <= n <= all.len(),
        forall|i: int| 0 <= i < 7 ==> #[trigger] all[i] == seven_tags()[i],
        forall|i: int| 7 <= i < all.len() ==> !seven_tags().contains(#[trigger] all[i]),
    ensures
        roster_names(all, n) == seven_tags().take(if n < 7 {
            n
        } else {
            7
        }),
    decreases n,
{
    if n > 0 {
        lemma_observed(all, n - 1);
        if n <= 7 {
            assert(all[n - 1] == seven_tags()[n - 1]);
            assert(seven_tags().contains(all[n - 1]));
            assert(seven_tags().take(n - 1).push(all[n - 1]) =~= seven_tags().take(n));
        } else {
            assert(!seven_tags().contains(all[n - 1]));
        }
    } else {
        assert(seven_tags().take(0) =~= seq![]);
    }
}

/// Every tag of the roster that is missing is named, and nothing but missing tags
/// is, while one is missing.
pub proof fn law_missing_tags_are_named(tags: Tags, k: int)
    requires
        0 <= k < 7,
        !has_name(tags, seven_tags()[k]),
    ensures
        roster_faults(tags).contains(Fault::MissingSevenTagRosterTag(seven_tags()[k])),
        forall|i: int|
            0 <= i < roster_faults(tags).len() ==> (#[trigger] roster_faults(tags)[i] matches
                Fault::MissingSevenTagRosterTag(name) && seven_tags().contains(name) && !has_name(
                tags,
                name,
            )),
{
    law_the_roster_has_seven_tags();
    lemma_missing(tags, 7, k);
}

proof fn lemma_missing(tags: Tags, n: int, k: int)
    requires
        0 <= n <= 7,
        0 <= k < 7,
        roster() == seven_tags(),
        !has_name(tags, seven_tags()[k]),
    ensures
        k < n ==> missing_roster_tags(tags, n).contains(
            Fault::MissingSevenTagRosterTag(seven_tags()[k]),
        ),
        forall|i: int|
            0 <= i < missing_roster_tags(tags, n).len() ==> (#[trigger] missing_roster_tags(
                tags,
                n,
            )[i] matches Fault::MissingSevenTagRosterTag(name) && seven_tags().contains(name)
                && !has_name(tags, name)),
    decreases n,
{
    if n > 0 {
        lemma_missing(tags, n - 1, k);
        let before = missing_roster_tags(tags, n - 1);
        let after = missing_roster_tags(tags, n);
        let name = seven_tags()[n - 1];
        assert(seven_tags().contains(name));
        if has_name(tags, name) {
        } else {
            let fault = Fault::MissingSevenTagRosterTag(name);
            assert(after == before.push(fault));
            assert(after[before.len() as int] == fault);
            if k < n - 1 {
                let i = choose|i: int|
                    0 <= i < before.len() && before[i] == Fault::MissingSevenTagRosterTag(
                        seven_tags()[k],
                    );
                assert(after[i] == before[i]);
            }
            assert forall|i: int| 0 <= i < after.len() implies (#[trigger] after[i] matches
                Fault::MissingSevenTagRosterTag(name) && seven_tags().contains(name) && !has_name(
                tags,
                name,
            )) by {
                if i < before.len() {
                    assert(after[i] == before[i]);
                }
            }
        }
    }
}

// ---------------------------------------------------------------------------
// Moves and numbers
// ---------------------------------------------------------------------------

/// Whether a text is at most one character, which passes a test.
pub open spec fn at_most_one(s: Seq<char>, test: spec_fn(char) -> bool) -> bool {
    s.len() == 0 || (s.len() == 1 && test(s[0]))
}

/// The parts of a move: an optional piece, file and rank to tell it apart, an
/// optional capture, the square it goes to and an optional promotion.
pub open spec fn move_parts(
    piece: Seq<char>,
    file: Seq<char>,
    rank: Seq<char>,
    capture: Seq<char>,
    to: Seq<char>,
    promotion: Seq<char>,
) -> bool {
    &&& at_most_one(piece, |c: char| c == 'K' || c == 'Q' || c == 'R' || c == 'B' || c == 'N')
    &&& at_most_one(file, |c: char| 'a' <= c <= 'h')
    &&& at_most_one(rank, |c: char| '1' <= c <= '8')
    &&& at_most_one(capture, |c: char| c == 'x')
    &&& to.len() == 2 && 'a' <= to[0] <= 'h' && '1' <= to[1] <= '8'
    &&& promotion.len() == 0 || (promotion.len() == 2 && promotion[0] == '=' && (promotion[1] == 'Q'
        || promotion[1] == 'R' || promotion[1] == 'B' || promotion[1] == 'N'))
}

/// Every move that is put together from its parts is a move by its form, and so
/// is castling.
pub proof fn law_moves_have_their_form(
    piece: Seq<char>,
    file: Seq<char>,
    rank: Seq<char>,
    capture: Seq<char>,
    to: Seq<char>,
    promotion: Seq<char>,
)
    requires
        move_parts(piece, file, rank, capture, to, promotion),
    ensures
        san_form(piece + file + rank + capture + to + promotion),
        san_form("O-O"@) && san_form("O-O-O"@) && san_form("0-0"@) && san_form("0-0-0"@),
{
    let s = piece + file + rank + capture + to + promotion;
    let n = s.len() as int;
    let a = piece.len() as int;
    let b = a + file.len();
    let c = b + rank.len();
    let m = c + capture.len();
    assert(s[m] == to[0] && s[m + 1] == to[1]);
    if promotion.len() == 2 {
        assert(s[n - 2] == promotion[0] && s[n - 1] == promotion[1]);
    } else {
        assert(s[n - 2] == to[0]);
    }
    if piece.len() == 1 {
        assert(s[0] == piece[0]);
    }
    if file.len() == 1 {
        assert(s[a] == file[0]);
    }
    if rank.len() == 1 {
        assert(s[b] == rank[0]);
    }
    if capture.len() == 1 {
        assert(s[c] == capture[0]);
    }
    assert(san_head_end(s, m) == m);
}

/// What has the form of a move is castling or put together from the parts of a
/// move.
pub proof fn law_forms_are_moves(s: Seq<char>)
    requires
        san_form(s),
    ensures
        s == "O-O"@ || s == "O-O-O"@ || s == "0-0"@ || s == "0-0-0"@ || exists|
            piece: Seq<char>,
            file: Seq<char>,
            rank: Seq<char>,
            capture: Seq<char>,
            to: Seq<char>,
            promotion: Seq<char>,
        | #[trigger]
            move_parts(piece, file, rank, capture, to, promotion) && s == piece + file + rank
                + capture + to + promotion,
{
    if piece_move_san(s) {
        let n = s.len() as int;
        let m = if n >= 2 && s[n - 2] == '=' && promotion_char(s[n - 1]) {
            n - 4
        } else {
            n - 2
        };
        let a: int = if 0 < m && piece_char(s[0]) {
            1
        } else {
            0
        };
        let b = if a < m && file_char(s[a]) {
            a + 1
        } else {
            a
        };
        let c = if b < m && rank_char(s[b]) {
            b + 1
        } else {
            b
        };
        let piece = s.subrange(0, a);
        let file = s.subrange(a, b);
        let rank = s.subrange(b, c);
        let capture = s.subrange(c, m);
        let to = s.subrange(m, m + 2);
        let promotion = s.subrange(m + 2, n);
        assert(move_parts(piece, file, rank, capture, to, promotion));
        assert(s =~= piece + file + rank + capture + to + promotion);
    }
}

/// Digits with one to three dots behind them are a move number, the four markers
/// are results, and what is neither is taken for a move.
pub proof fn law_pieces_of_movetext(digits: Seq<char>, dots: Seq<char>, core: Seq<char>)
    requires
        digits.len() > 0,
        forall|i: int| 0 <= i < digits.len() ==> '0' <= #[trigger] digits[i] <= '9',
        1 <= dots.len() <= 3,
        forall|i: int| 0 <= i < dots.len() ==> #[trigger] dots[i] == '.',
        core.len() > 0 ==> !decimal(core[0]),
    ensures
        item_of(digits + dots) matches Item::Number { number, dots: n } && n == dots.len() && (
        place_value(digits) <= u32::MAX ==> number == place_value(digits)) && (place_value(digits)
            > u32::MAX ==> number == 0),
        item_of("1-0"@) == Item::Result("1-0"@),
        item_of("0-1"@) == Item::Result("0-1"@),
        item_of("1/2-1/2"@) == Item::Result("1/2-1/2"@),
        item_of("*"@) == Item::Result("*"@),
        marked_result(core) is None ==> item_of(core) == Item::San(core),
{
    let t = digits + dots;
    let a = digits.len() as int;
    assert forall|j: int| 0 <= j < a implies in_class(Class::Decimal, #[trigger] t[j]) by {
        assert(t[j] == digits[j]);
    }
    assert(t[a] == dots[0]);
    lemma_run_end_is(t, 0, Class::Decimal, a);
    assert forall|j: int| a <= j < t.len() implies in_class(Class::Only('.'), #[trigger] t[j]) by {
        assert(t[j] == dots[j - a]);
    }
    lemma_run_end_is(t, a, Class::Only('.'), t.len() as int);
    assert(t.take(a) =~= digits);
    law_numbers_are_read_by_place(digits);
    reveal_strlit("1-0");
    reveal_strlit("0-1");
    reveal_strlit("1/2-1/2");
    reveal_strlit("*");
    lemma_run_end_is("1-0"@, 0, Class::Decimal, 1);
    lemma_run_end_is("1-0"@, 1, Class::Only('.'), 1);
    lemma_run_end_is("0-1"@, 0, Class::Decimal, 1);
    lemma_run_end_is("0-1"@, 1, Class::Only('.'), 1);
    lemma_run_end_is("1/2-1/2"@, 0, Class::Decimal, 1);
    lemma_run_end_is("1/2-1/2"@, 1, Class::Only('.'), 1);
    lemma_run_end_is("*"@, 0, Class::Decimal, 0);
    if core.len() > 0 {
        lemma_run_end_is(core, 0, Class::Decimal, 0);
    } else {
        lemma_run_end_is(core, 0, Class::Decimal, 0);
    }
}

/// A move number is written as its numeral and its dots.
pub proof fn law_move_numbers_are_written(number: u32, dots: usize)
    ensures
        ({
            let t = number_text(number, dots);
            let n = t.len() - dots;
            &&& t.take(n) == dec_nat(number as nat)
            &&& forall|i: int| n <= i < t.len() ==> #[trigger] t[i] == '.'
        }),
{
    let t = number_text(number, dots);
    let n = t.len() - dots;
    assert(t.take(n) =~= dec_nat(number as nat));
}

// ---------------------------------------------------------------------------
// Comments
// ---------------------------------------------------------------------------

/// Whether a text is an optional minus sign.
pub open spec fn optional_minus(s: Seq<char>) -> bool {
    s.len() == 0 || (s.len() == 1 && s[0] == '-')
}

/// Whether a text is digits, at least one.
pub open spec fn some_digits(s: Seq<char>) -> bool {
    s.len() > 0 && forall|i: int| 0 <= i < s.len() ==> decimal(#[trigger] s[i])
}

/// Whether a text is a fraction or nothing.
pub open spec fn optional_fraction(s: Seq<char>) -> bool {
    s.len() == 0 || (s[0] == '.' && some_digits(s.skip(1)))
}

/// An evaluation in the standard form passes: a mate distance behind `#`, or
/// pawns with an optional fraction, each with an optional minus sign.
pub proof fn law_standard_evaluations_pass(sign: Seq<char>, digits: Seq<char>, fraction: Seq<char>)
    requires
        optional_minus(sign),
        some_digits(digits),
        optional_fraction(fraction),
    ensures
        eval_command("[%eval #"@ + sign + digits + "]"@),
        eval_command("[%eval "@ + sign + digits + fraction + "]"@),
{
    reveal_strlit("[%eval #");
    reveal_strlit("[%eval ");
    reveal_strlit("]");
    let s = "[%eval #"@ + sign + digits + "]"@;
    let n = s.len() as int;
    let value = s.subrange(7, n - 1);
    assert(s.take(7) =~= "[%eval "@);
    assert(value =~= seq!['#'] + sign + digits);
    let start = 1 + sign.len() as int;
    assert forall|j: int| start <= j < value.len() implies in_class(
        Class::Decimal,
        #[trigger] value[j],
    ) by {
        assert(value[j] == digits[j - start]);
    }
    if sign.len() == 1 {
        assert(value[1] == '-');
    } else {
        assert(value[1] == digits[0]);
        assert(decimal(digits[0]));
    }
    lemma_run_end_is(value, start, Class::Decimal, value.len() as int);

    let t = "[%eval "@ + sign + digits + fraction + "]"@;
    let m = t.len() as int;
    let pawns = t.subrange(7, m - 1);
    assert(t.take(7) =~= "[%eval "@);
    assert(pawns =~= sign + digits + fraction);
    let from = sign.len() as int;
    let e = from + digits.len();
    assert forall|j: int| from <= j < e implies in_class(Class::Decimal, #[trigger] pawns[j]) by {
        assert(pawns[j] == digits[j - from]);
    }
    assert(decimal(digits[0]));
    if sign.len() == 1 {
        assert(pawns[0] == '-');
    } else {
        assert(pawns[0] == digits[0]);
    }
    if fraction.len() > 0 {
        assert(pawns[e] == '.');
        let places = fraction.skip(1);
        assert forall|j: int| e + 1 <= j < pawns.len() implies in_class(
            Class::Decimal,
            #[trigger] pawns[j],
        ) by {
            assert(pawns[j] == places[j - (e + 1)]);
        }
        lemma_run_end_is(pawns, e + 1, Class::Decimal, pawns.len() as int);
    }
    lemma_run_end_is(pawns, from, Class::Decimal, e);
}

/// Nothing but a standard evaluation passes for one.
pub proof fn law_passing_evaluations_are_standard(s: Seq<char>)
    requires
        eval_command(s),
    ensures
        exists|sign: Seq<char>, digits: Seq<char>, fraction: Seq<char>|
            #![trigger sign + digits + fraction]
            optional_minus(sign) && some_digits(digits) && optional_fraction(fraction) && (s
                == "[%eval #"@ + (sign + digits + fraction) + "]"@ && fraction.len() == 0 || s
                == "[%eval "@ + (sign + digits + fraction) + "]"@),
{
    reveal_strlit("[%eval #");
    reveal_strlit("[%eval ");
    reveal_strlit("]");
    let n = s.len() as int;
    let value = s.subrange(7, n - 1);
    assert(s =~= s.take(7) + value + "]"@);
    if value.len() > 0 && value[0] == '#' {
        let start: int = if 1 < value.len() && value[1] == '-' {
            2
        } else {
            1
        };
        lemma_run_end(value, start, Class::Decimal);
        let sign = value.subrange(1, start);
        let digits = value.skip(start);
        let fraction = Seq::<char>::empty();
        assert forall|j: int| 0 <= j < digits.len() implies decimal(#[trigger] digits[j]) by {
            assert(digits[j] == value[start + j]);
            assert(in_class(Class::Decimal, value[start + j]));
        }
        assert(s =~= "[%eval #"@ + (sign + digits + fraction) + "]"@);
    } else {
        let start: int = if value.len() > 0 && value[0] == '-' {
            1
        } else {
            0
        };
        let e = run_end(value, start, Class::Decimal);
        lemma_run_end(value, start, Class::Decimal);
        let sign = value.take(start);
        let digits = value.subrange(start, e);
        let fraction = value.skip(e);
        assert forall|j: int| 0 <= j < digits.len() implies decimal(#[trigger] digits[j]) by {
            assert(digits[j] == value[start + j]);
            assert(in_class(Class::Decimal, value[start + j]));
        }
        if fraction.len() > 0 {
            lemma_run_end(value, e + 1, Class::Decimal);
            let places = fraction.skip(1);
            assert forall|j: int| 0 <= j < places.len() implies decimal(#[trigger] places[j]) by {
                assert(places[j] == value[e + 1 + j]);
                assert(in_class(Class::Decimal, value[e + 1 + j]));
            }
        }
        assert(s =~= "[%eval "@ + (sign + digits + fraction) + "]"@);
    }
}

/// A clock reading passes exactly when it is hours, minutes and seconds, the
/// latter two with two digits.
pub proof fn law_clock_readings_are_hours_minutes_and_seconds(
    hours: Seq<char>,
    a: char,
    b: char,
    c: char,
    d: char,
    s: Seq<char>,
)
    requires
        some_digits(hours),
        decimal(a) && decimal(b) && decimal(c) && decimal(d),
    ensures
        clock_command("[%clk "@ + hours + seq![':', a, b, ':', c, d, ']']),
        clock_command(s) ==> ({
            let h = s.len() - 7;
            &&& s.take(6) == "[%clk "@
            &&& some_digits(s.subrange(6, h))
            &&& s[h] == ':' && s[h + 3] == ':' && s[h + 6] == ']'
            &&& decimal(s[h + 1]) && decimal(s[h + 2]) && decimal(s[h + 4]) && decimal(s[h + 5])
        }),
{
    reveal_strlit("[%clk ");
    let t = "[%clk "@ + hours + seq![':', a, b, ':', c, d, ']'];
    let e = 6 + hours.len() as int;
    assert(t.take(6) =~= "[%clk "@);
    assert forall|j: int| 6 <= j < e implies in_class(Class::Decimal, #[trigger] t[j]) by {
        assert(t[j] == hours[j - 6]);
    }
    assert(t[e] == ':');
    lemma_run_end_is(t, 6, Class::Decimal, e);
    if clock_command(s) {
        let h = s.len() - 7;
        lemma_run_end(s, 6, Class::Decimal);
        let digits = s.subrange(6, h);
        assert forall|j: int| 0 <= j < digits.len() implies decimal(#[trigger] digits[j]) by {
            assert(digits[j] == s[6 + j]);
            assert(in_class(Class::Decimal, s[6 + j]));
        }
    }
}

/// A command is found where it stands: a bracket and a percent sign, a name of
/// word characters, and everything up to the closing bracket.
pub proof fn law_commands_are_found(
    before: Seq<char>,
    kind: Seq<char>,
    body: Seq<char>,
    rest: Seq<char>,
)
    requires
        kind.len() > 0,
        forall|i: int| 0 <= i < kind.len() ==> word(#[trigger] kind[i]),
        body.len() > 0 ==> !word(body[0]),
        holds_no(body, ']'),
    ensures
        annotation_at(
            before + seq!['[', '%'] + kind + body + seq![']'] + rest,
            before.len() as int,
        ) == Some((kind, (before + seq!['[', '%'] + kind + body + seq![']']).len() as int)),
{
    let s = before + seq!['[', '%'] + kind + body + seq![']'] + rest;
    let i = before.len() as int;
    let a = i + 2 + kind.len();
    let b = a + body.len();
    assert(s[i] == '[' && s[i + 1] == '%');
    assert forall|j: int| i + 2 <= j < a implies in_class(Class::Word, #[trigger] s[j]) by {
        assert(s[j] == kind[j - (i + 2)]);
    }
    if body.len() > 0 {
        assert(s[a] == body[0]);
    } else {
        assert(s[a] == ']');
    }
    lemma_run_end_is(s, i + 2, Class::Word, a);
    assert forall|j: int| a <= j < b implies in_class(Class::Not(']'), #[trigger] s[j]) by {
        assert(s[j] == body[j - a]);
    }
    assert(s[b] == ']');
    lemma_run_end_is(s, a, Class::Not(']'), b);
    assert(s.subrange(i + 2, a) =~= kind);
}

/// Comments are checked command by command: evaluations and clock readings have
/// to have their form, other commands may say what they like, and the start of a
/// command that is none is complained about where there is no other.
pub proof fn law_comments_are_checked(s: Seq<char>, i: int, kind: Seq<char>, whole: Seq<char>)
    requires
        0 <= i <= s.len(),
    ensures
        command_faults(kind, whole) == if kind == "eval"@ && !eval_command(whole) {
            seq![Fault::MalformedEvalAnnotation(whole)]
        } else if kind == "clk"@ && !clock_command(whole) {
            seq![Fault::MalformedClockAnnotation(whole)]
        } else {
            Seq::<Fault>::empty()
        },
        i == s.len() ==> annotation_faults(s, i).len() == 0,
        i < s.len() ==> annotation_faults(s, i) == match annotation_at(s, i) {
            None => annotation_faults(s, i + 1),
            Some((kind, end)) => command_faults(kind, s.subrange(i, end)) + annotation_faults(
                s,
                end,
            ),
        },
        comment_faults(s) == annotation_faults(s, 0) + (if (exists|j: int|
            0 <= j && j + 1 < s.len() && #[trigger] s[j] == '[' && s[j + 1] == '%') && !(exists|
            j: int,
        |
            0 <= j < s.len() && #[trigger] annotation_at(s, j) is Some) {
            seq![Fault::MalformedAnnotation(s)]
        } else {
            Seq::<Fault>::empty()
        }),
{
    if exists|j: int| 0 <= j && j + 1 < s.len() && #[trigger] s[j] == '[' && s[j + 1] == '%' {
        let j = choose|j: int|
            0 <= j && j + 1 < s.len() && #[trigger] s[j] == '[' && s[j + 1] == '%';
        assert(command_start(s, j));
    }
    if exists|j: int| command_start(s, j) {
        let j = choose|j: int| command_start(s, j);
        assert(s[j] == '[' && s[j + 1] == '%');
    }
}

/// Movetext is cut up from left to right: white space separates, comments in
/// braces are checked and those behind semicolons passed over, glyphs need digits,
/// variations are not allowed, and whatever else stands there, without its quality
/// marks, is a piece of the game.
pub proof fn law_movetext_is_cut_up(s: Seq<char>, i: int, reported: bool)
    requires
        0 <= i < s.len(),
    ensures
        scan_items(s, s.len() as int, reported) == (ItemScan { items: seq![], errors: seq![] }),
        white_space(s[i]) ==> scan_items(s, i, reported) == scan_items(s, i + 1, reported),
        s[i] == '{' ==> {
            let close = run_end(s, i + 1, Class::Not('}'));
            let rest = scan_items(s, close + 1, reported);
            scan_items(s, i, reported) == if close < s.len() {
                ItemScan {
                    items: rest.items,
                    errors: comment_faults(trim(s.subrange(i + 1, close))) + rest.errors,
                }
            } else {
                ItemScan { items: seq![], errors: seq![Fault::UnbalancedComment] }
            }
        },
        s[i] == '}' || s[i] == ')' ==> scan_items(s, i, reported) == (ItemScan {
            items: scan_items(s, i + 1, reported).items,
            errors: seq![Fault::UnbalancedComment] + scan_items(s, i + 1, reported).errors,
        }),
        s[i] == '(' ==> {
            let rest = scan_items(s, variation_end(s, i + 1, 1), true);
            scan_items(s, i, reported) == (ItemScan {
                items: rest.items,
                errors: (if reported {
                    Seq::<Fault>::empty()
                } else {
                    seq![Fault::VariationsNotAllowed]
                }) + rest.errors,
            })
        },
        s[i] == ';' ==> scan_items(s, i, reported) == scan_items(
            s,
            run_end(s, i, Class::Not('\n')),
            reported,
        ),
        s[i] == '$' ==> {
            let e = run_end(s, i + 1, Class::AsciiDigit);
            let rest = scan_items(s, e, reported);
            scan_items(s, i, reported) == (ItemScan {
                items: rest.items,
                errors: (if e == i + 1 {
                    seq![Fault::InvalidMoveSyntax { ply: 0, token: "$"@ }]
                } else {
                    Seq::<Fault>::empty()
                }) + rest.errors,
            })
        },
        !white_space(s[i]) && s[i] != '{' && s[i] != '}' && s[i] != '(' && s[i] != ')' && s[i]
            != ';' && s[i] != '$' ==> {
            let e = run_end(s, i, Class::Solid);
            let core = drop_quality(s.subrange(i, e));
            let rest = scan_items(s, e, reported);
            scan_items(s, i, reported) == (ItemScan {
                items: (if core.len() > 0 {
                    seq![item_of(core)]
                } else {
                    Seq::<Item>::empty()
                }) + rest.items,
                errors: rest.errors,
            })
        },
{
    let e = run_end(s, i, Class::Solid);
    let rest = scan_items(s, e, reported);
    assert(Seq::<Item>::empty() + rest.items =~= rest.items);
}

// ---------------------------------------------------------------------------
// Sections
// ---------------------------------------------------------------------------

/// All line ends count as one: a carriage return, with or without a line feed
/// behind it, is a line end like any other.
pub proof fn law_line_ends_are_alike(a: Seq<char>, b: Seq<char>)
    requires
        holds_no(a, '\r'),
    ensures
        with_newlines(a, 0) == a,
        with_newlines(a + seq!['\r', '\n'] + b, 0) == a + seq!['\n'] + with_newlines(b, 0),
        (b.len() == 0 || b[0] != '\n') ==> with_newlines(a + seq!['\r'] + b, 0) == a + seq!['\n']
            + with_newlines(b, 0),
{
    let n = a.len() as int;
    lemma_newlines_before(a, 0, n);
    assert(with_newlines(a, n) =~= seq![]);
    assert(a.subrange(0, n) + seq![] =~= a);
    let t = a + seq!['\r', '\n'] + b;
    assert forall|j: int| 0 <= j < n implies #[trigger] t[j] != '\r' by {
        assert(t[j] == a[j]);
    }
    lemma_newlines_before(t, 0, n);
    assert(t.subrange(0, n) =~= a);
    assert(t[n] == '\r' && t[n + 1] == '\n');
    assert(t.skip(n + 2) =~= b.skip(0));
    lemma_newlines_shift(t, n + 2, b, 0);
    assert(a + (seq!['\n'] + with_newlines(b, 0)) =~= a + seq!['\n'] + with_newlines(b, 0));
    let u = a + seq!['\r'] + b;
    assert forall|j: int| 0 <= j < n implies #[trigger] u[j] != '\r' by {
        assert(u[j] == a[j]);
    }
    lemma_newlines_before(u, 0, n);
    assert(u.subrange(0, n) =~= a);
    assert(u[n] == '\r');
    if b.len() > 0 {
        assert(u[n + 1] == b[0]);
    }
    assert(u.skip(n + 1) =~= b.skip(0));
    lemma_newlines_shift(u, n + 1, b, 0);
}

proof fn lemma_newlines_before(s: Seq<char>, i: int, n: int)
    requires
        0 <= i <= n <= s.len(),
        forall|j: int| 0 <= j < n ==> #[trigger] s[j] != '\r',
    ensures
        with_newlines(s, i) == s.subrange(i, n) + with_newlines(s, n),
    decreases n - i,
{
    if i < n {
        lemma_newlines_before(s, i + 1, n);
        assert(seq![s[i]] + (s.subrange(i + 1, n) + with_newlines(s, n)) =~= s.subrange(i, n)
            + with_newlines(s, n));
    } else {
        assert(s.subrange(i, n) + with_newlines(s, n) =~= with_newlines(s, n));
    }
}

proof fn lemma_newlines_shift(t: Seq<char>, i: int, b: Seq<char>, j: int)
    requires
        0 <= i <= t.len(),
        0 <= j <= b.len(),
        t.skip(i) == b.skip(j),
    ensures
        with_newlines(t, i) == with_newlines(b, j),
    decreases b.len() - j,
{
    assert(t.len() - i == t.skip(i).len() == b.skip(j).len() == b.len() - j);
    if j < b.len() {
        assert(t[i] == t.skip(i)[0] == b.skip(j)[0] == b[j]);
        assert(t.skip(i + 1) =~= t.skip(i).skip(1));
        assert(b.skip(j + 1) =~= b.skip(j).skip(1));
        if j + 1 < b.len() {
            assert(t[i + 1] == t.skip(i)[1] == b.skip(j)[1] == b[j + 1]);
        }
        if b[j] == '\r' && j + 1 < b.len() && b[j + 1] == '\n' {
            assert(t.skip(i + 2) =~= t.skip(i).skip(2));
            assert(b.skip(j + 2) =~= b.skip(j).skip(2));
            lemma_newlines_shift(t, i + 2, b, j + 2);
        } else {
            lemma_newlines_shift(t, i + 1, b, j + 1);
        }
    }
}

/// A line is blank when it is nothing but white space, and belongs to the tags
/// when the first character on it that is not white space is an opening bracket.
pub proof fn law_lines_are_told_apart(gap: Seq<char>, c: char, rest: Seq<char>)
    requires
        all_white(gap),
        !white_space(c),
    ensures
        blank(gap),
        !opens_tag(gap),
        !blank(gap + seq![c] + rest),
        opens_tag(gap + seq![c] + rest) <==> c == '[',
{
    let none = Seq::<char>::empty();
    law_trimming_takes_the_white_space(gap, none, none);
    assert(gap + none + none =~= gap);
    assert forall|j: int| 0 <= j < gap.len() implies in_class(Class::Space, #[trigger] gap[j]) by {}
    lemma_run_end_is(gap, 0, Class::Space, gap.len() as int);
    let s = gap + seq![c] + rest;
    let n = gap.len() as int;
    assert forall|j: int| 0 <= j < n implies in_class(Class::Space, #[trigger] s[j]) by {
        assert(s[j] == gap[j]);
    }
    assert(s[n] == c);
    lemma_run_end_is(s, 0, Class::Space, n);
    let t = trim_start(s);
    assert(t[0] == c);
    lemma_run_start(t, t.len() as int, Class::Space);
    let e = run_start(t, t.len() as int, Class::Space);
    if e == 0 {
        assert(in_class(Class::Space, t[0]));
    }
}

/// A document is its tags, and its movetext behind a blank line; blank lines
/// before and between do not count beyond that. A document without lines that say
/// something is none.
pub proof fn law_documents_are_cut_in_two(
    before: Seq<Seq<char>>,
    tags: Seq<Seq<char>>,
    between: Seq<Seq<char>>,
    body: Seq<Seq<char>>,
)
    requires
        forall|i: int| 0 <= i < before.len() ==> blank(#[trigger] before[i]),
        tags.len() > 0,
        forall|i: int| 0 <= i < tags.len() ==> opens_tag(#[trigger] tags[i]),
        forall|i: int| 0 <= i < tags.len() ==> !blank(#[trigger] tags[i]),
        forall|i: int| 0 <= i < between.len() ==> blank(#[trigger] between[i]),
        forall|i: int| 0 <= i < between.len() ==> !opens_tag(#[trigger] between[i]),
        body.len() > 0 ==> !blank(body[0]) && !opens_tag(body[0]),
    ensures
        sections(before) is None,
        sections(before + tags + between + body) == Some(
            Sections {
                tag_lines: tags,
                movetext: join(body, seq!['\n']),
                errors: if between.len() == 0 && body.len() > 0 {
                    seq![Fault::MissingBlankLine]
                } else {
                    seq![]
                },
            },
        ),
{
    let lines = before + tags + between + body;
    let a = before.len() as int;
    let b = a + tags.len();
    let c = b + between.len();
    lemma_after_blanks(before, 0, a);
    assert forall|i: int| 0 <= i < a implies blank(#[trigger] lines[i]) by {
        assert(lines[i] == before[i]);
    }
    assert(lines[a] == tags[0]);
    lemma_after_blanks(lines, 0, a);
    assert forall|i: int| a <= i < b implies opens_tag(#[trigger] lines[i]) by {
        assert(lines[i] == tags[i - a]);
    }
    if b < lines.len() {
        if between.len() > 0 {
            assert(lines[b] == between[0]);
        } else {
            assert(lines[b] == body[0]);
        }
    }
    lemma_after_tags(lines, a, b);
    assert forall|i: int| b <= i < c implies blank(#[trigger] lines[i]) by {
        assert(lines[i] == between[i - b]);
    }
    if c < lines.len() {
        assert(lines[c] == body[0]);
    }
    lemma_after_blanks(lines, b, c);
    assert(lines.subrange(a, b) =~= tags);
    assert(lines.skip(c) =~= body);
}

/// A document without tags is all movetext.
pub proof fn law_documents_without_tags_are_movetext(before: Seq<Seq<char>>, body: Seq<Seq<char>>)
    requires
        forall|i: int| 0 <= i < before.len() ==> blank(#[trigger] before[i]),
        body.len() > 0,
        !blank(body[0]),
        !opens_tag(body[0]),
    ensures
        sections(before + body) == Some(
            Sections { tag_lines: seq![], movetext: join(body, seq!['\n']), errors: seq![] },
        ),
{
    let lines = before + body;
    let a = before.len() as int;
    assert forall|i: int| 0 <= i < a implies blank(#[trigger] lines[i]) by {
        assert(lines[i] == before[i]);
    }
    assert(lines[a] == body[0]);
    lemma_after_blanks(lines, 0, a);
    lemma_after_tags(lines, a, a);
    assert(lines.subrange(a, a) =~= seq![]);
    assert(lines.skip(a) =~= body);
}

proof fn lemma_after_blanks(lines: Seq<Seq<char>>, i: int, n: int)
    requires
        0 <= i <= n <= lines.len(),
        forall|j: int| i <= j < n ==> blank(#[trigger] lines[j]),
        n < lines.len() ==> !blank(lines[n]),
    ensures
        after_blanks(lines, i) == n,
    decreases n - i,
{
    if i < n {
        assert(blank(lines[i]));
        lemma_after_blanks(lines, i + 1, n);
    }
}

proof fn lemma_after_tags(lines: Seq<Seq<char>>, i: int, n: int)
    requires
        0 <= i <= n <= lines.len(),
        forall|j: int| i <= j < n ==> opens_tag(#[trigger] lines[j]),
        n < lines.len() ==> !opens_tag(lines[n]),
    ensures
        after_tags(lines, i) == n,
    decreases n - i,
{
    if i < n {
        assert(opens_tag(lines[i]));
        lemma_after_tags(lines, i + 1, n);
    }
}

/// The lines of a document are what stands between its line ends.
pub proof fn law_lines_stand_between_line_ends(text: Seq<char>)
    ensures
        lines_of(text) == split(with_newlines(text, 0), '\n'),
{
}

/// Whether a name belongs to the roster.
pub open spec fn of_the_roster(name: Seq<char>) -> bool {
    seven_tags().contains(name)
}

/// A complete roster in another order is complained about once: what is expected
/// is the first tag that does not come in its turn, and what is found is the tag
/// of the roster that comes instead.
pub proof fn law_the_first_tag_out_of_turn_is_named(tags: Tags, k: int)
    requires
        forall|i: int| 0 <= i < 7 ==> has_name(tags, #[trigger] seven_tags()[i]),
        0 <= k < 7,
        ({
            let met = names(tags).filter(|name: Seq<char>| of_the_roster(name));
            &&& k < met.len()
            &&& met[k] != seven_tags()[k]
            &&& forall|i: int| 0 <= i < k ==> #[trigger] met[i] == seven_tags()[i]
        }),
    ensures
        roster_faults(tags) == seq![
            Fault::SevenTagRosterOutOfOrder {
                expected: seven_tags()[k],
                found: names(tags).filter(|name: Seq<char>| of_the_roster(name))[k],
            },
        ],
{
    law_the_roster_has_seven_tags();
    lemma_none_missing(tags, 7);
    let all = names(tags);
    lemma_roster_filter(all, all.len() as int);
    assert(all.take(all.len() as int) =~= all);
    let met = roster_names(all, all.len() as int);
    lemma_first_difference(met, 0, k);
}

proof fn lemma_none_missing(tags: Tags, n: int)
    requires
        0 <= n <= 7,
        roster() == seven_tags(),
        forall|i: int| 0 <= i < 7 ==> has_name(tags, #[trigger] seven_tags()[i]),
    ensures
        missing_roster_tags(tags, n).len() == 0,
    decreases n,
{
    if n > 0 {
        lemma_none_missing(tags, n - 1);
        assert(has_name(tags, seven_tags()[n - 1]));
    }
}

proof fn lemma_roster_filter(all: Seq<Seq<char>>, n: int)
    requires
        0 <= n <= all.len(),
        roster() == seven_tags(),
    ensures
        roster_names(all, n) == all.take(n).filter(|name: Seq<char>| of_the_roster(name)),
    decreases n,
{
    reveal(Seq::filter);
    if n > 0 {
        lemma_roster_filter(all, n - 1);
        assert(all.take(n).drop_last() =~= all.take(n - 1));
        assert(all.take(n).last() == all[n - 1]);
    }
}

proof fn lemma_first_difference(met: Seq<Seq<char>>, i: int, k: int)
    requires
        0 <= i <= k < met.len(),
        k < 7,
        roster() == seven_tags(),
        met[k] != seven_tags()[k],
        forall|j: int| 0 <= j < k ==> #[trigger] met[j] == seven_tags()[j],
    ensures
        first_difference(met, roster(), i) == k,
    decreases k - i,
{
    if i < k {
        assert(met[i] == seven_tags()[i]);
        lemma_first_difference(met, i + 1, k);
    }
}

/// A roster in order with another tag among the first seven is complained about
/// too: what is expected is its last tag, and what is found is the seventh.
pub proof fn law_nothing_stands_among_the_roster(tags: Tags, k: int)
    requires
        forall|i: int| 0 <= i < 7 ==> has_name(tags, #[trigger] seven_tags()[i]),
        names(tags).filter(|name: Seq<char>| of_the_roster(name)) == seven_tags(),
        0 <= k < 7 <= tags.len(),
        !of_the_roster(tags[k].0),
    ensures
        roster_faults(tags) == seq![
            Fault::SevenTagRosterOutOfOrder { expected: "Result"@, found: tags[6].0 },
        ],
{
    law_the_roster_has_seven_tags();
    lemma_none_missing(tags, 7);
    let all = names(tags);
    lemma_roster_filter(all, all.len() as int);
    assert(all.take(all.len() as int) =~= all);
    assert(!roster().contains(all[k]));
}

/// How many parentheses are open at `j` when `depth` were open at `i`.
pub open spec fn depth_at(s: Seq<char>, i: int, j: int, depth: int) -> int
    decreases j - i,
{
    if j <= i {
        depth
    } else {
        depth_at(s, i, j - 1, depth) + (if s[j - 1] == '(' {
            1int
        } else if s[j - 1] == ')' {
            -1
        } else {
            0
        })
    }
}

/// A variation ends where its parenthesis is closed, or with the text.
pub proof fn law_variations_end_where_they_close(s: Seq<char>, i: int, depth: nat)
    requires
        0 <= i <= s.len(),
        depth > 0,
    ensures
        ({
            let e = variation_end(s, i, depth);
            &&& i <= e <= s.len()
            &&& forall|j: int| i <= j < e ==> #[trigger] depth_at(s, i, j, depth as int) > 0
            &&& e < s.len() ==> depth_at(s, i, e, depth as int) == 0
        }),
{
    lemma_variation_end(s, i, i, depth, depth);
}

proof fn lemma_variation_end(s: Seq<char>, i: int, k: int, depth: nat, now: nat)
    requires
        0 <= i <= k <= s.len(),
        now == depth_at(s, i, k, depth as int),
        forall|j: int| i <= j < k ==> #[trigger] depth_at(s, i, j, depth as int) > 0,
    ensures
        ({
            let e = variation_end(s, k, now);
            &&& k <= e <= s.len()
            &&& forall|j: int| i <= j < e ==> #[trigger] depth_at(s, i, j, depth as int) > 0
            &&& e < s.len() ==> depth_at(s, i, e, depth as int) == 0
        }),
    decreases s.len() - k,
{
    if k < s.len() && now > 0 {
        let next = if s[k] == '(' {
            now + 1
        } else if s[k] == ')' {
            (now - 1) as nat
        } else {
            now
        };
        assert(depth_at(s, i, k + 1, depth as int) == next);
        lemma_variation_end(s, i, k + 1, depth, next);
    }
}

} // verus!
