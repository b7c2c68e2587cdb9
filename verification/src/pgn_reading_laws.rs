//! What reading a game is for: every tag goes where its name says, comments,
//! glyphs and variations leave no trace, and what is left of the movetext are
//! its moves.

use vstd::prelude::*;

use crate::pgn::{
    drop_braces, drop_line_comments, drop_move_number, drop_nags, header_at, headers_of,
    marked_result, move_core, moves_among, moves_of, no_headers, outside_parens, pair_map, parsed,
    quality_mark, read_headers, result_marker, unique_names, with_header, GameResult, HeaderMatch,
    HeadersView, PgnErrorView,
};
use crate::text::{dec, in_class, lemma_run_end, lemma_run_end_is, run_end, trim, words, Class};
use crate::text_laws::{all_white, holds_no, lemma_run_shift};
use crate::unicode::{ascii_lower, decimal, lower_text, white_space, word};

verus! {

// ---------------------------------------------------------------------------
// Results
// ---------------------------------------------------------------------------

/// The four markers of PGN stand for the four results, and nothing else does.
pub proof fn law_four_markers_stand_for_results(s: Seq<char>)
    ensures
        marked_result(s) == Some(GameResult::WhiteWins) <==> s == "1-0"@,
        marked_result(s) == Some(GameResult::BlackWins) <==> s == "0-1"@,
        marked_result(s) == Some(GameResult::Draw) <==> s == "1/2-1/2"@,
        marked_result(s) == Some(GameResult::Ongoing) <==> s == "*"@,
        forall|r: GameResult| #[trigger] result_marker(r) == s ==> marked_result(s) == Some(r),
{
    reveal_strlit("1-0");
    reveal_strlit("0-1");
    reveal_strlit("1/2-1/2");
    reveal_strlit("*");
    assert("1-0"@[0] != "0-1"@[0]);
    assert("1-0"@.len() == 3 && "1/2-1/2"@.len() == 7 && "*"@.len() == 1);
}

// ---------------------------------------------------------------------------
// Tags
// ---------------------------------------------------------------------------

/// A tag is found where it stands: a name of word characters, white space and a
/// value in quotes, all of them not empty, in brackets.
pub proof fn law_tags_are_found(
    before: Seq<char>,
    key: Seq<char>,
    gap: Seq<char>,
    value: Seq<char>,
    rest: Seq<char>,
)
    requires
        key.len() > 0,
        forall|i: int| 0 <= i < key.len() ==> word(#[trigger] key[i]),
        gap.len() > 0,
        all_white(gap),
        !word(gap[0]),
        value.len() > 0,
        holds_no(value, '"'),
    ensures
        header_at(
            before + seq!['['] + key + gap + seq!['"'] + value + seq!['"', ']'] + rest,
            before.len() as int,
        ) == Some(
            HeaderMatch {
                key,
                value,
                end: (before + seq!['['] + key + gap + seq!['"'] + value + seq!['"', ']']).len()
                    as int,
            },
        ),
{
    let s = before + seq!['['] + key + gap + seq!['"'] + value + seq!['"', ']'] + rest;
    let i = before.len() as int;
    let a = i + 1 + key.len();
    let b = a + gap.len();
    let c = b + 1 + value.len();
    assert(s[i] == '[');
    assert forall|j: int| i + 1 <= j < a implies in_class(Class::Word, #[trigger] s[j]) by {
        assert(s[j] == key[j - (i + 1)]);
    }
    assert(s[a] == gap[0]);
    lemma_run_end_is(s, i + 1, Class::Word, a);
    assert forall|j: int| a <= j < b implies in_class(Class::Space, #[trigger] s[j]) by {
        assert(s[j] == gap[j - a]);
    }
    assert(s[b] == '"');
    lemma_run_end_is(s, a, Class::Space, b);
    assert forall|j: int| b + 1 <= j < c implies in_class(Class::Not('"'), #[trigger] s[j]) by {
        assert(s[j] == value[j - (b + 1)]);
    }
    assert(s[c] == '"');
    assert(s[c + 1] == ']');
    lemma_run_end_is(s, b + 1, Class::Not('"'), c);
    assert(s.subrange(i + 1, a) =~= key);
    assert(s.subrange(b + 1, c) =~= value);
}

/// What is found is a tag: where one is read, one stands.
pub proof fn law_what_is_found_is_a_tag(s: Seq<char>, i: int)
    requires
        header_at(s, i) is Some,
    ensures
        ({
            let m = header_at(s, i)->0;
            let key_end = i + 1 + m.key.len();
            let quote = m.end - 3 - m.value.len();
            &&& 0 <= i < m.end <= s.len()
            &&& m.key.len() > 0
            &&& m.value.len() > 0
            &&& key_end < quote
            &&& s[i] == '['
            &&& s.subrange(i + 1, key_end) == m.key
            &&& forall|j: int| 0 <= j < m.key.len() ==> word(#[trigger] m.key[j])
            &&& all_white(s.subrange(key_end, quote))
            &&& s[quote] == '"'
            &&& s.subrange(quote + 1, m.end - 2) == m.value
            &&& holds_no(m.value, '"')
            &&& s[m.end - 2] == '"'
            &&& s[m.end - 1] == ']'
        }),
{
    let m = header_at(s, i)->0;
    let a = run_end(s, i + 1, Class::Word);
    let b = run_end(s, a, Class::Space);
    let c = run_end(s, b + 1, Class::Not('"'));
    lemma_run_end(s, i + 1, Class::Word);
    lemma_run_end(s, a, Class::Space);
    lemma_run_end(s, b + 1, Class::Not('"'));
    assert forall|j: int| 0 <= j < m.key.len() implies word(#[trigger] m.key[j]) by {
        assert(m.key[j] == s[i + 1 + j]);
        assert(in_class(Class::Word, s[i + 1 + j]));
    }
    let gap = s.subrange(a, b);
    assert forall|j: int| 0 <= j < gap.len() implies white_space(#[trigger] gap[j]) by {
        assert(gap[j] == s[a + j]);
        assert(in_class(Class::Space, s[a + j]));
    }
    assert forall|j: int| 0 <= j < m.value.len() implies #[trigger] m.value[j] != '"' by {
        assert(m.value[j] == s[b + 1 + j]);
        assert(in_class(Class::Not('"'), s[b + 1 + j]));
    }
    assert(!in_class(Class::Not('"'), s[c]));
}

/// A tag goes where its name says, whatever the case of its letters, and touches
/// nothing else. A result has to be one of the four markers, with white space
/// around it allowed.
pub proof fn law_tags_go_where_they_belong(h: HeadersView, m: HeaderMatch)
    ensures
        ({
            let name = lower_text(m.key);
            let stored = with_header(h, m);
            &&& name == "event"@ ==> stored == Ok::<HeadersView, PgnErrorView>(
                HeadersView { event: Some(m.value), ..h },
            )
            &&& name == "site"@ ==> stored == Ok::<HeadersView, PgnErrorView>(
                HeadersView { site: Some(m.value), ..h },
            )
            &&& name == "date"@ ==> stored == Ok::<HeadersView, PgnErrorView>(
                HeadersView { date: Some(m.value), ..h },
            )
            &&& name == "round"@ ==> stored == Ok::<HeadersView, PgnErrorView>(
                HeadersView { round: Some(m.value), ..h },
            )
            &&& name == "white"@ ==> stored == Ok::<HeadersView, PgnErrorView>(
                HeadersView { white: m.value, ..h },
            )
            &&& name == "black"@ ==> stored == Ok::<HeadersView, PgnErrorView>(
                HeadersView { black: m.value, ..h },
            )
            &&& name == "result"@ ==> stored == match marked_result(trim(m.value)) {
                Some(result) => Ok(HeadersView { result, ..h }),
                None => Err(PgnErrorView::InvalidResult(trim(m.value))),
            }
            &&& name != "event"@ && name != "site"@ && name != "date"@ && name != "round"@ && name
                != "white"@ && name != "black"@ && name != "result"@ ==> stored == Ok::<
                HeadersView,
                PgnErrorView,
            >(HeadersView { other: h.other.insert(m.key, m.value), ..h })
        }),
{
    reveal_strlit("event");
    reveal_strlit("site");
    reveal_strlit("date");
    reveal_strlit("round");
    reveal_strlit("white");
    reveal_strlit("black");
    reveal_strlit("result");
    assert("event"@[0] != "round"@[0] && "event"@[0] != "white"@[0] && "event"@[0] != "black"@[0]);
    assert("site"@[0] != "date"@[0]);
    assert("round"@[0] != "white"@[0] && "round"@[0] != "black"@[0] && "white"@[0]
        != "black"@[0]);
    assert("event"@.len() == 5 && "site"@.len() == 4 && "result"@.len() == 6);
}

/// Every tag is read, from the first to the last, and the moves start behind the
/// last one; the first result that is none ends the reading.
pub proof fn law_every_tag_is_read(s: Seq<char>, i: int, h: HeadersView, end: int)
    requires
        0 <= i <= s.len(),
    ensures
        i == s.len() ==> read_headers(s, i, h, end) == Ok::<(HeadersView, int), PgnErrorView>(
            (h, end),
        ),
        i < s.len() && header_at(s, i) is None ==> read_headers(s, i, h, end) == read_headers(
            s,
            i + 1,
            h,
            end,
        ),
        i < s.len() ==> (header_at(s, i) matches Some(m) ==> read_headers(s, i, h, end)
            == match with_header(h, m) {
            Ok(g) => read_headers(s, m.end, g, m.end),
            Err(e) => Err(e),
        }),
{
}

/// Both players have to be named; nothing else is asked of the tags.
pub proof fn law_players_have_to_be_named(s: Seq<char>)
    ensures
        no_headers().white.len() == 0 && no_headers().black.len() == 0,
        no_headers().event is None && no_headers().site is None && no_headers().date is None
            && no_headers().round is None,
        no_headers().result == GameResult::Ongoing,
        no_headers().other == Map::<Seq<char>, Seq<char>>::empty(),
        headers_of(s) == match read_headers(s, 0, no_headers(), 0) {
            Err(e) => Err::<(HeadersView, int), PgnErrorView>(e),
            Ok((h, at)) => if h.white.len() == 0 {
                Err(PgnErrorView::MissingHeader("White"@))
            } else if h.black.len() == 0 {
                Err(PgnErrorView::MissingHeader("Black"@))
            } else {
                Ok((h, at))
            },
        },
{
}

// ---------------------------------------------------------------------------
// Comments and glyphs
// ---------------------------------------------------------------------------

/// A comment in braces leaves a space behind, and all around it stays; a brace
/// that nothing closes stays too.
pub proof fn law_brace_comments_leave_a_space(a: Seq<char>, c: Seq<char>, b: Seq<char>)
    requires
        holds_no(a, '{'),
        holds_no(c, '}'),
    ensures
        drop_braces(a, 0) == a,
        drop_braces(a + seq!['{'] + c + seq!['}'] + b, 0) == a + seq![' '] + drop_braces(b, 0),
        drop_braces(a + seq!['{'] + c, 0) == a + seq!['{'] + c,
{
    let s = a + seq!['{'] + c + seq!['}'] + b;
    let n = a.len() as int;
    let e = n + 1 + c.len();
    lemma_braces_before(a, 0, n);
    assert(drop_braces(a, n) =~= seq![]);
    assert(a.subrange(0, n) + seq![] =~= a);
    assert forall|j: int| 0 <= j < n implies #[trigger] s[j] != '{' by {
        assert(s[j] == a[j]);
    }
    lemma_braces_before(s, 0, n);
    assert(s.subrange(0, n) =~= a);
    assert(s[n] == '{');
    assert forall|j: int| n + 1 <= j < e implies in_class(Class::Not('}'), #[trigger] s[j]) by {
        assert(s[j] == c[j - (n + 1)]);
    }
    assert(s[e] == '}');
    lemma_run_end_is(s, n + 1, Class::Not('}'), e);
    assert(s.skip(e + 1) =~= b.skip(0));
    lemma_braces_shift(s, e + 1, b, 0);
    assert(a + (seq![' '] + drop_braces(b, 0)) =~= a + seq![' '] + drop_braces(b, 0));

    let t = a + seq!['{'] + c;
    assert forall|j: int| n <= j < t.len() implies #[trigger] t[j] != '}' by {
        if j > n {
            assert(t[j] == c[j - (n + 1)]);
        }
    }
    assert forall|j: int| 0 <= j < n implies #[trigger] t[j] != '{' by {
        assert(t[j] == a[j]);
    }
    lemma_braces_before(t, 0, n);
    lemma_braces_unclosed(t, n);
    assert(t.subrange(0, n) + t.skip(n) =~= t);
}

proof fn lemma_braces_before(s: Seq<char>, i: int, n: int)
    requires
        0 <= i <= n <= s.len(),
        forall|j: int| 0 <= j < n ==> #[trigger] s[j] != '{',
    ensures
        drop_braces(s, i) == s.subrange(i, n) + drop_braces(s, n),
    decreases n - i,
{
    if i < n {
        lemma_braces_before(s, i + 1, n);
        assert(seq![s[i]] + (s.subrange(i + 1, n) + drop_braces(s, n)) =~= s.subrange(i, n)
            + drop_braces(s, n));
    } else {
        assert(s.subrange(i, n) + drop_braces(s, n) =~= drop_braces(s, n));
    }
}

proof fn lemma_braces_unclosed(s: Seq<char>, i: int)
    requires
        0 <= i <= s.len(),
        forall|j: int| i <= j < s.len() ==> #[trigger] s[j] != '}',
    ensures
        drop_braces(s, i) == s.skip(i),
    decreases s.len() - i,
{
    if i < s.len() {
        lemma_run_end_is(s, i + 1, Class::Not('}'), s.len() as int);
        lemma_braces_unclosed(s, i + 1);
        assert(seq![s[i]] + s.skip(i + 1) =~= s.skip(i));
    } else {
        assert(s.skip(i) =~= seq![]);
    }
}

/// Two texts that go on in the same way go on so further on.
proof fn lemma_same_rest(t: Seq<char>, i: int, b: Seq<char>, j: int, n: int)
    requires
        0 <= i <= t.len(),
        0 <= j <= b.len(),
        t.skip(i) == b.skip(j),
        0 <= n <= b.len() - j,
    ensures
        t.len() - i == b.len() - j,
        t.skip(i + n) == b.skip(j + n),
        n < b.len() - j ==> t[i + n] == b[j + n],
{
    assert(t.len() - i == t.skip(i).len() == b.skip(j).len() == b.len() - j);
    assert(t.skip(i + n) =~= t.skip(i).skip(n));
    assert(b.skip(j + n) =~= b.skip(j).skip(n));
    if n < b.len() - j {
        assert(t[i + n] == t.skip(i)[n] == b.skip(j)[n] == b[j + n]);
    }
}

proof fn lemma_braces_shift(t: Seq<char>, i: int, b: Seq<char>, j: int)
    requires
        0 <= i <= t.len(),
        0 <= j <= b.len(),
        t.skip(i) == b.skip(j),
    ensures
        drop_braces(t, i) == drop_braces(b, j),
    decreases b.len() - j,
{
    lemma_same_rest(t, i, b, j, 0);
    if j < b.len() {
        lemma_same_rest(t, i, b, j, 1);
        lemma_run_shift(t, i + 1, b, j + 1, Class::Not('}'));
        lemma_run_end(b, j + 1, Class::Not('}'));
        let close = run_end(b, j + 1, Class::Not('}'));
        if b[j] == '{' && close < b.len() {
            lemma_same_rest(t, i, b, j, close + 1 - j);
            lemma_braces_shift(t, i + (close + 1 - j), b, close + 1);
        } else {
            lemma_braces_shift(t, i + 1, b, j + 1);
        }
    }
}

/// A comment behind a semicolon leaves a space behind, up to the end of its
/// line, and all around it stays.
pub proof fn law_line_comments_leave_a_space(a: Seq<char>, c: Seq<char>, b: Seq<char>)
    requires
        holds_no(a, ';'),
        holds_no(c, '\n'),
        b.len() > 0 ==> b[0] == '\n',
    ensures
        drop_line_comments(a, 0) == a,
        drop_line_comments(a + seq![';'] + c + b, 0) == a + seq![' '] + drop_line_comments(b, 0),
{
    let s = a + seq![';'] + c + b;
    let n = a.len() as int;
    let e = n + 1 + c.len();
    lemma_lines_before(a, 0, n);
    assert(drop_line_comments(a, n) =~= seq![]);
    assert(a.subrange(0, n) + seq![] =~= a);
    assert forall|j: int| 0 <= j < n implies #[trigger] s[j] != ';' by {
        assert(s[j] == a[j]);
    }
    lemma_lines_before(s, 0, n);
    assert(s.subrange(0, n) =~= a);
    assert(s[n] == ';');
    assert forall|j: int| n + 1 <= j < e implies in_class(Class::Not('\n'), #[trigger] s[j]) by {
        assert(s[j] == c[j - (n + 1)]);
    }
    if e < s.len() {
        assert(s[e] == b[0]);
    }
    lemma_run_end_is(s, n + 1, Class::Not('\n'), e);
    assert(s.skip(e) =~= b.skip(0));
    lemma_lines_shift(s, e, b, 0);
    assert(a + (seq![' '] + drop_line_comments(b, 0)) =~= a + seq![' '] + drop_line_comments(b, 0));
}

proof fn lemma_lines_before(s: Seq<char>, i: int, n: int)
    requires
        0 <= i <= n <= s.len(),
        forall|j: int| 0 <= j < n ==> #[trigger] s[j] != ';',
    ensures
        drop_line_comments(s, i) == s.subrange(i, n) + drop_line_comments(s, n),
    decreases n - i,
{
    if i < n {
        lemma_lines_before(s, i + 1, n);
        assert(seq![s[i]] + (s.subrange(i + 1, n) + drop_line_comments(s, n)) =~= s.subrange(i, n)
            + drop_line_comments(s, n));
    } else {
        assert(s.subrange(i, n) + drop_line_comments(s, n) =~= drop_line_comments(s, n));
    }
}

proof fn lemma_lines_shift(t: Seq<char>, i: int, b: Seq<char>, j: int)
    requires
        0 <= i <= t.len(),
        0 <= j <= b.len(),
        t.skip(i) == b.skip(j),
    ensures
        drop_line_comments(t, i) == drop_line_comments(b, j),
    decreases b.len() - j,
{
    lemma_same_rest(t, i, b, j, 0);
    if j < b.len() {
        lemma_same_rest(t, i, b, j, 1);
        lemma_run_shift(t, i + 1, b, j + 1, Class::Not('\n'));
        lemma_run_end(b, j + 1, Class::Not('\n'));
        let e = run_end(b, j + 1, Class::Not('\n'));
        if b[j] == ';' {
            lemma_same_rest(t, i, b, j, e - j);
            lemma_lines_shift(t, i + (e - j), b, e);
        } else {
            lemma_lines_shift(t, i + 1, b, j + 1);
        }
    }
}

/// A numeric glyph leaves a space behind, and all around it stays; a dollar sign
/// without digits stays too.
pub proof fn law_glyphs_leave_a_space(a: Seq<char>, d: Seq<char>, b: Seq<char>)
    requires
        holds_no(a, '$'),
        forall|i: int| 0 <= i < d.len() ==> decimal(#[trigger] d[i]),
        b.len() > 0 ==> !decimal(b[0]),
    ensures
        drop_nags(a, 0) == a,
        drop_nags(a + seq!['$'] + d + b, 0) == a + (if d.len() > 0 {
            seq![' ']
        } else {
            seq!['$']
        }) + drop_nags(b, 0),
{
    let s = a + seq!['$'] + d + b;
    let n = a.len() as int;
    let e = n + 1 + d.len();
    lemma_nags_before(a, 0, n);
    assert(drop_nags(a, n) =~= seq![]);
    assert(a.subrange(0, n) + seq![] =~= a);
    assert forall|j: int| 0 <= j < n implies #[trigger] s[j] != '$' by {
        assert(s[j] == a[j]);
    }
    lemma_nags_before(s, 0, n);
    assert(s.subrange(0, n) =~= a);
    assert(s[n] == '$');
    assert forall|j: int| n + 1 <= j < e implies in_class(Class::Decimal, #[trigger] s[j]) by {
        assert(s[j] == d[j - (n + 1)]);
    }
    if e < s.len() {
        assert(s[e] == b[0]);
    }
    lemma_run_end_is(s, n + 1, Class::Decimal, e);
    assert(s.skip(e) =~= b.skip(0));
    lemma_nags_shift(s, e, b, 0);
    assert(a + (seq![' '] + drop_nags(b, 0)) =~= a + seq![' '] + drop_nags(b, 0));
    assert(a + (seq!['$'] + drop_nags(b, 0)) =~= a + seq!['$'] + drop_nags(b, 0));
}

proof fn lemma_nags_before(s: Seq<char>, i: int, n: int)
    requires
        0 <= i <= n <= s.len(),
        forall|j: int| 0 <= j < n ==> #[trigger] s[j] != '$',
    ensures
        drop_nags(s, i) == s.subrange(i, n) + drop_nags(s, n),
    decreases n - i,
{
    if i < n {
        lemma_nags_before(s, i + 1, n);
        assert(seq![s[i]] + (s.subrange(i + 1, n) + drop_nags(s, n)) =~= s.subrange(i, n)
            + drop_nags(s, n));
    } else {
        assert(s.subrange(i, n) + drop_nags(s, n) =~= drop_nags(s, n));
    }
}

proof fn lemma_nags_shift(t: Seq<char>, i: int, b: Seq<char>, j: int)
    requires
        0 <= i <= t.len(),
        0 <= j <= b.len(),
        t.skip(i) == b.skip(j),
    ensures
        drop_nags(t, i) == drop_nags(b, j),
    decreases b.len() - j,
{
    lemma_same_rest(t, i, b, j, 0);
    if j < b.len() {
        lemma_same_rest(t, i, b, j, 1);
        lemma_run_shift(t, i + 1, b, j + 1, Class::Decimal);
        lemma_run_end(b, j + 1, Class::Decimal);
        let e = run_end(b, j + 1, Class::Decimal);
        if b[j] == '$' && j + 1 < e {
            lemma_same_rest(t, i, b, j, e - j);
            lemma_nags_shift(t, i + (e - j), b, e);
        } else {
            lemma_nags_shift(t, i + 1, b, j + 1);
        }
    }
}

// ---------------------------------------------------------------------------
// Variations
// ---------------------------------------------------------------------------

/// How many parentheses are open behind the first `n` characters of a text; one
/// that closes nothing does not count.
pub open spec fn open_parens(s: Seq<char>, n: int) -> int
    decreases n,
{
    if n <= 0 {
        0
    } else {
        let before = open_parens(s, n - 1);
        if s[n - 1] == '(' {
            before + 1
        } else if s[n - 1] == ')' && before > 0 {
            before - 1
        } else {
            before
        }
    }
}

/// Variations leave no trace, however deep they are nested: what is left of a
/// text are the characters that stand outside all parentheses, in their order,
/// without the parentheses.
pub proof fn law_variations_leave_no_trace(s: Seq<char>, c: char)
    ensures
        outside_parens(Seq::<char>::empty(), 0, 0) == Seq::<char>::empty(),
        outside_parens(s.push(c), 0, 0) == if c != '(' && c != ')' && open_parens(
            s,
            s.len() as int,
        ) == 0 {
            outside_parens(s, 0, 0).push(c)
        } else {
            outside_parens(s, 0, 0)
        },
{
    lemma_parens_push(s, c, 0);
}

proof fn lemma_parens_push(s: Seq<char>, c: char, i: int)
    requires
        0 <= i <= s.len(),
        open_parens(s, i) >= 0,
    ensures
        open_parens(s, s.len() as int) >= 0,
        outside_parens(s.push(c), i, open_parens(s, i) as nat) == if c != '(' && c != ')'
            && open_parens(s, s.len() as int) == 0 {
            outside_parens(s, i, open_parens(s, i) as nat).push(c)
        } else {
            outside_parens(s, i, open_parens(s, i) as nat)
        },
    decreases s.len() - i,
{
    let t = s.push(c);
    let depth = open_parens(s, i) as nat;
    if i < s.len() {
        assert(t[i] == s[i]);
        lemma_parens_push(s, c, i + 1);
        if s[i] != '(' && s[i] != ')' && depth == 0 {
            let rest = outside_parens(s, i + 1, 0);
            assert(seq![s[i]] + rest.push(c) =~= (seq![s[i]] + rest).push(c));
        }
    } else {
        assert(t[i] == c);
        reveal_with_fuel(outside_parens, 2);
        assert(outside_parens(s, i, depth) =~= seq![]);
        assert(seq![c] + Seq::<char>::empty() =~= seq![c]);
        assert(Seq::<char>::empty().push(c) =~= seq![c]);
    }
}

// ---------------------------------------------------------------------------
// Moves
// ---------------------------------------------------------------------------

/// What is left of a token is its move: without the number in front, if it has
/// one with dots behind it, and without up to two quality marks at the end.
pub proof fn law_tokens_hold_their_move(
    digits: Seq<char>,
    dots: Seq<char>,
    core: Seq<char>,
    marks: Seq<char>,
)
    requires
        forall|i: int| 0 <= i < digits.len() ==> decimal(#[trigger] digits[i]),
        forall|i: int| 0 <= i < dots.len() ==> #[trigger] dots[i] == '.',
        digits.len() > 0 <==> dots.len() > 0,
        core.len() > 0 ==> !decimal(core[0]) && core[0] != '.',
        core.len() > 0 && marks.len() < 2 ==> core.last() != '!' && core.last() != '?',
        marks.len() <= 2,
        forall|i: int| 0 <= i < marks.len() ==> #[trigger] marks[i] == '!' || marks[i] == '?',
    ensures
        move_core(digits + dots + core + marks) == core,
{
    let t = digits + dots + core + marks;
    let a = digits.len() as int;
    let b = a + dots.len();
    assert forall|j: int| 0 <= j < a implies in_class(Class::Decimal, #[trigger] t[j]) by {
        assert(t[j] == digits[j]);
    }
    assert forall|j: int| a <= j < b implies in_class(Class::Only('.'), #[trigger] t[j]) by {
        assert(t[j] == dots[j - a]);
    }
    if a < t.len() {
        if a < b {
            assert(t[a] == '.');
        } else if core.len() > 0 {
            assert(t[a] == core[0]);
        } else {
            assert(t[a] == marks[0]);
        }
    }
    lemma_run_end_is(t, 0, Class::Decimal, a);
    if b < t.len() {
        if core.len() > 0 {
            assert(t[b] == core[0]);
        } else {
            assert(t[b] == marks[0]);
        }
    }
    lemma_run_end_is(t, a, Class::Only('.'), b);
    let u = core + marks;
    assert(t.skip(b) =~= u);
    if b == 0 {
        assert(t =~= u);
    }
    let n = u.len() as int;
    if marks.len() >= 1 {
        assert(u[n - 1] == marks[marks.len() - 1]);
    } else if core.len() > 0 {
        assert(u[n - 1] == core.last());
    }
    if marks.len() == 2 {
        assert(u[n - 2] == marks[0]);
    } else if marks.len() == 1 && core.len() > 0 {
        assert(u[n - 2] == core.last());
    }
    assert(u.take(core.len() as int) =~= core);
}

/// Digits without a dot behind them are no move number.
pub proof fn law_digits_alone_are_no_number(digits: Seq<char>, rest: Seq<char>)
    requires
        forall|i: int| 0 <= i < digits.len() ==> decimal(#[trigger] digits[i]),
        rest.len() > 0 ==> !decimal(rest[0]) && rest[0] != '.',
    ensures
        drop_move_number(digits + rest) == digits + rest,
{
    let t = digits + rest;
    let a = digits.len() as int;
    assert forall|j: int| 0 <= j < a implies in_class(Class::Decimal, #[trigger] t[j]) by {
        assert(t[j] == digits[j]);
    }
    if a < t.len() {
        assert(t[a] == rest[0]);
    }
    lemma_run_end_is(t, 0, Class::Decimal, a);
    lemma_run_end_is(t, a, Class::Only('.'), a);
}

/// The quality marks are `!` and `?`.
pub proof fn law_two_quality_marks(c: char)
    ensures
        quality_mark(c) <==> c == '!' || c == '?',
{
}

/// Whether what is left of a token is a move: something is, and it is none of
/// the four result markers.
pub open spec fn is_a_move(core: Seq<char>) -> bool {
    core.len() > 0 && core != "1-0"@ && core != "0-1"@ && core != "1/2-1/2"@ && core != "*"@
}

/// The moves of a game are what is left of its tokens, in their order, without
/// the result markers.
pub proof fn law_moves_are_what_is_left(tokens: Seq<Seq<char>>)
    ensures
        moves_among(tokens) == tokens.map_values(|token: Seq<char>| move_core(token)).filter(
            |core: Seq<char>| is_a_move(core),
        ),
    decreases tokens.len(),
{
    reveal(Seq::filter);
    let cores = tokens.map_values(|token: Seq<char>| move_core(token));
    if tokens.len() > 0 {
        law_moves_are_what_is_left(tokens.drop_last());
        assert(cores.drop_last() =~= tokens.drop_last().map_values(
            |token: Seq<char>| move_core(token),
        ));
        law_four_markers_stand_for_results(move_core(tokens.last()));
    }
}

/// A game is read from a text: its tags, and behind the last of them its moves,
/// once comments in braces, comments behind semicolons, glyphs and variations are
/// gone. White space around the text does not count, and there has to be
/// something in it.
pub proof fn law_games_are_read_from_their_text(text: Seq<char>)
    ensures
        ({
            let pgn = trim(text);
            parsed(text) == if pgn.len() == 0 {
                Err::<(HeadersView, Seq<Seq<char>>), PgnErrorView>(PgnErrorView::EmptyPgn)
            } else {
                match headers_of(pgn) {
                    Err(e) => Err(e),
                    Ok((h, at)) => Ok(
                        (
                            h,
                            moves_among(
                                words(
                                    outside_parens(
                                        drop_nags(
                                            drop_line_comments(drop_braces(pgn.skip(at), 0), 0),
                                            0,
                                        ),
                                        0,
                                        0,
                                    ),
                                ),
                            ),
                        ),
                    ),
                }
            }
        }),
        forall|s: Seq<char>| #[trigger]
            moves_of(s) == moves_among(
                words(
                    outside_parens(
                        drop_nags(drop_line_comments(drop_braces(s, 0), 0), 0),
                        0,
                        0,
                    ),
                ),
            ),
{
}

/// The additional headers are those listed: each name with its value, and no
/// others.
pub proof fn law_additional_headers_are_those_listed(
    pairs: Seq<(String, String)>,
    i: int,
    name: Seq<char>,
)
    requires
        unique_names(pairs),
        0 <= i < pairs.len(),
    ensures
        pair_map(pairs).dom().contains(pairs[i].0@),
        pair_map(pairs)[pairs[i].0@] == pairs[i].1@,
        pair_map(pairs).dom().contains(name) <==> exists|j: int|
            0 <= j < pairs.len() && (#[trigger] pairs[j]).0@ == name,
{
    lemma_pair_map(pairs, name);
    lemma_pair_map(pairs, pairs[i].0@);
}

proof fn lemma_pair_map(pairs: Seq<(String, String)>, name: Seq<char>)
    requires
        unique_names(pairs),
    ensures
        pair_map(pairs).dom().contains(name) <==> exists|j: int|
            0 <= j < pairs.len() && (#[trigger] pairs[j]).0@ == name,
        forall|j: int|
            0 <= j < pairs.len() && (#[trigger] pairs[j]).0@ == name ==> pair_map(pairs)[name]
                == pairs[j].1@,
    decreases pairs.len(),
{
    if pairs.len() > 0 {
        let before = pairs.drop_last();
        assert forall|a: int, b: int| 0 <= a < b < before.len() implies (#[trigger] before[a]).0@
            != (#[trigger] before[b]).0@ by {
            assert(pairs[a].0@ != pairs[b].0@);
        }
        lemma_pair_map(before, name);
        let n = before.len() as int;
        assert(pairs[n] == pairs.last());
        if exists|j: int| 0 <= j < before.len() && (#[trigger] before[j]).0@ == name {
            let j = choose|j: int| 0 <= j < before.len() && (#[trigger] before[j]).0@ == name;
            assert(pairs[j].0@ == name);
            assert(pairs[j].0@ != pairs[n].0@);
        }
        if exists|j: int| 0 <= j < pairs.len() && (#[trigger] pairs[j]).0@ == name {
            let j = choose|j: int| 0 <= j < pairs.len() && (#[trigger] pairs[j]).0@ == name;
            if j < n {
                assert(before[j].0@ == name);
            }
        }
        assert forall|j: int| 0 <= j < pairs.len() && (#[trigger] pairs[j]).0@ == name implies
            pair_map(pairs)[name] == pairs[j].1@ by {
            if j < n {
                assert(before[j] == pairs[j]);
                assert(pairs[j].0@ != pairs[n].0@);
            }
        }
    }
}

/// Names are compared letter by letter, capitals counting as small letters,
/// where they are ASCII.
pub proof fn law_ascii_names_ignore_case(a: Seq<char>, b: Seq<char>)
    requires
        forall|i: int| 0 <= i < a.len() ==> #[trigger] a[i] as int <= 127,
        forall|i: int| 0 <= i < b.len() ==> #[trigger] b[i] as int <= 127,
    ensures
        lower_text(a) == lower_text(b) <==> a.len() == b.len() && forall|i: int|
            0 <= i < a.len() ==> ascii_lower(#[trigger] a[i]) == ascii_lower(b[i]),
{
    if lower_text(a) == lower_text(b) {
        assert(lower_text(a).len() == a.len() && lower_text(b).len() == b.len());
        assert forall|i: int| 0 <= i < a.len() implies ascii_lower(#[trigger] a[i]) == ascii_lower(
            b[i],
        ) by {
            assert(lower_text(a)[i] == lower_text(b)[i]);
        }
    }
    if a.len() == b.len() && forall|i: int|
        0 <= i < a.len() ==> ascii_lower(#[trigger] a[i]) == ascii_lower(b[i]) {
        assert(lower_text(a) =~= lower_text(b));
    }
}

/// Errors are said in words that hold what was found.
pub proof fn law_errors_are_said_in_words(text: Seq<char>, n: int, reason: Seq<char>)
    ensures
        PgnErrorView::InvalidFormat(text).message() == "Invalid PGN format: "@ + text,
        PgnErrorView::MissingHeader(text).message() == "Missing required header: "@ + text,
        PgnErrorView::InvalidHeader(text).message() == "Invalid header format: "@ + text,
        PgnErrorView::InvalidResult(text).message() == "Invalid result format: "@ + text,
        PgnErrorView::EmptyPgn.message() == "Empty PGN string"@,
        (PgnErrorView::IllegalMove { move_number: n, move_text: text, reason }).message()
            == "Illegal move at move "@ + dec(n) + ": '"@ + text + "' - "@ + reason,
{
}

} // verus!
