//! What holds of PGN documents as a whole: what is exported can be read back,
//! and passes the strict checks.

use vstd::prelude::*;

use crate::board::{full_moves, lemma_start_fen_fields, move_san, side_to_move, start_fen, Side};
use crate::pgn::{
    drop_braces, drop_line_comments, drop_nags, header_at, headers_of, mainline, marked_result,
    move_core, moves_among, moves_of, no_headers, outside_parens, parsed, read_headers, replayed,
    result_marker, with_header, GameResult, HeaderMatch, HeadersView, PgnErrorView,
};
use crate::pgn_export::{
    annotation_parts, built, comment_tokens, document, documents, documents_game, escaped,
    game_tokens, laid_out, move_number, move_token, movetext, number_tokens, opt_dec,
    same_but_marks, san_texts, tag_line, tag_section, wrapped, written_line, written_ply,
    written_sans, ExportHeaders, MoveAnnotation, MOVETEXT_LINE_WIDTH,
};
use crate::pgn_layout::{
    clean_tokens, closed_comment, comment, document_tokens, export_tags, glyph, laid,
    lemma_comment_token, lemma_goes_on, lemma_laid_spread, lemma_marker_token, lemma_move_token,
    lemma_number_token, lemma_quotable_dec, lemma_section_starts, lemma_tag_section,
    lemma_trim_solid, lemma_wrapped, lemma_written_line_sans, optional_pair, plain_char,
    plain_token, readable_annotations, roster_tags, separators, setup_tags, spread,
    supplemental_tags, tag_block_from, tag_name, written_san,
};
use crate::pgn_tags::{unescaped, valid_escapes};
use crate::text::{
    dec, dec_nat, in_class, lemma_run_end, lemma_run_end_is, opt_text, run_end, run_start, trim,
    utf8_width, words_from, Class,
};
use crate::unicode::{ascii_lower_text, ascii_word, lower_text, white_space};

verus! {

// ---------------------------------------------------------------------------
// Results
// ---------------------------------------------------------------------------

/// Reading the marker of a result gives the result back, also with white space
/// allowed around it.
pub proof fn law_result_marker_reads_back(r: GameResult)
    ensures
        marked_result(result_marker(r)) == Some(r),
        marked_result(trim(result_marker(r))) == Some(r),
{
    reveal_strlit("1-0");
    reveal_strlit("0-1");
    reveal_strlit("1/2-1/2");
    reveal_strlit("*");
    let m = result_marker(r);
    assert(m[0] == '1' || m[0] == '0' || m[0] == '*');
    assert("1-0"@[1] != "1/2-1/2"@[1]);
    assert("0-1"@[0] != "1-0"@[0]);
    lemma_trim_solid(m);
}

// ---------------------------------------------------------------------------
// Tag values
// ---------------------------------------------------------------------------

/// Escaping a tag value and unescaping it again gives the value back, and what
/// is escaped is always a valid escape sequence.
pub proof fn law_escapes_read_back(value: Seq<char>)
    ensures
        unescaped(escaped(value, 0), 0) == value,
        valid_escapes(escaped(value, 0), 0),
{
    assert(escaped(value, 0).skip(0) == escaped(value, 0));
    lemma_escapes(value, 0, escaped(value, 0), 0);
    assert(value.skip(0) == value);
}

/// `e` from `j` on is `s` escaped from `i` on.
proof fn lemma_escapes(s: Seq<char>, i: int, e: Seq<char>, j: int)
    requires
        0 <= i <= s.len(),
        0 <= j <= e.len(),
        e.skip(j) == escaped(s, i),
    ensures
        unescaped(e, j) == s.skip(i),
        valid_escapes(e, j),
    decreases s.len() - i,
{
    if i < s.len() {
        let rest = escaped(s, i + 1);
        assert(e.skip(j).len() == e.len() - j);
        if s[i] == '\\' || s[i] == '"' {
            assert(e.skip(j)[0] == '\\' && e.skip(j)[1] == s[i]);
            assert(e[j] == '\\' && e[j + 1] == s[i]);
            assert(e.skip(j + 2) == rest) by {
                assert(e.skip(j).skip(2) == e.skip(j + 2));
                assert((seq!['\\', s[i]] + rest).skip(2) == rest);
            }
            lemma_escapes(s, i + 1, e, j + 2);
        } else {
            assert(e.skip(j)[0] == s[i]);
            assert(e.skip(j + 1) == rest) by {
                assert(e.skip(j).skip(1) == e.skip(j + 1));
                assert((seq![s[i]] + rest).skip(1) == rest);
            }
            lemma_escapes(s, i + 1, e, j + 1);
        }
        assert(s.skip(i) == seq![s[i]] + s.skip(i + 1));
    } else {
        assert(e.skip(j).len() == 0);
        assert(s.skip(i) == Seq::<char>::empty());
    }
}

/// A value without quotes and backslashes is written as it is.
pub proof fn law_plain_values_need_no_escape(value: Seq<char>)
    requires
        forall|i: int| 0 <= i < value.len() ==> value[i] != '"' && value[i] != '\\',
    ensures
        escaped(value, 0) == value,
{
    lemma_plain_escaped(value, 0);
    assert(value.skip(0) == value);
}

proof fn lemma_plain_escaped(s: Seq<char>, i: int)
    requires
        0 <= i <= s.len(),
        forall|j: int| 0 <= j < s.len() ==> s[j] != '"' && s[j] != '\\',
    ensures
        escaped(s, i) == s.skip(i),
    decreases s.len() - i,
{
    if i < s.len() {
        lemma_plain_escaped(s, i + 1);
        assert(s.skip(i) == seq![s[i]] + s.skip(i + 1));
    } else {
        assert(s.skip(i) == Seq::<char>::empty());
    }
}

// ---------------------------------------------------------------------------
// Lines
// ---------------------------------------------------------------------------

/// Movetext lines are at most [`MOVETEXT_LINE_WIDTH`] bytes wide, unless a
/// single token is wider than that.
pub proof fn law_lines_fit(tokens: Seq<Seq<char>>, n: int)
    requires
        0 <= n <= tokens.len(),
    ensures
        forall|i: int|
            0 <= i < laid_out(tokens, n).0.len() ==> fits(
                tokens,
                #[trigger] laid_out(tokens, n).0[i],
            ),
        laid_out(tokens, n).1.len() == 0 || fits(tokens, laid_out(tokens, n).1),
    decreases n,
{
    if n > 0 {
        law_lines_fit(tokens, n - 1);
        let (lines, line) = laid_out(tokens, n - 1);
        let (lines2, line2) = laid_out(tokens, n);
        let token = tokens[n - 1];
        assert(tokens.contains(token));
        lemma_width_add(line.push(' '), token);
        assert(line.push(' ').drop_last() == line);
        assert forall|i: int| 0 <= i < lines2.len() implies fits(tokens, #[trigger] lines2[i]) by {
            if i < lines.len() {
                assert(lines2[i] == lines[i]);
            }
        }
    }
}

/// Whether a line is narrow enough, or a token of its own.
pub open spec fn fits(tokens: Seq<Seq<char>>, line: Seq<char>) -> bool {
    utf8_width(line) <= MOVETEXT_LINE_WIDTH || tokens.contains(line)
}

proof fn lemma_width_add(a: Seq<char>, b: Seq<char>)
    ensures
        utf8_width(a + b) == utf8_width(a) + utf8_width(b),
    decreases b.len(),
{
    if b.len() == 0 {
        assert(a + b == a);
    } else {
        lemma_width_add(a, b.drop_last());
        assert((a + b).drop_last() == a + b.drop_last());
        assert((a + b).last() == b.last());
    }
}

// ---------------------------------------------------------------------------
// Variations
// ---------------------------------------------------------------------------

/// Whether a text holds no parenthesis.
pub open spec fn without_paren(s: Seq<char>) -> bool {
    forall|j: int| 0 <= j < s.len() ==> #[trigger] s[j] != '(' && s[j] != ')'
}

/// Nothing that is left after variations are stripped is a parenthesis.
pub proof fn law_stripped_text_has_no_parens(s: Seq<char>)
    ensures
        without_paren(outside_parens(s, 0, 0)),
{
    lemma_stripped(s, 0, 0);
}

proof fn lemma_stripped(s: Seq<char>, i: int, depth: nat)
    ensures
        without_paren(outside_parens(s, i, depth)),
    decreases s.len() - i,
{
    if 0 <= i < s.len() {
        if s[i] == '(' {
            lemma_stripped(s, i + 1, depth + 1);
        } else if s[i] == ')' {
            if depth > 0 {
                lemma_stripped(s, i + 1, (depth - 1) as nat);
            } else {
                lemma_stripped(s, i + 1, 0);
            }
        } else {
            lemma_stripped(s, i + 1, depth);
            if depth == 0 {
                let rest = outside_parens(s, i + 1, depth);
                let out = seq![s[i]] + rest;
                assert forall|j: int| 0 <= j < out.len() implies #[trigger] out[j] != '(' && out[j]
                    != ')' by {
                    if j > 0 {
                        assert(out[j] == rest[j - 1]);
                    }
                }
            }
        }
    }
}

/// A text without parentheses is left alone, so stripping twice is stripping
/// once.
pub proof fn law_stripping_keeps_the_mainline(s: Seq<char>)
    requires
        without_paren(s),
    ensures
        outside_parens(s, 0, 0) == s,
{
    lemma_no_parens(s, 0);
    assert(s.skip(0) == s);
}

proof fn lemma_no_parens(s: Seq<char>, i: int)
    requires
        0 <= i <= s.len(),
        without_paren(s),
    ensures
        outside_parens(s, i, 0) == s.skip(i),
    decreases s.len() - i,
{
    if i < s.len() {
        lemma_no_parens(s, i + 1);
        assert(s.skip(i) == seq![s[i]] + s.skip(i + 1));
    } else {
        assert(s.skip(i) == Seq::<char>::empty());
    }
}

// ---------------------------------------------------------------------------
// Laid-out tokens
// ---------------------------------------------------------------------------

// ---------------------------------------------------------------------------
// Reading laid-out tokens
// ---------------------------------------------------------------------------

/// The tokens with a blank in place of each comment.
spec fn blanked(tokens: Seq<Seq<char>>) -> Seq<Seq<char>> {
    Seq::new(
        tokens.len(),
        |k: int|
            if comment(tokens[k]) {
                seq![' ']
            } else {
                tokens[k]
            },
    )
}

/// The tokens that are not comments.
spec fn without_comments(tokens: Seq<Seq<char>>) -> Seq<Seq<char>>
    decreases tokens.len(),
{
    if tokens.len() == 0 {
        seq![]
    } else if comment(tokens.last()) {
        without_comments(tokens.drop_last())
    } else {
        without_comments(tokens.drop_last()).push(tokens.last())
    }
}

proof fn lemma_without_comments_add(a: Seq<Seq<char>>, b: Seq<Seq<char>>)
    ensures
        without_comments(a + b) == without_comments(a) + without_comments(b),
    decreases b.len(),
{
    if b.len() == 0 {
        assert(a + b == a);
        assert(without_comments(a) + seq![] == without_comments(a));
    } else {
        lemma_without_comments_add(a, b.drop_last());
        assert((a + b).drop_last() == a + b.drop_last());
        assert((a + b).last() == b.last());
        assert(without_comments(a + b) == without_comments(a) + without_comments(b));
    }
}

proof fn lemma_one_token(t: Seq<char>)
    ensures
        without_comments(seq![t]) == if comment(t) {
            Seq::<Seq<char>>::empty()
        } else {
            seq![t]
        },
        moves_among(seq![t]) == if move_core(t).len() > 0 && marked_result(move_core(t)) is None {
            seq![move_core(t)]
        } else {
            Seq::<Seq<char>>::empty()
        },
{
    reveal_with_fuel(without_comments, 2);
    reveal_with_fuel(moves_among, 2);
    assert(seq![t].drop_last() == Seq::<Seq<char>>::empty());
}

proof fn lemma_moves_among_add(a: Seq<Seq<char>>, b: Seq<Seq<char>>)
    ensures
        moves_among(a + b) == moves_among(a) + moves_among(b),
    decreases b.len(),
{
    if b.len() == 0 {
        assert(a + b == a);
        assert(moves_among(a) + seq![] == moves_among(a));
    } else {
        lemma_moves_among_add(a, b.drop_last());
        assert((a + b).drop_last() == a + b.drop_last());
        assert((a + b).last() == b.last());
        assert(moves_among(a + b) == moves_among(a) + moves_among(b));
    }
}

proof fn lemma_braces_copy(s: Seq<char>, i: int, j: int)
    requires
        0 <= i <= j <= s.len(),
        forall|k: int| i <= k < j ==> s[k] != '{',
    ensures
        drop_braces(s, i) == s.subrange(i, j) + drop_braces(s, j),
    decreases j - i,
{
    if i < j {
        lemma_braces_copy(s, i + 1, j);
        assert(seq![s[i]] + (s.subrange(i + 1, j) + drop_braces(s, j)) == s.subrange(i, j)
            + drop_braces(s, j));
    } else {
        assert(s.subrange(i, j) + drop_braces(s, j) == drop_braces(s, j));
    }
}

/// Dropping the comments of laid-out tokens leaves a blank for each.
proof fn lemma_braces(s: Seq<char>, i: int, tokens: Seq<Seq<char>>, seps: Seq<char>, k: int)
    requires
        0 <= i <= s.len(),
        0 <= k <= tokens.len() == seps.len(),
        s.skip(i) == spread(tokens, seps, k),
        separators(seps),
        clean_tokens(tokens),
    ensures
        drop_braces(s, i) == spread(blanked(tokens), seps, k),
    decreases tokens.len() - k,
{
    if k < tokens.len() {
        let t = tokens[k];
        let n = t.len() as int;
        let rest = spread(tokens, seps, k + 1);
        lemma_goes_on(s, i, seps[k], t, rest);
        lemma_braces(s, i + 1 + n, tokens, seps, k + 1);
        let done = spread(blanked(tokens), seps, k + 1);
        assert(seps[k] == ' ' || seps[k] == '\n');
        assert(plain_token(t) || closed_comment(t));
        if comment(t) {
            if plain_token(t) {
                assert(plain_char(t[0]));
            }
            assert(s[i + 1] == t[0]);
            assert(t.last() == t[n - 1]);
            assert forall|j: int| i + 2 <= j < i + n implies in_class(
                Class::Not('}'),
                #[trigger] s[j],
            ) by {
                assert(t[j - i - 1] == s[j]);
            }
            lemma_run_end_is(s, i + 2, Class::Not('}'), i + n);
            assert(drop_braces(s, i + 1) == seq![' '] + done);
            assert(drop_braces(s, i) == seq![seps[k]] + (seq![' '] + done));
            assert(seq![seps[k]] + (seq![' '] + done) == seq![seps[k]] + seq![' '] + done);
        } else {
            assert forall|j: int| i <= j < i + 1 + n implies s[j] != '{' by {
                if j > i {
                    assert(plain_char(t[j - i - 1]));
                }
            }
            lemma_braces_copy(s, i, i + 1 + n);
            assert(s.subrange(i, i + 1 + n) == seq![seps[k]] + t);
        }
    } else {
        assert(s.skip(i).len() == 0);
    }
}

proof fn lemma_words_skip(s: Seq<char>, i: int)
    requires
        0 <= i < s.len(),
        white_space(s[i]),
    ensures
        words_from(s, i) == words_from(s, i + 1),
{
    assert(run_end(s, i, Class::Space) == run_end(s, i + 1, Class::Space));
}

proof fn lemma_words_take(s: Seq<char>, i: int, j: int)
    requires
        0 <= i < j <= s.len(),
        forall|k: int| i <= k < j ==> !white_space(#[trigger] s[k]),
        j < s.len() ==> white_space(s[j]),
    ensures
        words_from(s, i) == seq![s.subrange(i, j)] + words_from(s, j),
{
    assert(!white_space(s[i]));
    assert(run_end(s, i, Class::Space) == i);
    lemma_run_end_is(s, i, Class::Solid, j);
}

/// The words of blanked tokens are the tokens that are no comments.
proof fn lemma_words(s: Seq<char>, i: int, tokens: Seq<Seq<char>>, seps: Seq<char>, k: int)
    requires
        0 <= i <= s.len(),
        0 <= k <= tokens.len() == seps.len(),
        s.skip(i) == spread(blanked(tokens), seps, k),
        separators(seps),
        clean_tokens(tokens),
    ensures
        words_from(s, i) == without_comments(tokens.skip(k)),
    decreases tokens.len() - k,
{
    if k < tokens.len() {
        let t = blanked(tokens)[k];
        let n = t.len() as int;
        let rest = spread(blanked(tokens), seps, k + 1);
        lemma_goes_on(s, i, seps[k], t, rest);
        lemma_words(s, i + 1 + n, tokens, seps, k + 1);
        lemma_words_skip(s, i);
        assert(seps[k] == ' ' || seps[k] == '\n');
        assert(plain_token(tokens[k]) || closed_comment(tokens[k]));
        assert(tokens.skip(k) == seq![tokens[k]] + tokens.skip(k + 1));
        lemma_without_comments_add(seq![tokens[k]], tokens.skip(k + 1));
        lemma_one_token(tokens[k]);
        if comment(tokens[k]) {
            assert(t[0] == s[i + 1]);
            lemma_words_skip(s, i + 1);
            assert(without_comments(tokens.skip(k)) == without_comments(tokens.skip(k + 1)));
        } else {
            assert forall|j: int| i + 1 <= j < i + 1 + n implies !white_space(#[trigger] s[j]) by {
                assert(plain_char(t[j - i - 1]));
            }
            if i + 1 + n < s.len() {
                assert(s.skip(i + 1 + n).len() > 0);
                assert(s[i + 1 + n] == s.skip(i + 1 + n)[0]);
                assert(k + 1 < tokens.len());
                assert(rest[0] == seps[k + 1]);
            }
            lemma_words_take(s, i + 1, i + 1 + n);
        }
    } else {
        assert(s.skip(i).len() == s.len() - i);
        assert(tokens.skip(k) == Seq::<Seq<char>>::empty());
        assert(run_end(s, i, Class::Space) == i);
    }
}

/// Whether a text holds none of the characters that start something to drop.
spec fn nothing_to_drop(s: Seq<char>) -> bool {
    forall|j: int|
        0 <= j < s.len() ==> #[trigger] s[j] != ';' && s[j] != '$' && s[j] != '(' && s[j] != ')'
}

proof fn lemma_nothing_dropped(s: Seq<char>, i: int)
    requires
        0 <= i <= s.len(),
        nothing_to_drop(s),
    ensures
        drop_line_comments(s, i) == s.skip(i),
        drop_nags(s, i) == s.skip(i),
    decreases s.len() - i,
{
    if i < s.len() {
        lemma_nothing_dropped(s, i + 1);
        assert(s[i] != ';' && s[i] != '$');
        assert(s.skip(i) == seq![s[i]] + s.skip(i + 1));
    } else {
        assert(s.skip(i) == Seq::<char>::empty());
    }
}

proof fn lemma_spread_plain(tokens: Seq<Seq<char>>, seps: Seq<char>, k: int)
    requires
        0 <= k <= tokens.len() == seps.len(),
        separators(seps),
        clean_tokens(tokens),
    ensures
        nothing_to_drop(spread(blanked(tokens), seps, k)),
    decreases tokens.len() - k,
{
    if k < tokens.len() {
        lemma_spread_plain(tokens, seps, k + 1);
        let t = blanked(tokens)[k];
        let rest = spread(blanked(tokens), seps, k + 1);
        let all = seq![seps[k]] + t + rest;
        assert(seps[k] == ' ' || seps[k] == '\n');
        assert(plain_token(tokens[k]) || closed_comment(tokens[k]));
        assert forall|j: int| 0 <= j < all.len() implies #[trigger] all[j] != ';' && all[j] != '$'
            && all[j] != '(' && all[j] != ')' by {
            if j == 0 {
            } else if j < 1 + t.len() {
                assert(all[j] == t[j - 1]);
                if !comment(tokens[k]) {
                    assert(plain_char(t[j - 1]));
                }
            } else {
                assert(all[j] == rest[j - 1 - t.len()]);
            }
        }
    }
}

/// The moves read from laid-out tokens are the moves among the tokens that are
/// no comments.
proof fn lemma_moves_of_spread(tokens: Seq<Seq<char>>, seps: Seq<char>)
    requires
        tokens.len() == seps.len(),
        separators(seps),
        clean_tokens(tokens),
    ensures
        moves_of(seq!['\n'] + spread(tokens, seps, 0)) == moves_among(without_comments(tokens)),
{
    let s = seq!['\n'] + spread(tokens, seps, 0);
    assert(s.skip(1) == spread(tokens, seps, 0));
    lemma_braces(s, 1, tokens, seps, 0);
    let b = spread(blanked(tokens), seps, 0);
    let t = drop_braces(s, 0);
    assert(t == seq!['\n'] + b);
    lemma_spread_plain(tokens, seps, 0);
    assert forall|j: int| 0 <= j < t.len() implies #[trigger] t[j] != ';' && t[j] != '$' && t[j]
        != '(' && t[j] != ')' by {
        if j > 0 {
            assert(t[j] == b[j - 1]);
        }
    }
    lemma_nothing_dropped(t, 0);
    assert(t.skip(0) == t);
    assert(without_paren(t));
    law_stripping_keeps_the_mainline(t);
    assert(mainline(s) == t);
    lemma_words_skip(t, 0);
    assert(t.skip(1) == b);
    lemma_words(t, 1, tokens, seps, 0);
    assert(tokens.skip(0) == tokens);
}

// ---------------------------------------------------------------------------
// Tokens of a written game
// ---------------------------------------------------------------------------

/// The tokens of a game stand for themselves, and its moves come back from
/// them.
proof fn lemma_game_tokens(
    side: Side,
    first: u32,
    sans: Seq<Seq<char>>,
    moves: Seq<MoveAnnotation>,
    analysis: bool,
    n: int,
)
    requires
        0 <= n <= sans.len() == moves.len(),
        forall|i: int| 0 <= i < sans.len() ==> written_san(#[trigger] sans[i]),
        readable_annotations(moves, analysis),
    ensures
        clean_tokens(game_tokens(side, first, sans, moves, analysis, n)),
        moves_among(without_comments(game_tokens(side, first, sans, moves, analysis, n)))
            == sans.take(n),
    decreases n,
{
    let all = game_tokens(side, first, sans, moves, analysis, n);
    if n > 0 {
        lemma_game_tokens(side, first, sans, moves, analysis, n - 1);
        let before = game_tokens(side, first, sans, moves, analysis, n - 1);
        let san = sans[n - 1];
        let ann = moves[n - 1];
        let number = number_tokens(side, first, n - 1);
        let token = move_token(san, ann);
        let notes = comment_tokens(ann, analysis);
        let digits = move_number(side, first, n - 1);

        assert(written_san(san));
        assert(glyph(ann.classification));
        lemma_number_token(digits, "."@);
        lemma_number_token(digits, "..."@);
        lemma_one_token(dec_nat(digits) + "."@);
        lemma_one_token(dec_nat(digits) + "..."@);
        lemma_move_token(san, ann);
        lemma_one_token(token);
        if notes.len() > 0 {
            lemma_comment_token(ann);
            lemma_one_token(notes[0]);
            assert(notes == seq![notes[0]]);
        }
        assert(moves_among(without_comments(number)) == Seq::<Seq<char>>::empty());
        assert(without_comments(notes) == Seq::<Seq<char>>::empty());
        assert(moves_among(without_comments(notes)) == Seq::<Seq<char>>::empty());

        lemma_without_comments_add(number, seq![token]);
        lemma_without_comments_add(number + seq![token], notes);
        lemma_without_comments_add(before, number + seq![token] + notes);
        lemma_moves_among_add(without_comments(number), without_comments(seq![token]));
        lemma_moves_among_add(
            without_comments(number) + without_comments(seq![token]),
            without_comments(notes),
        );
        lemma_moves_among_add(
            without_comments(before),
            without_comments(number + seq![token] + notes),
        );
        assert(moves_among(without_comments(all)) == sans.take(n - 1) + seq![san]);
        assert(sans.take(n) == sans.take(n - 1) + seq![san]);

        assert forall|k: int| 0 <= k < all.len() implies plain_token(#[trigger] all[k])
            || closed_comment(all[k]) by {
            let b = before.len() as int;
            let m = number.len() as int;
            if k < b {
                assert(all[k] == before[k]);
            } else if k < b + m {
                assert(all[k] == number[k - b]);
            } else if k == b + m {
                assert(all[k] == token);
            } else {
                assert(all[k] == notes[k - b - m - 1]);
            }
        }
    } else {
        assert(without_comments(all) == Seq::<Seq<char>>::empty());
        assert(sans.take(n) == Seq::<Seq<char>>::empty());
    }
}

proof fn lemma_document_tokens(
    side: Side,
    first: u32,
    sans: Seq<Seq<char>>,
    moves: Seq<MoveAnnotation>,
    analysis: bool,
    result: GameResult,
)
    requires
        sans.len() == moves.len(),
        forall|i: int| 0 <= i < sans.len() ==> written_san(#[trigger] sans[i]),
        readable_annotations(moves, analysis),
    ensures
        clean_tokens(document_tokens(side, first, sans, moves, analysis, result)),
        moves_among(without_comments(document_tokens(side, first, sans, moves, analysis, result)))
            == sans,
{
    let n = moves.len() as int;
    let game = game_tokens(side, first, sans, moves, analysis, n);
    let marker = result_marker(result);
    let all = document_tokens(side, first, sans, moves, analysis, result);
    lemma_game_tokens(side, first, sans, moves, analysis, n);
    lemma_marker_token(result);
    lemma_one_token(marker);
    assert(all == game + seq![marker]);
    lemma_without_comments_add(game, seq![marker]);
    lemma_moves_among_add(without_comments(game), without_comments(seq![marker]));
    assert(sans.take(n) == sans);
    assert(sans + Seq::<Seq<char>>::empty() == sans);
    assert forall|k: int| 0 <= k < all.len() implies plain_token(#[trigger] all[k])
        || closed_comment(all[k]) by {
        if k < game.len() {
            assert(all[k] == game[k]);
        }
    }
}

proof fn lemma_spread_unquoted(tokens: Seq<Seq<char>>, seps: Seq<char>, k: int)
    requires
        0 <= k <= tokens.len() == seps.len(),
        separators(seps),
        clean_tokens(tokens),
    ensures
        forall|j: int|
            0 <= j < spread(tokens, seps, k).len() ==> #[trigger] spread(tokens, seps, k)[j] != '"',
    decreases tokens.len() - k,
{
    if k < tokens.len() {
        lemma_spread_unquoted(tokens, seps, k + 1);
        let t = tokens[k];
        let rest = spread(tokens, seps, k + 1);
        let all = seq![seps[k]] + t + rest;
        assert(seps[k] == ' ' || seps[k] == '\n');
        assert(plain_token(t) || closed_comment(t));
        assert forall|j: int| 0 <= j < all.len() implies #[trigger] all[j] != '"' by {
            if j == 0 {
            } else if j < 1 + t.len() {
                assert(all[j] == t[j - 1]);
                if plain_token(t) {
                    assert(plain_char(t[j - 1]));
                }
            } else {
                assert(all[j] == rest[j - 1 - t.len()]);
            }
        }
        assert(spread(tokens, seps, k) == all);
    }
}

// ---------------------------------------------------------------------------
// Tags read back
// ---------------------------------------------------------------------------

/// A name that is not one of the parsed headers.
pub open spec fn other_name(name: Seq<char>) -> bool {
    let lower = lower_text(name);
    &&& lower != "event"@
    &&& lower != "site"@
    &&& lower != "date"@
    &&& lower != "round"@
    &&& lower != "white"@
    &&& lower != "black"@
    &&& lower != "result"@
}

#[verifier::rlimit(30)]
pub proof fn lemma_tag_names()
    ensures
        lower_text("Event"@) == "event"@,
        lower_text("Site"@) == "site"@,
        lower_text("Date"@) == "date"@,
        lower_text("Round"@) == "round"@,
        lower_text("White"@) == "white"@,
        lower_text("Black"@) == "black"@,
        lower_text("Result"@) == "result"@,
        other_name("WhiteElo"@),
        other_name("BlackElo"@),
        other_name("TimeControl"@),
        other_name("Termination"@),
        other_name("Variant"@),
        other_name("SetUp"@),
        other_name("FEN"@),
        tag_name("Event"@),
        tag_name("Site"@),
        tag_name("Date"@),
        tag_name("Round"@),
        tag_name("White"@),
        tag_name("Black"@),
        tag_name("Result"@),
        tag_name("WhiteElo"@),
        tag_name("BlackElo"@),
        tag_name("TimeControl"@),
        tag_name("Termination"@),
        tag_name("Variant"@),
        tag_name("SetUp"@),
        tag_name("FEN"@),
{
    reveal_strlit("Event");
    reveal_strlit("Site");
    reveal_strlit("Date");
    reveal_strlit("Round");
    reveal_strlit("White");
    reveal_strlit("Black");
    reveal_strlit("Result");
    reveal_strlit("WhiteElo");
    reveal_strlit("BlackElo");
    reveal_strlit("TimeControl");
    reveal_strlit("Termination");
    reveal_strlit("Variant");
    reveal_strlit("SetUp");
    reveal_strlit("FEN");
    reveal_strlit("event");
    reveal_strlit("site");
    reveal_strlit("date");
    reveal_strlit("round");
    reveal_strlit("white");
    reveal_strlit("black");
    reveal_strlit("result");
    assert(ascii_lower_text("Event"@) == "event"@);
    assert(ascii_lower_text("Site"@) == "site"@);
    assert(ascii_lower_text("Date"@) == "date"@);
    assert(ascii_lower_text("Round"@) == "round"@);
    assert(ascii_lower_text("White"@) == "white"@);
    assert(ascii_lower_text("Black"@) == "black"@);
    assert(ascii_lower_text("Result"@) == "result"@);
    assert(lower_text("WhiteElo"@)[0] == 'w');
    assert(lower_text("BlackElo"@)[0] == 'b');
    assert(lower_text("TimeControl"@)[0] == 't');
    assert(lower_text("Termination"@)[0] == 't');
    assert(lower_text("Variant"@)[0] == 'v');
    assert(lower_text("SetUp"@)[0] == 's');
    assert(lower_text("FEN"@)[0] == 'f');
    assert(tag_name("Event"@));
    assert(tag_name("Site"@));
    assert(tag_name("Date"@));
    assert(tag_name("Round"@));
    assert(tag_name("White"@));
    assert(tag_name("Black"@));
    assert(tag_name("Result"@));
    assert(tag_name("WhiteElo"@));
    assert(tag_name("BlackElo"@));
    assert(tag_name("TimeControl"@));
    assert(tag_name("Termination"@));
    assert(tag_name("Variant"@));
    assert(tag_name("SetUp"@));
    assert(tag_name("FEN"@));
}

/// A value without quotes. The header parser reads it, or passes over it where
/// it is empty.
pub open spec fn unquoted(value: Seq<char>) -> bool {
    forall|j: int| 0 <= j < value.len() ==> #[trigger] value[j] != '"'
}

proof fn lemma_escaped_unquoted(s: Seq<char>, i: int)
    requires
        0 <= i <= s.len(),
        unquoted(s),
    ensures
        forall|j: int| 0 <= j < escaped(s, i).len() ==> #[trigger] escaped(s, i)[j] != '"',
        i < s.len() ==> escaped(s, i).len() > 0,
    decreases s.len() - i,
{
    if i < s.len() {
        lemma_escaped_unquoted(s, i + 1);
        let rest = escaped(s, i + 1);
        let head = if s[i] == '\\' {
            seq!['\\', s[i]]
        } else {
            seq![s[i]]
        };
        let all = head + rest;
        assert(escaped(s, i) == all);
        assert forall|j: int| 0 <= j < all.len() implies #[trigger] all[j] != '"' by {
            if j >= head.len() {
                assert(all[j] == rest[j - head.len()]);
            }
        }
    }
}

/// The header parser reads a tag line up to its closing bracket; where the value
/// is empty it finds nothing on the line.
proof fn lemma_reads_tag(s: Seq<char>, i: int, name: Seq<char>, value: Seq<char>, rest: Seq<char>)
    requires
        0 <= i <= s.len(),
        s.skip(i) == tag_line(name, value) + rest,
        tag_name(name),
        unquoted(value),
    ensures
        value.len() > 0 ==> header_at(s, i) == Some(
            HeaderMatch {
                key: name,
                value: escaped(value, 0),
                end: i + tag_line(name, value).len() - 1,
            },
        ),
        value.len() == 0 ==> header_at(s, i) is None,
        forall|j: int|
            i < j < i + tag_line(name, value).len() && value.len() == 0 ==> #[trigger] s[j] != '[',
        i + tag_line(name, value).len() <= s.len(),
        s[i + tag_line(name, value).len() - 1] == '\n',
        s.skip(i + tag_line(name, value).len()) == rest,
{
    reveal_strlit("[");
    reveal_strlit(" \"");
    reveal_strlit("\"]\n");
    lemma_escaped_unquoted(value, 0);
    let line = tag_line(name, value);
    let esc = escaped(value, 0);
    let n = name.len() as int;
    let m = esc.len() as int;
    assert(line.len() == 1 + n + 2 + m + 3);
    assert(s.skip(i).len() == s.len() - i);
    assert forall|j: int| 0 <= j < line.len() implies s[i + j] == #[trigger] line[j] by {
        assert(s.skip(i)[j] == s[i + j]);
        assert((line + rest)[j] == line[j]);
    }
    assert(s.skip(i + line.len()) == s.skip(i).skip(line.len() as int));
    assert((line + rest).skip(line.len() as int) == rest);
    assert(line[0] == '[');
    assert forall|j: int| 0 <= j < n implies line[1 + j] == #[trigger] name[j] by {}
    assert(line[1 + n] == ' ');
    assert(line[2 + n] == '"');
    assert forall|j: int| 0 <= j < m implies line[3 + n + j] == #[trigger] esc[j] by {}
    assert(line[3 + n + m] == '"');
    assert(line[4 + n + m] == ']');
    assert(line[5 + n + m] == '\n');

    assert forall|j: int| i + 1 <= j < i + 1 + n implies in_class(Class::Word, #[trigger] s[j]) by {
        assert(line[j - i] == name[j - i - 1]);
        assert(ascii_word(name[j - i - 1]));
    }
    assert(s[i + (1 + n)] == line[1 + n]);
    lemma_run_end_is(s, i + 1, Class::Word, i + 1 + n);
    assert(s[i + (2 + n)] == line[2 + n]);
    lemma_run_end_is(s, i + 1 + n, Class::Space, i + 2 + n);
    assert forall|j: int| i + 3 + n <= j < i + 3 + n + m implies in_class(
        Class::Not('"'),
        #[trigger] s[j],
    ) by {
        assert(s[i + (j - i)] == line[j - i]);
        assert(line[3 + n + (j - i - 3 - n)] == esc[j - i - 3 - n]);
    }
    assert(s[i + (3 + n + m)] == line[3 + n + m]);
    lemma_run_end_is(s, i + 3 + n, Class::Not('"'), i + 3 + n + m);
    assert(s[i + (4 + n + m)] == line[4 + n + m]);
    assert(s[i + (5 + n + m)] == line[5 + n + m]);
    assert(s[i + 0] == line[0]);
    assert(s.subrange(i + 1, i + 1 + n) == name);
    assert(s.subrange(i + 3 + n, i + 3 + n + m) == esc);
    if value.len() == 0 {
        assert(m == 0);
        assert forall|j: int| i < j < i + line.len() implies #[trigger] s[j] != '[' by {
            assert(s[i + (j - i)] == line[j - i]);
            if j - i <= n {
                assert(line[1 + (j - i - 1)] == name[j - i - 1]);
                assert(ascii_word(name[j - i - 1]));
            }
        }
    }
}

/// The header parser passes over text without opening brackets.
proof fn lemma_passes_over(s: Seq<char>, i: int, next: int, h: HeadersView, end: int)
    requires
        0 <= i <= next <= s.len(),
        forall|j: int| i <= j < next ==> #[trigger] s[j] != '[',
    ensures
        read_headers(s, i, h, end) == read_headers(s, next, h, end),
    decreases next - i,
{
    if i < next {
        assert(s[i] != '[');
        assert(header_at(s, i) is None);
        lemma_passes_over(s, i + 1, next, h, end);
    }
}

/// A tag that the header parser accepts.
spec fn readable_tag(tag: (Seq<char>, Seq<char>)) -> bool {
    &&& tag_name(tag.0)
    &&& unquoted(tag.1)
    &&& lower_text(tag.0) == "result"@ ==> marked_result(trim(escaped(tag.1, 0))) is Some
}

/// The headers with one more tag, which does not count where it is empty.
spec fn header_with(h: HeadersView, tag: (Seq<char>, Seq<char>)) -> HeadersView {
    if tag.1.len() == 0 {
        h
    } else {
        with_header(h, HeaderMatch { key: tag.0, value: escaped(tag.1, 0), end: 0 })->Ok_0
    }
}

/// The headers that some tags make.
spec fn headers_from(tags: Seq<(Seq<char>, Seq<char>)>) -> HeadersView
    decreases tags.len(),
{
    if tags.len() == 0 {
        no_headers()
    } else {
        header_with(headers_from(tags.drop_last()), tags.last())
    }
}

/// Reading the lines of some tags.
proof fn lemma_reads_tags(
    s: Seq<char>,
    i: int,
    tags: Seq<(Seq<char>, Seq<char>)>,
    k: int,
    rest: Seq<char>,
    end: int,
)
    requires
        0 <= i <= s.len(),
        0 <= k <= tags.len(),
        tags.len() > 0,
        s.skip(i) == tag_block_from(tags, k) + rest,
        forall|j: int| 0 <= j < tags.len() ==> readable_tag(#[trigger] tags[j]),
        tags.last().1.len() > 0,
        k == tags.len() ==> end == i - 1,
    ensures
        read_headers(s, i, headers_from(tags.take(k)), end) == read_headers(
            s,
            s.len() - rest.len(),
            headers_from(tags),
            s.len() - rest.len() - 1,
        ),
        s.len() >= rest.len(),
        s.skip(s.len() - rest.len()) == rest,
        k < tags.len() ==> s[s.len() - rest.len() - 1] == '\n',
    decreases tags.len() - k,
{
    if k < tags.len() {
        let (name, value) = tags[k];
        let line = tag_line(name, value);
        let more = tag_block_from(tags, k + 1) + rest;
        assert(readable_tag(tags[k]));
        assert(tag_block_from(tags, k) + rest == line + more);
        lemma_reads_tag(s, i, name, value, more);
        let next = i + line.len();
        let h = headers_from(tags.take(k));
        let g = headers_from(tags.take(k + 1));
        assert(tags.take(k + 1).drop_last() == tags.take(k));
        assert(tags.take(k + 1).last() == tags[k]);
        assert(g == header_with(h, tags[k]));
        if value.len() == 0 {
            assert(read_headers(s, i, h, end) == read_headers(s, i + 1, h, end));
            lemma_passes_over(s, i + 1, next, h, end);
            lemma_reads_tags(s, next, tags, k + 1, rest, end);
        } else {
            let m = header_at(s, i)->0;
            assert(with_header(h, m) == with_header(
                h,
                HeaderMatch { key: name, value: escaped(value, 0), end: 0 },
            ));
            assert(read_headers(s, i, h, end) == read_headers(s, next - 1, g, next - 1));
            assert(header_at(s, next - 1) is None);
            assert(read_headers(s, next - 1, g, next - 1) == read_headers(s, next, g, next - 1));
            lemma_reads_tags(s, next, tags, k + 1, rest, next - 1);
        }
        if k + 1 == tags.len() {
            assert(s.skip(next).len() == s.len() - next);
            assert(more == rest);
        }
    } else {
        assert(tags.take(k) == tags);
        assert(tag_block_from(tags, k) + rest == rest);
        assert(s.skip(i).len() == s.len() - i);
    }
}

/// A text without quotes holds no headers.
proof fn lemma_reads_no_tag(s: Seq<char>, i: int, h: HeadersView, end: int)
    requires
        0 <= i <= s.len(),
        forall|j: int| i <= j < s.len() ==> #[trigger] s[j] != '"',
    ensures
        read_headers(s, i, h, end) == Ok::<(HeadersView, int), PgnErrorView>((h, end)),
    decreases s.len() - i,
{
    if i < s.len() {
        lemma_run_end(s, i + 1, Class::Word);
        lemma_run_end(s, run_end(s, i + 1, Class::Word), Class::Space);
        assert(header_at(s, i) is None);
        lemma_reads_no_tag(s, i + 1, h, end);
    }
}

/// Whether an optional value holds no quote.
pub open spec fn unquoted_option(value: Option<String>) -> bool {
    match value {
        Some(v) => unquoted(v@),
        None => true,
    }
}

/// Whether headers can be read back: none holds a quote, both players are named,
/// and the last tag written is not empty. Without that tag the parser takes its
/// line for moves.
pub open spec fn readable_headers(h: ExportHeaders) -> bool {
    &&& unquoted(h.event@)
    &&& unquoted(h.site@)
    &&& unquoted(h.date@)
    &&& unquoted(h.round@)
    &&& unquoted(h.white@)
    &&& unquoted(h.black@)
    &&& unquoted_option(h.time_control)
    &&& unquoted_option(h.termination)
    &&& unquoted_option(h.variant)
    &&& unquoted_option(h.start_fen)
    &&& h.white@.len() > 0
    &&& h.black@.len() > 0
    &&& export_tags(h).last().1.len() > 0
}

/// The map that the tags that are not empty make, with values as written.
pub open spec fn tag_map(tags: Seq<(Seq<char>, Seq<char>)>) -> Map<Seq<char>, Seq<char>>
    decreases tags.len(),
{
    if tags.len() == 0 {
        Map::empty()
    } else if tags.last().1.len() == 0 {
        tag_map(tags.drop_last())
    } else {
        tag_map(tags.drop_last()).insert(tags.last().0, escaped(tags.last().1, 0))
    }
}

/// A value as it is written, if there is one.
pub open spec fn written_value(value: Seq<char>) -> Option<Seq<char>> {
    if value.len() == 0 {
        None
    } else {
        Some(escaped(value, 0))
    }
}

/// The headers that come back from an export: every value as it is written,
/// without those that are empty.
pub open spec fn read_back(h: ExportHeaders) -> HeadersView {
    HeadersView {
        event: written_value(h.event@),
        site: written_value(h.site@),
        date: written_value(h.date@),
        round: written_value(h.round@),
        white: escaped(h.white@, 0),
        black: escaped(h.black@, 0),
        result: h.result,
        other: tag_map(supplemental_tags(h)),
    }
}

/// A tag that goes to the other headers.
spec fn other_tag(tag: (Seq<char>, Seq<char>)) -> bool {
    tag_name(tag.0) && other_name(tag.0) && unquoted(tag.1)
}

spec fn other_tags(tags: Seq<(Seq<char>, Seq<char>)>) -> bool {
    forall|j: int| 0 <= j < tags.len() ==> other_tag(#[trigger] tags[j])
}

proof fn lemma_other_tags_add(a: Seq<(Seq<char>, Seq<char>)>, b: Seq<(Seq<char>, Seq<char>)>)
    requires
        other_tags(a),
        other_tags(b),
    ensures
        other_tags(a + b),
{
    assert forall|j: int| 0 <= j < (a + b).len() implies other_tag(#[trigger] (a + b)[j]) by {
        if j < a.len() {
            assert((a + b)[j] == a[j]);
        } else {
            assert((a + b)[j] == b[j - a.len()]);
        }
    }
}

proof fn lemma_unquoted_dec(n: int)
    ensures
        unquoted(dec(n)),
{
    lemma_quotable_dec(n);
}

proof fn lemma_supplemental_tags(h: ExportHeaders)
    requires
        readable_headers(h),
    ensures
        other_tags(supplemental_tags(h)),
{
    reveal_strlit("1");
    lemma_tag_names();
    let b = optional_pair("WhiteElo"@, opt_dec(h.white_elo));
    let c = optional_pair("BlackElo"@, opt_dec(h.black_elo));
    let d = optional_pair("TimeControl"@, opt_text(h.time_control));
    let e = optional_pair("Termination"@, opt_text(h.termination));
    let f = optional_pair("Variant"@, opt_text(h.variant));
    match h.white_elo {
        Some(n) => lemma_unquoted_dec(n as int),
        None => {},
    }
    match h.black_elo {
        Some(n) => lemma_unquoted_dec(n as int),
        None => {},
    }
    assert(other_tags(b));
    assert(other_tags(c));
    assert(other_tags(d));
    assert(other_tags(e));
    assert(other_tags(f));
    assert(unquoted("1"@));
    assert(other_tags(setup_tags(h)));
    lemma_other_tags_add(b, c);
    lemma_other_tags_add(b + c, d);
    lemma_other_tags_add(b + c + d, e);
    lemma_other_tags_add(b + c + d + e, f);
    lemma_other_tags_add(b + c + d + e + f, setup_tags(h));
}

proof fn lemma_headers_with_others(
    roster: Seq<(Seq<char>, Seq<char>)>,
    others: Seq<(Seq<char>, Seq<char>)>,
)
    requires
        other_tags(others),
        headers_from(roster).other == Map::<Seq<char>, Seq<char>>::empty(),
    ensures
        headers_from(roster + others) == (HeadersView {
            other: tag_map(others),
            ..headers_from(roster)
        }),
    decreases others.len(),
{
    if others.len() == 0 {
        assert(roster + others == roster);
    } else {
        let before = others.drop_last();
        assert forall|j: int| 0 <= j < before.len() implies other_tag(#[trigger] before[j]) by {
            assert(before[j] == others[j]);
        }
        lemma_headers_with_others(roster, before);
        assert((roster + others).drop_last() == roster + before);
        assert((roster + others).last() == others.last());
        assert(other_tag(others[others.len() - 1]));
    }
}

proof fn lemma_marker_is_plain(r: GameResult)
    ensures
        escaped(result_marker(r), 0) == result_marker(r),
        unquoted(result_marker(r)),
        result_marker(r).len() > 0,
{
    reveal_strlit("1-0");
    reveal_strlit("0-1");
    reveal_strlit("1/2-1/2");
    reveal_strlit("*");
    law_plain_values_need_no_escape(result_marker(r));
}

proof fn lemma_roster_headers(h: ExportHeaders)
    ensures
        headers_from(roster_tags(h)) == (HeadersView {
            other: Map::empty(),
            ..read_back(h)
        }),
{
    lemma_tag_names();
    lemma_literals_differ();
    lemma_marker_is_plain(h.result);
    law_result_marker_reads_back(h.result);
    let r = roster_tags(h);
    assert(r.take(7) == r);
    assert(r.take(7).drop_last() == r.take(6));
    assert(r.take(6).drop_last() == r.take(5));
    assert(r.take(5).drop_last() == r.take(4));
    assert(r.take(4).drop_last() == r.take(3));
    assert(r.take(3).drop_last() == r.take(2));
    assert(r.take(2).drop_last() == r.take(1));
    assert(r.take(1).drop_last() == r.take(0));
    reveal_with_fuel(headers_from, 8);
}

proof fn lemma_literals_differ()
    ensures
        "site"@ != "event"@,
        "date"@ != "event"@,
        "date"@ != "site"@,
        "round"@ != "event"@,
        "round"@ != "site"@,
        "round"@ != "date"@,
        "white"@ != "event"@,
        "white"@ != "site"@,
        "white"@ != "date"@,
        "white"@ != "round"@,
        "black"@ != "event"@,
        "black"@ != "site"@,
        "black"@ != "date"@,
        "black"@ != "round"@,
        "black"@ != "white"@,
        "result"@ != "event"@,
        "result"@ != "site"@,
        "result"@ != "date"@,
        "result"@ != "round"@,
        "result"@ != "white"@,
        "result"@ != "black"@,
{
    reveal_strlit("event");
    reveal_strlit("site");
    reveal_strlit("date");
    reveal_strlit("round");
    reveal_strlit("white");
    reveal_strlit("black");
    reveal_strlit("result");
    assert("date"@[0] == 'd' && "site"@[0] == 's');
    assert("result"@.len() == 6 && "round"@.len() == 5);
    assert("round"@[0] == 'r' && "event"@[0] == 'e' && "white"@[0] == 'w' && "black"@[0] == 'b');
}

proof fn lemma_readable_tags(h: ExportHeaders)
    requires
        readable_headers(h),
    ensures
        forall|j: int|
            0 <= j < export_tags(h).len() ==> readable_tag(#[trigger] export_tags(h)[j]),
        headers_from(export_tags(h)) == read_back(h),
{
    lemma_tag_names();
    lemma_literals_differ();
    lemma_supplemental_tags(h);
    lemma_roster_headers(h);
    lemma_headers_with_others(roster_tags(h), supplemental_tags(h));
    lemma_marker_is_plain(h.result);
    law_result_marker_reads_back(h.result);
    let tags = export_tags(h);
    assert forall|j: int| 0 <= j < tags.len() implies readable_tag(#[trigger] tags[j]) by {
        if j < 7 {
            assert(tags[j] == roster_tags(h)[j]);
            assert(j == 0 || j == 1 || j == 2 || j == 3 || j == 4 || j == 5 || j == 6);
        } else {
            assert(tags[j] == supplemental_tags(h)[j - 7]);
            assert(other_tag(supplemental_tags(h)[j - 7]));
        }
    }
}

// ---------------------------------------------------------------------------
// Exports read back
// ---------------------------------------------------------------------------

/// A written game replays from where it starts to where it ends.
pub proof fn lemma_written_line_replays(
    fens: Seq<Seq<char>>,
    ms: Seq<Seq<char>>,
    sans: Seq<Seq<char>>,
    i: int,
)
    requires
        written_line(fens, ms, sans),
        0 <= i <= sans.len(),
    ensures
        replayed(fens[i], sans, i) == Ok::<Seq<char>, PgnErrorView>(fens.last()),
    decreases sans.len() - i,
{
    if i < sans.len() {
        lemma_written_line_replays(fens, ms, sans, i + 1);
        assert(written_ply(fens[i], ms[i], fens[i + 1], sans[i]));
        reveal_strlit("");
        let bare = move_san(fens[i], ms[i]);
        assert(bare + ""@ == bare);
    }
}

/// A document is its tag section, its spread-out tokens and a line end.
pub proof fn lemma_document_shape(
    h: ExportHeaders,
    side: Side,
    first: u32,
    sans: Seq<Seq<char>>,
    moves: Seq<MoveAnnotation>,
    analysis: bool,
) -> (seps: Seq<char>)
    requires
        sans.len() == moves.len(),
        forall|i: int| 0 <= i < sans.len() ==> written_san(#[trigger] sans[i]),
        readable_annotations(moves, analysis),
    ensures
        ({
            let tokens = document_tokens(side, first, sans, moves, analysis, h.result);
            &&& clean_tokens(tokens)
            &&& seps.len() == tokens.len()
            &&& separators(seps)
            &&& seps[0] == '\n'
            &&& seq!['\n'] + movetext(side, first, sans, moves, analysis, h.result) == spread(
                tokens,
                seps,
                0,
            )
            &&& document(h, side, first, sans, moves, analysis) == tag_section(h) + spread(
                tokens,
                seps,
                0,
            ) + seq!['\n']
        }),
{
    reveal_strlit("\n");
    let tokens = document_tokens(side, first, sans, moves, analysis, h.result);
    lemma_document_tokens(side, first, sans, moves, analysis, h.result);
    assert forall|k: int| 0 <= k < tokens.len() implies (#[trigger] tokens[k]).len() > 0 by {
        assert(plain_token(tokens[k]) || closed_comment(tokens[k]));
    }
    let seps = lemma_wrapped(tokens);
    let body = movetext(side, first, sans, moves, analysis, h.result);
    assert(body == wrapped(tokens));
    assert("\n"@ == seq!['\n']);
    let section = tag_section(h);
    assert(section + seq!['\n'] + body + seq!['\n'] == section + (seq!['\n'] + body) + seq!['\n']);
    seps
}

/// The parser reads the tags in front of a text without quotes.
proof fn lemma_reads_section(pgn: Seq<char>, h: ExportHeaders, body: Seq<char>)
    requires
        readable_headers(h),
        pgn == tag_section(h) + body,
        forall|j: int| 0 <= j < body.len() ==> #[trigger] body[j] != '"',
    ensures
        headers_of(pgn) == Ok::<(HeadersView, int), PgnErrorView>(
            (read_back(h), pgn.len() - body.len() - 1),
        ),
        pgn.len() > body.len(),
        pgn[pgn.len() - body.len() - 1] == '\n',
{
    let tags = export_tags(h);
    lemma_tag_section(h);
    lemma_readable_tags(h);
    assert(pgn.skip(0) == tag_block_from(tags, 0) + body);
    assert(tags.take(0) == Seq::<(Seq<char>, Seq<char>)>::empty());
    lemma_reads_tags(pgn, 0, tags, 0, body, 0);
    let at = pgn.len() - body.len();
    assert forall|j: int| at <= j < pgn.len() implies #[trigger] pgn[j] != '"' by {
        assert(pgn[j] == body[j - at]);
    }
    lemma_reads_no_tag(pgn, at, headers_from(tags), at - 1);
    lemma_escaped_unquoted(h.white@, 0);
    lemma_escaped_unquoted(h.black@, 0);
}

/// The parser reads the tags in front of spread-out tokens and the moves among
/// the tokens.
proof fn lemma_reads_document(
    pgn: Seq<char>,
    h: ExportHeaders,
    tokens: Seq<Seq<char>>,
    seps: Seq<char>,
)
    requires
        readable_headers(h),
        clean_tokens(tokens),
        separators(seps),
        seps.len() == tokens.len(),
        pgn == tag_section(h) + spread(tokens, seps, 0),
    ensures
        headers_of(pgn) matches Ok((headers, at)) && headers == read_back(h) && moves_of(
            pgn.skip(at),
        ) == moves_among(without_comments(tokens)),
{
    let body = spread(tokens, seps, 0);
    lemma_spread_unquoted(tokens, seps, 0);
    lemma_reads_section(pgn, h, body);
    let at = pgn.len() - body.len();
    assert(pgn.skip(at - 1) =~= seq!['\n'] + body);
    lemma_moves_of_spread(tokens, seps);
}

/// What is exported can be read back. From the document of a legal game, the
/// parser reads every header that is not empty as it is written and every move
/// in its written form, and the moves replay to the position the game ended in.
/// A header that holds a quote is not read back, nor is what follows an empty
/// last tag, nor moves with a classification that is no glyph or with a clock
/// reading that would end its comment.
pub proof fn law_exports_read_back(
    text: Seq<char>,
    h: ExportHeaders,
    moves: Seq<MoveAnnotation>,
    analysis: bool,
    start: Seq<char>,
    sans: Seq<Seq<char>>,
    end: Seq<char>,
)
    requires
        documents(text, h, moves, analysis, start, sans, end),
        readable_headers(h),
        readable_annotations(moves, analysis),
    ensures
        parsed(text) == Ok::<(HeadersView, Seq<Seq<char>>), PgnErrorView>((read_back(h), sans)),
        replayed(start, sans, 0) == Ok::<Seq<char>, PgnErrorView>(end),
{
    let (fens, ms) = choose|fens: Seq<Seq<char>>, ms: Seq<Seq<char>>| #[trigger]
        written_line(fens, ms, sans) && fens[0] == start && fens.last() == end;
    lemma_written_line_sans(fens, ms, sans);
    lemma_written_line_replays(fens, ms, sans, 0);

    let side = side_to_move(start);
    let first = full_moves(start);
    let tokens = document_tokens(side, first, sans, moves, analysis, h.result);
    let seps = lemma_document_shape(h, side, first, sans, moves, analysis);
    lemma_document_tokens(side, first, sans, moves, analysis, h.result);
    let pgn = tag_section(h) + spread(tokens, seps, 0);
    lemma_section_starts(h);
    lemma_spread_ends(tokens, seps, h.result);
    assert(pgn[0] == '[');
    assert(pgn.last() == spread(tokens, seps, 0).last());
    lemma_trim_newline(pgn);
    lemma_reads_document(pgn, h, tokens, seps);
}

/// Players, result and moves come back as they were given, where the players'
/// names hold neither quotes nor backslashes.
pub proof fn law_plain_players_read_back(
    text: Seq<char>,
    h: ExportHeaders,
    moves: Seq<MoveAnnotation>,
    analysis: bool,
    start: Seq<char>,
    sans: Seq<Seq<char>>,
    end: Seq<char>,
)
    requires
        documents(text, h, moves, analysis, start, sans, end),
        readable_headers(h),
        readable_annotations(moves, analysis),
        forall|j: int| 0 <= j < h.white@.len() ==> #[trigger] h.white@[j] != '\\',
        forall|j: int| 0 <= j < h.black@.len() ==> #[trigger] h.black@[j] != '\\',
    ensures
        parsed(text) matches Ok((headers, read)) && {
            &&& headers.white == h.white@
            &&& headers.black == h.black@
            &&& headers.result == h.result
            &&& read == sans
        },
{
    law_exports_read_back(text, h, moves, analysis, start, sans, end);
    law_plain_values_need_no_escape(h.white@);
    law_plain_values_need_no_escape(h.black@);
}

/// The same annotated moves, but for the one check mark that each SAN may carry
/// at its end.
pub open spec fn respelled(moves: Seq<MoveAnnotation>, other: Seq<MoveAnnotation>) -> bool {
    &&& same_but_marks(san_texts(moves), san_texts(other))
    &&& forall|i: int|
        0 <= i < moves.len() ==> #[trigger] other[i] == (MoveAnnotation {
            san: other[i].san,
            ..moves[i]
        })
}

proof fn lemma_respelled_tokens(
    side: Side,
    first: u32,
    sans: Seq<Seq<char>>,
    moves: Seq<MoveAnnotation>,
    other: Seq<MoveAnnotation>,
    analysis: bool,
    n: int,
)
    requires
        respelled(moves, other),
        n <= moves.len(),
    ensures
        game_tokens(side, first, sans, other, analysis, n) == game_tokens(
            side,
            first,
            sans,
            moves,
            analysis,
            n,
        ),
    decreases n,
{
    if n > 0 {
        lemma_respelled_tokens(side, first, sans, moves, other, analysis, n - 1);
        assert(other[n - 1].classification == moves[n - 1].classification);
        assert(annotation_parts(other[n - 1]) == annotation_parts(moves[n - 1]));
    }
}

/// Check marks are recomputed: a game whose moves were stored with other check
/// marks, or with none, is exported as the same document.
pub proof fn law_stored_marks_do_not_count(
    text: Seq<char>,
    h: ExportHeaders,
    moves: Seq<MoveAnnotation>,
    other: Seq<MoveAnnotation>,
    analysis: bool,
)
    requires
        documents_game(text, h, moves, analysis),
        respelled(moves, other),
    ensures
        built(h, moves, analysis) == Ok::<Seq<char>, PgnErrorView>(text),
        built(h, other, analysis) == Ok::<Seq<char>, PgnErrorView>(text),
{
    let (start, sans, end) = choose|start: Seq<char>, sans: Seq<Seq<char>>, end: Seq<char>|
        #[trigger] documents(text, h, moves, analysis, start, sans, end);
    assert(same_but_marks(san_texts(moves), san_texts(other)));
    assert(other.len() == moves.len());
    lemma_respelled_tokens(
        side_to_move(start),
        full_moves(start),
        sans,
        moves,
        other,
        analysis,
        moves.len() as int,
    );
}

/// A game from the standard position is exported with White to move first and
/// its moves numbered from one.
pub proof fn law_standard_games_are_numbered_from_one(
    h: ExportHeaders,
    moves: Seq<MoveAnnotation>,
    analysis: bool,
)
    requires
        h.start_fen is None,
    ensures
        built(h, moves, analysis) == match written_sans(start_fen(), san_texts(moves), 0) {
            Err(e) => Err::<Seq<char>, PgnErrorView>(e),
            Ok(sans) => Ok(document(h, Side::White, 1, sans, moves, analysis)),
        },
{
    lemma_start_fen_fields();
}

/// A line end behind a text without white space at its ends is trimmed.
proof fn lemma_trim_newline(s: Seq<char>)
    requires
        s.len() > 0,
        !white_space(s[0]),
        !white_space(s.last()),
    ensures
        trim(s + seq!['\n']) == s,
{
    let t = s + seq!['\n'];
    assert(t[0] == s[0]);
    assert(run_end(t, 0, Class::Space) == 0);
    assert(t.skip(0) == t);
    let n = t.len() as int;
    assert(t[n - 1] == '\n');
    assert(t[n - 2] == s.last());
    assert(run_start(t, n - 1, Class::Space) == n - 1);
    assert(run_start(t, n, Class::Space) == n - 1);
    assert(t.take(n - 1) == s);
}

/// A spread that ends with a result marker does not end with white space.
proof fn lemma_spread_ends(tokens: Seq<Seq<char>>, seps: Seq<char>, result: GameResult)
    requires
        tokens.len() > 0,
        tokens.last() == result_marker(result),
    ensures
        spread(tokens, seps, 0).len() > 0,
        !white_space(spread(tokens, seps, 0).last()),
{
    let n = tokens.len() as int;
    lemma_marker_token(result);
    lemma_laid_spread(tokens, seps, n);
    let t = tokens[n - 1];
    assert(plain_char(t[t.len() - 1]));
    assert(spread(tokens, seps, 0) == laid(tokens, seps, n - 1) + seq![seps[n - 1]] + t);
}

} // verus!
