//! What writing a game is for: everything that is known of it stands in the
//! document, where it belongs, and can be read there.

use vstd::prelude::*;

use crate::board::{fen_error, full_moves, set_up, side_to_move, start_fen, Side};
use crate::pgn::{GameResult, PgnErrorView};
use crate::pgn_export::{
    built, clock_tag, comment_tokens, document, escaped, eval_tag, exported, game_tokens, laid_out,
    move_number, move_token, movetext, number_tokens, pawns, san_texts, start_of, tag_section,
    wrapped, written_sans, ExportHeaders, MoveAnnotation,
};
use crate::pgn_layout::export_tags;
use crate::pgn_tags::unescaped;
use crate::text::{dec, dec_nat, digit_char, join, utf8_width};
use crate::text_laws::{integer, law_numbers_read_back, numeral, place_value};

verus! {

// ---------------------------------------------------------------------------
// Annotations
// ---------------------------------------------------------------------------

/// The number of hundredths that a decimal with two places stands for.
pub open spec fn hundredths(s: Seq<char>) -> int {
    let n = s.len() as int;
    let whole = integer(s.take(n - 3));
    let part = place_value(s.skip(n - 2));
    if s[0] == '-' {
        100 * whole - part
    } else {
        100 * whole + part
    }
}

/// Evaluations can be read from the document: a mate distance behind `#`, as the
/// numeral that stands for it, sign included, and otherwise the centipawns as
/// pawns with two places, sign included. A mate distance takes precedence, and a
/// move without an evaluation gets none.
pub proof fn law_evaluations_read_back(ann: MoveAnnotation)
    ensures
        ann.eval_mate is None && ann.eval_centipawns is None ==> eval_tag(ann) is None,
        ann.eval_mate matches Some(mate) ==> {
            &&& eval_tag(ann) is Some
            &&& ({
                let t = eval_tag(ann)->0;
                let n = t.len() as int;
                let value = t.subrange(8, n - 1);
                &&& n >= 10
                &&& t.take(8) == "[%eval #"@
                &&& t[n - 1] == ']'
                &&& integer(value) == mate
                &&& value[0] == '-' <==> mate < 0
                &&& mate >= 0 ==> numeral(value)
                &&& mate < 0 ==> numeral(value.skip(1))
            })
        },
        ann.eval_mate is None ==> (ann.eval_centipawns matches Some(cp) ==> {
            &&& eval_tag(ann) is Some
            &&& ({
                let t = eval_tag(ann)->0;
                let n = t.len() as int;
                let value = t.subrange(7, n - 1);
                let m = value.len() as int;
                &&& n >= 12
                &&& t.take(7) == "[%eval "@
                &&& t[n - 1] == ']'
                &&& value[m - 3] == '.'
                &&& '0' <= value[m - 2] <= '9'
                &&& '0' <= value[m - 1] <= '9'
                &&& hundredths(value) == cp
                &&& value[0] == '-' <==> cp < 0
                &&& cp >= 0 ==> numeral(value.take(m - 3))
                &&& cp < 0 ==> numeral(value.subrange(1, m - 3))
            })
        }),
{
    reveal_strlit("[%eval #");
    reveal_strlit("[%eval ");
    reveal_strlit("]");
    match ann.eval_mate {
        Some(mate) => {
            let t = eval_tag(ann)->0;
            let n = t.len() as int;
            law_numbers_read_back(mate as int);
            assert(t.take(8) =~= "[%eval #"@);
            assert(t.subrange(8, n - 1) =~= dec(mate as int));
        },
        None => match ann.eval_centipawns {
            Some(cp) => {
                let t = eval_tag(ann)->0;
                let n = t.len() as int;
                let value = pawns(cp as int);
                lemma_pawns(cp as int);
                assert(t.take(7) =~= "[%eval "@);
                assert(t.subrange(7, n - 1) =~= value);
            },
            None => {},
        },
    }
}

proof fn lemma_pawns(cp: int)
    ensures
        ({
            let value = pawns(cp);
            let m = value.len() as int;
            &&& m >= 4
            &&& value[m - 3] == '.'
            &&& '0' <= value[m - 2] <= '9'
            &&& '0' <= value[m - 1] <= '9'
            &&& hundredths(value) == cp
            &&& value[0] == '-' <==> cp < 0
            &&& cp >= 0 ==> numeral(value.take(m - 3))
            &&& cp < 0 ==> numeral(value.subrange(1, m - 3))
        }),
{
    let size = if cp < 0 {
        -cp
    } else {
        cp
    };
    let whole = size / 100;
    let value = pawns(cp);
    let m = value.len() as int;
    let tens = digit_char(size / 10 % 10);
    let ones = digit_char(size % 10);
    law_numbers_read_back(whole);
    let digits = dec_nat(whole as nat);
    assert(digits[0] != '-');
    assert(value.skip(m - 2) =~= seq![tens, ones]);
    reveal_with_fuel(place_value, 3);
    assert(seq![tens, ones].drop_last() =~= seq![tens]);
    assert(seq![tens].drop_last() =~= seq![]);
    assert(place_value(seq![tens, ones]) == size % 100) by {
        assert(size % 100 == 10 * (size / 10 % 10) + size % 10);
    }
    if cp < 0 {
        assert(value.take(m - 3) =~= seq!['-'] + digits);
        assert((seq!['-'] + digits).skip(1) =~= digits);
        assert(value.subrange(1, m - 3) =~= digits);
        assert(integer(seq!['-'] + digits) == -place_value(digits));
    } else {
        assert(value.take(m - 3) =~= digits);
        assert(value[0] == digits[0]);
    }
}

/// Clock readings stand in the document as they were given.
pub proof fn law_clocks_are_written_as_given(clock: Seq<char>)
    ensures
        ({
            let t = clock_tag(clock);
            let n = t.len() as int;
            &&& t.take(6) == "[%clk "@
            &&& t.subrange(6, n - 1) == clock
            &&& t[n - 1] == ']'
        }),
{
    reveal_strlit("[%clk ");
    reveal_strlit("]");
    let t = clock_tag(clock);
    assert(t.take(6) =~= "[%clk "@);
    assert(t.subrange(6, t.len() - 1) =~= clock);
}

/// What is known of a move stands in one comment behind it, the evaluation
/// before the clock, when analysis is asked for; without that, or where nothing
/// is known, there is no comment. The glyph of a move stands right behind it,
/// either way.
pub proof fn law_annotations_follow_their_move(san: Seq<char>, ann: MoveAnnotation)
    ensures
        comment_tokens(ann, false).len() == 0,
        comment_tokens(ann, true) == match (eval_tag(ann), ann.clock) {
            (None, None) => Seq::<Seq<char>>::empty(),
            (Some(e), None) => seq!["{ "@ + e + " }"@],
            (None, Some(c)) => seq!["{ "@ + ("[%clk "@ + c@ + "]"@) + " }"@],
            (Some(e), Some(c)) => seq![
                "{ "@ + (e + seq![' '] + ("[%clk "@ + c@ + "]"@)) + " }"@,
            ],
        },
        move_token(san, ann) == match ann.classification {
            Some(glyph) => san + glyph@,
            None => san,
        },
{
    let sep = seq![' '];
    reveal_with_fuel(join, 3);
    match (eval_tag(ann), ann.clock) {
        (Some(e), Some(c)) => {
            let parts = seq![e] + seq![clock_tag(c@)];
            assert(parts =~= seq![e, clock_tag(c@)]);
            assert(parts.drop_last() =~= seq![e]);
            assert(join(parts, sep) == e + sep + clock_tag(c@));
        },
        (Some(e), None) => {
            assert(seq![e] + Seq::<Seq<char>>::empty() =~= seq![e]);
        },
        (None, Some(c)) => {
            assert(Seq::<Seq<char>>::empty() + seq![clock_tag(c@)] =~= seq![clock_tag(c@)]);
        },
        (None, None) => {},
    }
}

// ---------------------------------------------------------------------------
// Movetext
// ---------------------------------------------------------------------------

/// Moves are numbered as they are played: White's moves carry the number of the
/// move and a dot, a black move that starts the game carries its number and three
/// dots, and no other black move carries a number. The number goes up by one with
/// each move of White's, from that of the start position.
pub proof fn law_moves_are_numbered(side: Side, first: u32, i: int)
    requires
        0 <= i,
    ensures
        ({
            let white = (side == Side::White) == (i % 2 == 0);
            let number = move_number(side, first, i);
            &&& number_tokens(side, first, i) == if white {
                seq![dec_nat(number) + "."@]
            } else if i == 0 {
                seq![dec_nat(number) + "..."@]
            } else {
                Seq::<Seq<char>>::empty()
            }
            &&& first + i < u32::MAX ==> number == first + (i + (if side == Side::White {
                0int
            } else {
                1
            })) / 2
            &&& number <= u32::MAX
            &&& i < u32::MAX ==> (first + (i + (if side == Side::White {
                0int
            } else {
                1
            })) / 2 - number) % 0x1_0000_0000 == 0
        }),
{
}

/// The movetext holds the moves in their order, each behind its number and in
/// front of its comment, and the result behind all of them.
pub proof fn law_plies_follow_each_other(
    side: Side,
    first: u32,
    sans: Seq<Seq<char>>,
    moves: Seq<MoveAnnotation>,
    analysis: bool,
    i: int,
    result: GameResult,
)
    requires
        0 <= i < moves.len(),
    ensures
        game_tokens(side, first, sans, moves, analysis, 0).len() == 0,
        game_tokens(side, first, sans, moves, analysis, i + 1) == game_tokens(
            side,
            first,
            sans,
            moves,
            analysis,
            i,
        ) + number_tokens(side, first, i) + seq![move_token(sans[i], moves[i])] + comment_tokens(
            moves[i],
            analysis,
        ),
        movetext(side, first, sans, moves, analysis, result) == wrapped(
            game_tokens(side, first, sans, moves, analysis, moves.len() as int).push(
                match result {
                    GameResult::WhiteWins => "1-0"@,
                    GameResult::BlackWins => "0-1"@,
                    GameResult::Draw => "1/2-1/2"@,
                    GameResult::Ongoing => "*"@,
                },
            ),
        ),
{
    let before = game_tokens(side, first, sans, moves, analysis, i);
    let number = number_tokens(side, first, i);
    let san = seq![move_token(sans[i], moves[i])];
    let comment = comment_tokens(moves[i], analysis);
    assert(before + (number + san + comment) =~= before + number + san + comment);
}

/// A text with its line ends made spaces.
pub open spec fn on_one_line(s: Seq<char>) -> Seq<char> {
    s.map_values(
        |c: char|
            if c == '\n' {
                ' '
            } else {
                c
            },
    )
}

/// Laying tokens out in lines only chooses between a space and a line end: read
/// on one line, the text is the tokens with single spaces between them.
pub proof fn law_lines_only_break(tokens: Seq<Seq<char>>)
    requires
        forall|i: int| 0 <= i < tokens.len() ==> (#[trigger] tokens[i]).len() > 0,
    ensures
        on_one_line(wrapped(tokens)) == on_one_line(join(tokens, seq![' '])),
{
    let n = tokens.len() as int;
    lemma_laid_on_one_line(tokens, n);
    assert(tokens.take(n) =~= tokens);
    let (lines, line) = laid_out(tokens, n);
    if n == 0 {
        assert(wrapped(tokens) =~= seq![]);
        assert(join(tokens, seq![' ']) =~= seq![]);
    }
}

proof fn lemma_laid_on_one_line(tokens: Seq<Seq<char>>, n: int)
    requires
        0 <= n <= tokens.len(),
        forall|i: int| 0 <= i < tokens.len() ==> (#[trigger] tokens[i]).len() > 0,
    ensures
        n > 0 ==> laid_out(tokens, n).1.len() > 0,
        n > 0 ==> on_one_line(join(laid_out(tokens, n).0.push(laid_out(tokens, n).1), seq!['\n']))
            == on_one_line(join(tokens.take(n), seq![' '])),
        n == 0 ==> laid_out(tokens, n).0.len() == 0 && laid_out(tokens, n).1.len() == 0,
    decreases n,
{
    if n > 0 {
        lemma_laid_on_one_line(tokens, n - 1);
        let (lines, line) = laid_out(tokens, n - 1);
        let (after, filled) = laid_out(tokens, n);
        let token = tokens[n - 1];
        let upto = tokens.take(n);
        assert(upto.drop_last() =~= tokens.take(n - 1));
        assert(upto.last() == token);
        reveal_with_fuel(join, 2);
        let space = seq![' '];
        let newline = seq!['\n'];
        if n == 1 {
            assert(lines.push(token) =~= seq![token]);
            assert(upto =~= seq![token]);
        } else {
            let before = join(lines.push(line), newline);
            let spaced = join(tokens.take(n - 1), space);
            assert(join(upto, space) == spaced + space + token);
            assert(on_one_line(spaced + space + token) =~= on_one_line(before) + space
                + on_one_line(token));
            if utf8_width(line) + 1 + utf8_width(token) <= 80 {
                assert(filled == line.push(' ') + token);
                assert(lines.push(filled).drop_last() =~= lines);
                assert(lines.push(line).drop_last() =~= lines);
                let whole = join(lines.push(filled), newline);
                assert(whole =~= before + space + token);
                assert(on_one_line(whole) =~= on_one_line(before) + space + on_one_line(token));
            } else {
                assert(lines.push(line).push(token).drop_last() =~= lines.push(line));
                let whole = join(lines.push(line).push(token), newline);
                assert(whole == before + newline + token);
                assert(on_one_line(whole) =~= on_one_line(before) + space + on_one_line(token));
            }
        }
    }
}

/// Lines are filled as far as they go: a token goes on the line that is being
/// filled exactly when the line then takes at most 80 bytes.
pub proof fn law_lines_are_filled(tokens: Seq<Seq<char>>, n: int)
    requires
        0 <= n < tokens.len(),
    ensures
        ({
            let (lines, line) = laid_out(tokens, n);
            let token = tokens[n];
            laid_out(tokens, n + 1) == if line.len() == 0 {
                (lines, token)
            } else if utf8_width(line) + 1 + utf8_width(token) <= 80 {
                (lines, line + seq![' '] + token)
            } else {
                (lines.push(line), token)
            }
        }),
{
    let (lines, line) = laid_out(tokens, n);
    assert(line.push(' ') + tokens[n] =~= line + seq![' '] + tokens[n]);
}

// ---------------------------------------------------------------------------
// Tags
// ---------------------------------------------------------------------------

/// A tag value is written character by character, with a backslash before each
/// quote and each backslash.
pub proof fn law_values_are_escaped(s: Seq<char>, c: char)
    ensures
        escaped(Seq::<char>::empty(), 0) == Seq::<char>::empty(),
        escaped(s.push(c), 0) == escaped(s, 0) + (if c == '"' || c == '\\' {
            seq!['\\', c]
        } else {
            seq![c]
        }),
{
    lemma_escaped_push(s, c, 0);
}

proof fn lemma_escaped_push(s: Seq<char>, c: char, i: int)
    requires
        0 <= i <= s.len(),
    ensures
        escaped(s.push(c), i) == escaped(s, i) + (if c == '"' || c == '\\' {
            seq!['\\', c]
        } else {
            seq![c]
        }),
    decreases s.len() - i,
{
    let t = s.push(c);
    let last = if c == '"' || c == '\\' {
        seq!['\\', c]
    } else {
        seq![c]
    };
    if i < s.len() {
        assert(t[i] == s[i]);
        lemma_escaped_push(s, c, i + 1);
        let rest = escaped(s, i + 1);
        assert(seq!['\\', s[i]] + (rest + last) =~= seq!['\\', s[i]] + rest + last);
        assert(seq![s[i]] + (rest + last) =~= seq![s[i]] + rest + last);
    } else {
        reveal_with_fuel(escaped, 2);
        assert(t[i] == c);
        assert(escaped(t, i + 1) =~= seq![]);
        assert(escaped(s, i) =~= seq![]);
        assert(last + Seq::<char>::empty() =~= last);
        assert(Seq::<char>::empty() + last =~= last);
    }
}

/// Backslashes are dropped when a value is read, and what stands behind them is
/// kept; all else stays.
pub proof fn law_values_are_unescaped(a: Seq<char>, c: char, b: Seq<char>)
    requires
        forall|i: int| 0 <= i < a.len() ==> #[trigger] a[i] != '\\',
    ensures
        unescaped(a, 0) == a,
        unescaped(a + seq!['\\', c] + b, 0) == a + seq![c] + unescaped(b, 0),
{
    let n = a.len() as int;
    lemma_unescaped_before(a, 0, n);
    assert(unescaped(a, n) =~= seq![]);
    assert(a.subrange(0, n) + seq![] =~= a);
    let t = a + seq!['\\', c] + b;
    assert forall|j: int| 0 <= j < n implies #[trigger] t[j] != '\\' by {
        assert(t[j] == a[j]);
    }
    lemma_unescaped_before(t, 0, n);
    assert(t.subrange(0, n) =~= a);
    assert(t[n] == '\\' && t[n + 1] == c);
    assert(t.skip(n + 2) =~= b.skip(0));
    lemma_unescaped_shift(t, n + 2, b, 0);
    assert(a + (seq![c] + unescaped(b, 0)) =~= a + seq![c] + unescaped(b, 0));
}

proof fn lemma_unescaped_before(s: Seq<char>, i: int, n: int)
    requires
        0 <= i <= n <= s.len(),
        forall|j: int| 0 <= j < n ==> #[trigger] s[j] != '\\',
    ensures
        unescaped(s, i) == s.subrange(i, n) + unescaped(s, n),
    decreases n - i,
{
    if i < n {
        lemma_unescaped_before(s, i + 1, n);
        assert(seq![s[i]] + (s.subrange(i + 1, n) + unescaped(s, n)) =~= s.subrange(i, n)
            + unescaped(s, n));
    } else {
        assert(s.subrange(i, n) + unescaped(s, n) =~= unescaped(s, n));
    }
}

proof fn lemma_unescaped_shift(t: Seq<char>, i: int, b: Seq<char>, j: int)
    requires
        0 <= i <= t.len(),
        0 <= j <= b.len(),
        t.skip(i) == b.skip(j),
    ensures
        unescaped(t, i) == unescaped(b, j),
    decreases b.len() - j,
{
    assert(t.len() - i == t.skip(i).len() == b.skip(j).len() == b.len() - j);
    if j < b.len() {
        assert(t[i] == t.skip(i)[0] == b.skip(j)[0] == b[j]);
        assert(t.skip(i + 1) =~= t.skip(i).skip(1));
        assert(b.skip(j + 1) =~= b.skip(j).skip(1));
        if b[j] == '\\' {
            if j + 1 < b.len() {
                assert(t[i + 1] == t.skip(i)[1] == b.skip(j)[1] == b[j + 1]);
                assert(t.skip(i + 2) =~= t.skip(i).skip(2));
                assert(b.skip(j + 2) =~= b.skip(j).skip(2));
                lemma_unescaped_shift(t, i + 2, b, j + 2);
            }
        } else {
            lemma_unescaped_shift(t, i + 1, b, j + 1);
        }
    }
}

/// The line of a tag is its name and its value in quotes, in brackets; the tags
/// of a document are the seven of the roster, in their order, and then those of
/// the supplement that are known.
pub proof fn law_tags_are_written_in_order(h: ExportHeaders)
    ensures
        ({
            let line = |name: Seq<char>, value: Seq<char>|
                "["@ + name + " \""@ + escaped(value, 0) + "\"]\n"@;
            let known = |name: Seq<char>, value: Option<Seq<char>>|
                match value {
                    Some(v) => line(name, v),
                    None => Seq::<char>::empty(),
                };
            tag_section(h) == (line("Event"@, h.event@) + line("Site"@, h.site@) + line(
                "Date"@,
                h.date@,
            ) + line("Round"@, h.round@) + line("White"@, h.white@) + line("Black"@, h.black@)
                + line("Result"@, marker(h.result))) + (known("WhiteElo"@, numeral_of(h.white_elo))
                + known("BlackElo"@, numeral_of(h.black_elo)) + known(
                "TimeControl"@,
                text_of(h.time_control),
            ) + known("Termination"@, text_of(h.termination)) + known(
                "Variant"@,
                text_of(h.variant),
            ) + (match h.start_fen {
                Some(fen) => line("SetUp"@, "1"@) + line("FEN"@, fen@),
                None => Seq::<char>::empty(),
            }))
        }),
{
}

/// The marker of a result.
pub open spec fn marker(result: GameResult) -> Seq<char> {
    match result {
        GameResult::WhiteWins => "1-0"@,
        GameResult::BlackWins => "0-1"@,
        GameResult::Draw => "1/2-1/2"@,
        GameResult::Ongoing => "*"@,
    }
}

/// The numeral of a number that may be known.
pub open spec fn numeral_of(n: Option<i32>) -> Option<Seq<char>> {
    match n {
        Some(n) => Some(dec(n as int)),
        None => None,
    }
}

/// The text of a value that may be known.
pub open spec fn text_of(s: Option<String>) -> Option<Seq<char>> {
    match s {
        Some(s) => Some(s@),
        None => None,
    }
}

/// What stands in the tags of a document is what the headers say: each header
/// under its name, and no tag for what is not known.
pub proof fn law_tags_say_what_the_headers_say(h: ExportHeaders)
    ensures
        ({
            let known = |name: Seq<char>, value: Option<Seq<char>>|
                match value {
                    Some(v) => seq![(name, v)],
                    None => Seq::<(Seq<char>, Seq<char>)>::empty(),
                };
            export_tags(h) == seq![
                ("Event"@, h.event@),
                ("Site"@, h.site@),
                ("Date"@, h.date@),
                ("Round"@, h.round@),
                ("White"@, h.white@),
                ("Black"@, h.black@),
                ("Result"@, marker(h.result)),
            ] + (known("WhiteElo"@, numeral_of(h.white_elo)) + known(
                "BlackElo"@,
                numeral_of(h.black_elo),
            ) + known("TimeControl"@, text_of(h.time_control)) + known(
                "Termination"@,
                text_of(h.termination),
            ) + known("Variant"@, text_of(h.variant)) + (match h.start_fen {
                Some(fen) => seq![("SetUp"@, "1"@), ("FEN"@, fen@)],
                None => Seq::<(Seq<char>, Seq<char>)>::empty(),
            }))
        }),
{
}

// ---------------------------------------------------------------------------
// Documents
// ---------------------------------------------------------------------------

/// A document is the tags, a blank line and the movetext, on lines that end.
pub proof fn law_documents_have_two_sections(
    h: ExportHeaders,
    side: Side,
    first: u32,
    sans: Seq<Seq<char>>,
    moves: Seq<MoveAnnotation>,
    analysis: bool,
)
    ensures
        document(h, side, first, sans, moves, analysis) == tag_section(h) + seq!['\n'] + movetext(
            side,
            first,
            sans,
            moves,
            analysis,
            h.result,
        ) + seq!['\n'],
{
    reveal_strlit("\n");
    assert("\n"@ =~= seq!['\n']);
}

/// Games are exported with both players named, from the standard position or the
/// one the headers set up, which has to be a legal one, with the moves as they
/// are written from there.
pub proof fn law_exports_need_players_and_a_start(
    h: ExportHeaders,
    moves: Seq<MoveAnnotation>,
    analysis: bool,
)
    ensures
        h.white@.len() == 0 ==> exported(h, moves, analysis) == Err::<Seq<char>, PgnErrorView>(
            PgnErrorView::MissingHeader("White"@),
        ),
        h.white@.len() > 0 && h.black@.len() == 0 ==> exported(h, moves, analysis) == Err::<
            Seq<char>,
            PgnErrorView,
        >(PgnErrorView::MissingHeader("Black"@)),
        h.white@.len() > 0 && h.black@.len() > 0 ==> exported(h, moves, analysis) == built(
            h,
            moves,
            analysis,
        ),
        h.start_fen is None ==> start_of(h) == Ok::<Seq<char>, PgnErrorView>(start_fen()),
        h.start_fen matches Some(fen) ==> {
            &&& fen_error(fen@) matches Some(e) ==> start_of(h) == Err::<Seq<char>, PgnErrorView>(
                PgnErrorView::InvalidFormat("invalid start FEN: "@ + e),
            )
            &&& fen_error(fen@) is None ==> start_of(h) == match set_up(fen@) {
                Ok(start) => Ok(start),
                Err(e) => Err(PgnErrorView::InvalidFormat("illegal start position: "@ + e)),
            }
        },
        built(h, moves, analysis) == match start_of(h) {
            Err(e) => Err::<Seq<char>, PgnErrorView>(e),
            Ok(start) => match written_sans(start, san_texts(moves), 0) {
                Err(e) => Err(e),
                Ok(sans) => Ok(
                    document(h, side_to_move(start), full_moves(start), sans, moves, analysis),
                ),
            },
        },
{
}

/// The lines of a movetext, each but the last with a line end behind it.
pub proof fn law_movetext_is_its_lines(tokens: Seq<Seq<char>>)
    ensures
        ({
            let (lines, line) = laid_out(tokens, tokens.len() as int);
            wrapped(tokens) == join(
                if line.len() > 0 {
                    lines.push(line)
                } else {
                    lines
                },
                seq!['\n'],
            )
        }),
        laid_out(tokens, 0).0.len() == 0 && laid_out(tokens, 0).1.len() == 0,
{
}

} // verus!
