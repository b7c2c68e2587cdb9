//! What each strict check is for: what it lets pass, and what it says of what it
//! does not.

use vstd::prelude::*;

use crate::board::{
    after_move, bare_move, fen_error, full_moves, half_moves, in_check, in_checkmate, in_stalemate,
    move_san, published_fen, san_move, san_syntax, set_up, side_to_move, start_fen, Side,
};
use crate::pgn::{marked_result, GameResult, PgnErrorView};
use crate::pgn_export::{exported, ExportHeaders, MoveAnnotation};
use crate::pgn_faults::Fault;
use crate::pgn_movetext::{move_mark, number_text, san_form, scan_items, Item};
use crate::pgn_tags::{
    date_field, date_number, has_name, roster_faults, scan_tags, tag_from, tag_of_line, tag_value,
    unescaped, valid_date, valid_escapes,
};
use crate::pgn_validator::{
    date_faults, declared_result, declared_start, ending_of, exported_validated, game_start,
    known_termination, lines_of, linted, marker_faults, marker_from, marker_of, number_faults,
    position_faults, replay_all, replay_from, replay_start, replay_step, replay_token, report_on,
    result_faults, sections, start_faults, termination_faults, termination_result_faults,
    variant_faults, verdict, writing_faults, Ending, Replay, Sections, Tags, ValidatedView,
    TERMINATION_VALUES,
};
use crate::pgn_writing_laws::marker;
use crate::text::{all_in, dec_nat, in_class, trim, trim_end, Class};
use crate::text_laws::{law_numbers_are_read_by_place, place_value};
use crate::unicode::{ascii_lower_text, decimal};

verus! {

// ---------------------------------------------------------------------------
// Terminations
// ---------------------------------------------------------------------------

/// The eighteen ways in which a game can have ended.
pub open spec fn a_termination(s: Seq<char>) -> bool {
    ||| s == "normal"@
    ||| s == "time forfeit"@
    ||| s == "timeout"@
    ||| s == "resignation"@
    ||| s == "stalemate"@
    ||| s == "50-move rule"@
    ||| s == "fifty-move rule"@
    ||| s == "abandoned"@
    ||| s == "adjudication"@
    ||| s == "death"@
    ||| s == "emergency"@
    ||| s == "rules infraction"@
    ||| s == "unterminated"@
    ||| s == "insufficient material"@
    ||| s == "agreement"@
    ||| s == "repetition"@
    ||| s == "threefold repetition"@
    ||| s == "?"@
}

/// A termination is accepted exactly when it is, whatever the case of its
/// letters, one of those listed; it has to be there, and is complained about as
/// it stands.
pub proof fn law_listed_terminations_are_accepted(s: Seq<char>)
    ensures
        known_termination(s) <==> a_termination(s),
{
    let t = TERMINATION_VALUES@;
    assert(t[0]@ == "normal"@);
    assert(t[1]@ == "time forfeit"@);
    assert(t[2]@ == "timeout"@);
    assert(t[3]@ == "resignation"@);
    assert(t[4]@ == "stalemate"@);
    assert(t[5]@ == "50-move rule"@);
    assert(t[6]@ == "fifty-move rule"@);
    assert(t[7]@ == "abandoned"@);
    assert(t[8]@ == "adjudication"@);
    assert(t[9]@ == "death"@);
    assert(t[10]@ == "emergency"@);
    assert(t[11]@ == "rules infraction"@);
    assert(t[12]@ == "unterminated"@);
    assert(t[13]@ == "insufficient material"@);
    assert(t[14]@ == "agreement"@);
    assert(t[15]@ == "repetition"@);
    assert(t[16]@ == "threefold repetition"@);
    assert(t[17]@ == "?"@);
}

/// Whether a termination goes with a result and a final position: a resignation
/// or a lapsed clock has a winner, a stalemate is a draw in a stalemate, the
/// fifty-move rule is a draw after a hundred half-moves without progress, and what
/// is not over has no result.
pub open spec fn goes_with(kind: Seq<char>, result: GameResult, end: Ending) -> bool {
    &&& kind == "resignation"@ || kind == "time forfeit"@ || kind == "timeout"@ ==> result
        is WhiteWins || result is BlackWins
    &&& kind == "stalemate"@ ==> result is Draw && end.stalemate
    &&& kind == "50-move rule"@ || kind == "fifty-move rule"@ ==> result is Draw && end.halfmoves
        >= 100
    &&& kind == "unterminated"@ ==> result is Ongoing
}

/// A termination is accepted beside a result exactly when the two go together in
/// the final position, and what does not go together is named.
pub proof fn law_terminations_go_with_results(value: Seq<char>, result: GameResult, end: Ending)
    ensures
        ({
            let kind = ascii_lower_text(value);
            let found = termination_result_faults(value, result, end);
            let mismatch = Fault::TerminationResultMismatch {
                termination: value,
                result: marker(result),
            };
            &&& found.len() == 0 <==> goes_with(kind, result, end)
            &&& found.len() <= 1
            &&& found.len() == 1 ==> found[0] == if kind == "stalemate"@ && result is Draw {
                Fault::StalemateClaimButNotStalemate
            } else if (kind == "50-move rule"@ || kind == "fifty-move rule"@) && result is Draw {
                Fault::FiftyMoveRuleNotSatisfied { halfmoves: end.halfmoves }
            } else {
                mismatch
            }
        }),
{
    reveal_strlit("resignation");
    reveal_strlit("time forfeit");
    reveal_strlit("timeout");
    reveal_strlit("stalemate");
    reveal_strlit("50-move rule");
    reveal_strlit("fifty-move rule");
    reveal_strlit("unterminated");
    assert("resignation"@.len() == 11 && "timeout"@.len() == 7 && "stalemate"@.len() == 9);
    assert("fifty-move rule"@.len() == 15 && "unterminated"@.len() == 12);
    assert("time forfeit"@[0] == 't' && "50-move rule"@[0] == '5' && "unterminated"@[0] == 'u');
}

/// A document names how its game ended, in one of the accepted ways that goes
/// with its result.
pub proof fn law_terminations_are_checked(tags: Tags, result: Option<GameResult>, end: Ending)
    ensures
        match tag_value(tags, "Termination"@) {
            None => termination_faults(tags, result, end) == seq![Fault::MissingTerminationTag],
            Some(value) => termination_faults(tags, result, end) == (if a_termination(
                ascii_lower_text(value),
            ) {
                Seq::<Fault>::empty()
            } else {
                seq![Fault::InvalidTerminationValue(value)]
            }) + (match result {
                Some(result) => termination_result_faults(value, result, end),
                None => Seq::<Fault>::empty(),
            }),
        },
        tag_value(tags, "Termination"@) matches Some(value) ==> (result matches Some(r) ==> (
        a_termination(ascii_lower_text(value)) && goes_with(ascii_lower_text(value), r, end)
            ==> termination_faults(tags, result, end).len() == 0)),
{
    match tag_value(tags, "Termination"@) {
        Some(value) => {
            law_listed_terminations_are_accepted(ascii_lower_text(value));
            match result {
                Some(r) => {
                    law_terminations_go_with_results(value, r, end);
                },
                None => {},
            }
        },
        None => {},
    }
}

// ---------------------------------------------------------------------------
// Results
// ---------------------------------------------------------------------------

/// The result has to go with the final position: whoever is checkmated has lost,
/// and a stalemate is a draw. Any other position goes with any result.
pub proof fn law_results_go_with_the_position(result: GameResult, end: Ending)
    ensures
        ({
            let found = position_faults(Some(result), end);
            let wrong = if end.checkmate {
                result != if end.side == Side::White {
                    GameResult::BlackWins
                } else {
                    GameResult::WhiteWins
                }
            } else {
                end.stalemate && result != GameResult::Draw
            };
            found == if wrong {
                seq![
                    Fault::ResultPositionMismatch {
                        result: marker(result),
                        position: if end.checkmate {
                            "checkmate"@
                        } else {
                            "stalemate"@
                        },
                    },
                ]
            } else {
                Seq::<Fault>::empty()
            }
        }),
        position_faults(None, end).len() == 0,
{
}

/// The movetext has to end with a result marker, the one that the tags declare.
pub proof fn law_markers_repeat_the_declared_result(tags: Tags, found: Option<Seq<char>>)
    ensures
        found is None ==> marker_faults(tags, found) == seq![Fault::MissingTerminationMarker],
        found matches Some(terminator) ==> marker_faults(tags, found) == match tag_value(
            tags,
            "Result"@,
        ) {
            Some(header) => if header == terminator {
                Seq::<Fault>::empty()
            } else {
                seq![Fault::ResultHeaderMismatch { header, terminator }]
            },
            None => Seq::<Fault>::empty(),
        },
{
}

/// The marker of some movetext is the first that stands there.
pub proof fn law_the_first_marker_counts(before: Seq<Item>, found: Seq<char>, after: Seq<Item>)
    requires
        forall|i: int| 0 <= i < before.len() ==> !(#[trigger] before[i] is Result),
    ensures
        marker_of(before) is None,
        marker_of(before + seq![Item::Result(found)] + after) == Some(found),
{
    lemma_marker_from(before, 0, before.len() as int);
    let all = before + seq![Item::Result(found)] + after;
    let n = before.len() as int;
    assert forall|i: int| 0 <= i < n implies !(#[trigger] all[i] is Result) by {
        assert(all[i] == before[i]);
    }
    lemma_marker_from(all, 0, n);
    assert(all[n] == Item::Result(found));
}

proof fn lemma_marker_from(all: Seq<Item>, i: int, n: int)
    requires
        0 <= i <= n <= all.len(),
        forall|j: int| 0 <= j < n ==> !(#[trigger] all[j] is Result),
    ensures
        marker_from(all, i) == marker_from(all, n),
    decreases n - i,
{
    if i < n {
        assert(!(all[i] is Result));
        lemma_marker_from(all, i + 1, n);
    }
}

/// The ending of a game is that of its final position.
pub proof fn law_endings_are_those_of_the_position(fen: Seq<char>)
    ensures
        ending_of(fen).side == side_to_move(fen),
        ending_of(fen).checkmate == in_checkmate(fen),
        ending_of(fen).stalemate == in_stalemate(fen),
        ending_of(fen).halfmoves == half_moves(fen),
{
}

// ---------------------------------------------------------------------------
// Headers
// ---------------------------------------------------------------------------

/// Whether a field of a date is a two-digit number up to a limit, or unknown.
pub open spec fn day_or_month(a: char, b: char, max: int) -> bool {
    ||| a == '?' && b == '?'
    ||| '0' <= a <= '9' && '0' <= b <= '9' && 1 <= place_value(seq![a, b]) <= max
}

/// A date is four digits, a month from 1 to 12 and a day from 1 to 31, with dots
/// between them; each of the three may be question marks instead.
pub proof fn law_dates_are_years_months_and_days(s: Seq<char>)
    requires
        s.len() == 10,
    ensures
        valid_date(s) <==> {
            &&& s[4] == '.' && s[7] == '.'
            &&& {
                ||| decimal(s[0]) && decimal(s[1]) && decimal(s[2]) && decimal(s[3])
                ||| s[0] == '?' && s[1] == '?' && s[2] == '?' && s[3] == '?'
            }
            &&& day_or_month(s[5], s[6], 12)
            &&& day_or_month(s[8], s[9], 31)
        },
{
    lemma_date_field(s, 0, 4);
    lemma_date_field(s, 5, 7);
    lemma_date_field(s, 8, 10);
    lemma_date_number(s[5], s[6], 12);
    lemma_date_number(s[8], s[9], 31);
    assert(s.subrange(5, 7) =~= seq![s[5], s[6]]);
    assert(s.subrange(8, 10) =~= seq![s[8], s[9]]);
}

/// Nothing that is longer or shorter than that is a date.
pub proof fn law_dates_have_ten_characters(s: Seq<char>)
    requires
        valid_date(s),
    ensures
        s.len() == 10,
{
}

proof fn lemma_date_field(s: Seq<char>, i: int, j: int)
    requires
        0 <= i < j <= s.len(),
    ensures
        date_field(s, i, j) <==> (forall|k: int|
            i <= k < j ==> decimal(#[trigger] s[k])) || (forall|k: int|
            i <= k < j ==> #[trigger] s[k] == '?'),
{
    let f = s.subrange(i, j);
    assert forall|k: int| i <= k < j implies s[k] == #[trigger] f[k - i] by {}
    if all_in(f, Class::Decimal) {
        assert forall|k: int| i <= k < j implies decimal(#[trigger] s[k]) by {
            assert(in_class(Class::Decimal, f[k - i]));
        }
    }
    if all_in(f, Class::Only('?')) {
        assert forall|k: int| i <= k < j implies #[trigger] s[k] == '?' by {
            assert(in_class(Class::Only('?'), f[k - i]));
        }
    }
}

proof fn lemma_date_number(a: char, b: char, max: u32)
    requires
        max < 100,
    ensures
        date_number(seq![a, b], max) <==> day_or_month(a, b, max as int),
{
    reveal_strlit("??");
    let s = seq![a, b];
    if '0' <= a <= '9' && '0' <= b <= '9' {
        law_numbers_are_read_by_place(s);
        reveal_with_fuel(place_value, 3);
        assert(s.drop_last() =~= seq![a]);
        assert(seq![a].drop_last() =~= seq![]);
        assert(s[0] != '?');
        if s == "??"@ {
            assert(s[0] == "??"@[0]);
        }
    } else {
        if all_in(s, Class::AsciiDigit) {
            assert(in_class(Class::AsciiDigit, s[0]));
            assert(in_class(Class::AsciiDigit, s[1]));
        }
        if a == '?' && b == '?' {
            assert(s =~= "??"@);
        }
        if s == "??"@ {
            assert(s[0] == "??"@[0] && s[1] == "??"@[1]);
        }
    }
}

/// A date that is none is complained about as it stands, and so is a result that
/// is none; white space around the result does not count.
pub proof fn law_dates_and_results_are_checked(tags: Tags)
    ensures
        date_faults(tags) == match tag_value(tags, "Date"@) {
            Some(date) => if valid_date(date) {
                Seq::<Fault>::empty()
            } else {
                seq![Fault::InvalidDate(date)]
            },
            None => Seq::<Fault>::empty(),
        },
        declared_result(tags) == match tag_value(tags, "Result"@) {
            Some(value) => marked_result(trim(value)),
            None => None,
        },
        result_faults(tags) == match (tag_value(tags, "Result"@), declared_result(tags)) {
            (Some(value), None) => seq![Fault::InvalidResultValue(value)],
            _ => Seq::<Fault>::empty(),
        },
{
}

/// A start position of its own is declared by both its tags, with the one value
/// that the first can have and a legal position in the second. A game that
/// declares none starts from the standard position.
pub proof fn law_start_positions_are_declared_twice(tags: Tags)
    ensures
        ({
            let setup = tag_value(tags, "SetUp"@);
            let fen = tag_value(tags, "FEN"@);
            let legal = setup == Some("1"@) && (fen matches Some(f) && fen_error(f) is None
                && set_up(f) is Ok);
            &&& declared_start(tags) is Some <==> legal
            &&& legal ==> set_up(fen->0) == Ok::<Seq<char>, Seq<char>>(declared_start(tags)->0)
            &&& game_start(tags) == match declared_start(tags) {
                Some(start) => start,
                None => start_fen(),
            }
            &&& start_faults(tags) == match (setup, fen) {
                (None, None) => Seq::<Fault>::empty(),
                (Some(_), None) => seq![Fault::SetupWithoutFen],
                (None, Some(_)) => seq![Fault::FenWithoutSetup],
                (Some(s), Some(f)) => if s != "1"@ {
                    seq![Fault::InvalidSetupValue(s)]
                } else if fen_error(f) is Some {
                    seq![Fault::InvalidStartFen(fen_error(f)->0)]
                } else {
                    match set_up(f) {
                        Ok(_) => Seq::<Fault>::empty(),
                        Err(e) => seq![Fault::InvalidStartFen(e)],
                    }
                },
            }
        }),
{
}

/// Any variant but the standard one needs a start position.
pub proof fn law_variants_need_a_start(tags: Tags, has_start: bool)
    ensures
        variant_faults(tags, has_start) == match tag_value(tags, "Variant"@) {
            Some(variant) => if has_start || ascii_lower_text(variant) == "standard"@
                || ascii_lower_text(variant) == "chess"@ {
                Seq::<Fault>::empty()
            } else {
                seq![Fault::VariantWithoutStartPosition(variant)]
            },
            None => Seq::<Fault>::empty(),
        },
{
    reveal_strlit("standard");
    reveal_strlit("chess");
    assert(ascii_lower_text("standard"@) =~= "standard"@);
    assert(ascii_lower_text("chess"@) =~= "chess"@);
}

/// The value of a tag is that of the first with its name.
pub proof fn law_the_first_tag_counts(before: Tags, name: Seq<char>, value: Seq<char>, after: Tags)
    requires
        forall|i: int| 0 <= i < before.len() ==> (#[trigger] before[i]).0 != name,
    ensures
        tag_value(before, name) is None,
        !has_name(before, name),
        has_name(before + seq![(name, value)] + after, name),
        tag_value(before + seq![(name, value)] + after, name) == Some(value),
{
    lemma_tag_from(before, 0, before.len() as int, name);
    let all = before + seq![(name, value)] + after;
    let n = before.len() as int;
    assert forall|i: int| 0 <= i < n implies (#[trigger] all[i]).0 != name by {
        assert(all[i] == before[i]);
    }
    lemma_tag_from(all, 0, n, name);
    assert(all[n] == (name, value));
}

proof fn lemma_tag_from(tags: Tags, i: int, n: int, name: Seq<char>)
    requires
        0 <= i <= n <= tags.len(),
        forall|j: int| 0 <= j < n ==> (#[trigger] tags[j]).0 != name,
    ensures
        tag_from(tags, i, name) == tag_from(tags, n, name),
    decreases n - i,
{
    if i < n {
        assert(tags[i].0 != name);
        lemma_tag_from(tags, i + 1, n, name);
    }
}

/// Tag lines are read in their order: each line that is a tag, with escapes that
/// exist and a name that is new, is kept with its value unescaped, and each other
/// line is complained about.
pub proof fn law_tag_lines_are_kept_or_named(lines: Seq<Seq<char>>, n: int)
    requires
        0 <= n < lines.len(),
    ensures
        ({
            let before = scan_tags(lines, n);
            let after = scan_tags(lines, n + 1);
            let line = trim_end(lines[n]);
            match tag_of_line(line) {
                None => after.tags == before.tags && after.errors == before.errors.push(
                    Fault::InvalidTagSyntax(line),
                ),
                Some((name, raw)) => if !valid_escapes(raw, 0) {
                    after.tags == before.tags && after.errors == before.errors.push(
                        Fault::InvalidTagEscapeSequence(line),
                    )
                } else if exists|i: int|
                    0 <= i < before.tags.len() && (#[trigger] before.tags[i]).0 == name {
                    after.tags == before.tags && after.errors == before.errors.push(
                        Fault::DuplicateTag(name),
                    )
                } else {
                    after.errors == before.errors && after.tags == before.tags.push(
                        (name, unescaped(raw, 0)),
                    )
                },
            }
        }),
        scan_tags(lines, 0).tags.len() == 0 && scan_tags(lines, 0).errors.len() == 0,
{
}

// ---------------------------------------------------------------------------
// Moves
// ---------------------------------------------------------------------------

/// Move numbers are checked: White's moves need one, with one dot; a black move
/// needs none, and three dots if it has one; and the number has to be that of the
/// move.
pub proof fn law_move_numbers_are_checked(
    ply: usize,
    pending: Option<(u32, usize)>,
    side: Side,
    fullmove: u32,
)
    ensures
        number_faults(ply, pending, side, fullmove).len() == 0 <==> match pending {
            Some((number, dots)) => number == fullmove && dots == if side == Side::White {
                1int
            } else {
                3
            },
            None => side == Side::Black,
        },
        pending is None && side == Side::White ==> number_faults(ply, pending, side, fullmove)
            == seq![Fault::MissingMoveNumber { ply }],
        pending matches Some((number, dots)) ==> number != fullmove ==> number_faults(
            ply,
            pending,
            side,
            fullmove,
        )[0] == (Fault::MoveNumberOutOfSequence { ply, expected: fullmove, found: number }),
        pending matches Some((number, dots)) ==> {
            let found = number_faults(ply, pending, side, fullmove);
            let wrong_dots = dots != if side == Side::White {
                1int
            } else {
                3
            };
            &&& wrong_dots ==> found.len() > 0 && found.last() == (Fault::InvalidMoveNumberFormat {
                ply,
                token: number_text(number, dots),
            })
            &&& found.len() == (if number != fullmove {
                1int
            } else {
                0
            }) + (if wrong_dots {
                1int
            } else {
                0
            })
        },
{
}

/// Moves have to be written as they are: the canonical SAN, and the check mark
/// that the position calls for.
pub proof fn law_moves_are_written_canonically(
    ply: usize,
    token: Seq<char>,
    expected: Seq<char>,
    mark: Seq<char>,
)
    ensures
        ({
            let found = writing_faults(ply, token, expected, mark);
            let spelling = Fault::NonCanonicalSan { ply, expected, found: bare_move(token) };
            let suffix = Fault::IncorrectCheckSuffix {
                ply,
                expected: expected + mark,
                found: token,
            };
            found == match (bare_move(token) == expected, move_mark(token) == mark) {
                (true, true) => Seq::<Fault>::empty(),
                (false, true) => seq![spelling],
                (true, false) => seq![suffix],
                (false, false) => seq![spelling, suffix],
            }
        }),
        bare_move(token) + move_mark(token) == token,
        move_mark(token) == "#"@ || move_mark(token) == "+"@ || move_mark(token) == ""@,
{
    reveal_strlit("#");
    reveal_strlit("+");
    reveal_strlit("");
    assert(bare_move(token) + move_mark(token) =~= token);
    let a = Seq::<Fault>::empty();
    let b = seq![Fault::NonCanonicalSan { ply, expected, found: bare_move(token) }];
    let c = seq![Fault::IncorrectCheckSuffix { ply, expected: expected + mark, found: token }];
    assert(a + a =~= a);
    assert(b + a =~= b);
    assert(a + c =~= c);
    assert(b + c =~= seq![b[0], c[0]]);
}

/// A move of a document is played when it can be, and otherwise complained
/// about: behind the end of the game, when it is no move, and when it is not a
/// legal one, in this order. A move that is played leads to the position after
/// it, and goes on record as it should be written.
pub proof fn law_document_moves_are_played(r: Replay, token: Seq<char>)
    ensures
        ({
            let after = replay_token(r, token);
            let ply = r.ply as usize;
            let bare = bare_move(token);
            let numbers = number_faults(ply, r.pending, side_to_move(r.fen), r.fullmove);
            let fault = if in_checkmate(r.fen) || in_stalemate(r.fen) {
                Some(Fault::MovesAfterGameOver { ply })
            } else if !san_form(bare) || !san_syntax(bare) {
                Some(Fault::InvalidMoveSyntax { ply, token })
            } else {
                match san_move(r.fen, bare) {
                    Err(reason) => Some(Fault::IllegalMove { ply, token, reason }),
                    Ok(_) => None,
                }
            };
            &&& after.pending is None
            &&& after.marker == r.marker
            &&& fault matches Some(fault) ==> {
                &&& after.errors == r.errors + numbers + seq![fault]
                &&& (after.fen, after.fullmove, after.ply, after.moves) == (
                    r.fen,
                    r.fullmove,
                    r.ply,
                    r.moves,
                )
                &&& after.halted == (r.halted || in_checkmate(r.fen) || in_stalemate(r.fen))
            }
            &&& fault is None ==> {
                let m = san_move(r.fen, bare)->Ok_0;
                let san = move_san(r.fen, m);
                let mark = if in_checkmate(after.fen) {
                    "#"@
                } else if in_check(after.fen) {
                    "+"@
                } else {
                    ""@
                };
                &&& after_move(r.fen, m) is Some ==> after_move(r.fen, m) == Some(after.fen)
                &&& after.ply == r.ply + 1
                &&& after.fullmove as int == if side_to_move(r.fen) == Side::White {
                    r.fullmove as int
                } else if r.fullmove == u32::MAX {
                    0
                } else {
                    r.fullmove + 1
                }
                &&& after.moves == r.moves.push(san + mark)
                &&& after.errors == r.errors + numbers + writing_faults(ply, token, san, mark)
                &&& after.halted == r.halted
            }
        }),
{
}

/// A document is read piece by piece, from its start position: a second number
/// before a move, a second result, anything behind a result and a number without
/// a move are complained about.
pub proof fn law_document_pieces_are_read(r: Replay, all: Seq<Item>, i: int, fen: Seq<char>)
    requires
        0 <= i < all.len(),
    ensures
        all[i] matches Item::San(token) ==> replay_step(r, all, i) == replay_token(r, token),
        all[i] matches Item::Number { number, dots } ==> {
            &&& replay_step(r, all, i) == (Replay {
                pending: Some((number, dots)),
                errors: replay_step(r, all, i).errors,
                ..r
            })
            &&& replay_step(r, all, i).errors == r.errors + (if r.pending is Some {
                seq![Fault::UnexpectedMoveNumber { ply: r.ply as usize }]
            } else {
                Seq::<Fault>::empty()
            })
        },
        all[i] matches Item::Result(found) ==> {
            let after = replay_step(r, all, i);
            &&& r.marker is None ==> after.marker == Some(found)
            &&& r.marker is Some ==> after.marker == r.marker
            &&& after.halted == (r.halted || i + 1 < all.len())
            &&& after.errors == r.errors + (if r.marker is Some {
                seq![Fault::MultipleTerminationMarkers(found)]
            } else {
                Seq::<Fault>::empty()
            }) + (if i + 1 < all.len() {
                seq![Fault::TokenAfterTermination(all[i + 1].described())]
            } else {
                Seq::<Fault>::empty()
            })
            &&& (after.fen, after.ply, after.moves, after.pending) == (
                r.fen,
                r.ply,
                r.moves,
                r.pending,
            )
        },
        replay_from(r, all, i) == if r.halted {
            r
        } else {
            replay_from(replay_step(r, all, i), all, i + 1)
        },
        replay_from(r, all, all.len() as int) == r,
        replay_start(fen) == (Replay {
            fen,
            fullmove: full_moves(fen),
            ply: 0,
            pending: None,
            moves: seq![],
            marker: None,
            errors: seq![],
            halted: false,
        }),
        ({
            let end = replay_from(replay_start(fen), all, 0);
            replay_all(fen, all) == (Replay {
                errors: end.errors + (if end.pending is Some {
                    seq![Fault::MissingMoveAfterNumber { ply: end.ply as usize }]
                } else {
                    Seq::<Fault>::empty()
                }),
                ..end
            })
        }),
{
    assert(r.errors + Seq::<Fault>::empty() =~= r.errors);
    let end = replay_from(replay_start(fen), all, 0);
    assert(end.errors + Seq::<Fault>::empty() =~= end.errors);
    match all[i] {
        Item::Result(found) => {
            let e = Seq::<Fault>::empty();
            let m = r.errors + seq![Fault::MultipleTerminationMarkers(found)];
            assert(m + e =~= m);
            assert(r.errors + e + e =~= r.errors);
        },
        _ => {},
    }
}

// ---------------------------------------------------------------------------
// Reports
// ---------------------------------------------------------------------------

/// A report names everything that is wrong with a document, section by section,
/// and holds the game exactly when nothing is: its tags, its moves as they should
/// be written, its result, and what is to be said of its final position.
pub proof fn law_reports_name_everything(doc: Sections)
    ensures
        ({
            let tags = scan_tags(doc.tag_lines, doc.tag_lines.len() as int).tags;
            let cut = scan_items(doc.movetext, 0, false);
            let replay = replay_all(game_start(tags), cut.items);
            let end = ending_of(replay.fen);
            let result = declared_result(tags);
            let report = report_on(doc);
            &&& report.errors == doc.errors + scan_tags(
                doc.tag_lines,
                doc.tag_lines.len() as int,
            ).errors + roster_faults(tags) + date_faults(tags) + result_faults(tags)
                + start_faults(tags) + variant_faults(tags, declared_start(tags) is Some)
                + cut.errors + replay.errors + (marker_faults(tags, marker_of(cut.items))
                + position_faults(result, end) + termination_faults(tags, result, end))
            &&& report.validated is Some <==> report.errors.len() == 0
            &&& report.validated matches Some(v) ==> {
                &&& v.tags == tags
                &&& v.movetext == replay.moves
                &&& result matches Some(r) ==> v.result == r
                &&& tag_value(tags, "Termination"@) matches Some(t) ==> v.termination == t
                &&& v.final_fen == published_fen(replay.fen)
                &&& v.ply_count == replay.ply
                &&& v.halfmoves == half_moves(replay.fen)
                &&& v.variant == tag_value(tags, "Variant"@)
                &&& v.is_checkmate == in_checkmate(replay.fen)
                &&& v.is_stalemate == in_stalemate(replay.fen)
            }
        }),
{
}

/// The verdict on a document is its game, or the first thing that is wrong with
/// it; a validated export is the plain one where nothing is wrong with it, and
/// otherwise says what is.
pub proof fn law_validated_exports_pass_or_say_why(
    h: ExportHeaders,
    moves: Seq<MoveAnnotation>,
    analysis: bool,
)
    ensures
        match (exported(h, moves, analysis), exported_validated(h, moves, analysis)) {
            (Err(e), Err(f)) => e == f,
            (Ok(text), Ok(same)) => same == text && linted(text).errors.len() == 0,
            (Ok(text), Err(e)) => linted(text).errors.len() > 0 && e == PgnErrorView::InvalidFormat(
                linted(text).errors[0].words(),
            ),
            (Err(_), Ok(_)) => false,
        },
        forall|text: Seq<char>| #[trigger]
            linted(text).errors.len() == 0 ==> verdict(linted(text)) == Ok::<ValidatedView, Fault>(
                linted(text).validated->0,
            ),
        forall|text: Seq<char>|
            sections(lines_of(text)) is None ==> #[trigger] linted(text).errors == seq![
                Fault::EmptyDocument,
            ],
        forall|text: Seq<char>| #[trigger]
            sections(lines_of(text)) matches Some(doc) ==> linted(text) == report_on(doc),
{
}

/// Pieces of movetext are named as they are written.
pub proof fn law_pieces_are_named_as_written(item: Item)
    ensures
        item.described() == match item {
            Item::Number { number, dots } => number_text(number, dots),
            Item::San(token) => token,
            Item::Result(found) => found,
        },
{
}

/// What is wrong is said in words that hold what was found, and where.
pub proof fn law_faults_are_said_in_words(fault: Fault)
    ensures
        fault.words() == match fault {
            Fault::EmptyDocument => "empty PGN document"@,
            Fault::MissingBlankLine => {
                "missing blank line between the tag section and the movetext"@
            },
            Fault::InvalidTagSyntax(text) => "invalid tag syntax: "@ + text,
            Fault::InvalidTagEscapeSequence(text) => {
                "invalid escape sequence in tag value: "@ + text
            },
            Fault::DuplicateTag(text) => "duplicate tag: "@ + text,
            Fault::MissingSevenTagRosterTag(text) => {
                "missing Seven Tag Roster tag: "@ + text
            },
            Fault::SevenTagRosterOutOfOrder { expected, found } => {
                "Seven Tag Roster out of order: expected "@ + expected + ", found "@ + found
            },
            Fault::InvalidDate(text) => "invalid Date tag value: "@ + text,
            Fault::InvalidResultValue(text) => "invalid Result value: "@ + text,
            Fault::ResultHeaderMismatch { header, terminator } => {
                "Result header \""@ + header + "\" does not match movetext terminator \""@
                    + terminator + "\""@
            },
            Fault::MissingTerminationTag => "missing Termination tag"@,
            Fault::InvalidTerminationValue(text) => {
                "invalid Termination value: "@ + text
            },
            Fault::InvalidSetupValue(text) => {
                "invalid SetUp value: "@ + text + " (must be \"1\")"@
            },
            Fault::SetupWithoutFen => "SetUp tag requires a FEN tag"@,
            Fault::FenWithoutSetup => "FEN tag requires SetUp \"1\""@,
            Fault::InvalidStartFen(text) => "invalid start FEN: "@ + text,
            Fault::VariantWithoutStartPosition(text) => {
                "variant \""@ + text + "\" requires SetUp/FEN start position tags"@
            },
            Fault::UnbalancedComment => "unbalanced comment braces in movetext"@,
            Fault::MalformedAnnotation(text) => {
                "malformed annotation comment: "@ + text
            },
            Fault::MalformedEvalAnnotation(text) => {
                "malformed eval annotation: "@ + text
            },
            Fault::MalformedClockAnnotation(text) => {
                "malformed clock annotation: "@ + text
            },
            Fault::VariationsNotAllowed => {
                "variations are not allowed in a canonical PGN export"@
            },
            Fault::MoveNumberOutOfSequence { ply, expected, found } => {
                "move number out of sequence at ply "@ + dec_nat(ply as nat) + ": expected "@
                    + dec_nat(expected as nat) + ", found "@ + dec_nat(found as nat)
            },
            Fault::InvalidMoveNumberFormat { ply, token } => {
                "invalid move-number format at ply "@ + dec_nat(ply as nat) + ": "@ + token
            },
            Fault::MissingMoveNumber { ply } => {
                "missing move number before the white move at ply "@ + dec_nat(ply as nat)
            },
            Fault::MissingMoveAfterNumber { ply } => {
                "move number without a following move at ply "@ + dec_nat(ply as nat)
            },
            Fault::UnexpectedMoveNumber { ply } => {
                "unexpected move-number token at ply "@ + dec_nat(ply as nat)
            },
            Fault::InvalidMoveSyntax { ply, token } => {
                "syntactically invalid SAN \""@ + token + "\" at ply "@ + dec_nat(ply as nat)
            },
            Fault::IllegalMove { ply, token, reason } => {
                "illegal move \""@ + token + "\" at ply "@ + dec_nat(ply as nat) + ": "@ + reason
            },
            Fault::NonCanonicalSan { ply, expected, found } => {
                "non-canonical SAN at ply "@ + dec_nat(ply as nat) + ": expected \""@ + expected
                    + "\", found \""@ + found + "\""@
            },
            Fault::IncorrectCheckSuffix { ply, expected, found } => {
                "incorrect check/checkmate suffix at ply "@ + dec_nat(ply as nat) + ": expected \""@
                    + expected + "\", found \""@ + found + "\""@
            },
            Fault::MovesAfterGameOver { ply } => {
                "moves continue after the game is already over (ply "@ + dec_nat(ply as nat) + ")"@
            },
            Fault::MissingTerminationMarker => "missing game termination marker"@,
            Fault::MultipleTerminationMarkers(text) => {
                "multiple termination markers: "@ + text
            },
            Fault::TokenAfterTermination(text) => {
                "unexpected token after the termination marker: "@ + text
            },
            Fault::TerminationResultMismatch { termination, result } => {
                "Termination \""@ + termination + "\" is inconsistent with result "@ + result
            },
            Fault::FiftyMoveRuleNotSatisfied { halfmoves } => {
                "Termination \"50-move rule\" requires at least 100 halfmoves, found "@
                    + dec_nat(halfmoves as nat)
            },
            Fault::StalemateClaimButNotStalemate => {
                "Termination \"Stalemate\" but the final position is not stalemate"@
            },
            Fault::ResultPositionMismatch { result, position } => {
                "result "@ + result + " is inconsistent with the final position ("@ + position
                    + ")"@
            },
        },
{
}

/// Every kind of fault has the code that callers know it by.
pub proof fn law_faults_have_their_code(fault: Fault)
    ensures
        fault.code_text() == match fault {
            Fault::EmptyDocument => "PGN_EMPTY_DOCUMENT"@,
            Fault::MissingBlankLine => "PGN_MISSING_BLANK_LINE"@,
            Fault::InvalidTagSyntax(_) => "PGN_INVALID_TAG_SYNTAX"@,
            Fault::InvalidTagEscapeSequence(_) => "PGN_INVALID_TAG_ESCAPE"@,
            Fault::DuplicateTag(_) => "PGN_DUPLICATE_TAG"@,
            Fault::MissingSevenTagRosterTag(_) => "PGN_MISSING_ROSTER_TAG"@,
            Fault::SevenTagRosterOutOfOrder { .. } => "PGN_ROSTER_OUT_OF_ORDER"@,
            Fault::InvalidDate(_) => "PGN_INVALID_DATE"@,
            Fault::InvalidResultValue(_) => "PGN_INVALID_RESULT"@,
            Fault::ResultHeaderMismatch { .. } => "PGN_RESULT_MISMATCH"@,
            Fault::MissingTerminationTag => "PGN_MISSING_TERMINATION_TAG"@,
            Fault::InvalidTerminationValue(_) => "PGN_INVALID_TERMINATION"@,
            Fault::InvalidSetupValue(_) => "PGN_INVALID_SETUP"@,
            Fault::SetupWithoutFen => "PGN_SETUP_WITHOUT_FEN"@,
            Fault::FenWithoutSetup => "PGN_FEN_WITHOUT_SETUP"@,
            Fault::InvalidStartFen(_) => "PGN_INVALID_START_FEN"@,
            Fault::VariantWithoutStartPosition(_) => "PGN_VARIANT_WITHOUT_START"@,
            Fault::UnbalancedComment => "PGN_UNBALANCED_COMMENT"@,
            Fault::MalformedAnnotation(_) => "PGN_MALFORMED_ANNOTATION"@,
            Fault::MalformedEvalAnnotation(_) => "PGN_MALFORMED_EVAL"@,
            Fault::MalformedClockAnnotation(_) => "PGN_MALFORMED_CLOCK"@,
            Fault::VariationsNotAllowed => "PGN_VARIATIONS_NOT_ALLOWED"@,
            Fault::MoveNumberOutOfSequence { .. } => "PGN_MOVE_NUMBER_SEQUENCE"@,
            Fault::InvalidMoveNumberFormat { .. } => "PGN_MOVE_NUMBER_FORMAT"@,
            Fault::MissingMoveNumber { .. } => "PGN_MISSING_MOVE_NUMBER"@,
            Fault::MissingMoveAfterNumber { .. } => "PGN_MISSING_MOVE_AFTER_NUMBER"@,
            Fault::UnexpectedMoveNumber { .. } => "PGN_UNEXPECTED_MOVE_NUMBER"@,
            Fault::InvalidMoveSyntax { .. } => "PGN_INVALID_MOVE_SYNTAX"@,
            Fault::IllegalMove { .. } => "PGN_ILLEGAL_MOVE"@,
            Fault::NonCanonicalSan { .. } => "PGN_NON_CANONICAL_SAN"@,
            Fault::IncorrectCheckSuffix { .. } => "PGN_INCORRECT_CHECK_SUFFIX"@,
            Fault::MovesAfterGameOver { .. } => "PGN_MOVES_AFTER_GAME_OVER"@,
            Fault::MissingTerminationMarker => "PGN_MISSING_TERMINATION_MARKER"@,
            Fault::MultipleTerminationMarkers(_) => {
                "PGN_MULTIPLE_TERMINATION_MARKERS"@
            },
            Fault::TokenAfterTermination(_) => "PGN_TOKEN_AFTER_TERMINATION"@,
            Fault::TerminationResultMismatch { .. } => {
                "PGN_TERMINATION_RESULT_MISMATCH"@
            },
            Fault::FiftyMoveRuleNotSatisfied { .. } => "PGN_FIFTY_MOVE_NOT_SATISFIED"@,
            Fault::StalemateClaimButNotStalemate => "PGN_STALEMATE_CLAIM_INVALID"@,
            Fault::ResultPositionMismatch { .. } => "PGN_RESULT_POSITION_MISMATCH"@,
        },
{
}

} // verus!
