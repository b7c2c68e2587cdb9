//! Strict, automated validation of exported PGN documents.
//!
//! [`crate::pgn_export`] knows how to *serialize* a game into PGN. This module
//! is the independent gate that checks the serialized document before it is
//! handed to third-party tools such as ChessBase, Lichess or SCID. It is
//! deliberately strict: an export either passes every sanity check or it is
//! rejected:
//!
//! * the Seven Tag Roster (`Event`, `Site`, `Date`, `Round`, `White`,
//!   `Black`, `Result`) must be present, syntactically valid, and must be the
//!   first seven tags of the document, in the specified order;
//! * a blank line must separate the tag section from the movetext;
//! * movetext must use canonical SAN with strictly sequential move numbers
//!   and the correct `+` / `#` suffixes, recomputed by replaying the game;
//! * the movetext must end in exactly one termination marker, which must
//!   match `[Result "..."]`, and `[Termination "..."]` must be consistent
//!   with the result and the final position;
//! * `[%eval ...]` and `[%clk ...]` annotations must use the standard formats;
//! * Chess960 and custom starting positions must declare `SetUp "1"` plus a
//!   legal `FEN`, and are validated by replaying from that position.
//!
//! [`lint_pgn_export`] collects *every* problem it finds; [`validate_pgn_export`]
//! returns the first one as a `Result`.

use vstd::prelude::*;

use crate::board::{
    after_move, bare_move, check_mark, fen_error, full_moves, half_moves, in_checkmate,
    in_stalemate, move_san, published_fen, san_move, san_syntax, set_up, side_to_move, start_fen,
    Board, FenRecord, SanToken, Side,
};
use crate::pgn::{marked_result, result_marker, GameResult, PgnError, PgnErrorView};
use crate::pgn_export::{
    documents_game, export_pgn, exported, written_game, written_line, written_ply, ExportHeaders,
    MoveAnnotation,
};
use crate::pgn_faults::{faults, report, Fault};
use crate::pgn_movetext::{
    format_number, is_san_syntax, items, move_mark, number_text, san_form, scan_items, split_suffix,
    tokenize_movetext, Item, MovetextItem,
};
use crate::pgn_tags::{
    check_roster, get_tag, is_valid_date, pairs, parse_tag_lines, roster_faults, scan_tags,
    tag_value, valid_date,
};
use crate::text::{
    chars_of, concat, is_text, join, joined, opt_text, same_str, split, split_at_char, string_of,
    strings, texts, trim, trim_start, trimmed, trimmed_start,
};
use crate::unicode::{ascii_lower_text, same_ignoring_ascii_case, to_ascii_lower_text};

pub use crate::pgn_faults::PgnValidationError;
pub use crate::pgn_tags::SEVEN_TAG_ROSTER;

verus! {

// ---------------------------------------------------------------------------
// Sections of a document
// ---------------------------------------------------------------------------

/// The text from `i` on with each line end (`\r\n` or `\r`) made a `\n`.
pub open spec fn with_newlines(s: Seq<char>, i: int) -> Seq<char>
    decreases s.len() - i,
{
    if 0 <= i < s.len() {
        if s[i] == '\r' {
            if i + 1 < s.len() && s[i + 1] == '\n' {
                seq!['\n'] + with_newlines(s, i + 2)
            } else {
                seq!['\n'] + with_newlines(s, i + 1)
            }
        } else {
            seq![s[i]] + with_newlines(s, i + 1)
        }
    } else {
        seq![]
    }
}

/// Whether a line holds nothing but white space.
pub open spec fn blank(line: Seq<char>) -> bool {
    trim(line).len() == 0
}

/// Whether a line belongs to a tag section.
pub open spec fn opens_tag(line: Seq<char>) -> bool {
    trim_start(line).len() > 0 && trim_start(line)[0] == '['
}

/// The first line from `i` on that is not blank.
pub open spec fn after_blanks(lines: Seq<Seq<char>>, i: int) -> int
    decreases lines.len() - i,
{
    if 0 <= i < lines.len() && blank(lines[i]) {
        after_blanks(lines, i + 1)
    } else {
        i
    }
}

/// The first line from `i` on that does not belong to a tag section.
pub open spec fn after_tags(lines: Seq<Seq<char>>, i: int) -> int
    decreases lines.len() - i,
{
    if 0 <= i < lines.len() && opens_tag(lines[i]) {
        after_tags(lines, i + 1)
    } else {
        i
    }
}

/// The parts of a document.
pub ghost struct Sections {
    pub tag_lines: Seq<Seq<char>>,
    pub movetext: Seq<char>,
    pub errors: Seq<Fault>,
}

/// The lines of a document.
pub open spec fn lines_of(text: Seq<char>) -> Seq<Seq<char>> {
    split(with_newlines(text, 0), '\n')
}

/// Cuts some lines into tags and movetext; `None` where all lines are blank.
/// Between the two there has to be a blank line.
pub open spec fn sections(lines: Seq<Seq<char>>) -> Option<Sections> {
    let start = after_blanks(lines, 0);
    let end = after_tags(lines, start);
    let body = if start < end {
        after_blanks(lines, end)
    } else {
        end
    };
    if start >= lines.len() {
        None
    } else {
        Some(
            Sections {
                tag_lines: lines.subrange(start, end),
                movetext: join(lines.skip(body), seq!['\n']),
                errors: if start < end && body == end && body < lines.len() {
                    seq![Fault::MissingBlankLine]
                } else {
                    seq![]
                },
            },
        )
    }
}

fn normalize_newlines(s: &[char]) -> (r: Vec<char>)
    ensures
        r@ == with_newlines(s@, 0),
{
    let mut out: Vec<char> = Vec::new();
    let mut i: usize = 0;
    while i < s.len()
        invariant
            i <= s@.len(),
            with_newlines(s@, 0) == out@ + with_newlines(s@, i as int),
        decreases s@.len() - i,
    {
        let ghost before = out@;
        if s[i] == '\r' {
            out.push('\n');
            if s.len() - i > 1 && s[i + 1] == '\n' {
                assert(before + (seq!['\n'] + with_newlines(s@, i + 2)) == out@ + with_newlines(
                    s@,
                    i + 2,
                ));
                i += 2;
            } else {
                assert(before + (seq!['\n'] + with_newlines(s@, i + 1)) == out@ + with_newlines(
                    s@,
                    i + 1,
                ));
                i += 1;
            }
        } else {
            out.push(s[i]);
            assert(before + (seq![s@[i as int]] + with_newlines(s@, i + 1)) == out@
                + with_newlines(s@, i + 1));
            i += 1;
        }
    }
    out
}

fn find_after_blanks(lines: &Vec<Vec<char>>, from: usize) -> (r: usize)
    requires
        from <= lines@.len(),
    ensures
        r == after_blanks(texts(lines@), from as int),
        from <= r <= lines@.len(),
{
    let mut i: usize = from;
    while i < lines.len() && trimmed(lines[i].as_slice()).len() == 0
        invariant
            from <= i <= lines@.len(),
            after_blanks(texts(lines@), from as int) == after_blanks(texts(lines@), i as int),
        decreases lines@.len() - i,
    {
        i += 1;
    }
    i
}

fn is_tag_start(line: &[char]) -> (r: bool)
    ensures
        r == opens_tag(line@),
{
    let t = trimmed_start(line);
    t.len() > 0 && t[0] == '['
}

fn find_after_tags(lines: &Vec<Vec<char>>, from: usize) -> (r: usize)
    requires
        from <= lines@.len(),
    ensures
        r == after_tags(texts(lines@), from as int),
        from <= r <= lines@.len(),
{
    let mut i: usize = from;
    while i < lines.len() && is_tag_start(lines[i].as_slice())
        invariant
            from <= i <= lines@.len(),
            after_tags(texts(lines@), from as int) == after_tags(texts(lines@), i as int),
        decreases lines@.len() - i,
    {
        i += 1;
    }
    i
}

// ---------------------------------------------------------------------------
// Headers
// ---------------------------------------------------------------------------

/// Tags as name/value pairs.
pub type Tags = Seq<(Seq<char>, Seq<char>)>;

/// What is wrong with the date.
pub open spec fn date_faults(tags: Tags) -> Seq<Fault> {
    match tag_value(tags, "Date"@) {
        Some(date) => if valid_date(date) {
            seq![]
        } else {
            seq![Fault::InvalidDate(date)]
        },
        None => seq![],
    }
}

/// The result that the tags declare.
pub open spec fn declared_result(tags: Tags) -> Option<GameResult> {
    match tag_value(tags, "Result"@) {
        Some(value) => marked_result(trim(value)),
        None => None,
    }
}

/// What is wrong with the declared result.
pub open spec fn result_faults(tags: Tags) -> Seq<Fault> {
    match tag_value(tags, "Result"@) {
        Some(value) => if marked_result(trim(value)) is Some {
            seq![]
        } else {
            seq![Fault::InvalidResultValue(value)]
        },
        None => seq![],
    }
}

/// The start position that the tags declare, as far as they declare a legal
/// one.
pub open spec fn declared_start(tags: Tags) -> Option<Seq<char>> {
    match (tag_value(tags, "SetUp"@), tag_value(tags, "FEN"@)) {
        (Some(setup), Some(fen)) => if setup == "1"@ && fen_error(fen) is None {
            match set_up(fen) {
                Ok(start) => Some(start),
                Err(_) => None,
            }
        } else {
            None
        },
        _ => None,
    }
}

/// What is wrong with the declared start position.
pub open spec fn start_faults(tags: Tags) -> Seq<Fault> {
    match (tag_value(tags, "SetUp"@), tag_value(tags, "FEN"@)) {
        (None, None) => seq![],
        (Some(_), None) => seq![Fault::SetupWithoutFen],
        (None, Some(_)) => seq![Fault::FenWithoutSetup],
        (Some(setup), Some(fen)) => if setup != "1"@ {
            seq![Fault::InvalidSetupValue(setup)]
        } else {
            match fen_error(fen) {
                Some(e) => seq![Fault::InvalidStartFen(e)],
                None => match set_up(fen) {
                    Ok(_) => seq![],
                    Err(e) => seq![Fault::InvalidStartFen(e)],
                },
            }
        },
    }
}

/// Whether a variant is played from the standard array.
pub open spec fn standard_variant(variant: Seq<char>) -> bool {
    ||| ascii_lower_text(variant) == ascii_lower_text("standard"@)
    ||| ascii_lower_text(variant) == ascii_lower_text("chess"@)
}

/// What is wrong with the variant: any but the standard one needs a start
/// position.
pub open spec fn variant_faults(tags: Tags, has_start: bool) -> Seq<Fault> {
    match tag_value(tags, "Variant"@) {
        Some(variant) => if standard_variant(variant) || has_start {
            seq![]
        } else {
            seq![Fault::VariantWithoutStartPosition(variant)]
        },
        None => seq![],
    }
}

/// Checks the date and the declared result, and returns the result.
pub fn check_headers(tags: &Vec<(String, String)>, errors: &mut Vec<PgnValidationError>) -> (r:
    Option<GameResult>)
    ensures
        r == declared_result(pairs(tags@)),
        faults(final(errors)@) == faults(old(errors)@) + date_faults(pairs(tags@)) + result_faults(
            pairs(tags@),
        ),
{
    let ghost given = faults(errors@);
    match get_tag(tags, "Date") {
        Some(date) => {
            if !is_valid_date(date) {
                report(errors, PgnValidationError::InvalidDate(date.to_owned()));
            }
        },
        None => {},
    }
    assert(faults(errors@) == given + date_faults(pairs(tags@)));
    let ghost dated = faults(errors@);
    let result = match get_tag(tags, "Result") {
        Some(value) => match GameResult::from_pgn_string(value) {
            Ok(result) => Some(result),
            Err(_) => {
                report(errors, PgnValidationError::InvalidResultValue(value.to_owned()));
                None
            },
        },
        None => None,
    };
    assert(faults(errors@) == dated + result_faults(pairs(tags@)));
    result
}

/// Reads the start position that the tags declare.
fn parse_start_position(
    tags: &Vec<(String, String)>,
    errors: &mut Vec<PgnValidationError>,
) -> (r: Option<Board>)
    ensures
        match r {
            Some(b) => declared_start(pairs(tags@)) == Some(b@),
            None => declared_start(pairs(tags@)) is None,
        },
        faults(final(errors)@) == faults(old(errors)@) + start_faults(pairs(tags@)),
{
    match (get_tag(tags, "SetUp"), get_tag(tags, "FEN")) {
        (None, None) => None,
        (Some(_), None) => {
            report(errors, PgnValidationError::SetupWithoutFen);
            None
        },
        (None, Some(_)) => {
            report(errors, PgnValidationError::FenWithoutSetup);
            None
        },
        (Some(setup), Some(fen)) => {
            if !same_str(setup, "1") {
                report(errors, PgnValidationError::InvalidSetupValue(setup.to_owned()));
                return None;
            }
            match FenRecord::parse(fen) {
                Err(e) => {
                    report(errors, PgnValidationError::InvalidStartFen(e));
                    None
                },
                Ok(record) => match Board::from_fen(record) {
                    Err(e) => {
                        report(errors, PgnValidationError::InvalidStartFen(e));
                        None
                    },
                    Ok(board) => Some(board),
                },
            }
        },
    }
}

/// Checks that a variant comes with a start position.
pub fn check_variant(
    tags: &Vec<(String, String)>,
    has_start: bool,
    errors: &mut Vec<PgnValidationError>,
)
    ensures
        faults(final(errors)@) == faults(old(errors)@) + variant_faults(pairs(tags@), has_start),
{
    match get_tag(tags, "Variant") {
        Some(variant) => {
            let chars = chars_of(variant);
            let standard = same_ignoring_ascii_case(
                chars.as_slice(),
                chars_of("standard").as_slice(),
            ) || same_ignoring_ascii_case(chars.as_slice(), chars_of("chess").as_slice());
            if !standard && !has_start {
                report(
                    errors,
                    PgnValidationError::VariantWithoutStartPosition(variant.to_owned()),
                );
            }
        },
        None => {},
    }
}

// ---------------------------------------------------------------------------
// Replay
// ---------------------------------------------------------------------------

/// What is wrong with the move number before a move, or with there being none:
/// White's moves are numbered `n.`, and a number before a black move is
/// `n...`.
pub open spec fn number_faults(
    ply: usize,
    pending: Option<(u32, usize)>,
    side: Side,
    fullmove: u32,
) -> Seq<Fault> {
    match pending {
        Some((number, dots)) => (if number != fullmove {
            seq![Fault::MoveNumberOutOfSequence { ply, expected: fullmove, found: number }]
        } else {
            seq![]
        }) + (if dots != (if side == Side::White {
            1usize
        } else {
            3usize
        }) {
            seq![Fault::InvalidMoveNumberFormat { ply, token: number_text(number, dots) }]
        } else {
            seq![]
        }),
        None => if side == Side::White {
            seq![Fault::MissingMoveNumber { ply }]
        } else {
            seq![]
        },
    }
}

/// What is wrong with how a legal move is written, when `expected` is its
/// canonical SAN and `mark` its check mark.
pub open spec fn writing_faults(
    ply: usize,
    token: Seq<char>,
    expected: Seq<char>,
    mark: Seq<char>,
) -> Seq<Fault> {
    (if bare_move(token) != expected {
        seq![Fault::NonCanonicalSan { ply, expected, found: bare_move(token) }]
    } else {
        seq![]
    }) + (if move_mark(token) != mark {
        seq![Fault::IncorrectCheckSuffix { ply, expected: expected + mark, found: token }]
    } else {
        seq![]
    })
}

/// The state of a replay.
pub ghost struct Replay {
    pub fen: Seq<char>,
    /// The number of the move about to be played.
    pub fullmove: u32,
    /// The number of plies played.
    pub ply: int,
    /// The move number read last, if no move came after it.
    pub pending: Option<(u32, usize)>,
    /// The moves played, as they should be written.
    pub moves: Seq<Seq<char>>,
    /// The result marker read.
    pub marker: Option<Seq<char>>,
    pub errors: Seq<Fault>,
    /// Whether the rest of the movetext is passed over.
    pub halted: bool,
}

/// A replay before its first item.
pub open spec fn replay_start(fen: Seq<char>) -> Replay {
    Replay {
        fen,
        fullmove: full_moves(fen),
        ply: 0,
        pending: None,
        moves: seq![],
        marker: None,
        errors: seq![],
        halted: false,
    }
}

/// A replay with more errors.
pub open spec fn add_errors(r: Replay, errors: Seq<Fault>) -> Replay {
    Replay { errors: r.errors + errors, ..r }
}

/// The next 32-bit number.
pub open spec fn next_number(n: u32) -> u32 {
    if n == u32::MAX {
        0
    } else {
        (n + 1) as u32
    }
}

/// A legal move played.
pub open spec fn replay_move(r: Replay, token: Seq<char>, chess_move: Seq<char>) -> Replay {
    let next = after_move(r.fen, chess_move)->0;
    let expected = move_san(r.fen, chess_move);
    let mark = check_mark(next);
    Replay {
        fen: next,
        fullmove: if side_to_move(r.fen) == Side::Black {
            next_number(r.fullmove)
        } else {
            r.fullmove
        },
        ply: r.ply + 1,
        moves: r.moves.push(expected + mark),
        errors: r.errors + writing_faults(r.ply as usize, token, expected, mark),
        ..r
    }
}

/// A move token read: its number is checked, and it is played if it is a legal
/// move. A move after the end of the game halts the replay.
pub open spec fn replay_token(r: Replay, token: Seq<char>) -> Replay {
    let ply = r.ply as usize;
    let side = side_to_move(r.fen);
    let numbered = Replay {
        pending: None,
        errors: r.errors + number_faults(ply, r.pending, side, r.fullmove),
        ..r
    };
    let bare = bare_move(token);
    if in_checkmate(r.fen) || in_stalemate(r.fen) {
        Replay { halted: true, ..add_errors(numbered, seq![Fault::MovesAfterGameOver { ply }]) }
    } else if !san_form(bare) || !san_syntax(bare) {
        add_errors(numbered, seq![Fault::InvalidMoveSyntax { ply, token }])
    } else {
        match san_move(r.fen, bare) {
            Err(reason) => add_errors(numbered, seq![Fault::IllegalMove { ply, token, reason }]),
            Ok(chess_move) => replay_move(numbered, token, chess_move),
        }
    }
}

/// Item `i` read. Anything behind a result marker halts the replay.
pub open spec fn replay_step(r: Replay, all: Seq<Item>, i: int) -> Replay {
    match all[i] {
        Item::Result(marker) => {
            let marked = match r.marker {
                Some(_) => add_errors(r, seq![Fault::MultipleTerminationMarkers(marker)]),
                None => Replay { marker: Some(marker), ..r },
            };
            if i + 1 < all.len() {
                Replay {
                    halted: true,
                    ..add_errors(
                        marked,
                        seq![Fault::TokenAfterTermination(all[i + 1].described())],
                    )
                }
            } else {
                marked
            }
        },
        Item::Number { number, dots } => Replay {
            pending: Some((number, dots)),
            ..add_errors(
                r,
                if r.pending is Some {
                    seq![Fault::UnexpectedMoveNumber { ply: r.ply as usize }]
                } else {
                    seq![]
                },
            )
        },
        Item::San(token) => replay_token(r, token),
    }
}

/// The items from `i` on read.
pub open spec fn replay_from(r: Replay, all: Seq<Item>, i: int) -> Replay
    decreases all.len() - i,
{
    if 0 <= i < all.len() && !r.halted {
        replay_from(replay_step(r, all, i), all, i + 1)
    } else {
        r
    }
}

/// All items read. A move number needs a move behind it.
pub open spec fn replay_all(fen: Seq<char>, all: Seq<Item>) -> Replay {
    let r = replay_from(replay_start(fen), all, 0);
    if r.pending is Some {
        add_errors(r, seq![Fault::MissingMoveAfterNumber { ply: r.ply as usize }])
    } else {
        r
    }
}

/// Checks the move number before a move.
pub fn check_move_number(
    ply: usize,
    pending: Option<(u32, usize)>,
    side: Side,
    fullmove: u32,
    errors: &mut Vec<PgnValidationError>,
)
    ensures
        faults(final(errors)@) == faults(old(errors)@) + number_faults(
            ply,
            pending,
            side,
            fullmove,
        ),
{
    match pending {
        Some((number, dots)) => {
            if number != fullmove {
                report(
                    errors,
                    PgnValidationError::MoveNumberOutOfSequence {
                        ply,
                        expected: fullmove,
                        found: number,
                    },
                );
            }
            let expected_dots: usize = if side == Side::White {
                1
            } else {
                3
            };
            if dots != expected_dots {
                report(
                    errors,
                    PgnValidationError::InvalidMoveNumberFormat {
                        ply,
                        token: format_number(number, dots),
                    },
                );
            }
        },
        None => {
            if side == Side::White {
                report(errors, PgnValidationError::MissingMoveNumber { ply });
            }
        },
    }
    assert(faults(errors@) == faults(old(errors)@) + number_faults(ply, pending, side, fullmove));
}

/// Checks how a legal move is written against its canonical SAN and the state
/// of the position after it, and returns how it should be written.
pub fn check_writing(
    ply: usize,
    token: &str,
    expected: &str,
    checkmate: bool,
    check: bool,
    errors: &mut Vec<PgnValidationError>,
) -> (r: String)
    ensures
        ({
            let mark = if checkmate {
                "#"@
            } else if check {
                "+"@
            } else {
                ""@
            };
            r@ == expected@ + mark && faults(final(errors)@) == faults(old(errors)@)
                + writing_faults(ply, token@, expected@, mark)
        }),
{
    let mark = if checkmate {
        "#"
    } else if check {
        "+"
    } else {
        ""
    };
    let (bare, suffix) = split_suffix(chars_of(token).as_slice());
    if !is_text(bare.as_slice(), expected) {
        report(
            errors,
            PgnValidationError::NonCanonicalSan {
                ply,
                expected: expected.to_owned(),
                found: string_of(bare.as_slice()),
            },
        );
    }
    if !same_str(suffix, mark) {
        report(
            errors,
            PgnValidationError::IncorrectCheckSuffix {
                ply,
                expected: concat(expected, mark),
                found: token.to_owned(),
            },
        );
    }
    assert(faults(errors@) == faults(old(errors)@) + writing_faults(
        ply,
        token@,
        expected@,
        mark@,
    ));
    concat(expected, mark)
}

/// Whether a replay stayed where it was or went one legal move further, written
/// as it should be.
spec fn advances(before: Replay, after: Replay) -> bool {
    ||| after.moves == before.moves && after.fen == before.fen
    ||| exists|m: Seq<char>|
        {
            &&& #[trigger] written_ply(before.fen, m, after.fen, after.moves.last())
            &&& after.moves == before.moves.push(after.moves.last())
        }
}

proof fn lemma_written_game_starts(start: Seq<char>)
    ensures
        written_game(start, seq![], start),
{
    assert(written_line(seq![start], seq![], seq![]));
}

proof fn lemma_written_game_advances(start: Seq<char>, before: Replay, after: Replay)
    requires
        written_game(start, before.moves, before.fen),
        advances(before, after),
    ensures
        written_game(start, after.moves, after.fen),
{
    if !(after.moves == before.moves && after.fen == before.fen) {
        let m = choose|m: Seq<char>|
            {
                &&& #[trigger] written_ply(before.fen, m, after.fen, after.moves.last())
                &&& after.moves == before.moves.push(after.moves.last())
            };
        let (fens, ms) = choose|fens: Seq<Seq<char>>, ms: Seq<Seq<char>>| #[trigger]
            written_line(fens, ms, before.moves) && fens[0] == start && fens.last() == before.fen;
        let longer = fens.push(after.fen);
        let more = ms.push(m);
        assert forall|j: int| 0 <= j < after.moves.len() implies written_ply(
            longer[j],
            more[j],
            longer[j + 1],
            #[trigger] after.moves[j],
        ) by {
            if j < before.moves.len() {
                assert(after.moves[j] == before.moves[j]);
            }
        }
        assert(written_line(longer, more, after.moves));
    }
}

/// A replay in progress.
struct Replayer {
    board: Board,
    fullmove: u32,
    ply: usize,
    pending: Option<(u32, usize)>,
    moves: Vec<String>,
    marker: Option<String>,
    errors: Vec<PgnValidationError>,
    halted: bool,
}

impl View for Replayer {
    type V = Replay;

    closed spec fn view(&self) -> Replay {
        Replay {
            fen: self.board@,
            fullmove: self.fullmove,
            ply: self.ply as int,
            pending: self.pending,
            moves: strings(self.moves@),
            marker: opt_text(self.marker),
            errors: faults(self.errors@),
            halted: self.halted,
        }
    }
}

impl Replayer {
    fn play_token(&mut self, token: &str)
        requires
            old(self)@.ply < usize::MAX,
        ensures
            final(self)@ == replay_token(old(self)@, token@),
            final(self)@.ply <= old(self)@.ply + 1,
            advances(old(self)@, final(self)@),
    {
        let side = self.board.side();
        let ghost before = self@;
        check_move_number(self.ply, self.pending, side, self.fullmove, &mut self.errors);
        self.pending = None;
        let ghost numbered = self@;
        assert(numbered == Replay {
            pending: None,
            errors: before.errors + number_faults(
                before.ply as usize,
                before.pending,
                side,
                before.fullmove,
            ),
            ..before
        });
        if self.board.is_checkmate() || self.board.is_stalemate() {
            report(&mut self.errors, PgnValidationError::MovesAfterGameOver { ply: self.ply });
            self.halted = true;
            assert(self@.errors == numbered.errors + seq![
                Fault::MovesAfterGameOver { ply: before.ply as usize },
            ]);
            return;
        }
        let (bare, _) = split_suffix(chars_of(token).as_slice());
        let bare = string_of(bare.as_slice());
        let san = if is_san_syntax(chars_of(bare.as_str()).as_slice()) {
            SanToken::parse(bare.as_str())
        } else {
            None
        };
        match san {
            None => {
                report(
                    &mut self.errors,
                    PgnValidationError::InvalidMoveSyntax {
                        ply: self.ply,
                        token: token.to_owned(),
                    },
                );
                assert(self@.errors == numbered.errors + seq![
                    Fault::InvalidMoveSyntax { ply: before.ply as usize, token: token@ },
                ]);
            },
            Some(san) => match san.to_move(&self.board) {
                Err(reason) => {
                    let ghost why = reason@;
                    report(
                        &mut self.errors,
                        PgnValidationError::IllegalMove {
                            ply: self.ply,
                            token: token.to_owned(),
                            reason,
                        },
                    );
                    assert(self@.errors == numbered.errors + seq![
                        Fault::IllegalMove {
                            ply: before.ply as usize,
                            token: token@,
                            reason: why,
                        },
                    ]);
                },
                Ok(chess_move) => {
                    let expected = self.board.san_of(&chess_move);
                    match self.board.play(&chess_move) {
                        None => {},
                        Some(next) => {
                            let written = check_writing(
                                self.ply,
                                token,
                                expected.as_str(),
                                next.is_checkmate(),
                                next.is_check(),
                                &mut self.errors,
                            );
                            let ghost text = written@;
                            self.moves.push(written);
                            assert(strings(self.moves@) == before.moves.push(text));
                            self.board = next;
                            if side == Side::Black {
                                self.fullmove = self.fullmove.wrapping_add(1);
                            }
                            self.ply = self.ply + 1;
                            assert(self@ == replay_move(numbered, token@, chess_move@));
                            assert(written_ply(
                                before.fen,
                                chess_move@,
                                self@.fen,
                                self@.moves.last(),
                            ));
                        },
                    }
                },
            },
        }
    }

    fn step(&mut self, all: &Vec<MovetextItem>, i: usize)
        requires
            i < all@.len(),
            old(self)@.ply <= i,
        ensures
            final(self)@ == replay_step(old(self)@, items(all@), i as int),
            final(self)@.ply <= i + 1,
            advances(old(self)@, final(self)@),
    {
        let count: usize = all.len();
        let ghost before = self@;
        assert(items(all@)[i as int] == all@[i as int]@);
        match &all[i] {
            MovetextItem::Result(marker) => {
                if self.marker.is_some() {
                    report(
                        &mut self.errors,
                        PgnValidationError::MultipleTerminationMarkers(marker.clone()),
                    );
                    assert(self@.errors == before.errors + seq![
                        Fault::MultipleTerminationMarkers(marker@),
                    ]);
                } else {
                    self.marker = Some(marker.clone());
                }
                let ghost marked = self@;
                if i + 1 < count {
                    assert(items(all@)[i + 1] == all@[i + 1]@);
                    report(
                        &mut self.errors,
                        PgnValidationError::TokenAfterTermination(all[i + 1].describe()),
                    );
                    assert(self@.errors == marked.errors + seq![
                        Fault::TokenAfterTermination(items(all@)[i + 1].described()),
                    ]);
                    self.halted = true;
                }
            },
            MovetextItem::Number { number, dots } => {
                if self.pending.is_some() {
                    report(
                        &mut self.errors,
                        PgnValidationError::UnexpectedMoveNumber { ply: self.ply },
                    );
                }
                self.pending = Some((*number, *dots));
                assert(self@.errors == before.errors + if before.pending is Some {
                    seq![Fault::UnexpectedMoveNumber { ply: before.ply as usize }]
                } else {
                    seq![]
                });
            },
            MovetextItem::San(token) => {
                self.play_token(token.as_str());
            },
        }
    }

    fn run(board: Board, all: &Vec<MovetextItem>) -> (r: Replayer)
        ensures
            r@ == replay_all(board@, items(all@)),
            written_game(board@, r@.moves, r@.fen),
    {
        let fullmove: u32 = board.fullmoves();
        let mut replay = Replayer {
            board,
            fullmove,
            ply: 0,
            pending: None,
            moves: Vec::new(),
            marker: None,
            errors: Vec::new(),
            halted: false,
        };
        assert(replay@.moves == replay_start(board@).moves);
        assert(replay@.errors == replay_start(board@).errors);
        proof {
            lemma_written_game_starts(board@);
        }
        let mut i: usize = 0;
        while i < all.len() && !replay.halted
            invariant
                i <= all@.len(),
                replay@.ply <= i,
                written_game(board@, replay@.moves, replay@.fen),
                replay_from(replay_start(board@), items(all@), 0) == replay_from(
                    replay@,
                    items(all@),
                    i as int,
                ),
            decreases all@.len() - i,
        {
            let ghost before = replay@;
            replay.step(all, i);
            proof {
                lemma_written_game_advances(board@, before, replay@);
            }
            i += 1;
        }
        let ghost done = replay@;
        if replay.pending.is_some() {
            report(
                &mut replay.errors,
                PgnValidationError::MissingMoveAfterNumber { ply: replay.ply },
            );
            assert(replay@.errors == done.errors + seq![
                Fault::MissingMoveAfterNumber { ply: done.ply as usize },
            ]);
        }
        replay
    }
}

// ---------------------------------------------------------------------------
// End of the game
// ---------------------------------------------------------------------------

/// Termination values understood by the validator, in lower case. The canonical
/// PGN values are listed alongside descriptive endings (resignation, timeout,
/// stalemate, 50-move rule, ...).
pub const TERMINATION_VALUES: [&'static str; 18] = [
    "normal",
    "time forfeit",
    "timeout",
    "resignation",
    "stalemate",
    "50-move rule",
    "fifty-move rule",
    "abandoned",
    "adjudication",
    "death",
    "emergency",
    "rules infraction",
    "unterminated",
    "insufficient material",
    "agreement",
    "repetition",
    "threefold repetition",
    "?",
];

/// What a final position says about the result of a game.
#[derive(Debug, Clone, Copy, PartialEq, Eq, Structural)]
pub struct Ending {
    pub side: Side,
    pub checkmate: bool,
    pub stalemate: bool,
    pub halfmoves: u32,
}

/// The ending that a position stands for.
pub open spec fn ending_of(fen: Seq<char>) -> Ending {
    Ending {
        side: side_to_move(fen),
        checkmate: in_checkmate(fen),
        stalemate: in_stalemate(fen),
        halfmoves: half_moves(fen),
    }
}

/// The first result marker among the items from `i` on.
pub open spec fn marker_from(all: Seq<Item>, i: int) -> Option<Seq<char>>
    decreases all.len() - i,
{
    if 0 <= i < all.len() {
        match all[i] {
            Item::Result(marker) => Some(marker),
            _ => marker_from(all, i + 1),
        }
    } else {
        None
    }
}

/// The result marker of some movetext: the first one that stands there, also
/// where the moves before it were not all played.
pub open spec fn marker_of(all: Seq<Item>) -> Option<Seq<char>> {
    marker_from(all, 0)
}

/// What is wrong with the result marker.
pub open spec fn marker_faults(tags: Tags, marker: Option<Seq<char>>) -> Seq<Fault> {
    match marker {
        None => seq![Fault::MissingTerminationMarker],
        Some(terminator) => match tag_value(tags, "Result"@) {
            Some(header) => if header != terminator {
                seq![Fault::ResultHeaderMismatch { header, terminator }]
            } else {
                seq![]
            },
            None => seq![],
        },
    }
}

/// The result that a finished game has to have: the side to move has lost when
/// it is checkmated, and a stalemate is a draw.
pub open spec fn forced_result(end: Ending) -> Option<(GameResult, Seq<char>)> {
    if end.checkmate {
        Some(
            (
                if end.side == Side::White {
                    GameResult::BlackWins
                } else {
                    GameResult::WhiteWins
                },
                "checkmate"@,
            ),
        )
    } else if end.stalemate {
        Some((GameResult::Draw, "stalemate"@))
    } else {
        None
    }
}

/// What is wrong with the declared result in the final position.
pub open spec fn position_faults(result: Option<GameResult>, end: Ending) -> Seq<Fault> {
    match (result, forced_result(end)) {
        (Some(declared), Some((forced, position))) => if declared != forced {
            seq![Fault::ResultPositionMismatch { result: result_marker(declared), position }]
        } else {
            seq![]
        },
        _ => seq![],
    }
}

/// Whether a termination, in lower case, is one of those understood.
pub open spec fn known_termination(s: Seq<char>) -> bool {
    exists|i: int| 0 <= i < 18 && (#[trigger] TERMINATION_VALUES@[i])@ == s
}

/// Whether a termination needs a winner.
pub open spec fn needs_winner(s: Seq<char>) -> bool {
    s == "resignation"@ || s == "time forfeit"@ || s == "timeout"@
}

/// Whether a termination claims the fifty-move rule.
pub open spec fn claims_fifty_moves(s: Seq<char>) -> bool {
    s == "50-move rule"@ || s == "fifty-move rule"@
}

/// What is wrong with a termination beside a declared result.
pub open spec fn termination_result_faults(
    value: Seq<char>,
    result: GameResult,
    end: Ending,
) -> Seq<Fault> {
    let kind = ascii_lower_text(value);
    let mismatch = seq![
        Fault::TerminationResultMismatch { termination: value, result: result_marker(result) },
    ];
    if needs_winner(kind) {
        if result != GameResult::WhiteWins && result != GameResult::BlackWins {
            mismatch
        } else {
            seq![]
        }
    } else if kind == "stalemate"@ {
        if result != GameResult::Draw {
            mismatch
        } else if !end.stalemate {
            seq![Fault::StalemateClaimButNotStalemate]
        } else {
            seq![]
        }
    } else if claims_fifty_moves(kind) {
        if result != GameResult::Draw {
            mismatch
        } else if end.halfmoves < 100 {
            seq![Fault::FiftyMoveRuleNotSatisfied { halfmoves: end.halfmoves }]
        } else {
            seq![]
        }
    } else if kind == "unterminated"@ {
        if result != GameResult::Ongoing {
            mismatch
        } else {
            seq![]
        }
    } else {
        seq![]
    }
}

/// What is wrong with the termination tag.
pub open spec fn termination_faults(
    tags: Tags,
    result: Option<GameResult>,
    end: Ending,
) -> Seq<Fault> {
    match tag_value(tags, "Termination"@) {
        None => seq![Fault::MissingTerminationTag],
        Some(value) => (if known_termination(ascii_lower_text(value)) {
            seq![]
        } else {
            seq![Fault::InvalidTerminationValue(value)]
        }) + (match result {
            Some(result) => termination_result_faults(value, result, end),
            None => seq![],
        }),
    }
}

/// What is wrong with the end of a game.
pub open spec fn ending_faults(
    tags: Tags,
    marker: Option<Seq<char>>,
    result: Option<GameResult>,
    end: Ending,
) -> Seq<Fault> {
    marker_faults(tags, marker) + position_faults(result, end) + termination_faults(
        tags,
        result,
        end,
    )
}

/// Finds the result marker of some movetext.
pub fn find_marker(all: &Vec<MovetextItem>) -> (r: Option<String>)
    ensures
        opt_text(r) == marker_of(items(all@)),
{
    let mut i: usize = 0;
    while i < all.len()
        invariant
            i <= all@.len(),
            marker_of(items(all@)) == marker_from(items(all@), i as int),
        decreases all@.len() - i,
    {
        assert(items(all@)[i as int] == all@[i as int]@);
        match &all[i] {
            MovetextItem::Result(marker) => {
                return Some(marker.clone());
            },
            _ => {},
        }
        i += 1;
    }
    None
}

fn is_known_termination(s: &[char]) -> (r: bool)
    ensures
        r == known_termination(s@),
{
    let mut i: usize = 0;
    while i < 18
        invariant
            i <= 18,
            forall|j: int| 0 <= j < i ==> (#[trigger] TERMINATION_VALUES@[j])@ != s@,
        decreases 18 - i,
    {
        if is_text(s, TERMINATION_VALUES[i]) {
            assert(TERMINATION_VALUES@[i as int]@ == s@);
            return true;
        }
        i += 1;
    }
    false
}

/// Checks the termination tag beside a declared result.
pub fn check_termination_result(
    value: &str,
    result: GameResult,
    end: Ending,
    errors: &mut Vec<PgnValidationError>,
)
    ensures
        faults(final(errors)@) == faults(old(errors)@) + termination_result_faults(
            value@,
            result,
            end,
        ),
{
    let kind = to_ascii_lower_text(chars_of(value).as_slice());
    let kind = kind.as_slice();
    let decisive = result == GameResult::WhiteWins || result == GameResult::BlackWins;
    let winner = is_text(kind, "resignation") || is_text(kind, "time forfeit") || is_text(
        kind,
        "timeout",
    );
    let stalemate = is_text(kind, "stalemate");
    let fifty = is_text(kind, "50-move rule") || is_text(kind, "fifty-move rule");
    let unterminated = is_text(kind, "unterminated");
    let mismatch = if winner {
        !decisive
    } else if stalemate || fifty {
        result != GameResult::Draw
    } else {
        unterminated && result != GameResult::Ongoing
    };
    if mismatch {
        report(
            errors,
            PgnValidationError::TerminationResultMismatch {
                termination: value.to_owned(),
                result: result.to_pgn_string().to_owned(),
            },
        );
    } else if !winner && stalemate && !end.stalemate {
        report(errors, PgnValidationError::StalemateClaimButNotStalemate);
    } else if !winner && !stalemate && fifty && end.halfmoves < 100 {
        report(
            errors,
            PgnValidationError::FiftyMoveRuleNotSatisfied { halfmoves: end.halfmoves },
        );
    }
    assert(faults(errors@) == faults(old(errors)@) + termination_result_faults(
        value@,
        result,
        end,
    ));
}

/// Checks the result marker against the declared result.
pub fn check_marker(
    tags: &Vec<(String, String)>,
    marker: &Option<String>,
    errors: &mut Vec<PgnValidationError>,
)
    ensures
        faults(final(errors)@) == faults(old(errors)@) + marker_faults(
            pairs(tags@),
            opt_text(*marker),
        ),
{
    match marker {
        None => {
            report(errors, PgnValidationError::MissingTerminationMarker);
        },
        Some(terminator) => match get_tag(tags, "Result") {
            Some(header) => {
                if !same_str(header, terminator.as_str()) {
                    report(
                        errors,
                        PgnValidationError::ResultHeaderMismatch {
                            header: header.to_owned(),
                            terminator: terminator.clone(),
                        },
                    );
                }
            },
            None => {},
        },
    }
}

/// Checks the declared result against the final position.
pub fn check_position_result(
    result: Option<GameResult>,
    end: Ending,
    errors: &mut Vec<PgnValidationError>,
)
    ensures
        faults(final(errors)@) == faults(old(errors)@) + position_faults(result, end),
{
    match result {
        Some(declared) => {
            let forced = if !end.checkmate {
                GameResult::Draw
            } else if end.side == Side::White {
                GameResult::BlackWins
            } else {
                GameResult::WhiteWins
            };
            let position = if end.checkmate {
                "checkmate"
            } else {
                "stalemate"
            };
            if (end.checkmate || end.stalemate) && declared != forced {
                report(
                    errors,
                    PgnValidationError::ResultPositionMismatch {
                        result: declared.to_pgn_string().to_owned(),
                        position: position.to_owned(),
                    },
                );
            }
        },
        None => {},
    }
}

/// Checks the termination tag.
pub fn check_termination(
    tags: &Vec<(String, String)>,
    result: Option<GameResult>,
    end: Ending,
    errors: &mut Vec<PgnValidationError>,
)
    ensures
        faults(final(errors)@) == faults(old(errors)@) + termination_faults(
            pairs(tags@),
            result,
            end,
        ),
{
    match get_tag(tags, "Termination") {
        None => {
            report(errors, PgnValidationError::MissingTerminationTag);
        },
        Some(value) => {
            if !is_known_termination(to_ascii_lower_text(chars_of(value).as_slice()).as_slice()) {
                report(errors, PgnValidationError::InvalidTerminationValue(value.to_owned()));
            }
            match result {
                Some(result) => {
                    check_termination_result(value, result, end, errors);
                },
                None => {},
            }
        },
    }
    assert(faults(errors@) == faults(old(errors)@) + termination_faults(
        pairs(tags@),
        result,
        end,
    ));
}

/// Checks the result marker, the declared result and the termination tag
/// against each other and against the final position.
pub fn check_ending(
    tags: &Vec<(String, String)>,
    marker: &Option<String>,
    result: Option<GameResult>,
    end: Ending,
    errors: &mut Vec<PgnValidationError>,
)
    ensures
        faults(final(errors)@) == faults(old(errors)@) + ending_faults(
            pairs(tags@),
            opt_text(*marker),
            result,
            end,
        ),
{
    check_marker(tags, marker, errors);
    check_position_result(result, end, errors);
    check_termination(tags, result, end, errors);
}

// ---------------------------------------------------------------------------
// Reports
// ---------------------------------------------------------------------------

/// A PGN export that passed every strict check.
#[derive(Debug, Clone)]
pub struct ValidatedPgnExport {
    /// Tag name/value pairs, in document order.
    pub tags: Vec<(String, String)>,
    /// Canonical SAN moves (suffixes included) as replayed by the validator.
    pub movetext: Vec<String>,
    pub result: GameResult,
    pub termination: String,
    pub final_fen: String,
    pub ply_count: usize,
    pub halfmoves: u32,
    pub variant: Option<String>,
    pub is_checkmate: bool,
    pub is_stalemate: bool,
}

/// A [`ValidatedPgnExport`] with its texts as character sequences.
pub ghost struct ValidatedView {
    pub tags: Tags,
    pub movetext: Seq<Seq<char>>,
    pub result: GameResult,
    pub termination: Seq<char>,
    pub final_fen: Seq<char>,
    pub ply_count: int,
    pub halfmoves: u32,
    pub variant: Option<Seq<char>>,
    pub is_checkmate: bool,
    pub is_stalemate: bool,
}

impl View for ValidatedPgnExport {
    type V = ValidatedView;

    open spec fn view(&self) -> ValidatedView {
        ValidatedView {
            tags: pairs(self.tags@),
            movetext: strings(self.movetext@),
            result: self.result,
            termination: self.termination@,
            final_fen: self.final_fen@,
            ply_count: self.ply_count as int,
            halfmoves: self.halfmoves,
            variant: opt_text(self.variant),
            is_checkmate: self.is_checkmate,
            is_stalemate: self.is_stalemate,
        }
    }
}

/// The full result of linting a PGN export: every violation (if any) plus the
/// parsed form when the document is clean.
#[derive(Debug, Clone)]
pub struct PgnValidationReport {
    pub errors: Vec<PgnValidationError>,
    pub validated: Option<ValidatedPgnExport>,
}

/// A [`PgnValidationReport`] with its texts as character sequences.
pub ghost struct ReportView {
    pub errors: Seq<Fault>,
    pub validated: Option<ValidatedView>,
}

impl View for PgnValidationReport {
    type V = ReportView;

    open spec fn view(&self) -> ReportView {
        ReportView {
            errors: faults(self.errors@),
            validated: match self.validated {
                Some(v) => Some(v@),
                None => None,
            },
        }
    }
}

impl Default for PgnValidationReport {
    fn default() -> (r: PgnValidationReport)
        ensures
            r.errors@.len() == 0,
            r.validated is None,
    {
        PgnValidationReport { errors: Vec::new(), validated: None }
    }
}

impl PgnValidationReport {
    /// `true` when the document satisfied every strict check.
    pub fn is_valid(&self) -> (r: bool)
        ensures
            r == (self@.errors.len() == 0 && self@.validated is Some),
    {
        self.errors.len() == 0 && self.validated.is_some()
    }
}

/// An optional text, empty where there is none.
pub open spec fn text_or_empty(s: Option<Seq<char>>) -> Seq<char> {
    match s {
        Some(t) => t,
        None => seq![],
    }
}

/// The report on the sections of a document: tags, headers, start position,
/// movetext and ending are checked in this order.
pub open spec fn report_on(doc: Sections) -> ReportView {
    let scan = scan_tags(doc.tag_lines, doc.tag_lines.len() as int);
    let tags = scan.tags;
    let result = declared_result(tags);
    let start = declared_start(tags);
    let moves = scan_items(doc.movetext, 0, false);
    let replay = replay_all(game_start(tags), moves.items);
    let end = ending_of(replay.fen);
    let errors = doc.errors + scan.errors + roster_faults(tags) + date_faults(tags)
        + result_faults(tags) + start_faults(tags) + variant_faults(tags, start is Some)
        + moves.errors + replay.errors + ending_faults(
        tags,
        marker_of(moves.items),
        result,
        end,
    );
    ReportView {
        errors,
        validated: if errors.len() == 0 {
            Some(
                ValidatedView {
                    tags,
                    movetext: replay.moves,
                    result: match result {
                        Some(r) => r,
                        None => GameResult::Ongoing,
                    },
                    termination: text_or_empty(tag_value(tags, "Termination"@)),
                    final_fen: published_fen(replay.fen),
                    ply_count: replay.ply,
                    halfmoves: end.halfmoves,
                    variant: tag_value(tags, "Variant"@),
                    is_checkmate: end.checkmate,
                    is_stalemate: end.stalemate,
                },
            )
        } else {
            None
        },
    }
}

/// The report on a document.
pub open spec fn linted(text: Seq<char>) -> ReportView {
    match sections(lines_of(text)) {
        None => ReportView { errors: seq![Fault::EmptyDocument], validated: None },
        Some(doc) => report_on(doc),
    }
}

/// The position that a document with these tags starts from.
pub open spec fn game_start(tags: Tags) -> Seq<char> {
    match declared_start(tags) {
        Some(fen) => fen,
        None => start_fen(),
    }
}

/// Whether a validated export records a legal game: its moves are the written
/// form of a game from its start position to the position it reports.
pub open spec fn records_game(v: ValidatedView) -> bool {
    exists|end: Seq<char>|
        {
            &&& #[trigger] written_game(game_start(v.tags), v.movetext, end)
            &&& v.final_fen == published_fen(end)
            &&& v.halfmoves == half_moves(end)
            &&& v.is_checkmate == in_checkmate(end)
            &&& v.is_stalemate == in_stalemate(end)
            &&& !(v.is_checkmate && v.is_stalemate)
        }
}

/// Appends some errors to others.
fn append_errors(errors: &mut Vec<PgnValidationError>, more: Vec<PgnValidationError>)
    ensures
        faults(final(errors)@) == faults(old(errors)@) + faults(more@),
{
    let ghost added = faults(more@);
    let mut rest = more;
    errors.append(&mut rest);
    assert(faults(errors@) == faults(old(errors)@) + added);
}

fn to_opt_string(s: Option<&str>) -> (r: Option<String>)
    ensures
        opt_text(r) == match s {
            Some(t) => Some(t@),
            None => None,
        },
{
    match s {
        Some(t) => Some(t.to_owned()),
        None => None,
    }
}

fn read_ending(board: &Board) -> (r: Ending)
    ensures
        r == ending_of(board@),
        !(r.checkmate && r.stalemate),
{
    Ending {
        side: board.side(),
        checkmate: board.is_checkmate(),
        stalemate: board.is_stalemate(),
        halfmoves: board.halfmoves(),
    }
}

/// Reports on `lines[start..]`, whose tags end before `end` and whose movetext
/// starts at `body`.
fn lint_sections(
    lines: &Vec<Vec<char>>,
    start: usize,
    end: usize,
    body: usize,
    errors: Vec<PgnValidationError>,
) -> (r: PgnValidationReport)
    requires
        start <= end <= lines@.len(),
        body <= lines@.len(),
    ensures
        r@ == report_on(
            Sections {
                tag_lines: texts(lines@).subrange(start as int, end as int),
                movetext: join(texts(lines@).skip(body as int), seq!['\n']),
                errors: faults(errors@),
            },
        ),
        r@.validated matches Some(v) ==> records_game(v),
{
    let mut errors = errors;
    let tags = parse_tag_lines(lines, start, end, &mut errors);
    check_roster(&tags, &mut errors);
    let result = check_headers(&tags, &mut errors);
    let declared = parse_start_position(&tags, &mut errors);
    check_variant(&tags, declared.is_some(), &mut errors);
    let movetext = joined(lines, body, '\n');
    let all = tokenize_movetext(movetext.as_slice(), &mut errors);
    let board = match declared {
        Some(board) => board,
        None => Board::standard(),
    };
    let replay = Replayer::run(board, &all);
    let ghost replayed = replay@;
    let ply: usize = replay.ply;
    let ending = read_ending(&replay.board);
    let final_fen = replay.board.to_fen();
    append_errors(&mut errors, replay.errors);
    check_ending(&tags, &find_marker(&all), result, ending, &mut errors);
    if errors.len() > 0 {
        return PgnValidationReport { errors, validated: None };
    }
    let termination = match get_tag(&tags, "Termination") {
        Some(value) => value.to_owned(),
        None => String::new(),
    };
    let variant = to_opt_string(get_tag(&tags, "Variant"));
    let validated = ValidatedPgnExport {
        tags,
        movetext: replay.moves,
        result: match result {
            Some(result) => result,
            None => GameResult::Ongoing,
        },
        termination,
        final_fen,
        ply_count: ply,
        halfmoves: ending.halfmoves,
        variant,
        is_checkmate: ending.checkmate,
        is_stalemate: ending.stalemate,
    };
    assert(written_game(game_start(validated@.tags), validated@.movetext, replayed.fen));
    PgnValidationReport { errors, validated: Some(validated) }
}

/// Lint a PGN export, collecting **all** violations.
pub fn lint_pgn_export(pgn: &str) -> (r: PgnValidationReport)
    ensures
        r@ == linted(pgn@),
        r@.validated matches Some(v) ==> records_game(v),
{
    let normalized = normalize_newlines(chars_of(pgn).as_slice());
    let lines = split_at_char(normalized.as_slice(), '\n');
    let mut errors: Vec<PgnValidationError> = Vec::new();
    assert(faults(errors@) == Seq::<Fault>::empty());
    let start = find_after_blanks(&lines, 0);
    if start >= lines.len() {
        report(&mut errors, PgnValidationError::EmptyDocument);
        assert(faults(errors@) == seq![Fault::EmptyDocument]);
        return PgnValidationReport { errors, validated: None };
    }
    let end = find_after_tags(&lines, start);
    let body = if start < end {
        find_after_blanks(&lines, end)
    } else {
        end
    };
    if start < end && body == end && body < lines.len() {
        report(&mut errors, PgnValidationError::MissingBlankLine);
        assert(faults(errors@) == seq![Fault::MissingBlankLine]);
    }
    lint_sections(&lines, start, end, body, errors)
}

/// The first violation of a report, or its parsed form.
pub open spec fn verdict(report: ReportView) -> Result<ValidatedView, Fault> {
    match report.validated {
        Some(v) => Ok(v),
        None => if report.errors.len() > 0 {
            Err(report.errors[0])
        } else {
            Err(Fault::EmptyDocument)
        },
    }
}

/// Validate a PGN export, returning the first violation if there is one.
pub fn validate_pgn_export(pgn: &str) -> (r: Result<ValidatedPgnExport, PgnValidationError>)
    ensures
        match r {
            Ok(v) => verdict(linted(pgn@)) == Ok::<ValidatedView, Fault>(v@) && records_game(v@),
            Err(e) => verdict(linted(pgn@)) == Err::<ValidatedView, Fault>(e@),
        },
{
    let found = lint_pgn_export(pgn);
    let ghost seen = found@;
    match found.validated {
        Some(validated) => Ok(validated),
        None => {
            let mut errors = found.errors;
            if errors.len() > 0 {
                assert(faults(errors@)[0] == errors@[0]@);
                Err(errors.remove(0))
            } else {
                Err(PgnValidationError::EmptyDocument)
            }
        },
    }
}

/// Convenience predicate: does `pgn` pass every strict check?
pub fn is_valid_pgn_export(pgn: &str) -> (r: bool)
    ensures
        r == (linted(pgn@).errors.len() == 0 && linted(pgn@).validated is Some),
{
    lint_pgn_export(pgn).is_valid()
}

/// The document of a validated export: as exported, where the strict checks
/// find nothing wrong with it.
pub open spec fn exported_validated(
    h: ExportHeaders,
    moves: Seq<MoveAnnotation>,
    analysis: bool,
) -> Result<Seq<char>, PgnErrorView> {
    match exported(h, moves, analysis) {
        Err(e) => Err(e),
        Ok(text) => match verdict(linted(text)) {
            Ok(_) => Ok(text),
            Err(fault) => Err(PgnErrorView::InvalidFormat(fault.words())),
        },
    }
}

/// Builds a PGN export and then runs the strict checks over the result.
///
/// Unlike [`export_pgn`], this entry point rejects documents that would fail
/// external PGN linters: missing or unordered Seven Tag Roster, missing
/// termination tag, result/termination inconsistencies, non-canonical SAN,
/// malformed `[%eval ...]` / `[%clk ...]` annotations, and so on. Use it for
/// any export that will be handed to third-party tools.
pub fn export_pgn_validated(
    headers: ExportHeaders,
    moves: Vec<MoveAnnotation>,
    include_analysis: bool,
) -> (r: Result<String, PgnError>)
    ensures
        match r {
            Ok(text) => {
                &&& exported_validated(headers, moves@, include_analysis) == Ok::<
                    Seq<char>,
                    PgnErrorView,
                >(text@)
                &&& documents_game(text@, headers, moves@, include_analysis)
            },
            Err(e) => exported_validated(headers, moves@, include_analysis) == Err::<
                Seq<char>,
                PgnErrorView,
            >(e@),
        },
{
    match export_pgn(headers, moves, include_analysis) {
        Err(e) => Err(e),
        Ok(pgn) => match validate_pgn_export(pgn.as_str()) {
            Err(fault) => Err(PgnError::InvalidFormat(fault.message())),
            Ok(_) => Ok(pgn),
        },
    }
}

} // verus!
