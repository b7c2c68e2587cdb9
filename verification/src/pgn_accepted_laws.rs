//! What holds of a document that the strict checks accept.

use vstd::prelude::*;

use crate::board::{
    after_move, bare_move, check_mark, full_moves, half_moves, in_checkmate, in_stalemate, move_san,
    published_fen, san_move, set_up, side_to_move, Side,
};
use crate::pgn::{marked_result, replayed, result_marker, GameResult};
use crate::pgn_faults::Fault;
use crate::pgn_export::{written_game, written_line};
use crate::pgn_laws::lemma_written_line_replays;
use crate::pgn_layout::lemma_trim_solid;
use crate::pgn_movetext::{
    annotation_at, annotation_faults, clock_command, command_faults, command_start, comment_faults,
    eval_command, has_annotation, lemma_annotation_end, lemma_variation_end, move_mark, scan_items,
    variation_end, Item,
};
use crate::pgn_strict_laws::{distinct, law_kept_tags_are_distinct};
use crate::pgn_tags::{
    missing_roster_tags, names, roster, roster_faults, roster_names, scan_tags, tag_from, tag_value,
    valid_date,
};
use crate::pgn_validator::{
    after_blanks, after_tags, blank, claims_fifty_moves, date_faults, declared_result,
    declared_start, ending_faults, ending_of, game_start, known_termination, lines_of, linted,
    marker_faults, marker_from, marker_of, needs_winner, next_number, number_faults,
    position_faults, records_game, replay_all, replay_from, replay_start, replay_step, replay_token,
    result_faults, sections, standard_variant, start_faults, termination_faults, variant_faults,
    writing_faults, Ending, Replay, Tags, ValidatedView,
};
use crate::text::{lemma_run_end, run_end, trim, Class};
use crate::unicode::{ascii_lower_text, white_space};

verus! {

/// Whether the strict checks find nothing wrong with a document.
pub open spec fn accepted(text: Seq<char>) -> bool {
    linted(text).errors.len() == 0
}

/// The parsed form of an accepted document.
pub open spec fn accepted_form(text: Seq<char>) -> ValidatedView {
    linted(text).validated->0
}

/// The movetext of a document.
pub open spec fn movetext_of(text: Seq<char>) -> Seq<char> {
    sections(lines_of(text))->0.movetext
}

/// The pieces of a document's movetext.
pub open spec fn items_of(text: Seq<char>) -> Seq<Item> {
    scan_items(movetext_of(text), 0, false).items
}

// ---------------------------------------------------------------------------
// Tags
// ---------------------------------------------------------------------------

proof fn lemma_roster_names(all: Seq<Seq<char>>, k: int, n: int)
    requires
        0 <= k <= n <= all.len(),
    ensures
        roster_names(all, k).len() <= k,
        roster_names(all, k).len() <= roster_names(all, n).len(),
        roster_names(all, n).take(roster_names(all, k).len() as int) == roster_names(all, k),
        (forall|i: int| 0 <= i < k ==> roster().contains(#[trigger] all[i])) ==> roster_names(
            all,
            k,
        ) == all.take(k),
    decreases n,
{
    if k < n {
        lemma_roster_names(all, k, n - 1);
        let shorter = roster_names(all, n - 1);
        assert(shorter.push(all[n - 1]).take(roster_names(all, k).len() as int) =~= shorter.take(
            roster_names(all, k).len() as int,
        ));
    } else {
        assert(roster_names(all, k).take(roster_names(all, k).len() as int) =~= roster_names(
            all,
            k,
        ));
        if k > 0 {
            lemma_roster_names(all, k - 1, k - 1);
            assert(all.take(k) =~= all.take(k - 1).push(all[k - 1]));
        } else {
            assert(all.take(0) =~= seq![]);
        }
    }
}

proof fn lemma_clean_roster(tags: Tags)
    requires
        roster_faults(tags).len() == 0,
    ensures
        tags.len() >= 7,
        names(tags).take(7) == roster(),
{
    let all = names(tags);
    assert(roster_names(all, all.len() as int) == roster());
    assert(roster().len() == 7);
    lemma_roster_names(all, all.len() as int, all.len() as int);
    assert forall|i: int| 0 <= i < 7 implies roster().contains(#[trigger] all[i]) by {}
    lemma_roster_names(all, 7, all.len() as int);
    assert(roster().take(7) =~= roster());
}

/// An accepted document opens with the Seven Tag Roster, in its order; no tag
/// stands twice, and the date is a date.
pub proof fn law_accepted_documents_open_with_the_roster(text: Seq<char>)
    requires
        accepted(text),
    ensures
        accepted_form(text).tags.len() >= 7,
        names(accepted_form(text).tags).take(7) == roster(),
        distinct(accepted_form(text).tags),
        tag_value(accepted_form(text).tags, "Date"@) matches Some(date) ==> valid_date(date),
{
    let lines = sections(lines_of(text))->0.tag_lines;
    lemma_clean_roster(accepted_form(text).tags);
    law_kept_tags_are_distinct(lines, lines.len() as int);
}

/// In an accepted document a blank line separates the tags from the movetext.
pub proof fn law_accepted_documents_separate_their_sections(text: Seq<char>)
    requires
        accepted(text),
    ensures
        ({
            let lines = lines_of(text);
            let end = after_tags(lines, after_blanks(lines, 0));
            0 <= end < lines.len() && blank(lines[end])
        }),
{
    let lines = lines_of(text);
    let start = after_blanks(lines, 0);
    let end = after_tags(lines, start);
    let body = after_blanks(lines, end);
    let doc = sections(lines)->0;
    lemma_after(lines, 0);
    lemma_after(lines, start);
    lemma_after(lines, end);
    let tags = scan_tags(doc.tag_lines, doc.tag_lines.len() as int).tags;
    lemma_clean_roster(tags);
    assert(start < end);
    if body >= lines.len() {
        assert(lines.skip(body) =~= seq![]);
        assert(doc.movetext == Seq::<char>::empty());
        assert(items_of(text) == Seq::<Item>::empty());
        assert(marker_of(items_of(text)) is None);
    }
}

proof fn lemma_after(lines: Seq<Seq<char>>, i: int)
    requires
        0 <= i <= lines.len(),
    ensures
        i <= after_blanks(lines, i) <= lines.len(),
        i <= after_tags(lines, i) <= lines.len(),
    decreases lines.len() - i,
{
    if i < lines.len() {
        lemma_after(lines, i + 1);
    }
}

/// An accepted document that declares a start position sets it up with `SetUp
/// "1"` and a legal FEN, and one of another variant declares its start position.
pub proof fn law_accepted_starts_are_legal(text: Seq<char>)
    requires
        accepted(text),
    ensures
        ({
            let tags = accepted_form(text).tags;
            &&& (tag_value(tags, "SetUp"@) is Some || tag_value(tags, "FEN"@) is Some) ==> {
                &&& tag_value(tags, "SetUp"@) == Some("1"@)
                &&& tag_value(tags, "FEN"@) matches Some(fen) && set_up(fen) == Ok::<
                    Seq<char>,
                    Seq<char>,
                >(game_start(tags))
            }
            &&& tag_value(tags, "Variant"@) matches Some(variant) ==> standard_variant(variant)
                || declared_start(tags) is Some
        }),
{
}

// ---------------------------------------------------------------------------
// Movetext
// ---------------------------------------------------------------------------

/// The moves among the first `n` items.
pub open spec fn moves_in(all: Seq<Item>, n: int) -> Seq<Seq<char>>
    decreases n,
{
    if n <= 0 {
        seq![]
    } else {
        match all[n - 1] {
            Item::San(token) => moves_in(all, n - 1).push(token),
            _ => moves_in(all, n - 1),
        }
    }
}

/// What the item before item `i` has to be, when item `i` is a move of `side`
/// in move number `number`: White's moves are numbered, with one dot; a black
/// move may be, with three.
pub open spec fn numbered(all: Seq<Item>, i: int, side: Side, number: u32) -> bool {
    let dots: usize = if side == Side::White {
        1
    } else {
        3
    };
    if i > 0 && all[i - 1] is Number {
        all[i - 1] == (Item::Number { number, dots })
    } else {
        side == Side::Black
    }
}

/// Whether a token is the canonical writing of a legal move from one position
/// to the next: the SAN that the move has to have, and the check mark of the
/// position it leads to.
pub open spec fn canonical_token(fen: Seq<char>, token: Seq<char>, next: Seq<char>) -> bool {
    &&& !in_checkmate(fen)
    &&& !in_stalemate(fen)
    &&& san_move(fen, bare_move(token)) matches Ok(m) && {
        &&& next == after_move(fen, m)->0
        &&& token == move_san(fen, m) + check_mark(next)
    }
}

/// The move number that is left without a move after the first `n` items.
spec fn pending_after(all: Seq<Item>, n: int) -> Option<(u32, usize)> {
    let k = if n > 0 && all[n - 1] is Result {
        n - 1
    } else {
        n
    };
    if k > 0 {
        match all[k - 1] {
            Item::Number { number, dots } => Some((number, dots)),
            _ => None,
        }
    } else {
        None
    }
}

/// What holds of the first `n` items of clean movetext, read from a position:
/// they were read to the end, the moves stand as they are written, and a result
/// marker can only be the very last item.
spec fn reads_clean(fen: Seq<char>, all: Seq<Item>, n: int, r: Replay) -> bool {
    &&& !r.halted
    &&& r.moves == moves_in(all, n)
    &&& r.ply == moves_in(all, n).len()
    &&& r.pending == pending_after(all, n)
    &&& forall|i: int| 0 <= i < n && i + 1 < all.len() ==> !(#[trigger] all[i] is Result)
}

/// The replay of the first `n` items, as long as nothing is wrong with them.
pub open spec fn replay_to(fen: Seq<char>, all: Seq<Item>, n: int) -> Replay
    decreases n,
{
    if n <= 0 {
        replay_start(fen)
    } else {
        replay_step(replay_to(fen, all, n - 1), all, n - 1)
    }
}

/// Errors only add up.
proof fn lemma_errors_grow(r: Replay, all: Seq<Item>, i: int)
    requires
        0 <= i <= all.len(),
    ensures
        replay_from(r, all, i).errors.len() >= r.errors.len(),
    decreases all.len() - i,
{
    if i < all.len() && !r.halted {
        lemma_errors_grow(replay_step(r, all, i), all, i + 1);
    }
}

/// In clean movetext every item is read, in order.
proof fn lemma_clean_replay(fen: Seq<char>, all: Seq<Item>, n: int)
    requires
        0 <= n <= all.len(),
        replay_all(fen, all).errors.len() == 0,
        replay_from(replay_start(fen), all, 0).errors.len() == 0,
    ensures
        replay_from(replay_start(fen), all, 0) == replay_from(replay_to(fen, all, n), all, n),
        replay_to(fen, all, n).errors.len() == 0,
        reads_clean(fen, all, n, replay_to(fen, all, n)),
    decreases n,
{
    if n > 0 {
        lemma_clean_replay(fen, all, n - 1);
        let r = replay_to(fen, all, n - 1);
        let next = replay_step(r, all, n - 1);
        assert(replay_from(r, all, n - 1) == replay_from(next, all, n));
        lemma_errors_grow(next, all, n);
        assert(next.errors.len() == 0);
        lemma_clean_step(fen, all, n - 1, r);
    }
}

proof fn lemma_clean_step(fen: Seq<char>, all: Seq<Item>, n: int, r: Replay)
    requires
        0 <= n < all.len(),
        reads_clean(fen, all, n, r),
        replay_step(r, all, n).errors.len() == 0,
    ensures
        reads_clean(fen, all, n + 1, replay_step(r, all, n)),
        all[n] matches Item::San(token) ==> {
            &&& numbered(all, n, side_to_move(r.fen), r.fullmove)
            &&& canonical_token(r.fen, token, replay_step(r, all, n).fen)
        },
        all[n] is Number ==> !(n > 0 && all[n - 1] is Number),
{
    let next = replay_step(r, all, n);
    match all[n] {
        Item::San(token) => {
            lemma_token(token);
            let m = san_move(r.fen, bare_move(token))->Ok_0;
            assert(token == move_san(r.fen, m) + check_mark(next.fen));
            assert(next.moves == r.moves.push(token));
            assert(next.pending is None);
        },
        Item::Result(marker) => {
            assert(n + 1 == all.len());
        },
        Item::Number { .. } => {},
    }
    assert(next.moves == moves_in(all, n + 1));
    assert(!next.halted);
    assert forall|i: int| 0 <= i < n + 1 && i + 1 < all.len() implies !(
    #[trigger] all[i] is Result) by {}
}

/// A token is its bare move and its mark.
proof fn lemma_token(token: Seq<char>)
    ensures
        bare_move(token) + move_mark(token) == token,
{
    reveal_strlit("#");
    reveal_strlit("+");
    reveal_strlit("");
    let bare = bare_move(token);
    let mark = move_mark(token);
    assert(bare + mark =~= token);
}

/// The number of the move that ply `k` of a line belongs to: one more behind
/// every black move.
pub open spec fn number_at(fens: Seq<Seq<char>>, k: int) -> u32
    decreases k,
{
    if k <= 0 {
        full_moves(fens[0])
    } else if side_to_move(fens[k - 1]) == Side::Black {
        next_number(number_at(fens, k - 1))
    } else {
        number_at(fens, k - 1)
    }
}

/// The positions of a replay of the first `n` items, one more than there are
/// moves among them.
pub open spec fn positions_to(fen: Seq<char>, all: Seq<Item>, n: int) -> Seq<Seq<char>>
    decreases n,
{
    if n <= 0 {
        seq![fen]
    } else if all[n - 1] is San {
        positions_to(fen, all, n - 1).push(replay_to(fen, all, n).fen)
    } else {
        positions_to(fen, all, n - 1)
    }
}

/// The positions and move numbers of a clean replay.
proof fn lemma_clean_positions(fen: Seq<char>, all: Seq<Item>, n: int)
    requires
        0 <= n <= all.len(),
        replay_all(fen, all).errors.len() == 0,
        replay_from(replay_start(fen), all, 0).errors.len() == 0,
    ensures
        ({
            let fens = positions_to(fen, all, n);
            let r = replay_to(fen, all, n);
            &&& fens.len() == r.ply + 1
            &&& fens[0] == fen
            &&& fens.last() == r.fen
            &&& r.fullmove == number_at(fens, r.ply)
        }),
    decreases n,
{
    if n > 0 {
        lemma_clean_positions(fen, all, n - 1);
        lemma_clean_replay(fen, all, n);
        lemma_clean_replay(fen, all, n - 1);
        let fens = positions_to(fen, all, n - 1);
        let r = replay_to(fen, all, n - 1);
        let next = replay_to(fen, all, n);
        if all[n - 1] is San {
            lemma_number_prefix(fens, fens.push(next.fen), r.ply);
        }
    }
}

proof fn lemma_number_prefix(a: Seq<Seq<char>>, b: Seq<Seq<char>>, k: int)
    requires
        0 <= k < a.len() <= b.len(),
        forall|i: int| 0 <= i <= k ==> a[i] == b[i],
    ensures
        number_at(a, k) == number_at(b, k),
    decreases k,
{
    if k > 0 {
        lemma_number_prefix(a, b, k - 1);
    }
}

proof fn lemma_positions_prefix(fen: Seq<char>, all: Seq<Item>, k: int, n: int)
    requires
        0 <= k <= n <= all.len(),
    ensures
        positions_to(fen, all, k).len() <= positions_to(fen, all, n).len(),
        positions_to(fen, all, k).len() >= 1,
        forall|i: int|
            0 <= i < positions_to(fen, all, k).len() ==> #[trigger] positions_to(fen, all, n)[i]
                == positions_to(fen, all, k)[i],
    decreases n,
{
    if k < n {
        lemma_positions_prefix(fen, all, k, n - 1);
    } else if k > 0 {
        lemma_positions_prefix(fen, all, k - 1, k - 1);
    }
}

/// The replay of an accepted document's movetext is clean.
proof fn lemma_accepted_replay(text: Seq<char>)
    requires
        accepted(text),
    ensures
        ({
            let start = game_start(accepted_form(text).tags);
            let all = items_of(text);
            &&& replay_all(start, all).errors.len() == 0
            &&& replay_from(replay_start(start), all, 0).errors.len() == 0
            &&& replay_all(start, all) == replay_from(replay_start(start), all, 0)
            &&& replay_all(start, all).pending is None
            &&& accepted_form(text).movetext == replay_all(start, all).moves
            &&& marker_of(all) is Some
            &&& marker_of(all) == tag_value(accepted_form(text).tags, "Result"@)
        }),
{
    let tags = accepted_form(text).tags;
    lemma_clean_roster(tags);
    assert(names(tags).take(7)[6] == roster()[6]);
    assert(tags[6].0 == "Result"@);
    lemma_tag_found(tags, 0, 6, "Result"@);
}

proof fn lemma_tag_found(tags: Tags, i: int, at: int, name: Seq<char>)
    requires
        0 <= i <= at < tags.len(),
        tags[at].0 == name,
    ensures
        tag_from(tags, i, name) is Some,
    decreases at - i,
{
    if i < at {
        lemma_tag_found(tags, i + 1, at, name);
    }
}

/// What a clean replay says of a move among the items.
proof fn lemma_canonical_at(start: Seq<char>, all: Seq<Item>, i: int)
    requires
        0 <= i < all.len(),
        all[i] is San,
        replay_all(start, all).errors.len() == 0,
        replay_from(replay_start(start), all, 0).errors.len() == 0,
    ensures
        ({
            let fens = positions_to(start, all, all.len() as int);
            let k = moves_in(all, i).len() as int;
            &&& numbered(all, i, side_to_move(fens[k]), number_at(fens, k))
            &&& canonical_token(fens[k], all[i]->San_0, fens[k + 1])
        }),
{
    let n = all.len() as int;
    let fens = positions_to(start, all, n);
    lemma_clean_replay(start, all, i);
    lemma_clean_replay(start, all, i + 1);
    lemma_clean_positions(start, all, i);
    lemma_clean_positions(start, all, i + 1);
    lemma_clean_step(start, all, i, replay_to(start, all, i));
    lemma_positions_prefix(start, all, i, n);
    lemma_positions_prefix(start, all, i + 1, n);
    let before = positions_to(start, all, i);
    lemma_number_prefix(before, fens, before.len() - 1);
    let after = positions_to(start, all, i + 1);
    assert(fens[after.len() - 1] == after[after.len() - 1]);
}

/// Whether some items are canonical movetext from a position: each move stands
/// as it is to be written, with the move number it belongs to where it needs
/// one, no number stands without a move, and the last item, and no other, is a
/// result marker.
pub open spec fn canonical_items(start: Seq<char>, all: Seq<Item>) -> bool {
    let fens = positions_to(start, all, all.len() as int);
    &&& fens.len() == moves_in(all, all.len() as int).len() + 1
    &&& fens[0] == start
    &&& forall|i: int|
        0 <= i < all.len() ==> (#[trigger] all[i] matches Item::San(token) ==> {
            let k = moves_in(all, i).len() as int;
            &&& numbered(all, i, side_to_move(fens[k]), number_at(fens, k))
            &&& canonical_token(fens[k], token, fens[k + 1])
        })
    &&& forall|i: int|
        0 <= i < all.len() && (#[trigger] all[i]) is Number ==> i + 1 < all.len() && all[i
            + 1] is San
    &&& all.len() > 0
    &&& all.last() is Result
    &&& forall|i: int| 0 <= i < all.len() - 1 ==> !(#[trigger] all[i] is Result)
}

proof fn lemma_canonical_items(start: Seq<char>, all: Seq<Item>)
    requires
        replay_all(start, all).errors.len() == 0,
        replay_from(replay_start(start), all, 0).errors.len() == 0,
        replay_all(start, all) == replay_from(replay_start(start), all, 0),
        replay_all(start, all).pending is None,
        marker_of(all) is Some,
    ensures
        canonical_items(start, all),
        marker_of(all) == Some(all.last()->Result_0),
        replay_all(start, all).moves == moves_in(all, all.len() as int),
        replay_all(start, all).ply == moves_in(all, all.len() as int).len(),
        replay_all(start, all).fen == positions_to(start, all, all.len() as int).last(),
{
    let n = all.len() as int;
    lemma_clean_replay(start, all, n);
    lemma_clean_positions(start, all, n);
    lemma_marker_last(all);
    assert forall|i: int| 0 <= i < n && (#[trigger] all[i]) is Number implies i + 1 < n && all[i
        + 1] is San by {
        lemma_number_then_move(start, all, i);
    }
    assert forall|i: int| 0 <= i < n && (#[trigger] all[i]) is San implies {
        let fens = positions_to(start, all, n);
        let k = moves_in(all, i).len() as int;
        &&& numbered(all, i, side_to_move(fens[k]), number_at(fens, k))
        &&& canonical_token(fens[k], all[i]->San_0, fens[k + 1])
    } by {
        lemma_canonical_at(start, all, i);
    }
}

/// A clean replay's number is followed by a move.
proof fn lemma_number_then_move(start: Seq<char>, all: Seq<Item>, i: int)
    requires
        0 <= i < all.len(),
        all[i] is Number,
        replay_all(start, all).errors.len() == 0,
        replay_from(replay_start(start), all, 0).errors.len() == 0,
        replay_from(replay_start(start), all, 0).pending is None,
    ensures
        i + 1 < all.len() && all[i + 1] is San,
{
    lemma_clean_replay(start, all, i + 1);
    lemma_clean_replay(start, all, all.len() as int);
    if i + 1 < all.len() {
        lemma_clean_replay(start, all, i + 2);
        lemma_clean_step(start, all, i + 1, replay_to(start, all, i + 1));
    }
}

/// Where only the last item can be a result marker, it is the marker there is.
proof fn lemma_marker_last(all: Seq<Item>)
    requires
        marker_of(all) is Some,
        forall|i: int| 0 <= i && i + 1 < all.len() ==> !(#[trigger] all[i] is Result),
    ensures
        all.len() > 0,
        all.last() is Result,
        marker_of(all) == Some(all.last()->Result_0),
{
    lemma_marker_from(all, 0);
}

/// The movetext of an accepted document is canonical, its moves are those of the
/// parsed form, and its result marker is the declared result.
pub proof fn law_accepted_movetext_is_canonical(text: Seq<char>)
    requires
        accepted(text),
    ensures
        ({
            let all = items_of(text);
            let v = accepted_form(text);
            &&& canonical_items(game_start(v.tags), all)
            &&& moves_in(all, all.len() as int) == v.movetext
            &&& v.ply_count == v.movetext.len()
            &&& v.final_fen == published_fen(
                positions_to(game_start(v.tags), all, all.len() as int).last(),
            )
            &&& all.last() == Item::Result(result_marker(v.result))
            &&& tag_value(v.tags, "Result"@) == Some(result_marker(v.result))
        }),
{
    let all = items_of(text);
    lemma_accepted_replay(text);
    lemma_canonical_items(game_start(accepted_form(text).tags), all);
    lemma_result_items(movetext_of(text), 0, false);
    lemma_marker(all.last()->Result_0);
}

/// The first result marker is a result item, and where there is none no item is
/// one.
pub proof fn lemma_marker_from(all: Seq<Item>, i: int)
    requires
        0 <= i <= all.len(),
    ensures
        match marker_from(all, i) {
            Some(marker) => exists|j: int|
                i <= j < all.len() && #[trigger] all[j] == Item::Result(marker),
            None => forall|j: int| i <= j < all.len() ==> !(#[trigger] all[j] is Result),
        },
    decreases all.len() - i,
{
    if i < all.len() && !(all[i] is Result) {
        lemma_marker_from(all, i + 1);
    }
}

/// A marker without white space around it is the marker of its result.
proof fn lemma_marker(s: Seq<char>)
    requires
        marked_result(s) is Some,
    ensures
        trim(s) == s,
        result_marker(marked_result(s)->0) == s,
{
    reveal_strlit("1-0");
    reveal_strlit("0-1");
    reveal_strlit("1/2-1/2");
    reveal_strlit("*");
    lemma_trim_solid(s);
}

/// A result item is a result marker.
proof fn lemma_result_items(s: Seq<char>, i: int, reported: bool)
    requires
        0 <= i <= s.len(),
    ensures
        forall|k: int|
            0 <= k < scan_items(s, i, reported).items.len() ==> (#[trigger] scan_items(
                s,
                i,
                reported,
            ).items[k] matches Item::Result(marker) ==> marked_result(marker) is Some),
    decreases s.len() - i,
{
    if i < s.len() {
        lemma_run_end(s, i + 1, Class::Not('}'));
        lemma_run_end(s, i, Class::Not('\n'));
        lemma_run_end(s, i + 1, Class::AsciiDigit);
        lemma_run_end(s, i, Class::Solid);
        let c = s[i];
        if white_space(c) || c == '}' || c == ')' {
            lemma_result_items(s, i + 1, reported);
        } else if c == '{' {
            let close = run_end(s, i + 1, Class::Not('}'));
            if close < s.len() {
                lemma_result_items(s, close + 1, reported);
            }
        } else if c == '(' {
            lemma_variation_end(s, i + 1, 1);
            lemma_result_items(s, variation_end(s, i + 1, 1), true);
        } else if c == ';' {
            lemma_result_items(s, run_end(s, i, Class::Not('\n')), reported);
        } else if c == '$' {
            lemma_result_items(s, run_end(s, i + 1, Class::AsciiDigit), reported);
        } else {
            lemma_result_items(s, run_end(s, i, Class::Solid), reported);
        }
    }
}

/// The game of an accepted document can be replayed move by move, and ends in
/// the position that the parsed form reports.
pub proof fn law_accepted_games_replay(v: ValidatedView)
    requires
        records_game(v),
    ensures
        replayed(game_start(v.tags), v.movetext, 0) matches Ok(end) && {
            &&& v.final_fen == published_fen(end)
            &&& v.is_checkmate == in_checkmate(end)
            &&& v.is_stalemate == in_stalemate(end)
        },
{
    let end = choose|end: Seq<char>|
        {
            &&& #[trigger] written_game(game_start(v.tags), v.movetext, end)
            &&& v.final_fen == published_fen(end)
            &&& v.is_checkmate == in_checkmate(end)
            &&& v.is_stalemate == in_stalemate(end)
        };
    let (fens, ms) = choose|fens: Seq<Seq<char>>, ms: Seq<Seq<char>>| #[trigger]
        written_line(fens, ms, v.movetext) && fens[0] == game_start(v.tags) && fens.last() == end;
    lemma_written_line_replays(fens, ms, v.movetext, 0);
}

// ---------------------------------------------------------------------------
// Result and termination
// ---------------------------------------------------------------------------

/// The result of an accepted document is the one that its final position forces,
/// where it forces one, and its termination is known and fits both: a game that
/// was resigned or lost on time has a winner, a stalemate is one, the fifty-move
/// rule was earned, and what is unterminated has no result.
pub proof fn law_accepted_results_agree(text: Seq<char>)
    requires
        accepted(text),
    ensures
        ({
            let all = items_of(text);
            let v = accepted_form(text);
            let end = positions_to(game_start(v.tags), all, all.len() as int).last();
            let kind = ascii_lower_text(v.termination);
            let won = v.result == GameResult::WhiteWins || v.result == GameResult::BlackWins;
            &&& declared_result(v.tags) == Some(v.result)
            &&& v.is_checkmate == in_checkmate(end)
            &&& v.is_stalemate == in_stalemate(end)
            &&& v.halfmoves == half_moves(end)
            &&& v.is_checkmate ==> v.result == if side_to_move(end) == Side::White {
                GameResult::BlackWins
            } else {
                GameResult::WhiteWins
            }
            &&& v.is_stalemate && !v.is_checkmate ==> v.result == GameResult::Draw
            &&& tag_value(v.tags, "Termination"@) == Some(v.termination)
            &&& known_termination(kind)
            &&& needs_winner(kind) ==> won
            &&& kind == "stalemate"@ ==> v.result == GameResult::Draw && v.is_stalemate
            &&& claims_fifty_moves(kind) ==> v.result == GameResult::Draw && v.halfmoves >= 100
            &&& kind == "unterminated"@ ==> v.result == GameResult::Ongoing
        }),
{
    let all = items_of(text);
    let v = accepted_form(text);
    let start = game_start(v.tags);
    let n = all.len() as int;
    lemma_accepted_replay(text);
    lemma_clean_replay(start, all, n);
    lemma_clean_positions(start, all, n);
    assert(replay_all(start, all) == replay_to(start, all, n));
    reveal_strlit("resignation");
    reveal_strlit("time forfeit");
    reveal_strlit("timeout");
    reveal_strlit("stalemate");
    reveal_strlit("50-move rule");
    reveal_strlit("fifty-move rule");
    reveal_strlit("unterminated");
    lemma_terminations_differ();
}

/// A game that ends in stalemate does not end in checkmate, and is a draw.
pub proof fn law_accepted_stalemates_are_draws(text: Seq<char>)
    requires
        accepted(text),
        records_game(accepted_form(text)),
    ensures
        accepted_form(text).is_stalemate ==> !accepted_form(text).is_checkmate
            && accepted_form(text).result == GameResult::Draw,
{
    law_accepted_results_agree(text);
}

/// The terminations with rules of their own are different texts.
proof fn lemma_terminations_differ()
    ensures
        !needs_winner("stalemate"@),
        !needs_winner("50-move rule"@),
        !needs_winner("fifty-move rule"@),
        !needs_winner("unterminated"@),
        !claims_fifty_moves("stalemate"@),
        !claims_fifty_moves("unterminated"@),
        "stalemate"@ != "unterminated"@,
{
    reveal_strlit("resignation");
    reveal_strlit("time forfeit");
    reveal_strlit("timeout");
    reveal_strlit("stalemate");
    reveal_strlit("50-move rule");
    reveal_strlit("fifty-move rule");
    reveal_strlit("unterminated");
    assert("stalemate"@[0] == 's');
    assert("50-move rule"@[0] == '5');
    assert("fifty-move rule"@[0] == 'f');
    assert("unterminated"@[0] == 'u');
    assert("resignation"@[0] == 'r');
    assert("timeout"@[0] == 't');
    assert("time forfeit"@[0] == 't');
}

// ---------------------------------------------------------------------------
// Annotations
// ---------------------------------------------------------------------------

/// The commands of a comment from `i` on: the kind and the whole text of each.
pub open spec fn commands_from(s: Seq<char>, i: int) -> Seq<(Seq<char>, Seq<char>)>
    decreases s.len() - i,
    via commands_from_terminates
{
    if 0 <= i < s.len() {
        match annotation_at(s, i) {
            None => commands_from(s, i + 1),
            Some((kind, end)) => seq![(kind, s.subrange(i, end))] + commands_from(s, end),
        }
    } else {
        seq![]
    }
}

#[via_fn]
proof fn commands_from_terminates(s: Seq<char>, i: int) {
    lemma_annotation_end(s, i);
}

/// The comments of some movetext from `i` on. Those inside a variation do not
/// count.
pub open spec fn comments_from(s: Seq<char>, i: int) -> Seq<Seq<char>>
    decreases s.len() - i,
    via comments_from_terminates
{
    if 0 <= i < s.len() {
        let c = s[i];
        if white_space(c) || c == '}' || c == ')' {
            comments_from(s, i + 1)
        } else if c == '{' {
            let close = run_end(s, i + 1, Class::Not('}'));
            if close < s.len() {
                seq![trim(s.subrange(i + 1, close))] + comments_from(s, close + 1)
            } else {
                seq![]
            }
        } else if c == '(' {
            comments_from(s, variation_end(s, i + 1, 1))
        } else if c == ';' {
            comments_from(s, run_end(s, i, Class::Not('\n')))
        } else if c == '$' {
            comments_from(s, run_end(s, i + 1, Class::AsciiDigit))
        } else {
            comments_from(s, run_end(s, i, Class::Solid))
        }
    } else {
        seq![]
    }
}

#[via_fn]
proof fn comments_from_terminates(s: Seq<char>, i: int) {
    if 0 <= i < s.len() {
        lemma_run_end(s, i + 1, Class::Not('}'));
        lemma_variation_end(s, i + 1, 1);
        lemma_run_end(s, i + 1, Class::Not('\n'));
        lemma_run_end(s, i + 1, Class::AsciiDigit);
        lemma_run_end(s, i + 1, Class::Solid);
    }
}

/// Whether a command has the form that its kind has to have.
pub open spec fn standard_command(command: (Seq<char>, Seq<char>)) -> bool {
    &&& command.0 == "eval"@ ==> eval_command(command.1)
    &&& command.0 == "clk"@ ==> clock_command(command.1)
}

proof fn lemma_commands_standard(s: Seq<char>, i: int)
    requires
        annotation_faults(s, i).len() == 0,
    ensures
        forall|k: int|
            0 <= k < commands_from(s, i).len() ==> standard_command(
                #[trigger] commands_from(s, i)[k],
            ),
    decreases s.len() - i,
{
    if 0 <= i < s.len() {
        lemma_annotation_end(s, i);
        match annotation_at(s, i) {
            None => {
                lemma_commands_standard(s, i + 1);
                assert(commands_from(s, i) == commands_from(s, i + 1));
            },
            Some((kind, end)) => {
                reveal_strlit("eval");
                reveal_strlit("clk");
                assert("eval"@.len() != "clk"@.len());
                lemma_commands_standard(s, end);
                let rest = commands_from(s, end);
                assert forall|k: int| 0 <= k < commands_from(s, i).len() implies standard_command(
                    #[trigger] commands_from(s, i)[k],
                ) by {
                    if k > 0 {
                        assert(commands_from(s, i)[k] == rest[k - 1]);
                    }
                }
            },
        }
    }
}

proof fn lemma_comments_sound(s: Seq<char>, i: int, reported: bool)
    requires
        0 <= i <= s.len(),
        scan_items(s, i, reported).errors.len() == 0,
    ensures
        forall|k: int|
            0 <= k < comments_from(s, i).len() ==> comment_faults(
                #[trigger] comments_from(s, i)[k],
            ).len() == 0,
    decreases s.len() - i,
{
    if i < s.len() {
        lemma_run_end(s, i + 1, Class::Not('}'));
        lemma_run_end(s, i + 1, Class::Not('\n'));
        lemma_run_end(s, i + 1, Class::AsciiDigit);
        lemma_run_end(s, i + 1, Class::Solid);
        let c = s[i];
        if white_space(c) || c == '}' || c == ')' {
            lemma_comments_sound(s, i + 1, reported);
            assert(comments_from(s, i) == comments_from(s, i + 1));
        } else if c == '{' {
            let close = run_end(s, i + 1, Class::Not('}'));
            if close < s.len() {
                lemma_comments_sound(s, close + 1, reported);
                let rest = comments_from(s, close + 1);
                assert forall|k: int| 0 <= k < comments_from(s, i).len() implies comment_faults(
                    #[trigger] comments_from(s, i)[k],
                ).len() == 0 by {
                    if k > 0 {
                        assert(comments_from(s, i)[k] == rest[k - 1]);
                    }
                }
            }
        } else if c == '(' {
            lemma_variation_end(s, i + 1, 1);
            lemma_comments_sound(s, variation_end(s, i + 1, 1), true);
            assert(comments_from(s, i) == comments_from(s, variation_end(s, i + 1, 1)));
        } else if c == ';' {
            lemma_comments_sound(s, run_end(s, i, Class::Not('\n')), reported);
            assert(comments_from(s, i) == comments_from(s, run_end(s, i, Class::Not('\n'))));
        } else if c == '$' {
            lemma_comments_sound(s, run_end(s, i + 1, Class::AsciiDigit), reported);
            assert(comments_from(s, i) == comments_from(s, run_end(s, i + 1, Class::AsciiDigit)));
        } else {
            lemma_comments_sound(s, run_end(s, i, Class::Solid), reported);
            assert(comments_from(s, i) == comments_from(s, run_end(s, i, Class::Solid)));
        }
    }
}

/// In an accepted document every evaluation and every clock reading has its
/// standard form, and where a comment starts a command it holds one.
pub proof fn law_accepted_annotations_are_standard(text: Seq<char>, k: int)
    requires
        accepted(text),
        0 <= k < comments_from(movetext_of(text), 0).len(),
    ensures
        ({
            let comment = comments_from(movetext_of(text), 0)[k];
            &&& forall|j: int|
                0 <= j < commands_from(comment, 0).len() ==> standard_command(
                    #[trigger] commands_from(comment, 0)[j],
                )
            &&& (exists|j: int| command_start(comment, j)) ==> has_annotation(comment)
        }),
{
    lemma_comments_sound(movetext_of(text), 0, false);
    lemma_commands_standard(comments_from(movetext_of(text), 0)[k], 0);
}

// ---------------------------------------------------------------------------
// Missing markers
// ---------------------------------------------------------------------------

/// Whether no error says that the result marker is missing.
spec fn none_missing(errors: Seq<Fault>) -> bool {
    forall|j: int| 0 <= j < errors.len() ==> !(#[trigger] errors[j] is MissingTerminationMarker)
}

proof fn lemma_none_missing_add(a: Seq<Fault>, b: Seq<Fault>)
    requires
        none_missing(a),
        none_missing(b),
    ensures
        none_missing(a + b),
{
    let all = a + b;
    assert forall|j: int| 0 <= j < all.len() implies !(
    #[trigger] all[j] is MissingTerminationMarker) by {
        if j < a.len() {
            assert(all[j] == a[j]);
        } else {
            assert(all[j] == b[j - a.len()]);
        }
    }
}

proof fn lemma_tags_none_missing(lines: Seq<Seq<char>>, n: int)
    ensures
        none_missing(scan_tags(lines, n).errors),
    decreases n,
{
    if n > 0 {
        lemma_tags_none_missing(lines, n - 1);
    }
}

proof fn lemma_roster_none_missing(tags: Tags, n: int)
    ensures
        none_missing(missing_roster_tags(tags, n)),
    decreases n,
{
    if n > 0 {
        lemma_roster_none_missing(tags, n - 1);
    }
}

proof fn lemma_annotations_none_missing(s: Seq<char>, i: int)
    ensures
        none_missing(annotation_faults(s, i)),
    decreases s.len() - i,
{
    if 0 <= i < s.len() {
        lemma_annotation_end(s, i);
        match annotation_at(s, i) {
            None => lemma_annotations_none_missing(s, i + 1),
            Some((kind, end)) => {
                lemma_annotations_none_missing(s, end);
                lemma_none_missing_add(
                    command_faults(kind, s.subrange(i, end)),
                    annotation_faults(s, end),
                );
            },
        }
    }
}

proof fn lemma_comment_none_missing(s: Seq<char>)
    ensures
        none_missing(comment_faults(s)),
{
    lemma_annotations_none_missing(s, 0);
    assert(none_missing(seq![Fault::MalformedAnnotation(s)]));
    assert(none_missing(seq![]));
    lemma_none_missing_add(annotation_faults(s, 0), seq![Fault::MalformedAnnotation(s)]);
    lemma_none_missing_add(annotation_faults(s, 0), seq![]);
}

proof fn lemma_items_none_missing(s: Seq<char>, i: int, reported: bool)
    requires
        0 <= i <= s.len(),
    ensures
        none_missing(scan_items(s, i, reported).errors),
    decreases s.len() - i,
{
    if i < s.len() {
        lemma_run_end(s, i + 1, Class::Not('}'));
        lemma_run_end(s, i + 1, Class::Not('\n'));
        lemma_run_end(s, i + 1, Class::AsciiDigit);
        lemma_run_end(s, i + 1, Class::Solid);
        lemma_variation_end(s, i + 1, 1);
        let c = s[i];
        if white_space(c) {
            lemma_items_none_missing(s, i + 1, reported);
        } else if c == '{' {
            let close = run_end(s, i + 1, Class::Not('}'));
            if close < s.len() {
                lemma_items_none_missing(s, close + 1, reported);
                lemma_comment_none_missing(trim(s.subrange(i + 1, close)));
                lemma_none_missing_add(
                    comment_faults(trim(s.subrange(i + 1, close))),
                    scan_items(s, close + 1, reported).errors,
                );
            }
        } else if c == '}' || c == ')' {
            lemma_items_none_missing(s, i + 1, reported);
            lemma_none_missing_add(
                seq![Fault::UnbalancedComment],
                scan_items(s, i + 1, reported).errors,
            );
        } else if c == '(' {
            let e = variation_end(s, i + 1, 1);
            lemma_items_none_missing(s, e, true);
            lemma_none_missing_add(
                seq![Fault::VariationsNotAllowed],
                scan_items(s, e, true).errors,
            );
            lemma_none_missing_add(seq![], scan_items(s, e, true).errors);
        } else if c == ';' {
            lemma_items_none_missing(s, run_end(s, i, Class::Not('\n')), reported);
        } else if c == '$' {
            let e = run_end(s, i + 1, Class::AsciiDigit);
            lemma_items_none_missing(s, e, reported);
            lemma_none_missing_add(
                seq![Fault::InvalidMoveSyntax { ply: 0, token: "$"@ }],
                scan_items(s, e, reported).errors,
            );
            lemma_none_missing_add(seq![], scan_items(s, e, reported).errors);
        } else {
            lemma_items_none_missing(s, run_end(s, i, Class::Solid), reported);
        }
    }
}

proof fn lemma_token_none_missing(r: Replay, token: Seq<char>)
    requires
        none_missing(r.errors),
    ensures
        none_missing(replay_token(r, token).errors),
{
    let ply = r.ply as usize;
    let numbers = number_faults(ply, r.pending, side_to_move(r.fen), r.fullmove);
    let numbered = r.errors + numbers;
    assert(none_missing(numbers));
    lemma_none_missing_add(r.errors, numbers);
    lemma_none_missing_add(numbered, seq![Fault::MovesAfterGameOver { ply }]);
    lemma_none_missing_add(numbered, seq![Fault::InvalidMoveSyntax { ply, token }]);
    match san_move(r.fen, bare_move(token)) {
        Err(reason) => {
            lemma_none_missing_add(numbered, seq![Fault::IllegalMove { ply, token, reason }]);
        },
        Ok(m) => {
            let next = after_move(r.fen, m)->0;
            let writing = writing_faults(ply, token, move_san(r.fen, m), check_mark(next));
            assert(none_missing(writing));
            lemma_none_missing_add(numbered, writing);
        },
    }
}

proof fn lemma_replay_none_missing(r: Replay, all: Seq<Item>, i: int)
    requires
        none_missing(r.errors),
    ensures
        none_missing(replay_from(r, all, i).errors),
    decreases all.len() - i,
{
    if 0 <= i < all.len() && !r.halted {
        match all[i] {
            Item::San(token) => {
                lemma_token_none_missing(r, token);
            },
            _ => {},
        }
        lemma_replay_none_missing(replay_step(r, all, i), all, i + 1);
    }
}

/// The result marker of a document is reported missing exactly when no result
/// marker stands in its movetext, whatever became of the moves before it.
pub proof fn law_missing_markers_are_missing(text: Seq<char>)
    requires
        sections(lines_of(text)) is Some,
    ensures
        linted(text).errors.contains(Fault::MissingTerminationMarker) <==> forall|j: int|
            0 <= j < items_of(text).len() ==> !(#[trigger] items_of(text)[j] is Result),
{
    let doc = sections(lines_of(text))->0;
    let scan = scan_tags(doc.tag_lines, doc.tag_lines.len() as int);
    let tags = scan.tags;
    let all = items_of(text);
    let start = game_start(tags);
    let replay = replay_all(start, all);
    let result = declared_result(tags);
    let end = ending_of(replay.fen);
    lemma_tags_none_missing(doc.tag_lines, doc.tag_lines.len() as int);
    lemma_roster_none_missing(tags, 7);
    lemma_items_none_missing(movetext_of(text), 0, false);
    lemma_replay_none_missing(replay_start(start), all, 0);
    let a = doc.errors + scan.errors + roster_faults(tags) + date_faults(tags) + result_faults(tags)
        + start_faults(tags) + variant_faults(tags, declared_start(tags) is Some) + scan_items(
        movetext_of(text),
        0,
        false,
    ).errors + replay.errors;
    assert(none_missing(roster_faults(tags)));
    assert(none_missing(replay.errors));
    lemma_none_missing_add(doc.errors, scan.errors);
    lemma_none_missing_add(doc.errors + scan.errors, roster_faults(tags));
    lemma_none_missing_add(doc.errors + scan.errors + roster_faults(tags), date_faults(tags));
    lemma_none_missing_add(
        doc.errors + scan.errors + roster_faults(tags) + date_faults(tags),
        result_faults(tags),
    );
    lemma_none_missing_add(
        doc.errors + scan.errors + roster_faults(tags) + date_faults(tags) + result_faults(tags),
        start_faults(tags),
    );
    lemma_none_missing_add(
        doc.errors + scan.errors + roster_faults(tags) + date_faults(tags) + result_faults(tags)
            + start_faults(tags),
        variant_faults(tags, declared_start(tags) is Some),
    );
    let b = doc.errors + scan.errors + roster_faults(tags) + date_faults(tags) + result_faults(tags)
        + start_faults(tags) + variant_faults(tags, declared_start(tags) is Some);
    let moves = scan_items(movetext_of(text), 0, false).errors;
    lemma_none_missing_add(b, moves);
    lemma_none_missing_add(b + moves, replay.errors);
    assert(none_missing(a));
    lemma_ending_missing(tags, marker_of(all), result, end);
    let ending = ending_faults(tags, marker_of(all), result, end);
    let errors = linted(text).errors;
    assert(errors == a + ending);
    lemma_marker_from(all, 0);
    if marker_of(all) is Some {
        lemma_none_missing_add(a, ending);
    } else {
        assert(errors[a.len() as int] == ending[0]);
    }
}

/// The end of a game says that the marker is missing exactly where there is
/// none.
proof fn lemma_ending_missing(
    tags: Tags,
    marker: Option<Seq<char>>,
    result: Option<GameResult>,
    end: Ending,
)
    ensures
        marker is Some ==> none_missing(ending_faults(tags, marker, result, end)),
        marker is None ==> ending_faults(tags, marker, result, end).len() > 0 && ending_faults(
            tags,
            marker,
            result,
            end,
        )[0] is MissingTerminationMarker,
{
    let m = marker_faults(tags, marker);
    let p = position_faults(result, end);
    let t = termination_faults(tags, result, end);
    assert(none_missing(p));
    assert(none_missing(t));
    if marker is Some {
        assert(none_missing(m));
        lemma_none_missing_add(m, p);
        lemma_none_missing_add(m + p, t);
    } else {
        assert((m + p + t)[0] == m[0]);
    }
}

} // verus!
