//! What replaying a game is for: only legal games get through, and the first
//! move that is not legal is the one complained about.

use vstd::prelude::*;

use crate::board::{
    after_move, full_moves, half_moves, lemma_start_fen_fields, san_move, san_syntax, side_to_move,
    start_fen, Outcome, Side,
};
use crate::pgn::{played, replayed, MoveFault, PgnErrorView};
use crate::pgn_export::written_sans;

verus! {

/// A text is played as a move exactly when it is written as one, means one legal
/// move in the position, and that move can be made; what comes out is that move
/// and the position after it. Whatever else happens is told apart.
pub proof fn law_moves_are_played_as_they_read(fen: Seq<char>, san: Seq<char>)
    ensures
        match played(fen, san) {
            Ok((m, next)) => {
                &&& san_syntax(san)
                &&& san_move(fen, san) == Outcome::Ok(m)
                &&& after_move(fen, m) == Some(next)
            },
            Err(MoveFault::Notation) => !san_syntax(san),
            Err(MoveFault::NotLegal) => san_syntax(san) && san_move(fen, san) is Err,
            Err(MoveFault::LeavesCheck) => san_syntax(san) && (san_move(fen, san) matches
                Outcome::Ok(m) && after_move(fen, m) is None),
        },
{
}

/// Whether some moves lead through some positions, one more than there are moves:
/// each move is played in the position before it and gives the one after it.
pub open spec fn leads_through(fens: Seq<Seq<char>>, moves: Seq<Seq<char>>) -> bool {
    &&& fens.len() == moves.len() + 1
    &&& forall|i: int|
        0 <= i < moves.len() ==> (played(fens[i], #[trigger] moves[i]) matches Ok((_, next))
            && next == fens[i + 1])
}

/// Only legal games get through: when a game is replayed to an end, each of its
/// moves is legal where it is played, from the start to that end.
pub proof fn law_replayed_games_are_legal(start: Seq<char>, moves: Seq<Seq<char>>)
    requires
        replayed(start, moves, 0) is Ok,
    ensures
        exists|fens: Seq<Seq<char>>| #[trigger]
            leads_through(fens, moves) && fens[0] == start && replayed(start, moves, 0) == Ok::<
                Seq<char>,
                PgnErrorView,
            >(fens.last()),
{
    let fens = lemma_positions(start, moves, 0);
    assert(leads_through(fens, moves));
}

proof fn lemma_positions(fen: Seq<char>, moves: Seq<Seq<char>>, i: int) -> (fens: Seq<Seq<char>>)
    requires
        0 <= i <= moves.len(),
        replayed(fen, moves, i) is Ok,
    ensures
        fens.len() == moves.len() - i + 1,
        fens[0] == fen,
        replayed(fen, moves, i) == Ok::<Seq<char>, PgnErrorView>(fens.last()),
        forall|j: int|
            #![trigger moves[j]]
            i <= j < moves.len() ==> (played(fens[j - i], moves[j]) matches Ok((_, next)) && next
                == fens[j - i + 1]),
    decreases moves.len() - i,
{
    if i == moves.len() {
        seq![fen]
    } else {
        let next = played(fen, moves[i])->Ok_0.1;
        let rest = lemma_positions(next, moves, i + 1);
        let fens = seq![fen] + rest;
        assert forall|j: int|
            #![trigger moves[j]]
            i <= j < moves.len() implies (played(fens[j - i], moves[j]) matches Ok((_, next))
            && next == fens[j - i + 1]) by {
            if j > i {
                assert(fens[j - i] == rest[j - (i + 1)]);
                assert(fens[j - i + 1] == rest[j - (i + 1) + 1]);
            }
        }
        assert(fens.last() == rest.last());
        fens
    }
}

/// Every legal game gets through, to the position its moves lead to.
pub proof fn law_legal_games_are_replayed(fens: Seq<Seq<char>>, moves: Seq<Seq<char>>)
    requires
        leads_through(fens, moves),
    ensures
        replayed(fens[0], moves, 0) == Ok::<Seq<char>, PgnErrorView>(fens.last()),
{
    assert(moves.take(moves.len() as int) =~= moves);
    lemma_line_replays(fens, moves, moves, 0);
}

/// The first illegal move is refused, whatever follows it, with the number of
/// the move it belongs to, its text and the reason.
pub proof fn law_the_first_illegal_move_is_refused(
    fens: Seq<Seq<char>>,
    moves: Seq<Seq<char>>,
    k: int,
)
    requires
        0 <= k < moves.len(),
        leads_through(fens, moves.take(k)),
        played(fens[k], moves[k]) is Err,
    ensures
        replayed(fens[0], moves, 0) matches Err(PgnErrorView::IllegalMove {
            move_number,
            move_text,
            reason,
        }) && {
            &&& 2 * move_number - 2 <= k < 2 * move_number
            &&& move_text == moves[k]
            &&& reason == match played(fens[k], moves[k]) {
                Err(MoveFault::Notation) => "Invalid move notation"@,
                Err(MoveFault::NotLegal) => "Move is not legal in this position"@,
                _ => "Move leaves king in check"@,
            }
        },
{
    lemma_line_replays(fens, moves, moves.take(k), 0);
}

/// As far as some moves lead through positions, replaying them and what follows
/// gets there.
proof fn lemma_line_replays(
    fens: Seq<Seq<char>>,
    moves: Seq<Seq<char>>,
    line: Seq<Seq<char>>,
    i: int,
)
    requires
        line.len() <= moves.len(),
        line == moves.take(line.len() as int),
        leads_through(fens, line),
        0 <= i <= line.len(),
    ensures
        replayed(fens[i], moves, i) == replayed(fens.last(), moves, line.len() as int),
    decreases line.len() - i,
{
    if i < line.len() {
        assert(line[i] == moves[i]);
        lemma_line_replays(fens, moves, line, i + 1);
    }
}

/// A game that is not legal is not exported either, and for the same reason; a
/// legal one is written move by move.
pub proof fn law_only_legal_games_are_written(start: Seq<char>, moves: Seq<Seq<char>>)
    ensures
        match (written_sans(start, moves, 0), replayed(start, moves, 0)) {
            (Ok(sans), Ok(_)) => sans.len() == moves.len(),
            (Err(e), Err(f)) => e == f,
            _ => false,
        },
{
    lemma_written_or_refused(start, moves, 0);
}

proof fn lemma_written_or_refused(fen: Seq<char>, moves: Seq<Seq<char>>, i: int)
    requires
        0 <= i <= moves.len(),
    ensures
        match (written_sans(fen, moves, i), replayed(fen, moves, i)) {
            (Ok(sans), Ok(_)) => sans.len() == moves.len() - i,
            (Err(e), Err(f)) => e == f,
            _ => false,
        },
    decreases moves.len() - i,
{
    if i < moves.len() {
        match played(fen, moves[i]) {
            Ok((_, next)) => {
                lemma_written_or_refused(next, moves, i + 1);
            },
            Err(_) => {},
        }
    }
}

/// An imported game starts from the standard position, with White to play the
/// first move.
pub proof fn law_games_start_from_the_standard_position()
    ensures
        start_fen() == "rnbqkbnr/pppppppp/8/8/8/8/PPPPPPPP/RNBQKBNR w KQkq - 0 1"@,
        side_to_move(start_fen()) == Side::White,
        half_moves(start_fen()) == 0,
        full_moves(start_fen()) == 1,
{
    lemma_start_fen_fields();
}

} // verus!
