//! Chess positions, as far as PGN documents need them.
//!
//! The rules of chess come from `shakmaty`. A [`Board`] carries a `shakmaty`
//! position next to its FEN record, a [`SanToken`] carries a parsed SAN next to
//! the text it was read from, and a [`BoardMove`] carries a move next to a text
//! that names all its fields. Specifications see only the texts: a FEN written
//! with the en passant square of every double pawn push holds everything that
//! `shakmaty`'s answers about a position depend on, so they are functions of
//! that text.

use shakmaty::{FromSetup as _, Position as _};
use vstd::prelude::*;

use crate::text::{lemma_run_end_is, number, words, words_from, Class};
use crate::unicode::white_space;

verus! {

/// A position of standard chess, Chess960 included. Opaque here.
#[verifier::external_type_specification]
#[verifier::external_body]
pub struct ExChess(shakmaty::Chess);

/// A parsed FEN. Opaque here.
#[verifier::external_type_specification]
#[verifier::external_body]
pub struct ExFen(shakmaty::fen::Fen);

/// A parsed SAN. Opaque here.
#[verifier::external_type_specification]
#[verifier::external_body]
pub struct ExSan(shakmaty::san::San);

/// A move. Opaque here.
#[verifier::external_type_specification]
#[verifier::external_body]
pub struct ExMove(shakmaty::Move);

/// The side to move.
#[derive(Debug, Clone, Copy, PartialEq, Eq, Structural)]
pub enum Side {
    White,
    Black,
}

/// The other side.
pub open spec fn opponent(s: Side) -> Side {
    match s {
        Side::White => Side::Black,
        Side::Black => Side::White,
    }
}

/// A legal chess position.
pub struct Board {
    position: shakmaty::Chess,
    fen: String,
}

impl View for Board {
    type V = Seq<char>;

    closed spec fn view(&self) -> Seq<char> {
        self.fen@
    }
}

/// A syntactically valid FEN, whether or not its position is legal.
pub struct FenRecord {
    fen: shakmaty::fen::Fen,
    text: String,
}

impl View for FenRecord {
    type V = Seq<char>;

    closed spec fn view(&self) -> Seq<char> {
        self.text@
    }
}

/// A syntactically valid SAN.
pub struct SanToken {
    san: shakmaty::san::San,
    text: String,
}

impl View for SanToken {
    type V = Seq<char>;

    closed spec fn view(&self) -> Seq<char> {
        self.text@
    }
}

/// A move in the context of one position.
pub struct BoardMove {
    chess_move: shakmaty::Move,
    text: String,
}

impl View for BoardMove {
    type V = Seq<char>;

    closed spec fn view(&self) -> Seq<char> {
        self.text@
    }
}

/// The text a fallible operation ends in: what it made, or why it did not.
pub type Outcome = Result<Seq<char>, Seq<char>>;

/// The FEN of the position every standard game starts from.
pub open spec fn start_fen() -> Seq<char> {
    "rnbqkbnr/pppppppp/8/8/8/8/PPPPPPPP/RNBQKBNR w KQkq - 0 1"@
}

/// Why a text is not a FEN; `None` for a text that is one.
pub uninterp spec fn fen_error(text: Seq<char>) -> Option<Seq<char>>;

/// The position a FEN text sets up, or why it is not a legal one.
pub uninterp spec fn set_up(text: Seq<char>) -> Outcome;

/// Whether a text is syntactically a SAN.
pub uninterp spec fn san_syntax(text: Seq<char>) -> bool;

/// The move that a SAN means in a position, or why it means none.
pub uninterp spec fn san_move(fen: Seq<char>, san: Seq<char>) -> Outcome;

/// The canonical SAN of a move in a position, without check suffix.
pub uninterp spec fn move_san(fen: Seq<char>, chess_move: Seq<char>) -> Seq<char>;

/// The position after a move; `None` for a move that is not legal.
pub uninterp spec fn after_move(fen: Seq<char>, chess_move: Seq<char>) -> Option<Seq<char>>;

/// Whether the side to move is in check.
pub uninterp spec fn in_check(fen: Seq<char>) -> bool;

/// Whether the side to move is checkmated.
pub uninterp spec fn in_checkmate(fen: Seq<char>) -> bool;

/// Whether the side to move is stalemated.
pub uninterp spec fn in_stalemate(fen: Seq<char>) -> bool;

/// A field of a FEN: the board, the side to move, the castling rights, the en
/// passant square, the half-move clock and the move number, counted from zero.
#[verifier::opaque]
pub open spec fn fen_field(fen: Seq<char>, i: int) -> Seq<char> {
    words(fen)[i]
}

/// The side to move.
pub open spec fn side_to_move(fen: Seq<char>) -> Side {
    if fen_field(fen, 1) == seq!['w'] {
        Side::White
    } else {
        Side::Black
    }
}

/// The number of half-moves since the last capture or pawn move.
pub open spec fn half_moves(fen: Seq<char>) -> u32 {
    number(fen_field(fen, 4)) as u32
}

/// The number of the move about to be played.
pub open spec fn full_moves(fen: Seq<char>) -> u32 {
    number(fen_field(fen, 5)) as u32
}

proof fn lemma_next_field(fen: Seq<char>, i: int, e: int)
    requires
        0 <= i < e < fen.len(),
        forall|j: int| i <= j < e ==> !white_space(#[trigger] fen[j]),
        fen[e] == ' ',
        !white_space(fen[e + 1]),
        e + 1 < fen.len(),
    ensures
        words_from(fen, i) == seq![fen.subrange(i, e)] + words_from(fen, e + 1),
        words_from(fen, e) == words_from(fen, e + 1),
{
    lemma_run_end_is(fen, i, Class::Space, i);
    lemma_run_end_is(fen, i, Class::Solid, e);
    lemma_run_end_is(fen, e, Class::Space, e + 1);
    lemma_run_end_is(fen, e + 1, Class::Space, e + 1);
    assert(words_from(fen, e) == words_from(fen, e + 1));
    assert(words_from(fen, i) == seq![fen.subrange(i, e)] + words_from(fen, e));
}

/// A standard game starts with White to play the first move.
pub proof fn lemma_start_fen_fields()
    ensures
        side_to_move(start_fen()) == Side::White,
        half_moves(start_fen()) == 0,
        full_moves(start_fen()) == 1,
{
    let fen = start_fen();
    reveal_strlit("rnbqkbnr/pppppppp/8/8/8/8/PPPPPPPP/RNBQKBNR w KQkq - 0 1");
    lemma_next_field(fen, 0, 43);
    lemma_next_field(fen, 44, 45);
    lemma_next_field(fen, 46, 50);
    lemma_next_field(fen, 51, 52);
    lemma_next_field(fen, 53, 54);
    lemma_run_end_is(fen, 55, Class::Space, 55);
    lemma_run_end_is(fen, 55, Class::Solid, 56);
    assert(words_from(fen, 56) =~= seq![]) by {
        lemma_run_end_is(fen, 56, Class::Space, 56);
    }
    assert(words_from(fen, 55) =~= seq![fen.subrange(55, 56)]);
    reveal(fen_field);
    assert(fen_field(fen, 1) =~= seq!['w']);
    assert(fen_field(fen, 4) =~= seq!['0']);
    assert(fen_field(fen, 5) =~= seq!['1']);
    reveal_with_fuel(number, 2);
}

/// The FEN of a position with only legal en passant squares written.
pub uninterp spec fn published_fen(fen: Seq<char>) -> Seq<char>;

/// `a` to `h`.
pub open spec fn file_char(c: char) -> bool {
    'a' <= c && c <= 'h'
}

/// `1` to `8`.
pub open spec fn rank_char(c: char) -> bool {
    '1' <= c && c <= '8'
}

/// The letter of a piece a pawn can become.
pub open spec fn promotion_char(c: char) -> bool {
    c == 'Q' || c == 'R' || c == 'B' || c == 'N'
}

/// The letter of a piece other than a pawn.
pub open spec fn piece_char(c: char) -> bool {
    c == 'K' || promotion_char(c)
}

/// Where the part of a SAN before the target square ends when it starts at the
/// beginning of the text and may run up to `m`: an optional piece, an optional
/// file, an optional rank and an optional `x`.
pub open spec fn san_head_end(s: Seq<char>, m: int) -> int {
    let a: int = if 0 < m && piece_char(s[0]) {
        1
    } else {
        0
    };
    let b = if a < m && file_char(s[a]) {
        a + 1
    } else {
        a
    };
    let c = if b < m && rank_char(s[b]) {
        b + 1
    } else {
        b
    };
    if c < m && s[c] == 'x' {
        c + 1
    } else {
        c
    }
}

/// A SAN of a piece or pawn move, without check suffix: the head, the target
/// square, and the promotion if there is one.
pub open spec fn piece_move_san(s: Seq<char>) -> bool {
    let n = s.len() as int;
    let m = if n >= 2 && s[n - 2] == '=' && promotion_char(s[n - 1]) {
        n - 4
    } else {
        n - 2
    };
    m >= 0 && san_head_end(s, m) == m && file_char(s[m]) && rank_char(s[m + 1])
}

/// A SAN as `shakmaty` writes it, without check suffix: castling, or a move that
/// starts with a piece or a file.
pub open spec fn canonical_san(s: Seq<char>) -> bool {
    s == "O-O"@ || s == "O-O-O"@ || (piece_move_san(s) && (piece_char(s[0]) || file_char(s[0])))
}

/// The mark that a move needs behind its SAN, by the position after it.
pub open spec fn check_mark(next: Seq<char>) -> Seq<char> {
    if in_checkmate(next) {
        "#"@
    } else if in_check(next) {
        "+"@
    } else {
        ""@
    }
}

/// Whether a text ends with a check mark.
pub open spec fn marked(text: Seq<char>) -> bool {
    text.len() > 0 && (text.last() == '#' || text.last() == '+')
}

/// A move without the check mark at its end.
pub open spec fn bare_move(token: Seq<char>) -> Seq<char> {
    if marked(token) {
        token.drop_last()
    } else {
        token
    }
}

/// Whether a text is a SAN, or is none, with and without a check mark.
pub open spec fn syntax_with_any_mark(bare: Seq<char>, is_san: bool) -> bool {
    &&& san_syntax(bare) == is_san
    &&& san_syntax(bare + "+"@) == is_san
    &&& san_syntax(bare + "#"@) == is_san
}

/// Whether a SAN means the same in a position with and without a check mark.
pub open spec fn move_with_any_mark(fen: Seq<char>, bare: Seq<char>, outcome: Outcome) -> bool {
    &&& san_move(fen, bare) == outcome
    &&& san_move(fen, bare + "+"@) == outcome
    &&& san_move(fen, bare + "#"@) == outcome
}

/// Whether a SAN means a move in a position, with or without a check mark.
pub open spec fn reads_as(fen: Seq<char>, san: Seq<char>, chess_move: Seq<char>) -> bool {
    &&& syntax_with_any_mark(san, true)
    &&& move_with_any_mark(fen, san, Outcome::Ok(chess_move))
}

impl FenRecord {
    /// `Fen::from_str`: the parsed FEN, or the text of the `ParseFenError`.
    /// Which of the two, and the error text, depend on the text alone.
    #[verifier::external_body]
    pub(crate) fn parse(text: &str) -> (r: Result<FenRecord, String>)
        ensures
            match r {
                Ok(f) => fen_error(text@) is None && f@ == text@,
                Err(e) => fen_error(text@) == Some(e@),
            },
    {
        match text.parse::<shakmaty::fen::Fen>() {
            Ok(fen) => Ok(FenRecord { fen, text: text.to_string() }),
            Err(err) => Err(err.to_string()),
        }
    }
}

impl SanToken {
    /// `San::from_str`: the parsed SAN, or nothing where the text is not one.
    /// Which of the two depends on the text alone, and not on a single check
    /// mark at its end, which is passed over.
    #[verifier::external_body]
    pub(crate) fn parse(text: &str) -> (r: Option<SanToken>)
        ensures
            match r {
                Some(t) => san_syntax(text@) && t@ == text@,
                None => !san_syntax(text@),
            },
            !marked(bare_move(text@)) ==> syntax_with_any_mark(bare_move(text@), r is Some),
    {
        match text.parse::<shakmaty::san::San>() {
            Ok(san) => Some(SanToken { san, text: text.to_string() }),
            Err(_) => None,
        }
    }

    /// `San::to_move`: the only legal move that the SAN describes, or the text
    /// of the `SanError`. Which of the two, the move's fields and the error text
    /// depend on the position and the SAN alone, and not on a single check mark
    /// at the end of its text, which the parsed SAN does not hold. A move that
    /// comes back is one of the legal moves, so it can be played and the game is
    /// not over.
    #[verifier::external_body]
    pub(crate) fn to_move(&self, board: &Board) -> (r: Result<BoardMove, String>)
        ensures
            match r {
                Ok(m) => {
                    &&& san_move(board@, self@) == Outcome::Ok(m@)
                    &&& after_move(board@, m@) is Some
                    &&& !in_checkmate(board@)
                    &&& !in_stalemate(board@)
                },
                Err(e) => san_move(board@, self@) == Outcome::Err(e@),
            },
            !marked(bare_move(self@)) ==> move_with_any_mark(
                board@,
                bare_move(self@),
                match r {
                    Ok(m) => Outcome::Ok(m@),
                    Err(e) => Outcome::Err(e@),
                },
            ),
    {
        match self.san.to_move(&board.position) {
            Ok(m) => Ok(BoardMove { text: format!("{m:?}"), chess_move: m }),
            Err(err) => Err(err.to_string()),
        }
    }
}

impl Board {
    /// `Chess::default()`: the standard starting position.
    #[verifier::external_body]
    pub(crate) fn standard() -> (r: Board)
        ensures
            r@ == start_fen(),
    {
        let position = shakmaty::Chess::default();
        let fen = shakmaty::fen::Fen::from_position(
            position.clone(),
            shakmaty::EnPassantMode::Always,
        );
        Board { position, fen: fen.to_string() }
    }

    /// `Chess::from_setup` with `CastlingMode::Chess960` on a parsed FEN: the
    /// legal position, or the text of the `PositionError`. Both depend on the
    /// FEN text alone.
    #[verifier::external_body]
    pub(crate) fn from_fen(record: FenRecord) -> (r: Result<Board, String>)
        ensures
            match r {
                Ok(b) => set_up(record@) == Outcome::Ok(b@),
                Err(e) => set_up(record@) == Outcome::Err(e@),
            },
    {
        let setup = record.fen.into_setup();
        match shakmaty::Chess::from_setup(setup, shakmaty::CastlingMode::Chess960) {
            Ok(position) => {
                let fen = shakmaty::fen::Fen::from_position(
                    position.clone(),
                    shakmaty::EnPassantMode::Always,
                );
                Ok(Board { position, fen: fen.to_string() })
            },
            Err(err) => Err(err.to_string()),
        }
    }

    /// `San::from_move` and its `Display`: the canonical SAN of a move, which
    /// depends on the position and the move alone. Written for a legal move, it
    /// is read back as that move by `San::from_str`, which passes over a check
    /// mark, and `San::to_move`.
    #[verifier::external_body]
    pub(crate) fn san_of(&self, chess_move: &BoardMove) -> (r: String)
        ensures
            r@ == move_san(self@, chess_move@),
            canonical_san(r@),
            after_move(self@, chess_move@) is Some ==> reads_as(self@, r@, chess_move@),
    {
        shakmaty::san::San::from_move(&self.position, &chess_move.chess_move).to_string()
    }

    /// `Position::play`: the position after a legal move, in which the other
    /// side is to move, or nothing where the move is not legal here.
    #[verifier::external_body]
    pub(crate) fn play(&self, chess_move: &BoardMove) -> (r: Option<Board>)
        ensures
            match r {
                Some(b) => after_move(self@, chess_move@) == Some(b@) && side_to_move(b@)
                    == opponent(side_to_move(self@)),
                None => after_move(self@, chess_move@) is None,
            },
    {
        match self.position.clone().play(&chess_move.chess_move) {
            Ok(position) => {
                let fen = shakmaty::fen::Fen::from_position(
                    position.clone(),
                    shakmaty::EnPassantMode::Always,
                );
                Some(Board { position, fen: fen.to_string() })
            },
            Err(_) => None,
        }
    }

    /// `Position::is_check`: whether the side to move is in check.
    #[verifier::external_body]
    pub(crate) fn is_check(&self) -> (r: bool)
        ensures
            r == in_check(self@),
    {
        self.position.is_check()
    }

    /// `Position::is_checkmate`: whether the side to move is in check and has no
    /// legal move.
    #[verifier::external_body]
    pub(crate) fn is_checkmate(&self) -> (r: bool)
        ensures
            r == in_checkmate(self@),
            r ==> in_check(self@),
    {
        self.position.is_checkmate()
    }

    /// `Position::is_stalemate`: whether the side to move is not in check and
    /// has no legal move.
    #[verifier::external_body]
    pub(crate) fn is_stalemate(&self) -> (r: bool)
        ensures
            r == in_stalemate(self@),
            r ==> !in_check(self@),
    {
        self.position.is_stalemate()
    }

    /// `Position::turn`: the side to move, which the FEN names in its second
    /// field.
    #[verifier::external_body]
    pub(crate) fn side(&self) -> (r: Side)
        ensures
            r == side_to_move(self@),
    {
        match self.position.turn() {
            shakmaty::Color::White => Side::White,
            shakmaty::Color::Black => Side::Black,
        }
    }

    /// `Position::fullmoves`: the move number, which the FEN holds in its last
    /// field.
    #[verifier::external_body]
    pub(crate) fn fullmoves(&self) -> (r: u32)
        ensures
            r == full_moves(self@),
    {
        u32::from(self.position.fullmoves())
    }

    /// `Position::halfmoves`: the half-move clock, which the FEN holds in its
    /// last field but one.
    #[verifier::external_body]
    pub(crate) fn halfmoves(&self) -> (r: u32)
        ensures
            r == half_moves(self@),
    {
        self.position.halfmoves()
    }

    /// `Fen::from_position` with `EnPassantMode::Legal`, and its `Display`: the
    /// FEN of the position, which depends on the position alone.
    #[verifier::external_body]
    pub(crate) fn to_fen(&self) -> (r: String)
        ensures
            r@ == published_fen(self@),
    {
        shakmaty::fen::Fen::from_position(self.position.clone(), shakmaty::EnPassantMode::Legal)
            .to_string()
    }
}

} // verus!
