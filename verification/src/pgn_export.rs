//! PGN export: headers and annotated moves written as a PGN document.

use vstd::prelude::*;

use crate::board::{
    after_move, bare_move, canonical_san, check_mark, fen_error, full_moves, in_checkmate,
    in_stalemate, marked, move_san, opponent, reads_as, set_up, side_to_move, start_fen, Board,
    FenRecord, Side,
};
use crate::pgn::{
    mark_ignored, play_san, played, replayed, result_marker, unplayable, unplayable_error,
    GameResult, MoveFault, PgnError, PgnErrorView,
};
use crate::text::{
    chars_of, concat, dec, dec_nat, digit_char, extend, int_text, join, joined, nat_text, opt_text,
    string_of, texts, utf8_width, width_up_to,
};

verus! {

/// Headers required to export a game as PGN. Distinct from
/// [`crate::pgn::PgnHeaders`] (which is populated while *parsing* an incoming
/// PGN) because export needs FIDE-recommended supplemental tags that are not
/// required on import.
#[derive(Debug, Clone)]
pub struct ExportHeaders {
    pub event: String,
    pub site: String,
    /// "YYYY.MM.DD", or "????.??.??" if unknown.
    pub date: String,
    /// Round number, or "?" if not applicable.
    pub round: String,
    pub white: String,
    pub black: String,
    pub result: GameResult,
    pub white_elo: Option<i32>,
    pub black_elo: Option<i32>,
    /// e.g. "300+3" (300s base + 3s increment), or "-" if untimed.
    pub time_control: Option<String>,
    /// e.g. "Normal", "Time forfeit", "Abandoned".
    pub termination: Option<String>,
    /// Non-standard start position (Chess960 or a custom variant) as a FEN
    /// string. When set, the builder emits `SetUp "1"` + `FEN` tags and
    /// replays the moves from this position instead of the standard start.
    pub start_fen: Option<String>,
    /// Variant tag, e.g. `"Chess960"` or a custom variant name.
    pub variant: Option<String>,
}

impl Default for ExportHeaders {
    fn default() -> (r: ExportHeaders)
        ensures
            r.event@ == "?"@,
            r.site@ == "?"@,
            r.date@ == "????.??.??"@,
            r.round@ == "?"@,
            r.white@.len() == 0,
            r.black@.len() == 0,
            r.result == GameResult::Ongoing,
            r.white_elo is None,
            r.black_elo is None,
            r.time_control is None,
            r.termination is None,
            r.start_fen is None,
            r.variant is None,
    {
        ExportHeaders {
            event: "?".to_owned(),
            site: "?".to_owned(),
            date: "????.??.??".to_owned(),
            round: "?".to_owned(),
            white: String::new(),
            black: String::new(),
            result: GameResult::Ongoing,
            white_elo: None,
            black_elo: None,
            time_control: None,
            termination: None,
            start_fen: None,
            variant: None,
        }
    }
}

/// A single played move plus whatever analysis annotations are available for
/// it. `san` should be the *bare* SAN (no check/mate suffix); the builder
/// recomputes `+`/`#` itself from the replayed position, so an incorrect suffix
/// is never emitted regardless of what was originally stored.
#[derive(Debug, Clone)]
pub struct MoveAnnotation {
    pub san: String,
    /// Clock remaining *after* this move, formatted "H:MM:SS" (PGN `%clk`).
    pub clock: Option<String>,
    /// Engine evaluation in centipawns from White's perspective.
    pub eval_centipawns: Option<i32>,
    /// Mate-in-N eval; takes precedence over `eval_centipawns` when present.
    pub eval_mate: Option<i32>,
    /// Move classification annotation glyph, e.g. "?!", "??", "!!".
    pub classification: Option<String>,
}

impl Default for MoveAnnotation {
    fn default() -> (r: MoveAnnotation)
        ensures
            r.san@.len() == 0,
            r.clock is None,
            r.eval_centipawns is None,
            r.eval_mate is None,
            r.classification is None,
    {
        MoveAnnotation {
            san: String::new(),
            clock: None,
            eval_centipawns: None,
            eval_mate: None,
            classification: None,
        }
    }
}

/// The SAN texts of some annotated moves.
pub open spec fn san_texts(moves: Seq<MoveAnnotation>) -> Seq<Seq<char>> {
    Seq::new(moves.len(), |i: int| moves[i].san@)
}

// ---------------------------------------------------------------------------
// Tags
// ---------------------------------------------------------------------------

/// A tag value from `i` on, with a backslash before each quote and backslash.
pub open spec fn escaped(s: Seq<char>, i: int) -> Seq<char>
    decreases s.len() - i,
{
    if 0 <= i < s.len() {
        if s[i] == '\\' || s[i] == '"' {
            seq!['\\', s[i]] + escaped(s, i + 1)
        } else {
            seq![s[i]] + escaped(s, i + 1)
        }
    } else {
        seq![]
    }
}

/// The line of a tag.
pub open spec fn tag_line(name: Seq<char>, value: Seq<char>) -> Seq<char> {
    "["@ + name + " \""@ + escaped(value, 0) + "\"]\n"@
}

/// The line of a tag that is left out where it has no value.
pub open spec fn optional_tag(name: Seq<char>, value: Option<Seq<char>>) -> Seq<char> {
    match value {
        Some(v) => tag_line(name, v),
        None => seq![],
    }
}

/// An optional number in decimal.
pub open spec fn opt_dec(n: Option<i32>) -> Option<Seq<char>> {
    match n {
        Some(n) => Some(dec(n as int)),
        None => None,
    }
}

/// The Seven Tag Roster.
pub open spec fn roster_section(h: ExportHeaders) -> Seq<char> {
    tag_line("Event"@, h.event@) + tag_line("Site"@, h.site@) + tag_line("Date"@, h.date@)
        + tag_line("Round"@, h.round@) + tag_line("White"@, h.white@) + tag_line("Black"@, h.black@)
        + tag_line("Result"@, result_marker(h.result))
}

/// The tags that name a start position of its own.
pub open spec fn setup_section(h: ExportHeaders) -> Seq<char> {
    match h.start_fen {
        Some(fen) => tag_line("SetUp"@, "1"@) + tag_line("FEN"@, fen@),
        None => seq![],
    }
}

/// The tags after the Seven Tag Roster.
pub open spec fn supplemental_section(h: ExportHeaders) -> Seq<char> {
    optional_tag("WhiteElo"@, opt_dec(h.white_elo)) + optional_tag(
        "BlackElo"@,
        opt_dec(h.black_elo),
    ) + optional_tag("TimeControl"@, opt_text(h.time_control)) + optional_tag(
        "Termination"@,
        opt_text(h.termination),
    ) + optional_tag("Variant"@, opt_text(h.variant)) + setup_section(h)
}

/// Seven Tag Roster first, then the supplemental tags.
pub open spec fn tag_section(h: ExportHeaders) -> Seq<char> {
    roster_section(h) + supplemental_section(h)
}

fn append_opt_tag(out: &mut String, name: &str, value: &Option<String>)
    ensures
        final(out)@ == old(out)@ + optional_tag(name@, opt_text(*value)),
{
    match value {
        Some(v) => {
            out.append(PgnBuilder::tag(name, v.as_str()).as_str());
        },
        None => {
            assert(out@ + seq![] == out@);
        },
    }
}

fn append_opt_number(out: &mut String, name: &str, value: Option<i32>)
    ensures
        final(out)@ == old(out)@ + optional_tag(name@, opt_dec(value)),
{
    match value {
        Some(n) => {
            let digits = string_of(int_text(n as i64).as_slice());
            out.append(PgnBuilder::tag(name, digits.as_str()).as_str());
        },
        None => {
            assert(out@ + seq![] == out@);
        },
    }
}

// ---------------------------------------------------------------------------
// Builder
// ---------------------------------------------------------------------------

/// Builds a compliant PGN string from headers + annotated moves.
pub struct PgnBuilder {
    headers: ExportHeaders,
    moves: Vec<MoveAnnotation>,
    include_analysis: bool,
}

/// Movetext lines are at most this many bytes wide, unless a single token is
/// wider.
pub const MOVETEXT_LINE_WIDTH: usize = 80;

impl PgnBuilder {
    /// The headers the document is built from.
    pub closed spec fn headers(&self) -> ExportHeaders {
        self.headers
    }

    /// The moves the document is built from.
    pub closed spec fn moves(&self) -> Seq<MoveAnnotation> {
        self.moves@
    }

    /// Whether evaluations and clocks are written.
    pub closed spec fn analysis(&self) -> bool {
        self.include_analysis
    }

    pub fn new(
        headers: ExportHeaders,
        moves: Vec<MoveAnnotation>,
        include_analysis: bool,
    ) -> (r: Self)
        ensures
            r.headers() == headers,
            r.moves() == moves@,
            r.analysis() == include_analysis,
    {
        PgnBuilder { headers, moves, include_analysis }
    }

    /// Escapes `"` and `\` inside a tag value.
    pub fn escape_tag_value(value: &str) -> (r: String)
        ensures
            r@ == escaped(value@, 0),
    {
        let chars = chars_of(value);
        let mut out = String::new();
        let mut i: usize = 0;
        while i < chars.len()
            invariant
                i <= chars@.len(),
                chars@ == value@,
                escaped(value@, 0) == out@ + escaped(value@, i as int),
            decreases chars@.len() - i,
        {
            let ghost before = out@;
            let c = chars[i];
            if c == '\\' || c == '"' {
                out.push('\\');
                out.push(c);
                assert(before + (seq!['\\', c] + escaped(value@, i + 1)) == out@ + escaped(
                    value@,
                    i + 1,
                ));
            } else {
                out.push(c);
                assert(before + (seq![c] + escaped(value@, i + 1)) == out@ + escaped(
                    value@,
                    i + 1,
                ));
            }
            i += 1;
        }
        out
    }

    /// The line of a tag.
    pub fn tag(name: &str, value: &str) -> (r: String)
        ensures
            r@ == tag_line(name@, value@),
    {
        let mut out = "[".to_owned();
        out.append(name);
        out.append(" \"");
        out.append(Self::escape_tag_value(value).as_str());
        out.append("\"]\n");
        out
    }

    /// Seven Tag Roster first, then FIDE-recommended supplemental tags.
    pub fn format_headers(&self) -> (r: String)
        ensures
            r@ == tag_section(self.headers()),
    {
        let mut out = Self::tag("Event", self.headers.event.as_str());
        out.append(Self::tag("Site", self.headers.site.as_str()).as_str());
        out.append(Self::tag("Date", self.headers.date.as_str()).as_str());
        out.append(Self::tag("Round", self.headers.round.as_str()).as_str());
        out.append(Self::tag("White", self.headers.white.as_str()).as_str());
        out.append(Self::tag("Black", self.headers.black.as_str()).as_str());
        out.append(Self::tag("Result", self.headers.result.to_pgn_string()).as_str());
        assert(out@ == roster_section(self.headers()));

        let mut more = String::new();
        append_opt_number(&mut more, "WhiteElo", self.headers.white_elo);
        append_opt_number(&mut more, "BlackElo", self.headers.black_elo);
        append_opt_tag(&mut more, "TimeControl", &self.headers.time_control);
        append_opt_tag(&mut more, "Termination", &self.headers.termination);
        append_opt_tag(&mut more, "Variant", &self.headers.variant);
        match &self.headers.start_fen {
            Some(fen) => {
                let mut setup = Self::tag("SetUp", "1");
                setup.append(Self::tag("FEN", fen.as_str()).as_str());
                more.append(setup.as_str());
            },
            None => {},
        }
        assert(more@ == supplemental_section(self.headers()));
        out.append(more.as_str());
        out
    }
}

// ---------------------------------------------------------------------------
// Start position and replay
// ---------------------------------------------------------------------------

/// The position a game starts from: the standard array, or the one that the
/// headers set up.
pub open spec fn start_of(h: ExportHeaders) -> Result<Seq<char>, PgnErrorView> {
    match h.start_fen {
        None => Ok(start_fen()),
        Some(fen) => match fen_error(fen@) {
            Some(e) => Err(PgnErrorView::InvalidFormat("invalid start FEN: "@ + e)),
            None => match set_up(fen@) {
                Err(e) => Err(PgnErrorView::InvalidFormat("illegal start position: "@ + e)),
                Ok(start) => Ok(start),
            },
        },
    }
}

/// A result with more texts in front.
pub open spec fn prepend(
    front: Seq<Seq<char>>,
    r: Result<Seq<Seq<char>>, PgnErrorView>,
) -> Result<Seq<Seq<char>>, PgnErrorView> {
    match r {
        Ok(back) => Ok(front + back),
        Err(e) => Err(e),
    }
}

/// The SAN of each of `moves[i..]`, played from a position: the canonical SAN
/// of the move and the mark that the position after it calls for. Fails at the
/// first move that cannot be played.
pub open spec fn written_sans(fen: Seq<char>, moves: Seq<Seq<char>>, i: int) -> Result<
    Seq<Seq<char>>,
    PgnErrorView,
>
    decreases moves.len() - i,
{
    if 0 <= i < moves.len() {
        match played(fen, moves[i]) {
            Err(fault) => Err(unplayable(i, moves[i], fault)),
            Ok((m, next)) => prepend(
                seq![move_san(fen, m) + check_mark(next)],
                written_sans(next, moves, i + 1),
            ),
        }
    } else {
        Ok(seq![])
    }
}

/// One ply of a game as it is written: `m` is a legal move from `fen` to
/// `next`, and `san` is its canonical SAN with the check mark of `next`.
pub open spec fn written_ply(
    fen: Seq<char>,
    m: Seq<char>,
    next: Seq<char>,
    san: Seq<char>,
) -> bool {
    &&& after_move(fen, m) == Some(next)
    &&& canonical_san(move_san(fen, m))
    &&& reads_as(fen, move_san(fen, m), m)
    &&& side_to_move(next) == opponent(side_to_move(fen))
    &&& !in_checkmate(fen)
    &&& !in_stalemate(fen)
    &&& san == move_san(fen, m) + check_mark(next)
}

/// A game as it is written: the positions it goes through, one more than there
/// are moves.
pub open spec fn written_line(
    fens: Seq<Seq<char>>,
    ms: Seq<Seq<char>>,
    sans: Seq<Seq<char>>,
) -> bool {
    &&& fens.len() == sans.len() + 1
    &&& ms.len() == sans.len()
    &&& forall|i: int|
        0 <= i < sans.len() ==> written_ply(fens[i], ms[i], fens[i + 1], #[trigger] sans[i])
}

/// Whether `sans` is the written form of a legal game from one position to
/// another.
pub open spec fn written_game(start: Seq<char>, sans: Seq<Seq<char>>, end: Seq<char>) -> bool {
    exists|fens: Seq<Seq<char>>, ms: Seq<Seq<char>>| #[trigger]
        written_line(fens, ms, sans) && fens[0] == start && fens.last() == end
}

/// The same texts, but for the one check mark that each may carry at its end.
pub open spec fn same_but_marks(a: Seq<Seq<char>>, b: Seq<Seq<char>>) -> bool {
    &&& a.len() == b.len()
    &&& forall|i: int|
        0 <= i < a.len() ==> bare_move(#[trigger] a[i]) == bare_move(b[i]) && !marked(
            bare_move(a[i]),
        )
}

/// Whether the check marks of some moves make no difference to how they are
/// written.
pub open spec fn marks_ignored(start: Seq<char>, moves: Seq<Seq<char>>) -> bool {
    forall|other: Seq<Seq<char>>| #[trigger]
        same_but_marks(moves, other) ==> written_sans(start, other, 0) == written_sans(
            start,
            moves,
            0,
        )
}

/// Whether the first `n` moves are played through some positions, whatever check
/// marks they carry.
pub open spec fn played_line(
    fens: Seq<Seq<char>>,
    ms: Seq<Seq<char>>,
    moves: Seq<Seq<char>>,
    n: int,
) -> bool {
    forall|i: int|
        0 <= i < n ==> {
            &&& played(fens[i], #[trigger] moves[i]) == Ok::<(Seq<char>, Seq<char>), MoveFault>(
                (ms[i], fens[i + 1]),
            )
            &&& mark_ignored(fens[i], moves[i])
        }
}

/// Whether `sans` is the written form of the game that `moves` play from a
/// position, move by move, whatever check marks they carry.
pub open spec fn recomputed(start: Seq<char>, moves: Seq<Seq<char>>, sans: Seq<Seq<char>>) -> bool {
    &&& sans.len() == moves.len()
    &&& exists|fens: Seq<Seq<char>>, ms: Seq<Seq<char>>| #[trigger]
        written_line(fens, ms, sans) && fens[0] == start && played_line(
            fens,
            ms,
            moves,
            moves.len() as int,
        )
}

proof fn lemma_marks_ignored_from(
    fens: Seq<Seq<char>>,
    ms: Seq<Seq<char>>,
    moves: Seq<Seq<char>>,
    other: Seq<Seq<char>>,
    i: int,
)
    requires
        played_line(fens, ms, moves, moves.len() as int),
        same_but_marks(moves, other),
        0 <= i <= moves.len(),
    ensures
        written_sans(fens[i], other, i) == written_sans(fens[i], moves, i),
    decreases moves.len() - i,
{
    if i < moves.len() {
        lemma_marks_ignored_from(fens, ms, moves, other, i + 1);
        assert(bare_move(other[i]) == bare_move(moves[i]));
        assert(played(fens[i], other[i]) == played(fens[i], moves[i]));
    }
}

pub proof fn lemma_marks_ignored(fens: Seq<Seq<char>>, ms: Seq<Seq<char>>, moves: Seq<Seq<char>>)
    requires
        played_line(fens, ms, moves, moves.len() as int),
    ensures
        marks_ignored(fens[0], moves),
{
    assert forall|other: Seq<Seq<char>>| #[trigger] same_but_marks(moves, other) implies
        written_sans(fens[0], other, 0) == written_sans(fens[0], moves, 0) by {
        lemma_marks_ignored_from(fens, ms, moves, other, 0);
    }
}

impl PgnBuilder {
    /// Resolves the position the game starts from: the standard array, or the
    /// caller-supplied `start_fen` for Chess960 / custom variants.
    pub fn start_position(&self) -> (r: Result<Board, PgnError>)
        ensures
            match r {
                Ok(b) => start_of(self.headers()) == Ok::<Seq<char>, PgnErrorView>(b@),
                Err(e) => start_of(self.headers()) == Err::<Seq<char>, PgnErrorView>(e@),
            },
    {
        match &self.headers.start_fen {
            None => Ok(Board::standard()),
            Some(fen) => match FenRecord::parse(fen.as_str()) {
                Err(e) => Err(PgnError::InvalidFormat(concat("invalid start FEN: ", e.as_str()))),
                Ok(record) => match Board::from_fen(record) {
                    Err(e) => Err(
                        PgnError::InvalidFormat(concat("illegal start position: ", e.as_str())),
                    ),
                    Ok(board) => Ok(board),
                },
            },
        }
    }

    /// Replays every move from `start`, recomputing the correct check (`+`) /
    /// checkmate (`#`) suffix instead of trusting whatever suffix (if any) was
    /// stored.
    ///
    /// SAN disambiguation is computed from the position *before* each move, and
    /// the suffix from the position after it. What comes out is the written form
    /// of a game from `start` to the position the given moves lead to.
    pub fn recompute_check_suffixes(start: Board, moves: &Vec<MoveAnnotation>) -> (r: Result<
        Vec<Vec<char>>,
        PgnError,
    >)
        ensures
            match r {
                Ok(sans) => {
                    &&& written_sans(start@, san_texts(moves@), 0) == Ok::<
                        Seq<Seq<char>>,
                        PgnErrorView,
                    >(texts(sans@))
                    &&& sans@.len() == moves@.len()
                    &&& recomputed(start@, san_texts(moves@), texts(sans@))
                    &&& replayed(start@, san_texts(moves@), 0) matches Ok(end) && written_game(
                        start@,
                        texts(sans@),
                        end,
                    )
                    &&& marks_ignored(start@, san_texts(moves@))
                },
                Err(e) => written_sans(start@, san_texts(moves@), 0) == Err::<
                    Seq<Seq<char>>,
                    PgnErrorView,
                >(e@),
            },
    {
        let ghost sans = san_texts(moves@);
        let ghost first = start@;
        let ghost mut fens = seq![start@];
        let ghost mut ms: Seq<Seq<char>> = seq![];
        let mut board = start;
        let mut out: Vec<Vec<char>> = Vec::new();
        let mut i: usize = 0;
        while i < moves.len()
            invariant
                i <= moves@.len(),
                out@.len() == i,
                sans == san_texts(moves@),
                first == start@,
                written_sans(first, sans, 0) == prepend(
                    texts(out@),
                    written_sans(board@, sans, i as int),
                ),
                replayed(first, sans, 0) == replayed(board@, sans, i as int),
                written_line(fens, ms, texts(out@)),
                played_line(fens, ms, sans, i as int),
                fens[0] == first,
                fens.last() == board@,
            decreases moves@.len() - i,
        {
            assert(sans[i as int] == moves@[i as int].san@);
            match play_san(&board, moves[i].san.as_str()) {
                Err(fault) => {
                    return Err(unplayable_error(i, moves[i].san.as_str(), fault));
                },
                Ok((m, next)) => {
                    let mut san = chars_of(board.san_of(&m).as_str());
                    let ghost bare = san@;
                    if next.is_checkmate() {
                        proof {
                            reveal_strlit("#");
                        }
                        san.push('#');
                        assert(san@ == bare + "#"@);
                    } else if next.is_check() {
                        proof {
                            reveal_strlit("+");
                        }
                        san.push('+');
                        assert(san@ == bare + "+"@);
                    } else {
                        proof {
                            reveal_strlit("");
                        }
                        assert(san@ == bare + ""@);
                    }
                    let ghost before = texts(out@);
                    let ghost written = san@;
                    out.push(san);
                    proof {
                        assert(texts(out@) == before.push(written));
                        match written_sans(next@, sans, i + 1) {
                            Ok(rest) => {
                                assert(before + (seq![written] + rest) == before.push(written)
                                    + rest);
                            },
                            Err(_) => {},
                        }
                        let longer = fens.push(next@);
                        let more = ms.push(m@);
                        assert forall|j: int| 0 <= j < before.len() + 1 implies written_ply(
                            longer[j],
                            more[j],
                            longer[j + 1],
                            #[trigger] before.push(written)[j],
                        ) by {
                            if j < i {
                                assert(written_ply(fens[j], ms[j], fens[j + 1], before[j]));
                            }
                        }
                        assert forall|j: int| 0 <= j < i + 1 implies {
                            &&& played(longer[j], #[trigger] sans[j]) == Ok::<
                                (Seq<char>, Seq<char>),
                                MoveFault,
                            >((more[j], longer[j + 1]))
                            &&& mark_ignored(longer[j], sans[j])
                        } by {
                            if j < i {
                                assert(played(fens[j], sans[j]) == Ok::<
                                    (Seq<char>, Seq<char>),
                                    MoveFault,
                                >((ms[j], fens[j + 1])));
                            }
                        }
                        fens = longer;
                        ms = more;
                    }
                    board = next;
                },
            }
            i += 1;
        }
        proof {
            assert(texts(out@) + seq![] == texts(out@));
            lemma_marks_ignored(fens, ms, sans);
            assert(recomputed(first, sans, texts(out@)));
        }
        Ok(out)
    }
}

// ---------------------------------------------------------------------------
// Movetext
// ---------------------------------------------------------------------------

/// Whether White makes ply `i` of a game that `side` starts.
pub open spec fn white_ply(side: Side, i: int) -> bool {
    if side == Side::White {
        i % 2 == 0
    } else {
        i % 2 == 1
    }
}

/// The number of the move that ply `i` belongs to, in 32-bit arithmetic. A
/// start on a black move shifts the parity by one ply.
pub open spec fn move_number(side: Side, first: u32, i: int) -> nat {
    let plies = if side == Side::White {
        i
    } else {
        i + 1
    };
    ((first + (plies % 0x1_0000_0000) / 2) % 0x1_0000_0000) as nat
}

/// The move number in front of ply `i`: one dot before a white move, three
/// before a black move that starts the game, nothing before any other.
pub open spec fn number_tokens(side: Side, first: u32, i: int) -> Seq<Seq<char>> {
    let number = dec_nat(move_number(side, first, i));
    if white_ply(side, i) {
        seq![number + "."@]
    } else if i == 0 {
        seq![number + "..."@]
    } else {
        seq![]
    }
}

/// The move and its classification glyph.
pub open spec fn move_token(san: Seq<char>, ann: MoveAnnotation) -> Seq<char> {
    match ann.classification {
        Some(class) => san + class@,
        None => san,
    }
}

/// Centipawns in pawns, with two decimals.
pub open spec fn pawns(cp: int) -> Seq<char> {
    let n = if cp < 0 {
        -cp
    } else {
        cp
    };
    (if cp < 0 {
        seq!['-']
    } else {
        seq![]
    }) + dec_nat((n / 100) as nat) + seq!['.', digit_char(n / 10 % 10), digit_char(n % 10)]
}

/// The evaluation of a move; a mate distance takes precedence.
pub open spec fn eval_tag(ann: MoveAnnotation) -> Option<Seq<char>> {
    match ann.eval_mate {
        Some(mate) => Some("[%eval #"@ + dec(mate as int) + "]"@),
        None => match ann.eval_centipawns {
            Some(cp) => Some("[%eval "@ + pawns(cp as int) + "]"@),
            None => None,
        },
    }
}

/// A clock reading.
pub open spec fn clock_tag(clock: Seq<char>) -> Seq<char> {
    "[%clk "@ + clock + "]"@
}

/// What is known of a move beside the move itself.
pub open spec fn annotation_parts(ann: MoveAnnotation) -> Seq<Seq<char>> {
    (match eval_tag(ann) {
        Some(t) => seq![t],
        None => seq![],
    }) + (match ann.clock {
        Some(c) => seq![clock_tag(c@)],
        None => seq![],
    })
}

/// The comment behind a move.
pub open spec fn comment_tokens(ann: MoveAnnotation, analysis: bool) -> Seq<Seq<char>> {
    if analysis && annotation_parts(ann).len() > 0 {
        seq!["{ "@ + join(annotation_parts(ann), seq![' ']) + " }"@]
    } else {
        seq![]
    }
}

/// The tokens of ply `i`.
pub open spec fn ply_tokens(
    side: Side,
    first: u32,
    i: int,
    san: Seq<char>,
    ann: MoveAnnotation,
    analysis: bool,
) -> Seq<Seq<char>> {
    number_tokens(side, first, i) + seq![move_token(san, ann)] + comment_tokens(ann, analysis)
}

/// The tokens of the first `n` plies.
pub open spec fn game_tokens(
    side: Side,
    first: u32,
    sans: Seq<Seq<char>>,
    moves: Seq<MoveAnnotation>,
    analysis: bool,
    n: int,
) -> Seq<Seq<char>>
    decreases n,
{
    if n <= 0 {
        seq![]
    } else {
        game_tokens(side, first, sans, moves, analysis, n - 1) + ply_tokens(
            side,
            first,
            n - 1,
            sans[n - 1],
            moves[n - 1],
            analysis,
        )
    }
}

/// The first `n` tokens laid out in lines: the lines that are full, and the
/// line being filled. A token goes on a new line where it would make the line
/// wider than [`MOVETEXT_LINE_WIDTH`].
pub open spec fn laid_out(tokens: Seq<Seq<char>>, n: int) -> (Seq<Seq<char>>, Seq<char>)
    decreases n,
{
    if n <= 0 {
        (seq![], seq![])
    } else {
        let (lines, line) = laid_out(tokens, n - 1);
        let token = tokens[n - 1];
        if line.len() == 0 {
            (lines, token)
        } else if utf8_width(line) + 1 + utf8_width(token) <= MOVETEXT_LINE_WIDTH {
            (lines, line.push(' ') + token)
        } else {
            (lines.push(line), token)
        }
    }
}

/// Tokens laid out as a text.
pub open spec fn wrapped(tokens: Seq<Seq<char>>) -> Seq<char> {
    let (lines, line) = laid_out(tokens, tokens.len() as int);
    join(
        if line.len() > 0 {
            lines.push(line)
        } else {
            lines
        },
        seq!['\n'],
    )
}

/// The movetext of a game.
pub open spec fn movetext(
    side: Side,
    first: u32,
    sans: Seq<Seq<char>>,
    moves: Seq<MoveAnnotation>,
    analysis: bool,
    result: GameResult,
) -> Seq<char> {
    wrapped(
        game_tokens(side, first, sans, moves, analysis, moves.len() as int).push(
            result_marker(result),
        ),
    )
}

fn number_of_move(side: Side, first: u32, i: usize) -> (r: u32)
    requires
        i < usize::MAX,
    ensures
        r == move_number(side, first, i as int),
{
    let plies: u64 = if side == Side::White {
        i as u64
    } else {
        i as u64 + 1
    };
    let low: u32 = #[verifier::truncate]
    (plies as u32);
    assert(low == plies % 0x1_0000_0000) by (bit_vector)
        requires
            low == plies as u32,
    ;
    first.wrapping_add(low / 2)
}

/// Lays out tokens in lines.
pub fn wrap_tokens(tokens: &Vec<Vec<char>>) -> (r: Vec<char>)
    ensures
        r@ == wrapped(texts(tokens@)),
{
    let ghost all = texts(tokens@);
    let mut lines: Vec<Vec<char>> = Vec::new();
    let mut line: Vec<char> = Vec::new();
    let mut i: usize = 0;
    while i < tokens.len()
        invariant
            i <= tokens@.len(),
            all == texts(tokens@),
            laid_out(all, i as int) == (texts(lines@), line@),
        decreases tokens@.len() - i,
    {
        let token = tokens[i].as_slice();
        assert(all[i as int] == token@);
        if line.len() == 0 {
            line = Vec::new();
            extend(&mut line, token);
        } else {
            let room = width_up_to(line.as_slice(), MOVETEXT_LINE_WIDTH) + 1 + width_up_to(
                token,
                MOVETEXT_LINE_WIDTH,
            );
            if room <= MOVETEXT_LINE_WIDTH {
                line.push(' ');
                extend(&mut line, token);
            } else {
                let ghost before = texts(lines@);
                let ghost full = line@;
                lines.push(line);
                assert(texts(lines@) == before.push(full));
                line = Vec::new();
                extend(&mut line, token);
            }
        }
        i += 1;
    }
    if line.len() > 0 {
        let ghost before = texts(lines@);
        let ghost last = line@;
        lines.push(line);
        assert(texts(lines@) == before.push(last));
    }
    let out = joined(&lines, 0, '\n');
    assert(texts(lines@).skip(0) == texts(lines@));
    out
}

impl PgnBuilder {
    /// The `[%eval ...]` tag of a move, if it has an evaluation.
    pub fn format_eval_tag(ann: &MoveAnnotation) -> (r: Option<String>)
        ensures
            opt_text(r) == eval_tag(*ann),
    {
        match ann.eval_mate {
            Some(mate) => {
                let mut out = "[%eval #".to_owned();
                out.append(string_of(int_text(mate as i64).as_slice()).as_str());
                out.append("]");
                Some(out)
            },
            None => match ann.eval_centipawns {
                Some(cp) => {
                    let mut out = "[%eval ".to_owned();
                    out.append(string_of(pawns_text(cp).as_slice()).as_str());
                    out.append("]");
                    Some(out)
                },
                None => None,
            },
        }
    }

    /// The `[%clk ...]` tag of a clock reading.
    pub fn format_clk_tag(clock: &str) -> (r: String)
        ensures
            r@ == clock_tag(clock@),
    {
        let mut out = "[%clk ".to_owned();
        out.append(clock);
        out.append("]");
        out
    }
}

fn pawns_text(cp: i32) -> (r: Vec<char>)
    ensures
        r@ == pawns(cp as int),
{
    let mut out: Vec<char> = Vec::new();
    let n: u64 = if cp < 0 {
        (-(cp as i64)) as u64
    } else {
        cp as u64
    };
    if cp < 0 {
        out.push('-');
    }
    let ghost sign = out@;
    extend(&mut out, nat_text(n / 100).as_slice());
    let ghost whole = out@;
    out.push('.');
    let tens = nat_text(n / 10 % 10);
    let ones = nat_text(n % 10);
    extend(&mut out, tens.as_slice());
    extend(&mut out, ones.as_slice());
    assert(out@ == whole + seq!['.', digit_char(n as int / 10 % 10), digit_char(n as int % 10)]);
    out
}

fn comment_of(ann: &MoveAnnotation) -> (r: Option<Vec<char>>)
    ensures
        comment_tokens(*ann, true) == match r {
            Some(t) => seq![t@],
            None => seq![],
        },
{
    let mut parts: Vec<Vec<char>> = Vec::new();
    match PgnBuilder::format_eval_tag(ann) {
        Some(t) => {
            parts.push(chars_of(t.as_str()));
        },
        None => {},
    }
    match &ann.clock {
        Some(c) => {
            parts.push(chars_of(PgnBuilder::format_clk_tag(c.as_str()).as_str()));
        },
        None => {},
    }
    assert(texts(parts@) == annotation_parts(*ann));
    if parts.len() == 0 {
        return None;
    }
    let mut out = chars_of("{ ");
    extend(&mut out, joined(&parts, 0, ' ').as_slice());
    extend(&mut out, chars_of(" }").as_slice());
    assert(texts(parts@).skip(0) == texts(parts@));
    Some(out)
}

/// Writes the movetext of a game whose plies read `sans`, from a position where
/// `side` makes move number `first`.
pub fn format_moves(
    side: Side,
    first: u32,
    sans: &Vec<Vec<char>>,
    moves: &Vec<MoveAnnotation>,
    include_analysis: bool,
    result: GameResult,
) -> (r: Vec<char>)
    requires
        sans@.len() == moves@.len(),
    ensures
        r@ == movetext(side, first, texts(sans@), moves@, include_analysis, result),
{
    let mut tokens: Vec<Vec<char>> = Vec::new();
    let mut i: usize = 0;
    while i < moves.len()
        invariant
            i <= moves@.len(),
            sans@.len() == moves@.len(),
            texts(tokens@) == game_tokens(
                side,
                first,
                texts(sans@),
                moves@,
                include_analysis,
                i as int,
            ),
        decreases moves@.len() - i,
    {
        let ghost before = texts(tokens@);
        let is_white = if side == Side::White {
            i % 2 == 0
        } else {
            i % 2 == 1
        };
        if is_white || i == 0 {
            let mut number = nat_text(number_of_move(side, first, i) as u64);
            let dots = if is_white {
                "."
            } else {
                "..."
            };
            extend(&mut number, chars_of(dots).as_slice());
            tokens.push(number);
        }
        assert(texts(tokens@) == before + number_tokens(side, first, i as int));
        let ghost numbered = texts(tokens@);

        let mut token: Vec<char> = Vec::new();
        extend(&mut token, sans[i].as_slice());
        assert(token@ == sans@[i as int]@);
        match &moves[i].classification {
            Some(class) => {
                extend(&mut token, chars_of(class.as_str()).as_slice());
            },
            None => {},
        }
        assert(token@ == move_token(texts(sans@)[i as int], moves@[i as int]));
        let ghost written = token@;
        tokens.push(token);
        assert(texts(tokens@) == numbered.push(written));
        let ghost moved = texts(tokens@);

        if include_analysis {
            match comment_of(&moves[i]) {
                Some(comment) => {
                    tokens.push(comment);
                    assert(texts(tokens@) == moved.push(comment@));
                },
                None => {},
            }
        }
        assert(texts(tokens@) == before + ply_tokens(
            side,
            first,
            i as int,
            texts(sans@)[i as int],
            moves@[i as int],
            include_analysis,
        ));
        i += 1;
    }
    let ghost before = texts(tokens@);
    tokens.push(chars_of(result.to_pgn_string()));
    assert(texts(tokens@) == before.push(result_marker(result)));
    wrap_tokens(&tokens)
}

// ---------------------------------------------------------------------------
// Documents
// ---------------------------------------------------------------------------

/// The document of a game whose plies read `sans`: the tags, a blank line and
/// the movetext.
pub open spec fn document(
    h: ExportHeaders,
    side: Side,
    first: u32,
    sans: Seq<Seq<char>>,
    moves: Seq<MoveAnnotation>,
    analysis: bool,
) -> Seq<char> {
    tag_section(h) + "\n"@ + movetext(side, first, sans, moves, analysis, h.result) + "\n"@
}

/// The document that a builder makes.
pub open spec fn built(h: ExportHeaders, moves: Seq<MoveAnnotation>, analysis: bool) -> Result<
    Seq<char>,
    PgnErrorView,
> {
    match start_of(h) {
        Err(e) => Err(e),
        Ok(start) => match written_sans(start, san_texts(moves), 0) {
            Err(e) => Err(e),
            Ok(sans) => Ok(
                document(h, side_to_move(start), full_moves(start), sans, moves, analysis),
            ),
        },
    }
}

/// The document of an export: as built, where both players are named.
pub open spec fn exported(h: ExportHeaders, moves: Seq<MoveAnnotation>, analysis: bool) -> Result<
    Seq<char>,
    PgnErrorView,
> {
    if h.white@.len() == 0 {
        Err(PgnErrorView::MissingHeader("White"@))
    } else if h.black@.len() == 0 {
        Err(PgnErrorView::MissingHeader("Black"@))
    } else {
        built(h, moves, analysis)
    }
}

/// A document together with the game it was written from: the game is a legal
/// one, and `sans` is its written form, whatever check marks the moves carried.
pub open spec fn documents(
    text: Seq<char>,
    h: ExportHeaders,
    moves: Seq<MoveAnnotation>,
    analysis: bool,
    start: Seq<char>,
    sans: Seq<Seq<char>>,
    end: Seq<char>,
) -> bool {
    &&& start_of(h) == Ok::<Seq<char>, PgnErrorView>(start)
    &&& written_game(start, sans, end)
    &&& sans.len() == moves.len()
    &&& written_sans(start, san_texts(moves), 0) == Ok::<Seq<Seq<char>>, PgnErrorView>(sans)
    &&& marks_ignored(start, san_texts(moves))
    &&& recomputed(start, san_texts(moves), sans)
    &&& replayed(start, san_texts(moves), 0) == Ok::<Seq<char>, PgnErrorView>(end)
    &&& text == document(h, side_to_move(start), full_moves(start), sans, moves, analysis)
}

/// Whether a document was written from a legal game.
pub open spec fn documents_game(
    text: Seq<char>,
    h: ExportHeaders,
    moves: Seq<MoveAnnotation>,
    analysis: bool,
) -> bool {
    exists|start: Seq<char>, sans: Seq<Seq<char>>, end: Seq<char>| #[trigger]
        documents(text, h, moves, analysis, start, sans, end)
}

impl PgnBuilder {
    /// Builds the document.
    pub fn build(&self) -> (r: Result<String, PgnError>)
        ensures
            match r {
                Ok(text) => {
                    &&& built(self.headers(), self.moves(), self.analysis()) == Ok::<
                        Seq<char>,
                        PgnErrorView,
                    >(text@)
                    &&& documents_game(text@, self.headers(), self.moves(), self.analysis())
                },
                Err(e) => built(self.headers(), self.moves(), self.analysis()) == Err::<
                    Seq<char>,
                    PgnErrorView,
                >(e@),
            },
    {
        let mut out = self.format_headers();
        let start = match self.start_position() {
            Err(e) => {
                return Err(e);
            },
            Ok(start) => start,
        };
        let ghost first = start@;
        let side = start.side();
        let number: u32 = start.fullmoves();
        let sans = match Self::recompute_check_suffixes(start, &self.moves) {
            Err(e) => {
                return Err(e);
            },
            Ok(sans) => sans,
        };
        let movetext = format_moves(
            side,
            number,
            &sans,
            &self.moves,
            self.include_analysis,
            self.headers.result,
        );
        out.append("\n");
        out.append(string_of(movetext.as_slice()).as_str());
        out.append("\n");
        proof {
            match replayed(first, san_texts(self.moves@), 0) {
                Ok(end) => {
                    assert(documents(
                        out@,
                        self.headers,
                        self.moves@,
                        self.include_analysis,
                        first,
                        texts(sans@),
                        end,
                    ));
                },
                Err(_) => {},
            }
        }
        Ok(out)
    }
}

/// Formats a full PGN export string from headers + annotated moves.
///
/// This is the pure formatting entry point: whoever calls it is responsible for
/// loading the game and its move history and converting them into
/// [`ExportHeaders`] / [`MoveAnnotation`] first.
pub fn export_pgn(
    headers: ExportHeaders,
    moves: Vec<MoveAnnotation>,
    include_analysis: bool,
) -> (r: Result<String, PgnError>)
    ensures
        match r {
            Ok(text) => {
                &&& exported(headers, moves@, include_analysis) == Ok::<Seq<char>, PgnErrorView>(
                    text@,
                )
                &&& documents_game(text@, headers, moves@, include_analysis)
            },
            Err(e) => exported(headers, moves@, include_analysis) == Err::<
                Seq<char>,
                PgnErrorView,
            >(e@),
        },
{
    if chars_of(headers.white.as_str()).len() == 0 {
        return Err(PgnError::MissingHeader("White".to_owned()));
    }
    if chars_of(headers.black.as_str()).len() == 0 {
        return Err(PgnError::MissingHeader("Black".to_owned()));
    }
    PgnBuilder::new(headers, moves, include_analysis).build()
}

} // verus!
