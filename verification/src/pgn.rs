//! PGN (Portable Game Notation) import.
//!
//! Parses PGN strings into headers and SAN moves, and validates a parsed game
//! by replaying it from the standard starting position.

use vstd::prelude::*;

use crate::board::{
    after_move, bare_move, in_checkmate, in_stalemate, marked, move_with_any_mark, opponent,
    published_fen, san_move, san_syntax, side_to_move, start_fen, syntax_with_any_mark, Board,
    BoardMove, SanToken,
};
use crate::text::{
    chars_of, concat, dec, find_run_end, is_text, lemma_run_end, nat_text, opt_text, run_end,
    same_str, slice, split_words, string_of, strings, texts, trim, trimmed, words, Class,
};
use crate::unicode::{lower_text, to_lower_text};

pub use crate::pgn_export::{export_pgn, ExportHeaders, MoveAnnotation, PgnBuilder};
pub use crate::pgn_validator::export_pgn_validated;

verus! {

// ---------------------------------------------------------------------------
// Errors and results
// ---------------------------------------------------------------------------

/// Errors that can occur during PGN parsing and validation.
#[derive(Debug, Clone)]
pub enum PgnError {
    InvalidFormat(String),
    MissingHeader(String),
    InvalidHeader(String),
    IllegalMove { move_number: usize, move_text: String, reason: String },
    InvalidResult(String),
    EmptyPgn,
}

/// A [`PgnError`] with its texts as character sequences.
pub ghost enum PgnErrorView {
    InvalidFormat(Seq<char>),
    MissingHeader(Seq<char>),
    InvalidHeader(Seq<char>),
    IllegalMove { move_number: int, move_text: Seq<char>, reason: Seq<char> },
    InvalidResult(Seq<char>),
    EmptyPgn,
}

impl View for PgnError {
    type V = PgnErrorView;

    open spec fn view(&self) -> PgnErrorView {
        match *self {
            PgnError::InvalidFormat(s) => PgnErrorView::InvalidFormat(s@),
            PgnError::MissingHeader(s) => PgnErrorView::MissingHeader(s@),
            PgnError::InvalidHeader(s) => PgnErrorView::InvalidHeader(s@),
            PgnError::IllegalMove { move_number, move_text, reason } => PgnErrorView::IllegalMove {
                move_number: move_number as int,
                move_text: move_text@,
                reason: reason@,
            },
            PgnError::InvalidResult(s) => PgnErrorView::InvalidResult(s@),
            PgnError::EmptyPgn => PgnErrorView::EmptyPgn,
        }
    }
}

impl PgnErrorView {
    /// The error in words.
    pub open spec fn message(self) -> Seq<char> {
        match self {
            PgnErrorView::InvalidFormat(s) => "Invalid PGN format: "@ + s,
            PgnErrorView::MissingHeader(s) => "Missing required header: "@ + s,
            PgnErrorView::InvalidHeader(s) => "Invalid header format: "@ + s,
            PgnErrorView::IllegalMove { move_number, move_text, reason } => "Illegal move at move "@
                + dec(move_number) + ": '"@ + move_text + "' - "@ + reason,
            PgnErrorView::InvalidResult(s) => "Invalid result format: "@ + s,
            PgnErrorView::EmptyPgn => "Empty PGN string"@,
        }
    }
}

impl PgnError {
    /// The error in words.
    pub fn message(&self) -> (r: String)
        ensures
            r@ == self@.message(),
    {
        match self {
            PgnError::InvalidFormat(s) => concat("Invalid PGN format: ", s.as_str()),
            PgnError::MissingHeader(s) => concat("Missing required header: ", s.as_str()),
            PgnError::InvalidHeader(s) => concat("Invalid header format: ", s.as_str()),
            PgnError::IllegalMove { move_number, move_text, reason } => {
                let mut out = "Illegal move at move ".to_owned();
                out.append(string_of(nat_text(*move_number as u64).as_slice()).as_str());
                out.append(": '");
                out.append(move_text.as_str());
                out.append("' - ");
                out.append(reason.as_str());
                out
            },
            PgnError::InvalidResult(s) => concat("Invalid result format: ", s.as_str()),
            PgnError::EmptyPgn => "Empty PGN string".to_owned(),
        }
    }
}

/// Represents the result of a chess game.
#[derive(Debug, Clone, Copy, PartialEq, Eq, Structural)]
pub enum GameResult {
    WhiteWins,
    BlackWins,
    Draw,
    Ongoing,
}

impl Default for GameResult {
    fn default() -> (r: GameResult)
        ensures
            r == GameResult::Ongoing,
    {
        GameResult::Ongoing
    }
}

/// The PGN marker of a result.
pub open spec fn result_marker(r: GameResult) -> Seq<char> {
    match r {
        GameResult::WhiteWins => "1-0"@,
        GameResult::BlackWins => "0-1"@,
        GameResult::Draw => "1/2-1/2"@,
        GameResult::Ongoing => "*"@,
    }
}

/// The result that a marker stands for.
pub open spec fn marked_result(s: Seq<char>) -> Option<GameResult> {
    if s == result_marker(GameResult::WhiteWins) {
        Some(GameResult::WhiteWins)
    } else if s == result_marker(GameResult::BlackWins) {
        Some(GameResult::BlackWins)
    } else if s == result_marker(GameResult::Draw) {
        Some(GameResult::Draw)
    } else if s == result_marker(GameResult::Ongoing) {
        Some(GameResult::Ongoing)
    } else {
        None
    }
}

/// The result an unpacked marker stands for.
pub fn result_of_marker(s: &[char]) -> (r: Option<GameResult>)
    ensures
        r == marked_result(s@),
{
    if is_text(s, "1-0") {
        Some(GameResult::WhiteWins)
    } else if is_text(s, "0-1") {
        Some(GameResult::BlackWins)
    } else if is_text(s, "1/2-1/2") {
        Some(GameResult::Draw)
    } else if is_text(s, "*") {
        Some(GameResult::Ongoing)
    } else {
        None
    }
}

impl GameResult {
    /// Parse a result string from PGN format, ignoring white space around it.
    pub fn from_pgn_string(s: &str) -> (r: Result<Self, PgnError>)
        ensures
            match r {
                Ok(g) => marked_result(trim(s@)) == Some(g),
                Err(e) => marked_result(trim(s@)) is None && e@ == PgnErrorView::InvalidResult(
                    trim(s@),
                ),
            },
    {
        let t = trimmed(chars_of(s).as_slice());
        match result_of_marker(t.as_slice()) {
            Some(g) => Ok(g),
            None => Err(PgnError::InvalidResult(string_of(t.as_slice()))),
        }
    }

    /// Convert to PGN result string.
    pub fn to_pgn_string(&self) -> (r: &'static str)
        ensures
            r@ == result_marker(*self),
    {
        match self {
            GameResult::WhiteWins => "1-0",
            GameResult::BlackWins => "0-1",
            GameResult::Draw => "1/2-1/2",
            GameResult::Ongoing => "*",
        }
    }
}

// ---------------------------------------------------------------------------
// Games
// ---------------------------------------------------------------------------

/// Headers extracted from a PGN string.
#[derive(Debug)]
pub struct PgnHeaders {
    pub event: Option<String>,
    pub site: Option<String>,
    pub date: Option<String>,
    pub round: Option<String>,
    pub white: String,
    pub black: String,
    pub result: GameResult,
    /// Any additional headers not explicitly parsed: at most one entry per
    /// name, in the order in which the names first appeared.
    pub other: Vec<(String, String)>,
}

/// [`PgnHeaders`] with texts as character sequences and the additional headers
/// as a map.
pub ghost struct HeadersView {
    pub event: Option<Seq<char>>,
    pub site: Option<Seq<char>>,
    pub date: Option<Seq<char>>,
    pub round: Option<Seq<char>>,
    pub white: Seq<char>,
    pub black: Seq<char>,
    pub result: GameResult,
    pub other: Map<Seq<char>, Seq<char>>,
}

/// No name occurs twice.
pub open spec fn unique_names(v: Seq<(String, String)>) -> bool {
    forall|i: int, j: int| 0 <= i < j < v.len() ==> (#[trigger] v[i]).0@ != (#[trigger] v[j]).0@
}

/// The map that name/value pairs with unique names describe.
pub open spec fn pair_map(v: Seq<(String, String)>) -> Map<Seq<char>, Seq<char>>
    decreases v.len(),
{
    if v.len() == 0 {
        Map::empty()
    } else {
        pair_map(v.drop_last()).insert(v.last().0@, v.last().1@)
    }
}

impl PgnHeaders {
    /// The additional headers name no header twice.
    pub open spec fn well_formed(&self) -> bool {
        unique_names(self.other@)
    }
}

impl View for PgnHeaders {
    type V = HeadersView;

    open spec fn view(&self) -> HeadersView {
        HeadersView {
            event: opt_text(self.event),
            site: opt_text(self.site),
            date: opt_text(self.date),
            round: opt_text(self.round),
            white: self.white@,
            black: self.black@,
            result: self.result,
            other: pair_map(self.other@),
        }
    }
}

/// Headers before any was read.
pub open spec fn no_headers() -> HeadersView {
    HeadersView {
        event: None,
        site: None,
        date: None,
        round: None,
        white: seq![],
        black: seq![],
        result: GameResult::Ongoing,
        other: Map::empty(),
    }
}

impl Default for PgnHeaders {
    fn default() -> (r: PgnHeaders)
        ensures
            r@ == no_headers(),
            r.well_formed(),
    {
        PgnHeaders {
            event: None,
            site: None,
            date: None,
            round: None,
            white: String::new(),
            black: String::new(),
            result: GameResult::Ongoing,
            other: Vec::new(),
        }
    }
}

fn clone_opt(s: &Option<String>) -> (r: Option<String>)
    ensures
        r == *s,
{
    match s {
        Some(t) => Some(t.clone()),
        None => None,
    }
}

fn clone_pairs(v: &Vec<(String, String)>) -> (r: Vec<(String, String)>)
    ensures
        r@ == v@,
{
    let mut out: Vec<(String, String)> = Vec::new();
    let mut i: usize = 0;
    while i < v.len()
        invariant
            i <= v@.len(),
            out@ == v@.take(i as int),
        decreases v@.len() - i,
    {
        out.push((v[i].0.clone(), v[i].1.clone()));
        i += 1;
    }
    assert(v@.take(i as int) == v@);
    out
}

impl Clone for PgnHeaders {
    fn clone(&self) -> (r: PgnHeaders)
        ensures
            r@ == self@,
            self.well_formed() ==> r.well_formed(),
    {
        PgnHeaders {
            event: clone_opt(&self.event),
            site: clone_opt(&self.site),
            date: clone_opt(&self.date),
            round: clone_opt(&self.round),
            white: self.white.clone(),
            black: self.black.clone(),
            result: self.result,
            other: clone_pairs(&self.other),
        }
    }
}

/// Represents a fully parsed PGN game.
#[derive(Debug, Clone)]
pub struct ParsedGame {
    pub headers: PgnHeaders,
    /// Moves in SAN notation.
    pub moves: Vec<String>,
    /// The final FEN position after all moves.
    pub final_fen: String,
    /// Total number of half-moves (plies).
    pub ply_count: usize,
}

/// Represents a validated game ready for storage.
#[derive(Debug, Clone)]
pub struct ValidatedGame {
    pub headers: PgnHeaders,
    pub moves: Vec<String>,
    pub final_fen: String,
    pub ply_count: usize,
    pub is_valid: bool,
}

// ---------------------------------------------------------------------------
// Headers
// ---------------------------------------------------------------------------

proof fn lemma_pair_map_update(v: Seq<(String, String)>, i: int, p: (String, String))
    requires
        0 <= i < v.len(),
        unique_names(v),
        p.0@ == v[i].0@,
    ensures
        unique_names(v.update(i, p)),
        pair_map(v.update(i, p)) == pair_map(v).insert(p.0@, p.1@),
    decreases v.len(),
{
    let w = v.update(i, p);
    assert forall|a: int, b: int| 0 <= a < b < w.len() implies (#[trigger] w[a]).0@ != (
    #[trigger] w[b]).0@ by {
        assert(v[a].0@ != v[b].0@);
    }
    let t = v.drop_last();
    if i == v.len() - 1 {
        assert(w.drop_last() == t);
        assert(pair_map(w) == pair_map(v).insert(p.0@, p.1@));
    } else {
        assert forall|a: int, b: int| 0 <= a < b < t.len() implies (#[trigger] t[a]).0@ != (
        #[trigger] t[b]).0@ by {
            assert(v[a].0@ != v[b].0@);
        }
        lemma_pair_map_update(t, i, p);
        assert(w.drop_last() == t.update(i, p));
        assert(v[i].0@ != v[v.len() - 1].0@);
        assert(pair_map(w) == pair_map(v).insert(p.0@, p.1@));
    }
}

/// Sets the value of a name, keeping names unique.
fn insert_pair(pairs: &mut Vec<(String, String)>, name: String, value: String)
    requires
        unique_names(old(pairs)@),
    ensures
        unique_names(final(pairs)@),
        pair_map(final(pairs)@) == pair_map(old(pairs)@).insert(name@, value@),
{
    let mut i: usize = 0;
    while i < pairs.len()
        invariant
            i <= pairs@.len(),
            pairs@ == old(pairs)@,
            unique_names(pairs@),
            forall|j: int| 0 <= j < i ==> (#[trigger] pairs@[j]).0@ != name@,
        decreases pairs@.len() - i,
    {
        if same_str(pairs[i].0.as_str(), name.as_str()) {
            proof {
                lemma_pair_map_update(pairs@, i as int, (name, value));
            }
            pairs.set(i, (name, value));
            return;
        }
        i += 1;
    }
    let ghost before = pairs@;
    pairs.push((name, value));
    assert(pairs@.drop_last() == before);
}

/// One `[Name "value"]` pair found in a text, and where it ends.
pub ghost struct HeaderMatch {
    pub key: Seq<char>,
    pub value: Seq<char>,
    pub end: int,
}

/// The header pair that starts at `i`, if there is one: an opening bracket, a
/// name of word characters, white space, a non-empty value in double quotes
/// that holds no double quote, and a closing bracket.
pub open spec fn header_at(s: Seq<char>, i: int) -> Option<HeaderMatch> {
    let name_end = run_end(s, i + 1, Class::Word);
    let quote = run_end(s, name_end, Class::Space);
    let value_end = run_end(s, quote + 1, Class::Not('"'));
    if 0 <= i < s.len() && s[i] == '[' && i + 1 < name_end && name_end < quote && quote < s.len()
        && s[quote] == '"' && quote + 1 < value_end && value_end + 1 < s.len() && s[value_end + 1]
        == ']' {
        Some(
            HeaderMatch {
                key: s.subrange(i + 1, name_end),
                value: s.subrange(quote + 1, value_end),
                end: value_end + 2,
            },
        )
    } else {
        None
    }
}

/// A header takes up text.
pub proof fn lemma_header_end(s: Seq<char>, i: int)
    ensures
        header_at(s, i) is Some ==> i < header_at(s, i)->0.end <= s.len(),
{
    if header_at(s, i) is Some {
        lemma_run_end(s, i + 1, Class::Word);
        lemma_run_end(s, run_end(s, i + 1, Class::Word), Class::Space);
    }
}

/// The headers with one more pair; names are compared in lower case, and a
/// result has to be one of the four markers.
pub open spec fn with_header(h: HeadersView, m: HeaderMatch) -> Result<
    HeadersView,
    PgnErrorView,
> {
    let name = lower_text(m.key);
    if name == "event"@ {
        Ok(HeadersView { event: Some(m.value), ..h })
    } else if name == "site"@ {
        Ok(HeadersView { site: Some(m.value), ..h })
    } else if name == "date"@ {
        Ok(HeadersView { date: Some(m.value), ..h })
    } else if name == "round"@ {
        Ok(HeadersView { round: Some(m.value), ..h })
    } else if name == "white"@ {
        Ok(HeadersView { white: m.value, ..h })
    } else if name == "black"@ {
        Ok(HeadersView { black: m.value, ..h })
    } else if name == "result"@ {
        match marked_result(trim(m.value)) {
            Some(g) => Ok(HeadersView { result: g, ..h }),
            None => Err(PgnErrorView::InvalidResult(trim(m.value))),
        }
    } else {
        Ok(HeadersView { other: h.other.insert(m.key, m.value), ..h })
    }
}

/// Reads every header pair from `i` on into `h`; `end` is where the last one
/// ended so far.
pub open spec fn read_headers(s: Seq<char>, i: int, h: HeadersView, end: int) -> Result<
    (HeadersView, int),
    PgnErrorView,
>
    decreases s.len() - i,
    via read_headers_terminates
{
    if 0 <= i < s.len() {
        match header_at(s, i) {
            None => read_headers(s, i + 1, h, end),
            Some(m) => match with_header(h, m) {
                Err(e) => Err(e),
                Ok(g) => read_headers(s, m.end, g, m.end),
            },
        }
    } else {
        Ok((h, end))
    }
}

#[via_fn]
proof fn read_headers_terminates(s: Seq<char>, i: int, h: HeadersView, end: int) {
    lemma_header_end(s, i);
}

/// The headers of a text and where its moves start. Both players have to be
/// named.
pub open spec fn headers_of(s: Seq<char>) -> Result<(HeadersView, int), PgnErrorView> {
    match read_headers(s, 0, no_headers(), 0) {
        Err(e) => Err(e),
        Ok((h, end)) => if h.white.len() == 0 {
            Err(PgnErrorView::MissingHeader("White"@))
        } else if h.black.len() == 0 {
            Err(PgnErrorView::MissingHeader("Black"@))
        } else {
            Ok((h, end))
        },
    }
}

/// Reads the header pair that starts at `i`: its name, its value and its end.
fn find_header(s: &[char], i: usize) -> (r: Option<(Vec<char>, Vec<char>, usize)>)
    requires
        i < s@.len(),
    ensures
        match r {
            Some((key, value, end)) => header_at(s@, i as int) == Some(
                HeaderMatch { key: key@, value: value@, end: end as int },
            ),
            None => header_at(s@, i as int) is None,
        },
{
    if s[i] != '[' {
        return None;
    }
    let name_end = find_run_end(s, i + 1, Class::Word);
    let quote = find_run_end(s, name_end, Class::Space);
    if i + 1 >= name_end || name_end >= quote || quote >= s.len() || s[quote] != '"' {
        return None;
    }
    let value_end = find_run_end(s, quote + 1, Class::Not('"'));
    if quote + 1 >= value_end || s.len() - value_end <= 1 || s[value_end + 1] != ']' {
        return None;
    }
    Some((slice(s, i + 1, name_end), slice(s, quote + 1, value_end), value_end + 2))
}

/// Puts one header pair in its place.
fn store_header(headers: &mut PgnHeaders, key: &[char], value: &[char]) -> (r: Result<(), PgnError>)
    requires
        old(headers).well_formed(),
    ensures
        final(headers).well_formed(),
        match r {
            Ok(()) => with_header(
                old(headers)@,
                HeaderMatch { key: key@, value: value@, end: 0 },
            ) == Ok::<HeadersView, PgnErrorView>(final(headers)@),
            Err(e) => with_header(
                old(headers)@,
                HeaderMatch { key: key@, value: value@, end: 0 },
            ) == Err::<HeadersView, PgnErrorView>(e@),
        },
{
    let name = to_lower_text(key);
    let name = name.as_slice();
    if is_text(name, "event") {
        headers.event = Some(string_of(value));
    } else if is_text(name, "site") {
        headers.site = Some(string_of(value));
    } else if is_text(name, "date") {
        headers.date = Some(string_of(value));
    } else if is_text(name, "round") {
        headers.round = Some(string_of(value));
    } else if is_text(name, "white") {
        headers.white = string_of(value);
    } else if is_text(name, "black") {
        headers.black = string_of(value);
    } else if is_text(name, "result") {
        match GameResult::from_pgn_string(string_of(value).as_str()) {
            Ok(g) => {
                headers.result = g;
            },
            Err(e) => {
                return Err(e);
            },
        }
    } else {
        insert_pair(&mut headers.other, string_of(key), string_of(value));
    }
    Ok(())
}

/// Parse PGN headers from the input text; also says where the moves start.
pub fn parse_headers(pgn: &[char]) -> (r: Result<(PgnHeaders, usize), PgnError>)
    ensures
        match r {
            Ok((h, end)) => headers_of(pgn@) == Ok::<(HeadersView, int), PgnErrorView>(
                (h@, end as int),
            ) && h.well_formed() && end <= pgn@.len(),
            Err(e) => headers_of(pgn@) == Err::<(HeadersView, int), PgnErrorView>(e@),
        },
{
    let mut headers = PgnHeaders::default();
    let mut end: usize = 0;
    let mut i: usize = 0;
    while i < pgn.len()
        invariant
            i <= pgn@.len(),
            end <= pgn@.len(),
            headers.well_formed(),
            read_headers(pgn@, 0, no_headers(), 0) == read_headers(
                pgn@,
                i as int,
                headers@,
                end as int,
            ),
        decreases pgn@.len() - i,
    {
        proof {
            lemma_header_end(pgn@, i as int);
        }
        match find_header(pgn, i) {
            None => {
                i += 1;
            },
            Some((key, value, next)) => {
                match store_header(&mut headers, key.as_slice(), value.as_slice()) {
                    Err(e) => {
                        return Err(e);
                    },
                    Ok(()) => {},
                }
                end = next;
                i = next;
            },
        }
    }
    if chars_of(headers.white.as_str()).len() == 0 {
        return Err(PgnError::MissingHeader("White".to_owned()));
    }
    if chars_of(headers.black.as_str()).len() == 0 {
        return Err(PgnError::MissingHeader("Black".to_owned()));
    }
    Ok((headers, end))
}

// ---------------------------------------------------------------------------
// Moves
// ---------------------------------------------------------------------------

/// The text from `i` on with each brace comment replaced by a space. An opening
/// brace that is never closed is kept.
pub open spec fn drop_braces(s: Seq<char>, i: int) -> Seq<char>
    decreases s.len() - i,
    via drop_braces_terminates
{
    if 0 <= i < s.len() {
        let close = run_end(s, i + 1, Class::Not('}'));
        if s[i] == '{' && close < s.len() {
            seq![' '] + drop_braces(s, close + 1)
        } else {
            seq![s[i]] + drop_braces(s, i + 1)
        }
    } else {
        seq![]
    }
}

#[via_fn]
proof fn drop_braces_terminates(s: Seq<char>, i: int) {
    if 0 <= i < s.len() {
        lemma_run_end(s, i + 1, Class::Not('}'));
    }
}

/// The text from `i` on with each semicolon comment, up to the end of its line,
/// replaced by a space.
pub open spec fn drop_line_comments(s: Seq<char>, i: int) -> Seq<char>
    decreases s.len() - i,
    via drop_line_comments_terminates
{
    if 0 <= i < s.len() {
        if s[i] == ';' {
            seq![' '] + drop_line_comments(s, run_end(s, i + 1, Class::Not('\n')))
        } else {
            seq![s[i]] + drop_line_comments(s, i + 1)
        }
    } else {
        seq![]
    }
}

#[via_fn]
proof fn drop_line_comments_terminates(s: Seq<char>, i: int) {
    if 0 <= i < s.len() {
        lemma_run_end(s, i + 1, Class::Not('\n'));
    }
}

/// The text from `i` on with each numeric annotation glyph (`$` and digits)
/// replaced by a space.
pub open spec fn drop_nags(s: Seq<char>, i: int) -> Seq<char>
    decreases s.len() - i,
    via drop_nags_terminates
{
    if 0 <= i < s.len() {
        let e = run_end(s, i + 1, Class::Decimal);
        if s[i] == '$' && i + 1 < e {
            seq![' '] + drop_nags(s, e)
        } else {
            seq![s[i]] + drop_nags(s, i + 1)
        }
    } else {
        seq![]
    }
}

#[via_fn]
proof fn drop_nags_terminates(s: Seq<char>, i: int) {
    if 0 <= i < s.len() {
        lemma_run_end(s, i + 1, Class::Decimal);
    }
}

/// The characters from `i` on that stand outside parentheses, when `depth`
/// parentheses are open at `i`. A closing parenthesis that nothing opened is
/// dropped.
pub open spec fn outside_parens(s: Seq<char>, i: int, depth: nat) -> Seq<char>
    decreases s.len() - i,
{
    if 0 <= i < s.len() {
        if s[i] == '(' {
            outside_parens(s, i + 1, depth + 1)
        } else if s[i] == ')' {
            outside_parens(
                s,
                i + 1,
                if depth > 0 {
                    (depth - 1) as nat
                } else {
                    0
                },
            )
        } else if depth == 0 {
            seq![s[i]] + outside_parens(s, i + 1, depth)
        } else {
            outside_parens(s, i + 1, depth)
        }
    } else {
        seq![]
    }
}

/// Whether `c` is a move-quality mark.
pub open spec fn quality_mark(c: char) -> bool {
    c == '!' || c == '?'
}

/// The text without up to two move-quality marks at its end.
pub open spec fn drop_quality(s: Seq<char>) -> Seq<char> {
    let n = s.len() as int;
    if n >= 2 && quality_mark(s[n - 1]) && quality_mark(s[n - 2]) {
        s.take(n - 2)
    } else if n >= 1 && quality_mark(s[n - 1]) {
        s.take(n - 1)
    } else {
        s
    }
}

/// The text without a move number at its start: digits and at least one dot.
pub open spec fn drop_move_number(s: Seq<char>) -> Seq<char> {
    let digits = run_end(s, 0, Class::Decimal);
    let dots = run_end(s, digits, Class::Only('.'));
    if 0 < digits < dots {
        s.skip(dots)
    } else {
        s
    }
}

/// The move text of a token.
pub open spec fn move_core(token: Seq<char>) -> Seq<char> {
    drop_quality(drop_move_number(token))
}

/// The moves among some tokens: what is left of each token, unless nothing is
/// or it is a result marker.
pub open spec fn moves_among(tokens: Seq<Seq<char>>) -> Seq<Seq<char>>
    decreases tokens.len(),
{
    if tokens.len() == 0 {
        seq![]
    } else {
        let before = moves_among(tokens.drop_last());
        let core = move_core(tokens.last());
        if core.len() > 0 && marked_result(core) is None {
            before.push(core)
        } else {
            before
        }
    }
}

/// Move text without comments, glyphs and variations.
pub open spec fn mainline(s: Seq<char>) -> Seq<char> {
    outside_parens(drop_nags(drop_line_comments(drop_braces(s, 0), 0), 0), 0, 0)
}

/// The SAN moves of a move text.
pub open spec fn moves_of(s: Seq<char>) -> Seq<Seq<char>> {
    moves_among(words(mainline(s)))
}

fn without_braces(s: &[char]) -> (r: Vec<char>)
    ensures
        r@ == drop_braces(s@, 0),
{
    broadcast use lemma_run_end;

    let mut out: Vec<char> = Vec::new();
    let mut i: usize = 0;
    while i < s.len()
        invariant
            i <= s@.len(),
            drop_braces(s@, 0) == out@ + drop_braces(s@, i as int),
        decreases s@.len() - i,
    {
        let ghost before = out@;
        if s[i] == '{' {
            let close = find_run_end(s, i + 1, Class::Not('}'));
            if close < s.len() {
                out.push(' ');
                assert(before + (seq![' '] + drop_braces(s@, close + 1)) == out@ + drop_braces(
                    s@,
                    close + 1,
                ));
                i = close + 1;
                continue ;
            }
        }
        out.push(s[i]);
        assert(before + (seq![s@[i as int]] + drop_braces(s@, i + 1)) == out@ + drop_braces(
            s@,
            i + 1,
        ));
        i += 1;
    }
    out
}

fn without_line_comments(s: &[char]) -> (r: Vec<char>)
    ensures
        r@ == drop_line_comments(s@, 0),
{
    broadcast use lemma_run_end;

    let mut out: Vec<char> = Vec::new();
    let mut i: usize = 0;
    while i < s.len()
        invariant
            i <= s@.len(),
            drop_line_comments(s@, 0) == out@ + drop_line_comments(s@, i as int),
        decreases s@.len() - i,
    {
        let ghost before = out@;
        if s[i] == ';' {
            let e = find_run_end(s, i + 1, Class::Not('\n'));
            out.push(' ');
            assert(before + (seq![' '] + drop_line_comments(s@, e as int)) == out@
                + drop_line_comments(s@, e as int));
            i = e;
        } else {
            out.push(s[i]);
            assert(before + (seq![s@[i as int]] + drop_line_comments(s@, i + 1)) == out@
                + drop_line_comments(s@, i + 1));
            i += 1;
        }
    }
    out
}

fn without_nags(s: &[char]) -> (r: Vec<char>)
    ensures
        r@ == drop_nags(s@, 0),
{
    broadcast use lemma_run_end;

    let mut out: Vec<char> = Vec::new();
    let mut i: usize = 0;
    while i < s.len()
        invariant
            i <= s@.len(),
            drop_nags(s@, 0) == out@ + drop_nags(s@, i as int),
        decreases s@.len() - i,
    {
        let ghost before = out@;
        if s[i] == '$' {
            let e = find_run_end(s, i + 1, Class::Decimal);
            if i + 1 < e {
                out.push(' ');
                assert(before + (seq![' '] + drop_nags(s@, e as int)) == out@ + drop_nags(
                    s@,
                    e as int,
                ));
                i = e;
                continue ;
            }
        }
        out.push(s[i]);
        assert(before + (seq![s@[i as int]] + drop_nags(s@, i + 1)) == out@ + drop_nags(s@, i + 1));
        i += 1;
    }
    out
}

fn without_parens(s: &[char]) -> (r: Vec<char>)
    ensures
        r@ == outside_parens(s@, 0, 0),
{
    let mut out: Vec<char> = Vec::new();
    let mut depth: usize = 0;
    let mut i: usize = 0;
    while i < s.len()
        invariant
            i <= s@.len(),
            depth <= i,
            outside_parens(s@, 0, 0) == out@ + outside_parens(s@, i as int, depth as nat),
        decreases s@.len() - i,
    {
        let ghost before = out@;
        let c = s[i];
        if c == '(' {
            depth += 1;
        } else if c == ')' {
            if depth > 0 {
                depth -= 1;
            }
        } else if depth == 0 {
            out.push(c);
            assert(before + (seq![c] + outside_parens(s@, i + 1, 0)) == out@ + outside_parens(
                s@,
                i + 1,
                0,
            ));
        }
        i += 1;
    }
    out
}

/// Remove parenthesised PGN variations, including nested ones.
///
/// Tracking the depth removes every level in one pass and tolerates unbalanced
/// parentheses.
pub fn strip_variations(s: &str) -> (r: String)
    ensures
        r@ == outside_parens(s@, 0, 0),
{
    string_of(without_parens(chars_of(s).as_slice()).as_slice())
}

fn is_quality_mark(c: char) -> (r: bool)
    ensures
        r == quality_mark(c),
{
    c == '!' || c == '?'
}

pub fn without_quality(s: &[char]) -> (r: Vec<char>)
    ensures
        r@ == drop_quality(s@),
{
    let n: usize = s.len();
    if n >= 2 && is_quality_mark(s[n - 1]) && is_quality_mark(s[n - 2]) {
        slice(s, 0, n - 2)
    } else if n >= 1 && is_quality_mark(s[n - 1]) {
        slice(s, 0, n - 1)
    } else {
        slice(s, 0, n)
    }
}

fn without_move_number(s: &[char]) -> (r: Vec<char>)
    ensures
        r@ == drop_move_number(s@),
{
    let digits = find_run_end(s, 0, Class::Decimal);
    let dots = find_run_end(s, digits, Class::Only('.'));
    if 0 < digits && digits < dots {
        slice(s, dots, s.len())
    } else {
        slice(s, 0, s.len())
    }
}

/// Parse move text into individual SAN moves.
pub fn parse_moves(move_text: &[char]) -> (r: Vec<String>)
    ensures
        strings(r@) == moves_of(move_text@),
{
    let s = without_braces(move_text);
    let s = without_line_comments(s.as_slice());
    let s = without_nags(s.as_slice());
    let s = without_parens(s.as_slice());
    let tokens = split_words(s.as_slice());
    let mut out: Vec<String> = Vec::new();
    let mut i: usize = 0;
    while i < tokens.len()
        invariant
            i <= tokens@.len(),
            strings(out@) == moves_among(texts(tokens@).take(i as int)),
        decreases tokens@.len() - i,
    {
        let core = without_quality(without_move_number(tokens[i].as_slice()).as_slice());
        proof {
            let upto = texts(tokens@).take(i + 1);
            assert(upto.drop_last() == texts(tokens@).take(i as int));
            assert(upto.last() == tokens@[i as int]@);
        }
        if core.len() > 0 && result_of_marker(core.as_slice()).is_none() {
            let ghost before = out@;
            out.push(string_of(core.as_slice()));
            assert(strings(out@) == strings(before).push(core@));
        }
        i += 1;
    }
    assert(texts(tokens@).take(i as int) == texts(tokens@));
    out
}

/// What a PGN text says: its headers and its moves, or why it cannot be read.
pub open spec fn parsed(text: Seq<char>) -> Result<(HeadersView, Seq<Seq<char>>), PgnErrorView> {
    let pgn = trim(text);
    if pgn.len() == 0 {
        Err(PgnErrorView::EmptyPgn)
    } else {
        match headers_of(pgn) {
            Err(e) => Err(e),
            Ok((h, end)) => Ok((h, moves_of(pgn.skip(end)))),
        }
    }
}

/// Parse a PGN string into a [`ParsedGame`]; the final position stays empty until
/// the game is validated.
pub fn parse_pgn(pgn_string: &str) -> (r: Result<ParsedGame, PgnError>)
    ensures
        match r {
            Ok(g) => {
                &&& parsed(pgn_string@) == Ok::<(HeadersView, Seq<Seq<char>>), PgnErrorView>(
                    (g.headers@, strings(g.moves@)),
                )
                &&& g.headers.well_formed()
                &&& g.final_fen@.len() == 0
                &&& g.ply_count == g.moves@.len()
            },
            Err(e) => parsed(pgn_string@) == Err::<(HeadersView, Seq<Seq<char>>), PgnErrorView>(
                e@,
            ),
        },
{
    let pgn = trimmed(chars_of(pgn_string).as_slice());
    if pgn.len() == 0 {
        return Err(PgnError::EmptyPgn);
    }
    match parse_headers(pgn.as_slice()) {
        Err(e) => Err(e),
        Ok((headers, end)) => {
            let move_text = slice(pgn.as_slice(), end, pgn.len());
            let moves = parse_moves(move_text.as_slice());
            let ply_count: usize = moves.len();
            Ok(ParsedGame { headers, moves, final_fen: String::new(), ply_count })
        },
    }
}

// ---------------------------------------------------------------------------
// Replay
// ---------------------------------------------------------------------------

/// Why a SAN text cannot be played in a position.
#[derive(Debug, Clone, Copy, PartialEq, Eq, Structural)]
pub enum MoveFault {
    /// The text is not a SAN.
    Notation,
    /// No single legal move is what the SAN describes.
    NotLegal,
    /// The move would leave the own king in check.
    LeavesCheck,
}

impl MoveFault {
    /// The fault in words.
    pub open spec fn words(self) -> Seq<char> {
        match self {
            MoveFault::Notation => "Invalid move notation"@,
            MoveFault::NotLegal => "Move is not legal in this position"@,
            MoveFault::LeavesCheck => "Move leaves king in check"@,
        }
    }
}

/// The move that a SAN text plays in a position, and the position after it.
pub open spec fn played(fen: Seq<char>, san: Seq<char>) -> Result<
    (Seq<char>, Seq<char>),
    MoveFault,
> {
    if !san_syntax(san) {
        Err(MoveFault::Notation)
    } else {
        match san_move(fen, san) {
            Err(_) => Err(MoveFault::NotLegal),
            Ok(m) => match after_move(fen, m) {
                None => Err(MoveFault::LeavesCheck),
                Some(next) => Ok((m, next)),
            },
        }
    }
}

/// Whether a check mark at the end of a SAN text makes no difference to how it
/// is played in a position.
pub open spec fn mark_ignored(fen: Seq<char>, san: Seq<char>) -> bool {
    !marked(bare_move(san)) ==> forall|other: Seq<char>| #[trigger]
        bare_move(other) == bare_move(san) ==> played(fen, other) == played(fen, san)
}

proof fn lemma_mark_ignored(fen: Seq<char>, san: Seq<char>)
    requires
        ({
            let bare = bare_move(san);
            !marked(bare) ==> {
                ||| syntax_with_any_mark(bare, false)
                ||| syntax_with_any_mark(bare, true) && move_with_any_mark(
                    fen,
                    bare,
                    san_move(fen, bare),
                )
            }
        }),
    ensures
        mark_ignored(fen, san),
{
    reveal_strlit("+");
    reveal_strlit("#");
    let bare = bare_move(san);
    if !marked(bare) {
        assert forall|other: Seq<char>| #[trigger] bare_move(other) == bare implies played(
            fen,
            other,
        ) == played(fen, bare) by {
            if marked(other) {
                assert(other =~= bare + "+"@ || other =~= bare + "#"@);
            }
        }
        assert(bare_move(san) == bare);
    }
}

/// Plays a SAN text, whatever check mark it carries. A move can be played only
/// while the game is not over, and hands the turn to the other side.
pub(crate) fn play_san(board: &Board, san: &str) -> (r: Result<(BoardMove, Board), MoveFault>)
    ensures
        match r {
            Ok((m, next)) => {
                &&& played(board@, san@) == Ok::<(Seq<char>, Seq<char>), MoveFault>((m@, next@))
                &&& after_move(board@, m@) == Some(next@)
                &&& side_to_move(next@) == opponent(side_to_move(board@))
                &&& !in_checkmate(board@)
                &&& !in_stalemate(board@)
            },
            Err(fault) => played(board@, san@) == Err::<(Seq<char>, Seq<char>), MoveFault>(fault),
        },
        mark_ignored(board@, san@),
{
    let token = match SanToken::parse(san) {
        None => {
            proof {
                lemma_mark_ignored(board@, san@);
            }
            return Err(MoveFault::Notation);
        },
        Some(token) => token,
    };
    let read = token.to_move(board);
    proof {
        lemma_mark_ignored(board@, san@);
    }
    match read {
        Err(_) => Err(MoveFault::NotLegal),
        Ok(m) => match board.play(&m) {
            None => Err(MoveFault::LeavesCheck),
            Some(next) => Ok((m, next)),
        },
    }
}

/// The error for a ply that cannot be played; two plies make a move.
pub open spec fn unplayable(ply: int, san: Seq<char>, fault: MoveFault) -> PgnErrorView {
    PgnErrorView::IllegalMove { move_number: ply / 2 + 1, move_text: san, reason: fault.words() }
}

pub fn unplayable_error(ply: usize, san: &str, fault: MoveFault) -> (r: PgnError)
    ensures
        r@ == unplayable(ply as int, san@, fault),
{
    let reason = match fault {
        MoveFault::Notation => "Invalid move notation",
        MoveFault::NotLegal => "Move is not legal in this position",
        MoveFault::LeavesCheck => "Move leaves king in check",
    };
    PgnError::IllegalMove {
        move_number: ply / 2 + 1,
        move_text: san.to_owned(),
        reason: reason.to_owned(),
    }
}

/// The position after playing `moves[i..]` from a position, or the first ply
/// that cannot be played.
pub open spec fn replayed(fen: Seq<char>, moves: Seq<Seq<char>>, i: int) -> Result<
    Seq<char>,
    PgnErrorView,
>
    decreases moves.len() - i,
{
    if 0 <= i < moves.len() {
        match played(fen, moves[i]) {
            Err(fault) => Err(unplayable(i, moves[i], fault)),
            Ok((_, next)) => replayed(next, moves, i + 1),
        }
    } else {
        Ok(fen)
    }
}

/// Validate a parsed game by replaying all moves from the standard starting
/// position.
pub fn validate_game(parsed: &ParsedGame) -> (r: Result<ValidatedGame, PgnError>)
    ensures
        match r {
            Ok(g) => {
                &&& replayed(start_fen(), strings(parsed.moves@), 0) matches Ok(end)
                    && g.final_fen@ == published_fen(end)
                &&& g.headers@ == parsed.headers@
                &&& parsed.headers.well_formed() ==> g.headers.well_formed()
                &&& strings(g.moves@) == strings(parsed.moves@)
                &&& g.ply_count == parsed.moves@.len()
                &&& g.is_valid
            },
            Err(e) => replayed(start_fen(), strings(parsed.moves@), 0) == Err::<
                Seq<char>,
                PgnErrorView,
            >(e@),
        },
{
    let ghost sans = strings(parsed.moves@);
    let mut board = Board::standard();
    let mut moves: Vec<String> = Vec::new();
    let mut i: usize = 0;
    while i < parsed.moves.len()
        invariant
            i <= parsed.moves@.len(),
            sans == strings(parsed.moves@),
            strings(moves@) == sans.take(i as int),
            replayed(start_fen(), sans, 0) == replayed(board@, sans, i as int),
        decreases parsed.moves@.len() - i,
    {
        assert(sans[i as int] == parsed.moves@[i as int]@);
        match play_san(&board, parsed.moves[i].as_str()) {
            Err(fault) => {
                return Err(unplayable_error(i, parsed.moves[i].as_str(), fault));
            },
            Ok((_, next)) => {
                board = next;
            },
        }
        let ghost before = moves@;
        moves.push(parsed.moves[i].clone());
        assert(strings(moves@) == strings(before).push(sans[i as int]));
        i += 1;
    }
    assert(sans.take(i as int) == sans);
    Ok(
        ValidatedGame {
            headers: parsed.headers.clone(),
            moves,
            final_fen: board.to_fen(),
            ply_count: parsed.moves.len(),
            is_valid: true,
        },
    )
}

} // verus!
