//! How an exported document is laid out: its tags as lines, its movetext as
//! tokens with a blank or a line end between them.

use vstd::prelude::*;

use crate::board::{
    canonical_san, check_mark, file_char, move_san, piece_char, piece_move_san, promotion_char,
    rank_char, Side,
};
use crate::pgn::{drop_quality, marked_result, move_core, quality_mark, result_marker, GameResult};
use crate::pgn_export::{
    annotation_parts, comment_tokens, game_tokens, laid_out, move_token, opt_dec, optional_tag,
    pawns, roster_section, setup_section, supplemental_section, tag_line, tag_section, wrapped,
    written_line, written_ply, ExportHeaders, MoveAnnotation,
};
use crate::text::{
    dec, dec_nat, digit_char, in_class, join, lemma_run_end_is, opt_text, run_end, run_start, trim,
    Class,
};
use crate::unicode::{ascii_digit, ascii_word, decimal, white_space};

verus! {

// ---------------------------------------------------------------------------
// Laid-out tokens
// ---------------------------------------------------------------------------

/// The tokens from `k` on, each behind its separator.
pub open spec fn spread(tokens: Seq<Seq<char>>, seps: Seq<char>, k: int) -> Seq<char>
    decreases tokens.len() - k,
{
    if 0 <= k < tokens.len() {
        seq![seps[k]] + tokens[k] + spread(tokens, seps, k + 1)
    } else {
        seq![]
    }
}

/// The first `n` tokens, each behind its separator.
pub open spec fn laid(tokens: Seq<Seq<char>>, seps: Seq<char>, n: int) -> Seq<char>
    decreases n,
{
    if n <= 0 {
        seq![]
    } else {
        laid(tokens, seps, n - 1) + seq![seps[n - 1]] + tokens[n - 1]
    }
}

/// Separators are blanks and line ends.
pub open spec fn separators(seps: Seq<char>) -> bool {
    forall|k: int| 0 <= k < seps.len() ==> #[trigger] seps[k] == ' ' || seps[k] == '\n'
}

pub proof fn lemma_laid_spread(tokens: Seq<Seq<char>>, seps: Seq<char>, n: int)
    requires
        0 <= n <= tokens.len(),
    ensures
        laid(tokens, seps, n) + spread(tokens, seps, n) == spread(tokens, seps, 0),
    decreases n,
{
    if n > 0 {
        lemma_laid_spread(tokens, seps, n - 1);
        assert(laid(tokens, seps, n) + spread(tokens, seps, n) == laid(tokens, seps, n - 1) + (
        seq![seps[n - 1]] + tokens[n - 1] + spread(tokens, seps, n)));
    } else {
        assert(laid(tokens, seps, 0) + spread(tokens, seps, 0) == spread(tokens, seps, 0));
    }
}

pub proof fn lemma_laid_same(tokens: Seq<Seq<char>>, a: Seq<char>, b: Seq<char>, n: int)
    requires
        forall|k: int| 0 <= k < n ==> a[k] == b[k],
    ensures
        laid(tokens, a, n) == laid(tokens, b, n),
    decreases n,
{
    if n > 0 {
        lemma_laid_same(tokens, a, b, n - 1);
    }
}

/// Text put behind the last piece is text put behind the joined text.
pub proof fn lemma_join_extend(
    parts: Seq<Seq<char>>,
    last: Seq<char>,
    more: Seq<char>,
    sep: Seq<char>,
)
    ensures
        join(parts.push(last + more), sep) == join(parts.push(last), sep) + more,
{
    assert(parts.push(last + more).drop_last() == parts);
    assert(parts.push(last).drop_last() == parts);
    if parts.len() > 0 {
        assert(join(parts, sep) + sep + (last + more) == join(parts, sep) + sep + last + more);
    }
}

/// One more piece joined.
pub proof fn lemma_join_push(parts: Seq<Seq<char>>, piece: Seq<char>, sep: Seq<char>)
    requires
        parts.len() > 0,
    ensures
        join(parts.push(piece), sep) == join(parts, sep) + sep + piece,
{
    assert(parts.push(piece).drop_last() == parts);
}

/// Tokens laid out in lines are tokens with a blank or a line end between them.
pub proof fn lemma_layout(tokens: Seq<Seq<char>>, n: int) -> (seps: Seq<char>)
    requires
        1 <= n <= tokens.len(),
        forall|k: int| 0 <= k < tokens.len() ==> (#[trigger] tokens[k]).len() > 0,
    ensures
        seps.len() == n,
        separators(seps),
        seps[0] == '\n',
        laid_out(tokens, n).1.len() > 0,
        seq!['\n'] + join(laid_out(tokens, n).0.push(laid_out(tokens, n).1), seq!['\n']) == laid(
            tokens,
            seps,
            n,
        ),
    decreases n,
{
    let nl = seq!['\n'];
    let token = tokens[n - 1];
    if n == 1 {
        let seps = seq!['\n'];
        let (lines, line) = laid_out(tokens, 0);
        assert(lines.push(token).drop_last() == lines);
        assert(lines.push(token)[0] == token);
        assert(join(lines.push(token), nl) == token);
        assert(laid(tokens, seps, 0) + seq![seps[0]] + token == nl + token);
        seps
    } else {
        let before = lemma_layout(tokens, n - 1);
        let (lines, line) = laid_out(tokens, n - 1);
        let (lines2, line2) = laid_out(tokens, n);
        let joined = join(lines.push(line), nl);
        assert(token.len() > 0);
        if lines2 == lines && line2 == line.push(' ') + token {
            let seps = before.push(' ');
            lemma_laid_same(tokens, before, seps, n - 1);
            assert(line.push(' ') + token == line + (seq![' '] + token));
            lemma_join_extend(lines, line, seq![' '] + token, nl);
            assert(nl + (joined + (seq![' '] + token)) == nl + joined + seq![' '] + token);
            seps
        } else {
            let seps = before.push('\n');
            lemma_laid_same(tokens, before, seps, n - 1);
            lemma_join_push(lines.push(line), token, nl);
            assert(nl + (joined + nl + token) == nl + joined + nl + token);
            seps
        }
    }
}

/// Movetext is its tokens, each behind a blank or a line end, once a line end
/// is put in front.
pub proof fn lemma_wrapped(tokens: Seq<Seq<char>>) -> (seps: Seq<char>)
    requires
        tokens.len() > 0,
        forall|k: int| 0 <= k < tokens.len() ==> (#[trigger] tokens[k]).len() > 0,
    ensures
        seps.len() == tokens.len(),
        separators(seps),
        seps[0] == '\n',
        seq!['\n'] + wrapped(tokens) == spread(tokens, seps, 0),
{
    let n = tokens.len() as int;
    let seps = lemma_layout(tokens, n);
    lemma_laid_spread(tokens, seps, n);
    assert(laid(tokens, seps, n) + spread(tokens, seps, n) == laid(tokens, seps, n));
    seps
}

/// A text that goes on at `i` with a character, a piece and a rest.
pub proof fn lemma_goes_on(s: Seq<char>, i: int, c: char, piece: Seq<char>, rest: Seq<char>)
    requires
        0 <= i <= s.len(),
        s.skip(i) == seq![c] + piece + rest,
    ensures
        i + 1 + piece.len() <= s.len(),
        s[i] == c,
        s.subrange(i + 1, i + 1 + piece.len()) == piece,
        s.skip(i + 1 + piece.len()) == rest,
        forall|j: int| 0 <= j < piece.len() ==> #[trigger] piece[j] == s[i + 1 + j],
{
    let t = seq![c] + piece + rest;
    let n = piece.len() as int;
    assert(s.skip(i).len() == s.len() - i);
    assert(t.len() == 1 + n + rest.len());
    assert(s[i] == s.skip(i)[0]);
    assert forall|j: int| 0 <= j < n implies #[trigger] piece[j] == s[i + 1 + j] by {
        assert(s.skip(i)[1 + j] == s[i + 1 + j]);
        assert(t[1 + j] == piece[j]);
    }
    assert(s.subrange(i + 1, i + 1 + n) == piece);
    assert(s.skip(i + 1 + n) == s.skip(i).skip(1 + n));
    assert(t.skip(1 + n) == rest);
}

// ---------------------------------------------------------------------------
// Tokens
// ---------------------------------------------------------------------------

/// Whether a token is a comment.
pub open spec fn comment(t: Seq<char>) -> bool {
    t.len() > 0 && t[0] == '{'
}

/// A character that stands for itself in movetext.
pub open spec fn plain_char(c: char) -> bool {
    &&& !white_space(c)
    &&& c != '{'
    &&& c != '}'
    &&& c != ';'
    &&& c != '$'
    &&& c != '('
    &&& c != ')'
    &&& c != '"'
}

/// A token that stands for itself in movetext.
pub open spec fn plain_token(t: Seq<char>) -> bool {
    t.len() > 0 && forall|j: int| 0 <= j < t.len() ==> plain_char(#[trigger] t[j])
}

/// A comment that ends with its only closing brace.
pub open spec fn closed_comment(t: Seq<char>) -> bool {
    &&& t.len() >= 2
    &&& t[0] == '{'
    &&& t.last() == '}'
    &&& forall|j: int| 0 <= j < t.len() - 1 ==> #[trigger] t[j] != '}'
    &&& forall|j: int| 0 <= j < t.len() ==> #[trigger] t[j] != '"'
}

/// Tokens that movetext can be made of.
pub open spec fn clean_tokens(tokens: Seq<Seq<char>>) -> bool {
    forall|k: int|
        0 <= k < tokens.len() ==> plain_token(#[trigger] tokens[k]) || closed_comment(tokens[k])
}

// ---------------------------------------------------------------------------
// Tokens of a written game
// ---------------------------------------------------------------------------

/// Whether a classification is a glyph: at most two of `!` and `?`.
pub open spec fn glyph(class: Option<String>) -> bool {
    match class {
        Some(class) => class@.len() <= 2 && forall|j: int|
            0 <= j < class@.len() ==> quality_mark(#[trigger] class@[j]),
        None => true,
    }
}

/// Whether a clock reading can stand in a comment: it holds neither a closing
/// brace nor a quote.
pub open spec fn quotable_clock(clock: Option<String>) -> bool {
    match clock {
        Some(clock) => forall|j: int|
            0 <= j < clock@.len() ==> #[trigger] clock@[j] != '}' && clock@[j] != '"',
        None => true,
    }
}

/// Whether annotations are of the documented kind, as far as they are written.
pub open spec fn readable_annotations(moves: Seq<MoveAnnotation>, analysis: bool) -> bool {
    forall|i: int|
        0 <= i < moves.len() ==> glyph((#[trigger] moves[i]).classification) && (analysis
            ==> quotable_clock(moves[i].clock))
}

/// A character of a canonical SAN or its check mark.
pub open spec fn san_char(c: char) -> bool {
    ||| file_char(c)
    ||| rank_char(c)
    ||| piece_char(c)
    ||| c == 'x'
    ||| c == '='
    ||| c == 'O'
    ||| c == '-'
    ||| c == '+'
    ||| c == '#'
}

pub proof fn lemma_canonical_san(s: Seq<char>)
    requires
        canonical_san(s),
    ensures
        s.len() >= 2,
        forall|j: int| 0 <= j < s.len() ==> san_char(#[trigger] s[j]),
        file_char(s[0]) || piece_char(s[0]) || s[0] == 'O',
        s.last() != '+',
        s.last() != '#',
{
    reveal_strlit("O-O");
    reveal_strlit("O-O-O");
    if piece_move_san(s) {
        let n = s.len() as int;
        let m = if s[n - 2] == '=' && promotion_char(s[n - 1]) {
            n - 4
        } else {
            n - 2
        };
        assert(m <= 4);
        assert forall|j: int| 0 <= j < s.len() implies san_char(#[trigger] s[j]) by {
            if j >= m {
                assert(j == m || j == m + 1 || j == m + 2 || j == m + 3);
            } else {
                assert(j == 0 || j == 1 || j == 2 || j == 3);
            }
        }
    }
}

/// A SAN as it is written in a document: canonical, with at most one check mark
/// behind it.
pub open spec fn written_san(san: Seq<char>) -> bool {
    exists|bare: Seq<char>, next: Seq<char>| #[trigger]
        canonical_san(bare) && san == bare + #[trigger] check_mark(next)
}

pub proof fn lemma_written_san(san: Seq<char>)
    requires
        written_san(san),
    ensures
        san.len() >= 2,
        forall|j: int| 0 <= j < san.len() ==> san_char(#[trigger] san[j]),
        file_char(san[0]) || piece_char(san[0]) || san[0] == 'O',
{
    reveal_strlit("+");
    reveal_strlit("#");
    reveal_strlit("");
    let (bare, next) = choose|bare: Seq<char>, next: Seq<char>| #[trigger]
        canonical_san(bare) && san == bare + #[trigger] check_mark(next);
    lemma_canonical_san(bare);
    assert forall|j: int| 0 <= j < san.len() implies san_char(#[trigger] san[j]) by {
        if j < bare.len() {
            assert(san[j] == bare[j]);
        }
    }
    assert(san[0] == bare[0]);
}

/// A move token stands for itself, and gives its SAN back.
pub proof fn lemma_move_token(san: Seq<char>, ann: MoveAnnotation)
    requires
        written_san(san),
        glyph(ann.classification),
    ensures
        plain_token(move_token(san, ann)),
        !comment(move_token(san, ann)),
        move_core(move_token(san, ann)) == san,
        drop_quality(move_token(san, ann)) == san,
        san.len() > 0,
        marked_result(san) is None,
{
    reveal_strlit("1-0");
    reveal_strlit("0-1");
    reveal_strlit("1/2-1/2");
    reveal_strlit("*");
    lemma_written_san(san);
    let t = move_token(san, ann);
    let class: Seq<char> = match ann.classification {
        Some(class) => class@,
        None => seq![],
    };
    assert(t == san + class);
    assert(t[0] == san[0]);
    assert forall|j: int| 0 <= j < t.len() implies plain_char(#[trigger] t[j]) by {
        if j < san.len() {
            assert(san_char(san[j]));
        } else {
            assert(quality_mark(class[j - san.len()]));
        }
    }
    assert(!decimal(t[0]));
    assert(run_end(t, 0, Class::Decimal) == 0);
    assert(san_char(san[san.len() - 1]));
    if class.len() >= 1 {
        assert(quality_mark(class[class.len() - 1]));
        assert(t[t.len() - 1] == class[class.len() - 1]);
    }
    if class.len() == 2 {
        assert(quality_mark(class[0]));
        assert(t[t.len() - 2] == class[0]);
        assert(t.take(t.len() - 2) == san);
    } else if class.len() == 1 {
        assert(t[t.len() - 2] == san[san.len() - 1]);
        assert(t.take(t.len() - 1) == san);
    } else {
        assert(t == san);
    }
}

pub proof fn lemma_dec_nat(n: nat)
    ensures
        dec_nat(n).len() > 0,
        forall|j: int| 0 <= j < dec_nat(n).len() ==> ascii_digit(#[trigger] dec_nat(n)[j]),
    decreases n,
{
    if n >= 10 {
        lemma_dec_nat(n / 10);
    }
}

/// A move number token stands for itself, and no move comes from it.
pub proof fn lemma_number_token(n: nat, dots: Seq<char>)
    requires
        dots == "."@ || dots == "..."@,
    ensures
        plain_token(dec_nat(n) + dots),
        !comment(dec_nat(n) + dots),
        move_core(dec_nat(n) + dots).len() == 0,
{
    reveal_strlit(".");
    reveal_strlit("...");
    lemma_dec_nat(n);
    let digits = dec_nat(n);
    let t = digits + dots;
    let d = digits.len() as int;
    assert forall|j: int| 0 <= j < t.len() implies plain_char(#[trigger] t[j]) by {
        if j < d {
            assert(ascii_digit(digits[j]));
        } else {
            assert(t[j] == dots[j - d]);
        }
    }
    assert forall|j: int| 0 <= j < d implies in_class(Class::Decimal, #[trigger] t[j]) by {
        assert(ascii_digit(digits[j]));
    }
    assert(t[d] == dots[0]);
    assert(t[0] == digits[0]);
    lemma_run_end_is(t, 0, Class::Decimal, d);
    lemma_run_end_is(t, d, Class::Only('.'), t.len() as int);
}

pub proof fn lemma_marker_token(r: GameResult)
    ensures
        plain_token(result_marker(r)),
        !comment(result_marker(r)),
        move_core(result_marker(r)) == result_marker(r),
        marked_result(result_marker(r)) is Some,
{
    reveal_strlit("1-0");
    reveal_strlit("0-1");
    reveal_strlit("1/2-1/2");
    reveal_strlit("*");
    let t = result_marker(r);
    let d = run_end(t, 0, Class::Decimal);
    reveal_with_fuel(run_end, 3);
    assert(d == if r == GameResult::Ongoing {
        0int
    } else {
        1
    });
    assert(t[0] == '1' || t[0] == '0' || t[0] == '*');
}

/// Whether a text can stand in a comment.
pub open spec fn quotable(s: Seq<char>) -> bool {
    forall|j: int| 0 <= j < s.len() ==> #[trigger] s[j] != '}' && s[j] != '"'
}

pub proof fn lemma_quotable_add(a: Seq<char>, b: Seq<char>)
    requires
        quotable(a),
        quotable(b),
    ensures
        quotable(a + b),
{
    let t = a + b;
    assert forall|j: int| 0 <= j < t.len() implies #[trigger] t[j] != '}' && t[j] != '"' by {
        if j < a.len() {
            assert(t[j] == a[j]);
        } else {
            assert(t[j] == b[j - a.len()]);
        }
    }
}

pub proof fn lemma_quotable_dec(n: int)
    ensures
        quotable(dec(n)),
{
    if n < 0 {
        lemma_dec_nat((-n) as nat);
        assert forall|j: int| 0 <= j < dec(n).len() implies #[trigger] dec(n)[j] != '}' && dec(n)[j]
            != '"' by {
            if j > 0 {
                assert(dec(n)[j] == dec_nat((-n) as nat)[j - 1]);
            }
        }
    } else {
        lemma_dec_nat(n as nat);
        assert forall|j: int| 0 <= j < dec(n).len() implies #[trigger] dec(n)[j] != '}' && dec(n)[j]
            != '"' by {
            assert(ascii_digit(dec_nat(n as nat)[j]));
        }
    }
}

pub proof fn lemma_quotable_pawns(cp: int)
    ensures
        quotable(pawns(cp)),
{
    let n = if cp < 0 {
        -cp
    } else {
        cp
    };
    let sign: Seq<char> = if cp < 0 {
        seq!['-']
    } else {
        seq![]
    };
    let whole = dec_nat((n / 100) as nat);
    let cents = seq!['.', digit_char(n / 10 % 10), digit_char(n % 10)];
    lemma_dec_nat((n / 100) as nat);
    assert(quotable(sign));
    assert forall|j: int| 0 <= j < whole.len() implies #[trigger] whole[j] != '}' && whole[j]
        != '"' by {
        assert(ascii_digit(whole[j]));
    }
    assert(quotable(whole));
    assert(quotable(cents));
    lemma_quotable_add(sign, whole);
    lemma_quotable_add(sign + whole, cents);
}

pub proof fn lemma_quotable_parts(ann: MoveAnnotation)
    requires
        quotable_clock(ann.clock),
    ensures
        forall|i: int|
            0 <= i < annotation_parts(ann).len() ==> quotable(#[trigger] annotation_parts(ann)[i]),
        annotation_parts(ann).len() <= 2,
{
    reveal_strlit("[%eval #");
    reveal_strlit("[%eval ");
    reveal_strlit("]");
    reveal_strlit("[%clk ");
    assert(quotable("[%eval #"@));
    assert(quotable("[%eval "@));
    assert(quotable("]"@));
    assert(quotable("[%clk "@));
    match ann.eval_mate {
        Some(mate) => {
            lemma_quotable_dec(mate as int);
            lemma_quotable_add("[%eval #"@, dec(mate as int));
            lemma_quotable_add("[%eval #"@ + dec(mate as int), "]"@);
        },
        None => {
            match ann.eval_centipawns {
                Some(cp) => {
                    lemma_quotable_pawns(cp as int);
                    lemma_quotable_add("[%eval "@, pawns(cp as int));
                    lemma_quotable_add("[%eval "@ + pawns(cp as int), "]"@);
                },
                None => {},
            }
        },
    }
    match ann.clock {
        Some(clock) => {
            lemma_quotable_add("[%clk "@, clock@);
            lemma_quotable_add("[%clk "@ + clock@, "]"@);
        },
        None => {},
    }
}

/// A comment token is closed by its only closing brace.
pub proof fn lemma_comment_token(ann: MoveAnnotation)
    requires
        quotable_clock(ann.clock),
        annotation_parts(ann).len() > 0,
    ensures
        closed_comment(comment_tokens(ann, true)[0]),
        comment_tokens(ann, true).len() == 1,
{
    reveal_strlit("{ ");
    reveal_strlit(" }");
    reveal_with_fuel(join, 2);
    lemma_quotable_parts(ann);
    let parts = annotation_parts(ann);
    let inner = join(parts, seq![' ']);
    assert(quotable(parts[0]));
    if parts.len() == 2 {
        assert(quotable(parts[1]));
        assert(parts.drop_last().len() == 1);
        assert(parts.drop_last()[0] == parts[0]);
        lemma_quotable_add(parts[0], seq![' ']);
        lemma_quotable_add(parts[0] + seq![' '], parts[1]);
    }
    assert(quotable(inner));
    let t = "{ "@ + inner + " }"@;
    let n = t.len() as int;
    assert forall|j: int| 0 <= j < n implies #[trigger] t[j] != '"' && (j < n - 1 ==> t[j]
        != '}') by {
        if 2 <= j < n - 2 {
            assert(t[j] == inner[j - 2]);
        }
    }
}

/// The tokens of a whole movetext.
pub open spec fn document_tokens(
    side: Side,
    first: u32,
    sans: Seq<Seq<char>>,
    moves: Seq<MoveAnnotation>,
    analysis: bool,
    result: GameResult,
) -> Seq<Seq<char>> {
    game_tokens(side, first, sans, moves, analysis, moves.len() as int).push(result_marker(result))
}

// ---------------------------------------------------------------------------
// Tags
// ---------------------------------------------------------------------------

/// A name that a tag can have.
pub open spec fn tag_name(name: Seq<char>) -> bool {
    name.len() > 0 && forall|j: int| 0 <= j < name.len() ==> ascii_word(#[trigger] name[j])
}

/// The Seven Tag Roster of an export.
pub open spec fn roster_tags(h: ExportHeaders) -> Seq<(Seq<char>, Seq<char>)> {
    seq![
        ("Event"@, h.event@),
        ("Site"@, h.site@),
        ("Date"@, h.date@),
        ("Round"@, h.round@),
        ("White"@, h.white@),
        ("Black"@, h.black@),
        ("Result"@, result_marker(h.result)),
    ]
}

/// A tag that is left out where it has no value.
pub open spec fn optional_pair(name: Seq<char>, value: Option<Seq<char>>) -> Seq<
    (Seq<char>, Seq<char>),
> {
    match value {
        Some(v) => seq![(name, v)],
        None => seq![],
    }
}

/// The tags that name a start position of its own.
pub open spec fn setup_tags(h: ExportHeaders) -> Seq<(Seq<char>, Seq<char>)> {
    match h.start_fen {
        Some(fen) => seq![("SetUp"@, "1"@), ("FEN"@, fen@)],
        None => seq![],
    }
}

/// The tags of an export after the Seven Tag Roster.
pub open spec fn supplemental_tags(h: ExportHeaders) -> Seq<(Seq<char>, Seq<char>)> {
    optional_pair("WhiteElo"@, opt_dec(h.white_elo)) + optional_pair(
        "BlackElo"@,
        opt_dec(h.black_elo),
    ) + optional_pair("TimeControl"@, opt_text(h.time_control)) + optional_pair(
        "Termination"@,
        opt_text(h.termination),
    ) + optional_pair("Variant"@, opt_text(h.variant)) + setup_tags(h)
}

/// Every tag of an export, in order.
pub open spec fn export_tags(h: ExportHeaders) -> Seq<(Seq<char>, Seq<char>)> {
    roster_tags(h) + supplemental_tags(h)
}

/// The lines of some tags.
pub open spec fn tag_block(tags: Seq<(Seq<char>, Seq<char>)>) -> Seq<char>
    decreases tags.len(),
{
    if tags.len() == 0 {
        seq![]
    } else {
        tag_block(tags.drop_last()) + tag_line(tags.last().0, tags.last().1)
    }
}

/// The lines of the tags from `k` on.
pub open spec fn tag_block_from(tags: Seq<(Seq<char>, Seq<char>)>, k: int) -> Seq<char>
    decreases tags.len() - k,
{
    if 0 <= k < tags.len() {
        tag_line(tags[k].0, tags[k].1) + tag_block_from(tags, k + 1)
    } else {
        seq![]
    }
}

pub proof fn lemma_tag_block_from(tags: Seq<(Seq<char>, Seq<char>)>, k: int)
    requires
        0 <= k <= tags.len(),
    ensures
        tag_block(tags.take(k)) + tag_block_from(tags, k) == tag_block_from(tags, 0),
    decreases k,
{
    if k > 0 {
        lemma_tag_block_from(tags, k - 1);
        assert(tags.take(k).drop_last() == tags.take(k - 1));
        assert(tags.take(k).last() == tags[k - 1]);
        let line = tag_line(tags[k - 1].0, tags[k - 1].1);
        assert(tag_block(tags.take(k - 1)) + line + tag_block_from(tags, k) == tag_block(
            tags.take(k - 1),
        ) + (line + tag_block_from(tags, k)));
    } else {
        assert(tag_block(tags.take(0)) + tag_block_from(tags, 0) == tag_block_from(tags, 0));
    }
}

pub proof fn lemma_tag_block_add(a: Seq<(Seq<char>, Seq<char>)>, b: Seq<(Seq<char>, Seq<char>)>)
    ensures
        tag_block(a + b) == tag_block(a) + tag_block(b),
    decreases b.len(),
{
    if b.len() == 0 {
        assert(a + b == a);
        assert(tag_block(a) + seq![] == tag_block(a));
    } else {
        lemma_tag_block_add(a, b.drop_last());
        assert((a + b).drop_last() == a + b.drop_last());
        assert((a + b).last() == b.last());
        assert(tag_block(a + b) == tag_block(a) + tag_block(b));
    }
}

pub proof fn lemma_optional_block(name: Seq<char>, value: Option<Seq<char>>)
    ensures
        tag_block(optional_pair(name, value)) == optional_tag(name, value),
{
    reveal_with_fuel(tag_block, 2);
    match value {
        Some(v) => {
            assert(optional_pair(name, value).drop_last() == Seq::<
                (Seq<char>, Seq<char>),
            >::empty());
            assert(seq![] + tag_line(name, v) == tag_line(name, v));
        },
        None => {},
    }
}

pub proof fn lemma_roster_block(h: ExportHeaders)
    ensures
        tag_block(roster_tags(h)) == roster_section(h),
{
    reveal_with_fuel(tag_block, 8);
    let r = roster_tags(h);
    assert(r.drop_last() == r.take(6));
    assert(r.take(6).drop_last() == r.take(5));
    assert(r.take(5).drop_last() == r.take(4));
    assert(r.take(4).drop_last() == r.take(3));
    assert(r.take(3).drop_last() == r.take(2));
    assert(r.take(2).drop_last() == r.take(1));
    assert(r.take(1).drop_last() == r.take(0));
    assert(seq![] + tag_line("Event"@, h.event@) == tag_line("Event"@, h.event@));
}

pub proof fn lemma_setup_block(h: ExportHeaders)
    ensures
        tag_block(setup_tags(h)) == setup_section(h),
{
    reveal_with_fuel(tag_block, 3);
    match h.start_fen {
        Some(fen) => {
            let tags = setup_tags(h);
            assert(tags.drop_last() == seq![("SetUp"@, "1"@)]);
            assert(seq![("SetUp"@, "1"@)].drop_last() == Seq::<(Seq<char>, Seq<char>)>::empty());
            assert(seq![] + tag_line("SetUp"@, "1"@) == tag_line("SetUp"@, "1"@));
        },
        None => {},
    }
}

pub proof fn lemma_supplemental_block(h: ExportHeaders)
    ensures
        tag_block(supplemental_tags(h)) == supplemental_section(h),
{
    let b = optional_pair("WhiteElo"@, opt_dec(h.white_elo));
    let c = optional_pair("BlackElo"@, opt_dec(h.black_elo));
    let d = optional_pair("TimeControl"@, opt_text(h.time_control));
    let e = optional_pair("Termination"@, opt_text(h.termination));
    let f = optional_pair("Variant"@, opt_text(h.variant));
    lemma_optional_block("WhiteElo"@, opt_dec(h.white_elo));
    lemma_optional_block("BlackElo"@, opt_dec(h.black_elo));
    lemma_optional_block("TimeControl"@, opt_text(h.time_control));
    lemma_optional_block("Termination"@, opt_text(h.termination));
    lemma_optional_block("Variant"@, opt_text(h.variant));
    lemma_setup_block(h);
    lemma_tag_block_add(b, c);
    lemma_tag_block_add(b + c, d);
    lemma_tag_block_add(b + c + d, e);
    lemma_tag_block_add(b + c + d + e, f);
    lemma_tag_block_add(b + c + d + e + f, setup_tags(h));
}

/// The tag section of an export is the lines of its tags.
pub proof fn lemma_tag_section(h: ExportHeaders)
    ensures
        tag_section(h) == tag_block_from(export_tags(h), 0),
        export_tags(h).len() >= 7,
{
    let tags = export_tags(h);
    let n = tags.len() as int;
    lemma_roster_block(h);
    lemma_supplemental_block(h);
    lemma_tag_block_add(roster_tags(h), supplemental_tags(h));
    lemma_tag_block_from(tags, n);
    assert(tags.take(n) == tags);
    assert(tag_block(tags) + tag_block_from(tags, n) == tag_block(tags));
}

pub proof fn lemma_written_line_sans(
    fens: Seq<Seq<char>>,
    ms: Seq<Seq<char>>,
    sans: Seq<Seq<char>>,
)
    requires
        written_line(fens, ms, sans),
    ensures
        forall|i: int| 0 <= i < sans.len() ==> written_san(#[trigger] sans[i]),
{
    assert forall|i: int| 0 <= i < sans.len() implies written_san(#[trigger] sans[i]) by {
        assert(written_ply(fens[i], ms[i], fens[i + 1], sans[i]));
        let bare = move_san(fens[i], ms[i]);
        assert(canonical_san(bare) && sans[i] == bare + check_mark(fens[i + 1]));
    }
}

pub proof fn lemma_section_starts(h: ExportHeaders)
    ensures
        tag_section(h).len() > 0,
        tag_section(h)[0] == '[',
{
    reveal_strlit("[");
    assert(tag_line("Event"@, h.event@)[0] == '[');
}

/// A text without white space at its ends is trimmed already.
pub proof fn lemma_trim_solid(s: Seq<char>)
    requires
        s.len() > 0,
        !white_space(s[0]),
        !white_space(s.last()),
    ensures
        trim(s) == s,
{
    assert(run_end(s, 0, Class::Space) == 0);
    assert(s.skip(0) == s);
    assert(run_start(s, s.len() as int, Class::Space) == s.len());
    assert(s.take(s.len() as int) == s);
}

} // verus!
