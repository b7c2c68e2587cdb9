//! The movetext of a PGN document, cut into move numbers, moves and result
//! markers, with its comments checked on the way.

use vstd::prelude::*;

use crate::board::{bare_move, file_char, piece_move_san, promotion_char, rank_char};
use crate::pgn::{drop_quality, marked_result, result_of_marker, without_quality};
use crate::pgn_faults::{faults, report, Fault, PgnValidationError};
use crate::text::{
    dec_nat, find_run_end, is_text, lemma_run_end, nat_text, parse_u32_or_zero, run_end, slice,
    string_of, trim, trimmed, u32_or_zero, Class,
};
use crate::unicode::{decimal, is_decimal, is_white_space, white_space};

verus! {

// ---------------------------------------------------------------------------
// Comments
// ---------------------------------------------------------------------------

/// The kind of the annotation command that starts at `i`, and where the command
/// ends, if there is one: `[%`, a name of word characters, and everything up to
/// a closing bracket.
pub open spec fn annotation_at(s: Seq<char>, i: int) -> Option<(Seq<char>, int)> {
    let name_end = run_end(s, i + 2, Class::Word);
    let close = run_end(s, name_end, Class::Not(']'));
    if 0 <= i && i + 1 < s.len() && s[i] == '[' && s[i + 1] == '%' && i + 2 < name_end && close
        < s.len() {
        Some((s.subrange(i + 2, name_end), close + 1))
    } else {
        None
    }
}

/// A command takes up text.
pub proof fn lemma_annotation_end(s: Seq<char>, i: int)
    ensures
        match annotation_at(s, i) {
            Some((_, end)) => i < end <= s.len(),
            None => true,
        },
{
    if annotation_at(s, i) is Some {
        lemma_run_end(s, i + 2, Class::Word);
        lemma_run_end(s, run_end(s, i + 2, Class::Word), Class::Not(']'));
    }
}

/// An optional minus sign and digits, from `i` to the end.
pub open spec fn signed_digits(s: Seq<char>, i: int) -> bool {
    let start = if 0 <= i < s.len() && s[i] == '-' {
        i + 1
    } else {
        i
    };
    start < s.len() && run_end(s, start, Class::Decimal) == s.len()
}

/// A number of pawns: an optional minus sign, digits, and an optional fraction.
pub open spec fn signed_fraction(s: Seq<char>) -> bool {
    let start: int = if s.len() > 0 && s[0] == '-' {
        1
    } else {
        0
    };
    let e = run_end(s, start, Class::Decimal);
    start < e && (e == s.len() || (s[e] == '.' && e + 1 < s.len() && run_end(
        s,
        e + 1,
        Class::Decimal,
    ) == s.len()))
}

/// The standard form of an evaluation: a mate distance behind `#`, or pawns.
pub open spec fn eval_command(s: Seq<char>) -> bool {
    let n = s.len() as int;
    let value = s.subrange(7, n - 1);
    &&& n >= 8
    &&& s.take(7) == "[%eval "@
    &&& s[n - 1] == ']'
    &&& if value.len() > 0 && value[0] == '#' {
        signed_digits(value, 1)
    } else {
        signed_fraction(value)
    }
}

/// The standard form of a clock reading: `H:MM:SS`, with any number of digits
/// for the hours.
pub open spec fn clock_command(s: Seq<char>) -> bool {
    let n = s.len() as int;
    let h = run_end(s, 6, Class::Decimal);
    &&& n >= 6
    &&& s.take(6) == "[%clk "@
    &&& 6 < h
    &&& h + 7 == n
    &&& s[h] == ':'
    &&& decimal(s[h + 1])
    &&& decimal(s[h + 2])
    &&& s[h + 3] == ':'
    &&& decimal(s[h + 4])
    &&& decimal(s[h + 5])
    &&& s[h + 6] == ']'
}

/// What is wrong with one command. Only evaluations and clock readings have a
/// form to keep to.
pub open spec fn command_faults(kind: Seq<char>, whole: Seq<char>) -> Seq<Fault> {
    if kind == "eval"@ && !eval_command(whole) {
        seq![Fault::MalformedEvalAnnotation(whole)]
    } else if kind == "clk"@ && !clock_command(whole) {
        seq![Fault::MalformedClockAnnotation(whole)]
    } else {
        seq![]
    }
}

/// What is wrong with the commands from `i` on.
pub open spec fn annotation_faults(s: Seq<char>, i: int) -> Seq<Fault>
    decreases s.len() - i,
    via annotation_faults_terminates
{
    if 0 <= i < s.len() {
        match annotation_at(s, i) {
            None => annotation_faults(s, i + 1),
            Some((kind, end)) => command_faults(kind, s.subrange(i, end)) + annotation_faults(
                s,
                end,
            ),
        }
    } else {
        seq![]
    }
}

#[via_fn]
proof fn annotation_faults_terminates(s: Seq<char>, i: int) {
    lemma_annotation_end(s, i);
}

/// Whether a comment holds a command.
pub open spec fn has_annotation(s: Seq<char>) -> bool {
    exists|i: int| 0 <= i < s.len() && #[trigger] annotation_at(s, i) is Some
}

/// Whether a comment holds the start of a command at `i`.
pub open spec fn command_start(s: Seq<char>, i: int) -> bool {
    0 <= i && i + 1 < s.len() && s[i] == '[' && s[i + 1] == '%'
}

/// What is wrong with a comment.
pub open spec fn comment_faults(s: Seq<char>) -> Seq<Fault> {
    annotation_faults(s, 0) + if (exists|i: int| command_start(s, i)) && !has_annotation(s) {
        seq![Fault::MalformedAnnotation(s)]
    } else {
        seq![]
    }
}

fn find_annotation(s: &[char], i: usize) -> (r: Option<(Vec<char>, usize)>)
    requires
        i < s@.len(),
    ensures
        match r {
            Some((kind, end)) => annotation_at(s@, i as int) == Some((kind@, end as int)),
            None => annotation_at(s@, i as int) is None,
        },
{
    broadcast use lemma_run_end;

    if s.len() - i < 2 || s[i] != '[' || s[i + 1] != '%' {
        return None;
    }
    let name_end = find_run_end(s, i + 2, Class::Word);
    let close = find_run_end(s, name_end, Class::Not(']'));
    if i + 2 < name_end && close < s.len() {
        Some((slice(s, i + 2, name_end), close + 1))
    } else {
        None
    }
}

fn is_signed_digits(s: &[char], i: usize) -> (r: bool)
    requires
        i <= s@.len(),
    ensures
        r == signed_digits(s@, i as int),
{
    let start: usize = if i < s.len() && s[i] == '-' {
        i + 1
    } else {
        i
    };
    start < s.len() && find_run_end(s, start, Class::Decimal) == s.len()
}

fn is_signed_fraction(s: &[char]) -> (r: bool)
    ensures
        r == signed_fraction(s@),
{
    broadcast use lemma_run_end;

    let start: usize = if s.len() > 0 && s[0] == '-' {
        1
    } else {
        0
    };
    let e = find_run_end(s, start, Class::Decimal);
    if start >= e {
        return false;
    }
    e == s.len() || (s[e] == '.' && s.len() - e > 1 && find_run_end(s, e + 1, Class::Decimal)
        == s.len())
}

pub fn is_eval_command(s: &[char]) -> (r: bool)
    ensures
        r == eval_command(s@),
{
    let n: usize = s.len();
    if n < 8 || s[n - 1] != ']' {
        return false;
    }
    let head = slice(s, 0, 7);
    assert(head@ == s@.take(7));
    if !is_text(head.as_slice(), "[%eval ") {
        return false;
    }
    let value = slice(s, 7, n - 1);
    if value.len() > 0 && value[0] == '#' {
        is_signed_digits(value.as_slice(), 1)
    } else {
        is_signed_fraction(value.as_slice())
    }
}

pub fn is_clock_command(s: &[char]) -> (r: bool)
    ensures
        r == clock_command(s@),
{
    let n: usize = s.len();
    if n < 6 {
        return false;
    }
    let head = slice(s, 0, 6);
    assert(head@ == s@.take(6));
    if !is_text(head.as_slice(), "[%clk ") {
        return false;
    }
    let h = find_run_end(s, 6, Class::Decimal);
    6 < h && n - h == 7 && s[h] == ':' && is_decimal(s[h + 1]) && is_decimal(s[h + 2]) && s[h + 3]
        == ':' && is_decimal(s[h + 4]) && is_decimal(s[h + 5]) && s[h + 6] == ']'
}

/// Checks the annotation commands of a comment.
pub fn validate_comment(content: &[char], errors: &mut Vec<PgnValidationError>)
    ensures
        faults(final(errors)@) == faults(old(errors)@) + comment_faults(content@),
{
    let ghost given = faults(errors@);
    let mut saw_annotation: bool = false;
    let mut saw_start: bool = false;
    let mut i: usize = 0;
    while i < content.len()
        invariant
            i <= content@.len(),
            given + annotation_faults(content@, 0) == faults(errors@) + annotation_faults(
                content@,
                i as int,
            ),
            saw_annotation ==> has_annotation(content@),
            !saw_annotation ==> forall|j: int|
                0 <= j < i ==> #[trigger] annotation_at(content@, j) is None,
            saw_start ==> exists|j: int| command_start(content@, j),
            !saw_start ==> forall|j: int| 0 <= j < i ==> !command_start(content@, j),
            saw_annotation ==> saw_start,
        decreases content@.len() - i,
    {
        proof {
            lemma_annotation_end(content@, i as int);
        }
        let ghost before = faults(errors@);
        if content.len() - i > 1 && content[i] == '[' && content[i + 1] == '%' {
            saw_start = true;
            assert(command_start(content@, i as int));
        }
        match find_annotation(content, i) {
            None => {
                i += 1;
            },
            Some((kind, end)) => {
                assert(command_start(content@, i as int));
                saw_annotation = true;
                saw_start = true;
                let whole = slice(content, i, end);
                let ghost rest = annotation_faults(content@, end as int);
                if is_text(kind.as_slice(), "eval") && !is_eval_command(whole.as_slice()) {
                    report(
                        errors,
                        PgnValidationError::MalformedEvalAnnotation(string_of(whole.as_slice())),
                    );
                } else if is_text(kind.as_slice(), "clk") && !is_clock_command(whole.as_slice()) {
                    report(
                        errors,
                        PgnValidationError::MalformedClockAnnotation(string_of(whole.as_slice())),
                    );
                }
                assert(faults(errors@) == before + command_faults(kind@, whole@));
                assert(before + (command_faults(kind@, whole@) + rest) == faults(errors@) + rest);
                i = end;
            },
        }
    }
    assert(faults(errors@) + annotation_faults(content@, i as int) == faults(errors@));
    if saw_start && !saw_annotation {
        report(errors, PgnValidationError::MalformedAnnotation(string_of(content)));
    } else {
        assert(saw_start || forall|j: int| !command_start(content@, j));
    }
}

// ---------------------------------------------------------------------------
// Move tokens
// ---------------------------------------------------------------------------

/// The check mark at the end of a move.
pub open spec fn move_mark(token: Seq<char>) -> Seq<char> {
    if token.len() > 0 && token.last() == '#' {
        "#"@
    } else if token.len() > 0 && token.last() == '+' {
        "+"@
    } else {
        ""@
    }
}

pub fn split_suffix(token: &[char]) -> (r: (Vec<char>, &'static str))
    ensures
        r.0@ == bare_move(token@),
        r.1@ == move_mark(token@),
{
    let n: usize = token.len();
    if n > 0 && token[n - 1] == '#' {
        let bare = slice(token, 0, n - 1);
        assert(bare@ == token@.drop_last());
        (bare, "#")
    } else if n > 0 && token[n - 1] == '+' {
        let bare = slice(token, 0, n - 1);
        assert(bare@ == token@.drop_last());
        (bare, "+")
    } else {
        let bare = slice(token, 0, n);
        assert(bare@ == token@);
        (bare, "")
    }
}

/// A SAN without check mark, by its syntax alone; castling may be written with
/// zeros.
pub open spec fn san_form(s: Seq<char>) -> bool {
    s == "O-O"@ || s == "O-O-O"@ || piece_move_san(s) || s == "0-0"@ || s == "0-0-0"@
}

fn is_file(c: char) -> (r: bool)
    ensures
        r == file_char(c),
{
    'a' <= c && c <= 'h'
}

fn is_rank(c: char) -> (r: bool)
    ensures
        r == rank_char(c),
{
    '1' <= c && c <= '8'
}

fn is_promotion(c: char) -> (r: bool)
    ensures
        r == promotion_char(c),
{
    c == 'Q' || c == 'R' || c == 'B' || c == 'N'
}

fn is_piece_move(s: &[char]) -> (r: bool)
    ensures
        r == piece_move_san(s@),
{
    let n: usize = s.len();
    if n < 2 {
        return false;
    }
    let promotes = s[n - 2] == '=' && is_promotion(s[n - 1]);
    if promotes && n < 4 {
        return false;
    }
    let m: usize = if promotes {
        n - 4
    } else {
        n - 2
    };
    let mut i: usize = 0;
    if i < m && (s[i] == 'K' || is_promotion(s[i])) {
        i += 1;
    }
    if i < m && is_file(s[i]) {
        i += 1;
    }
    if i < m && is_rank(s[i]) {
        i += 1;
    }
    if i < m && s[i] == 'x' {
        i += 1;
    }
    i == m && is_file(s[m]) && is_rank(s[m + 1])
}

pub fn is_san_syntax(bare: &[char]) -> (r: bool)
    ensures
        r == san_form(bare@),
{
    is_text(bare, "O-O") || is_text(bare, "O-O-O") || is_piece_move(bare) || is_text(bare, "0-0")
        || is_text(bare, "0-0-0")
}

// ---------------------------------------------------------------------------
// Tokenizer
// ---------------------------------------------------------------------------

/// One meaningful piece of movetext (comments and NAGs are handled on the way).
///
/// `T` is the type of the texts a piece carries: `String`, or a character
/// sequence ([`Item`]) in specifications.
#[derive(Debug, Clone)]
pub enum MovetextItem<T = String> {
    Number { number: u32, dots: usize },
    San(T),
    Result(T),
}

/// A piece of movetext with its text as a character sequence.
pub type Item = MovetextItem<Seq<char>>;

impl View for MovetextItem {
    type V = Item;

    open spec fn view(&self) -> Item {
        match *self {
            MovetextItem::Number { number, dots } => MovetextItem::Number { number, dots },
            MovetextItem::San(token) => MovetextItem::San(token@),
            MovetextItem::Result(marker) => MovetextItem::Result(marker@),
        }
    }
}

/// Some pieces of movetext.
pub open spec fn items(v: Seq<MovetextItem>) -> Seq<Item> {
    Seq::new(v.len(), |i: int| v[i]@)
}

/// A move number as written.
pub open spec fn number_text(number: u32, dots: usize) -> Seq<char> {
    dec_nat(number as nat) + Seq::new(dots as nat, |i: int| '.')
}

impl MovetextItem<Seq<char>> {
    /// The piece as written.
    pub open spec fn described(self) -> Seq<char> {
        match self {
            MovetextItem::Number { number, dots } => number_text(number, dots),
            MovetextItem::San(token) => token,
            MovetextItem::Result(marker) => marker,
        }
    }
}

/// Writes a move number.
pub fn format_number(number: u32, dots: usize) -> (r: String)
    ensures
        r@ == number_text(number, dots),
{
    let mut out = nat_text(number as u64);
    let ghost digits = out@;
    let mut i: usize = 0;
    while i < dots
        invariant
            i <= dots,
            out@ == digits + Seq::new(i as nat, |k: int| '.'),
        decreases dots - i,
    {
        out.push('.');
        i += 1;
    }
    string_of(out.as_slice())
}

impl MovetextItem<String> {
    /// The piece as written.
    pub fn describe(&self) -> (r: String)
        ensures
            r@ == self@.described(),
    {
        match self {
            MovetextItem::Number { number, dots } => format_number(*number, *dots),
            MovetextItem::San(token) => token.clone(),
            MovetextItem::Result(marker) => marker.clone(),
        }
    }
}

/// What a token is, once its move-quality marks are gone: digits and one to
/// three dots are a move number, one of the four markers is a result, and
/// anything else has to be a move.
pub open spec fn item_of(core: Seq<char>) -> Item {
    let digits = run_end(core, 0, Class::Decimal);
    let dots = core.len() - digits;
    if 0 < digits && 1 <= dots <= 3 && run_end(core, digits, Class::Only('.')) == core.len() {
        Item::Number { number: u32_or_zero(core.take(digits)), dots: dots as usize }
    } else if marked_result(core) is Some {
        Item::Result(core)
    } else {
        Item::San(core)
    }
}

pub fn classify_token(core: &[char]) -> (r: MovetextItem)
    ensures
        r@ == item_of(core@),
{
    let digits = find_run_end(core, 0, Class::Decimal);
    let dots: usize = core.len() - digits;
    if 0 < digits && 1 <= dots && dots <= 3 && find_run_end(core, digits, Class::Only('.'))
        == core.len() {
        let number_chars = slice(core, 0, digits);
        assert(number_chars@ == core@.take(digits as int));
        MovetextItem::Number { number: parse_u32_or_zero(number_chars.as_slice()), dots }
    } else if result_of_marker(core).is_some() {
        MovetextItem::Result(string_of(core))
    } else {
        MovetextItem::San(string_of(core))
    }
}

/// Where a variation ends, when `depth` parentheses are open at `i`.
pub open spec fn variation_end(s: Seq<char>, i: int, depth: nat) -> int
    decreases s.len() - i,
{
    if 0 <= i < s.len() && depth > 0 {
        if s[i] == '(' {
            variation_end(s, i + 1, depth + 1)
        } else if s[i] == ')' {
            variation_end(s, i + 1, (depth - 1) as nat)
        } else {
            variation_end(s, i + 1, depth)
        }
    } else {
        i
    }
}

pub proof fn lemma_variation_end(s: Seq<char>, i: int, depth: nat)
    requires
        0 <= i <= s.len(),
    ensures
        i <= variation_end(s, i, depth) <= s.len(),
    decreases s.len() - i,
{
    if i < s.len() && depth > 0 {
        if s[i] == '(' {
            lemma_variation_end(s, i + 1, depth + 1);
        } else if s[i] == ')' {
            lemma_variation_end(s, i + 1, (depth - 1) as nat);
        } else {
            lemma_variation_end(s, i + 1, depth);
        }
    }
}

/// What cutting up some movetext gives: its pieces, and what was wrong.
pub ghost struct ItemScan {
    pub items: Seq<Item>,
    pub errors: Seq<Fault>,
}

/// A scan with more errors in front.
pub open spec fn with_errors(errors: Seq<Fault>, scan: ItemScan) -> ItemScan {
    ItemScan { errors: errors + scan.errors, ..scan }
}

/// A scan with one more piece in front.
pub open spec fn with_item(item: Item, scan: ItemScan) -> ItemScan {
    ItemScan { items: seq![item] + scan.items, ..scan }
}

/// Cuts up the text from `i` on. `reported` says whether a variation was
/// already complained about: that happens once. A comment that is never closed
/// ends the scan.
pub open spec fn scan_items(s: Seq<char>, i: int, reported: bool) -> ItemScan
    decreases s.len() - i,
    via scan_items_terminates
{
    if 0 <= i < s.len() {
        let c = s[i];
        if white_space(c) {
            scan_items(s, i + 1, reported)
        } else if c == '{' {
            let close = run_end(s, i + 1, Class::Not('}'));
            if close < s.len() {
                with_errors(
                    comment_faults(trim(s.subrange(i + 1, close))),
                    scan_items(s, close + 1, reported),
                )
            } else {
                ItemScan { items: seq![], errors: seq![Fault::UnbalancedComment] }
            }
        } else if c == '}' || c == ')' {
            with_errors(seq![Fault::UnbalancedComment], scan_items(s, i + 1, reported))
        } else if c == '(' {
            with_errors(
                if reported {
                    seq![]
                } else {
                    seq![Fault::VariationsNotAllowed]
                },
                scan_items(s, variation_end(s, i + 1, 1), true),
            )
        } else if c == ';' {
            scan_items(s, run_end(s, i, Class::Not('\n')), reported)
        } else if c == '$' {
            let e = run_end(s, i + 1, Class::AsciiDigit);
            with_errors(
                if e == i + 1 {
                    seq![Fault::InvalidMoveSyntax { ply: 0, token: "$"@ }]
                } else {
                    seq![]
                },
                scan_items(s, e, reported),
            )
        } else {
            let e = run_end(s, i, Class::Solid);
            let core = drop_quality(s.subrange(i, e));
            if core.len() == 0 {
                scan_items(s, e, reported)
            } else {
                with_item(item_of(core), scan_items(s, e, reported))
            }
        }
    } else {
        ItemScan { items: seq![], errors: seq![] }
    }
}

#[via_fn]
proof fn scan_items_terminates(s: Seq<char>, i: int, reported: bool) {
    if 0 <= i < s.len() {
        lemma_run_end(s, i + 1, Class::Not('}'));
        lemma_variation_end(s, i + 1, 1);
        lemma_run_end(s, i + 1, Class::Not('\n'));
        lemma_run_end(s, i + 1, Class::AsciiDigit);
        lemma_run_end(s, i + 1, Class::Solid);
    }
}

fn find_variation_end(s: &[char], i: usize) -> (r: usize)
    requires
        1 <= i <= s@.len(),
    ensures
        r == variation_end(s@, i as int, 1),
        i <= r <= s@.len(),
{
    let mut depth: usize = 1;
    let mut j: usize = i;
    while j < s.len() && depth > 0
        invariant
            1 <= i <= j <= s@.len(),
            depth <= 1 + (j - i),
            variation_end(s@, i as int, 1) == variation_end(s@, j as int, depth as nat),
        decreases s@.len() - j,
    {
        if s[j] == '(' {
            depth += 1;
        } else if s[j] == ')' {
            depth -= 1;
        }
        j += 1;
    }
    j
}

/// Cuts movetext into its pieces.
pub fn tokenize_movetext(text: &[char], errors: &mut Vec<PgnValidationError>) -> (r: Vec<
    MovetextItem,
>)
    ensures
        items(r@) == scan_items(text@, 0, false).items,
        faults(final(errors)@) == faults(old(errors)@) + scan_items(text@, 0, false).errors,
{
    let ghost given = faults(errors@);
    let ghost whole = scan_items(text@, 0, false);
    let mut out: Vec<MovetextItem> = Vec::new();
    let mut reported: bool = false;
    let mut i: usize = 0;
    while i < text.len()
        invariant
            i <= text@.len(),
            whole == scan_items(text@, 0, false),
            given == faults(old(errors)@),
            whole.items == items(out@) + scan_items(text@, i as int, reported).items,
            given + whole.errors == faults(errors@) + scan_items(
                text@,
                i as int,
                reported,
            ).errors,
        decreases text@.len() - i,
    {
        let c = text[i];
        let ghost here = scan_items(text@, i as int, reported);
        let ghost before = faults(errors@);
        if is_white_space(c) {
            i += 1;
        } else if c == '{' {
            let close = find_run_end(text, i + 1, Class::Not('}'));
            if close >= text.len() {
                report(errors, PgnValidationError::UnbalancedComment);
                assert(before + seq![Fault::UnbalancedComment] == before.push(
                    Fault::UnbalancedComment,
                ));
                assert(items(out@) + Seq::<Item>::empty() == items(out@));
                return out;
            }
            let content = trimmed(slice(text, i + 1, close).as_slice());
            validate_comment(content.as_slice(), errors);
            assert(before + here.errors == faults(errors@) + scan_items(
                text@,
                close + 1,
                reported,
            ).errors);
            i = close + 1;
        } else if c == '}' || c == ')' {
            report(errors, PgnValidationError::UnbalancedComment);
            assert(before + here.errors == faults(errors@) + scan_items(
                text@,
                i + 1,
                reported,
            ).errors);
            i += 1;
        } else if c == '(' {
            let end = find_variation_end(text, i + 1);
            if !reported {
                report(errors, PgnValidationError::VariationsNotAllowed);
            }
            assert(before + here.errors == faults(errors@) + scan_items(
                text@,
                end as int,
                true,
            ).errors);
            reported = true;
            i = end;
        } else if c == ';' {
            let e = find_run_end(text, i + 1, Class::Not('\n'));
            assert(e == run_end(text@, i as int, Class::Not('\n')));
            i = e;
        } else if c == '$' {
            let e = find_run_end(text, i + 1, Class::AsciiDigit);
            if e == i + 1 {
                report(
                    errors,
                    PgnValidationError::InvalidMoveSyntax { ply: 0, token: "$".to_owned() },
                );
            }
            assert(before + here.errors == faults(errors@) + scan_items(
                text@,
                e as int,
                reported,
            ).errors);
            i = e;
        } else {
            let e = find_run_end(text, i + 1, Class::Solid);
            assert(e == run_end(text@, i as int, Class::Solid));
            let core = without_quality(slice(text, i, e).as_slice());
            if core.len() > 0 {
                let ghost had = items(out@);
                let item = classify_token(core.as_slice());
                let ghost seen = item@;
                out.push(item);
                assert(items(out@) == had.push(seen));
                assert(had + here.items == items(out@) + scan_items(
                    text@,
                    e as int,
                    reported,
                ).items);
            }
            i = e;
        }
    }
    assert(items(out@) + Seq::<Item>::empty() == items(out@));
    assert(faults(errors@) + Seq::<Fault>::empty() == faults(errors@));
    out
}

} // verus!
