//! Exports pass the strict checks.

use vstd::arithmetic::div_mod::lemma_small_mod;
use vstd::prelude::*;

use crate::board::{
    bare_move, canonical_san, check_mark, full_moves, in_check, in_checkmate, move_san,
    published_fen, side_to_move, Side,
};
use crate::pgn::{
    drop_quality, played, replayed, result_marker, GameResult, MoveFault, PgnErrorView,
};
use crate::pgn_export::{
    annotation_parts, clock_tag, comment_tokens, documents, escaped, eval_tag, exported,
    game_tokens, lemma_marks_ignored, move_number, move_token, movetext, number_tokens, opt_dec,
    pawns, played_line, ply_tokens, recomputed, same_but_marks, start_of, tag_line, white_ply,
    written_line, written_ply, written_sans, ExportHeaders, MoveAnnotation,
};
use crate::pgn_faults::Fault;
use crate::pgn_laws::{
    law_escapes_read_back, law_result_marker_reads_back, lemma_document_shape, lemma_tag_names,
};
use crate::pgn_layout::{
    closed_comment, comment, document_tokens, export_tags, glyph, lemma_canonical_san,
    lemma_comment_token, lemma_dec_nat, lemma_marker_token, lemma_move_token, lemma_number_token,
    lemma_tag_section, lemma_written_line_sans, lemma_written_san, optional_pair, plain_char,
    plain_token, quotable_clock, readable_annotations, roster_tags, separators, setup_tags, spread,
    supplemental_tags, tag_block_from, tag_name, written_san,
};
use crate::pgn_movetext::{
    annotation_at, annotation_faults, clock_command, command_faults, comment_faults, has_annotation,
    item_of, move_mark, san_form, scan_items, signed_digits, signed_fraction, Item, ItemScan,
};
use crate::pgn_tags::{
    has_name, missing_roster_tags, names, roster, roster_faults, roster_names, roster_order_fault,
    scan_tags, tag_from, tag_of_line, tag_value, valid_date, value_end, TagScan,
};
use crate::pgn_validator::{
    after_blanks, after_tags, blank, date_faults, declared_result, declared_start, ending_of,
    exported_validated, known_termination, lines_of, linted, marker_faults, marker_from,
    next_number, number_faults, opens_tag, position_faults, replay_all, replay_from, replay_start,
    replay_step, replay_token, report_on, result_faults, sections, standard_variant, start_faults,
    termination_faults, termination_result_faults, text_or_empty, variant_faults, verdict,
    with_newlines, writing_faults, Ending, Replay, ReportView, Sections, Tags, ValidatedView,
};
use crate::text::{
    all_in, dec, dec_nat, digit_char, digit_value, in_class, join, lemma_run_end, lemma_run_end_is,
    lemma_run_start, number, opt_text, run_end, run_start, split_from, trim, trim_end, trim_start,
    Class,
};
use crate::unicode::{ascii_digit, ascii_lower_text, ascii_word, decimal, white_space};

verus! {

// ---------------------------------------------------------------------------
// Lines
// ---------------------------------------------------------------------------

/// Whether a text stays on one line.
pub open spec fn single_line(s: Seq<char>) -> bool {
    forall|j: int| 0 <= j < s.len() ==> #[trigger] s[j] != '\n' && s[j] != '\r'
}

/// Whether an optional text stays on one line.
pub open spec fn single_line_option(s: Option<String>) -> bool {
    match s {
        Some(t) => single_line(t@),
        None => true,
    }
}

proof fn lemma_single_line_add(a: Seq<char>, b: Seq<char>)
    requires
        single_line(a),
        single_line(b),
    ensures
        single_line(a + b),
{
    let t = a + b;
    assert forall|j: int| 0 <= j < t.len() implies #[trigger] t[j] != '\n' && t[j] != '\r' by {
        if j < a.len() {
            assert(t[j] == a[j]);
        } else {
            assert(t[j] == b[j - a.len()]);
        }
    }
}

proof fn lemma_join_front(first: Seq<char>, rest: Seq<Seq<char>>, sep: Seq<char>)
    requires
        rest.len() > 0,
    ensures
        join(seq![first] + rest, sep) == first + sep + join(rest, sep),
    decreases rest.len(),
{
    let all = seq![first] + rest;
    if rest.len() == 1 {
        assert(all.drop_last() == seq![first]);
        assert(all.last() == rest[0]);
        reveal_with_fuel(join, 2);
    } else {
        lemma_join_front(first, rest.drop_last(), sep);
        assert(all.drop_last() == seq![first] + rest.drop_last());
        assert(all.last() == rest.last());
        let inner = join(rest.drop_last(), sep);
        assert(first + sep + inner + sep + rest.last() == first + sep + (inner + sep
            + rest.last()));
    }
}

/// Joining the lines of a text gives the text.
proof fn lemma_join_lines(s: Seq<char>, i: int)
    requires
        0 <= i <= s.len(),
    ensures
        split_from(s, i, '\n').len() > 0,
        join(split_from(s, i, '\n'), seq!['\n']) == s.skip(i),
    decreases s.len() - i,
{
    lemma_run_end(s, i, Class::Not('\n'));
    let e = run_end(s, i, Class::Not('\n'));
    if e < s.len() {
        lemma_join_lines(s, e + 1);
        lemma_join_front(s.subrange(i, e), split_from(s, e + 1, '\n'), seq!['\n']);
        assert(s.skip(i) == s.subrange(i, e) + seq!['\n'] + s.skip(e + 1));
    } else {
        assert(split_from(s, i, '\n') == seq![s.subrange(i, e)]);
        assert(s.subrange(i, e) == s.skip(i));
    }
}

/// The first line of a text that goes on with a line and a line end.
proof fn lemma_first_line(s: Seq<char>, i: int, line: Seq<char>, rest: Seq<char>)
    requires
        0 <= i <= s.len(),
        s.skip(i) == line + seq!['\n'] + rest,
        single_line(line),
    ensures
        split_from(s, i, '\n') == seq![line] + split_from(s, i + line.len() + 1, '\n'),
        i + line.len() + 1 <= s.len(),
        s.skip(i + line.len() + 1) == rest,
{
    let n = line.len() as int;
    let t = line + seq!['\n'] + rest;
    assert(s.skip(i).len() == s.len() - i);
    assert forall|j: int| i <= j < i + n implies in_class(Class::Not('\n'), #[trigger] s[j]) by {
        assert(s.skip(i)[j - i] == s[j]);
        assert(t[j - i] == line[j - i]);
    }
    assert(s[i + n] == s.skip(i)[n]);
    lemma_run_end_is(s, i, Class::Not('\n'), i + n);
    assert(s.subrange(i, i + n) == line) by {
        assert forall|j: int| 0 <= j < n implies s.subrange(i, i + n)[j] == line[j] by {
            assert(s.skip(i)[j] == t[j]);
        }
    }
    assert(s.skip(i + n + 1) == s.skip(i).skip(n + 1));
    assert(t.skip(n + 1) == rest);
}

proof fn lemma_newlines_kept(s: Seq<char>, i: int)
    requires
        0 <= i <= s.len(),
        forall|j: int| 0 <= j < s.len() ==> #[trigger] s[j] != '\r',
    ensures
        with_newlines(s, i) == s.skip(i),
    decreases s.len() - i,
{
    if i < s.len() {
        lemma_newlines_kept(s, i + 1);
        assert(s[i] != '\r');
        assert(s.skip(i) == seq![s[i]] + s.skip(i + 1));
    } else {
        assert(s.skip(i) == Seq::<char>::empty());
    }
}

proof fn lemma_solid_start(s: Seq<char>)
    requires
        s.len() > 0,
        !white_space(s[0]),
    ensures
        trim_start(s) == s,
        !blank(s),
{
    assert(run_end(s, 0, Class::Space) == 0);
    assert(s.skip(0) == s);
    lemma_run_start(s, s.len() as int, Class::Space);
    if run_start(s, s.len() as int, Class::Space) == 0 {
        assert(in_class(Class::Space, s[0]));
    }
}

proof fn lemma_after_tags(lines: Seq<Seq<char>>, i: int, n: int)
    requires
        0 <= i <= n < lines.len(),
        forall|j: int| i <= j < n ==> opens_tag(#[trigger] lines[j]),
        !opens_tag(lines[n]),
    ensures
        after_tags(lines, i) == n,
    decreases n - i,
{
    if i < n {
        lemma_after_tags(lines, i + 1, n);
    }
}

// ---------------------------------------------------------------------------
// Tag lines
// ---------------------------------------------------------------------------

/// A tag line without its line end.
spec fn line_of_tag(tag: (Seq<char>, Seq<char>)) -> Seq<char> {
    seq!['['] + tag.0 + seq![' ', '"'] + escaped(tag.1, 0) + seq!['"', ']']
}

/// The lines of the tags from `k` on.
spec fn lines_of_tags(tags: Seq<(Seq<char>, Seq<char>)>, k: int) -> Seq<Seq<char>>
    decreases tags.len() - k,
{
    if 0 <= k < tags.len() {
        seq![line_of_tag(tags[k])] + lines_of_tags(tags, k + 1)
    } else {
        seq![]
    }
}

/// A tag that the strict checks accept.
spec fn strict_tag(tag: (Seq<char>, Seq<char>)) -> bool {
    tag_name(tag.0) && single_line(tag.1)
}

proof fn lemma_tag_line(tag: (Seq<char>, Seq<char>))
    ensures
        tag_line(tag.0, tag.1) == line_of_tag(tag) + seq!['\n'],
{
    reveal_strlit("[");
    reveal_strlit(" \"");
    reveal_strlit("\"]\n");
    let esc = escaped(tag.1, 0);
    assert("["@ == seq!['[']);
    assert(" \""@ == seq![' ', '"']);
    assert("\"]\n"@ == seq!['"', ']'] + seq!['\n']);
    let head = seq!['['] + tag.0 + seq![' ', '"'] + esc;
    assert(head + (seq!['"', ']'] + seq!['\n']) == head + seq!['"', ']'] + seq!['\n']);
}

proof fn lemma_escaped_single_line(s: Seq<char>, i: int)
    requires
        0 <= i <= s.len(),
        single_line(s),
    ensures
        single_line(escaped(s, i)),
    decreases s.len() - i,
{
    if i < s.len() {
        lemma_escaped_single_line(s, i + 1);
        let head = if s[i] == '\\' || s[i] == '"' {
            seq!['\\', s[i]]
        } else {
            seq![s[i]]
        };
        assert(single_line(head));
        lemma_single_line_add(head, escaped(s, i + 1));
    }
}

proof fn lemma_line_of_tag(tag: (Seq<char>, Seq<char>))
    requires
        strict_tag(tag),
    ensures
        single_line(line_of_tag(tag)),
        opens_tag(line_of_tag(tag)),
        !blank(line_of_tag(tag)),
        trim_end(line_of_tag(tag)) == line_of_tag(tag),
{
    let line = line_of_tag(tag);
    let name = tag.0;
    let esc = escaped(tag.1, 0);
    lemma_escaped_single_line(tag.1, 0);
    assert(single_line(seq!['[']));
    assert(single_line(name)) by {
        assert forall|j: int| 0 <= j < name.len() implies #[trigger] name[j] != '\n' && name[j]
            != '\r' by {
            assert(ascii_word(name[j]));
        }
    }
    assert(single_line(seq![' ', '"']));
    assert(single_line(seq!['"', ']']));
    lemma_single_line_add(seq!['['], name);
    lemma_single_line_add(seq!['['] + name, seq![' ', '"']);
    lemma_single_line_add(seq!['['] + name + seq![' ', '"'], esc);
    lemma_single_line_add(seq!['['] + name + seq![' ', '"'] + esc, seq!['"', ']']);
    assert(line[0] == '[');
    assert(line.last() == ']');
    lemma_solid_start(line);
    assert(run_start(line, line.len() as int, Class::Space) == line.len());
    assert(line.take(line.len() as int) == line);
}

/// The lines of a text that starts with tags.
proof fn lemma_splits_tags(
    s: Seq<char>,
    i: int,
    tags: Seq<(Seq<char>, Seq<char>)>,
    k: int,
    rest: Seq<char>,
)
    requires
        0 <= i <= s.len(),
        0 <= k <= tags.len(),
        s.skip(i) == tag_block_from(tags, k) + rest,
        forall|j: int| 0 <= j < tags.len() ==> strict_tag(#[trigger] tags[j]),
    ensures
        split_from(s, i, '\n') == lines_of_tags(tags, k) + split_from(
            s,
            s.len() - rest.len(),
            '\n',
        ),
        s.len() >= rest.len(),
        s.skip(s.len() - rest.len()) == rest,
    decreases tags.len() - k,
{
    if k < tags.len() {
        let line = line_of_tag(tags[k]);
        let more = tag_block_from(tags, k + 1) + rest;
        assert(strict_tag(tags[k]));
        lemma_tag_line(tags[k]);
        lemma_line_of_tag(tags[k]);
        assert(tag_block_from(tags, k) + rest == line + seq!['\n'] + more);
        lemma_first_line(s, i, line, more);
        lemma_splits_tags(s, i + line.len() + 1, tags, k + 1, rest);
        let tail = split_from(s, s.len() - rest.len(), '\n');
        assert(seq![line] + (lines_of_tags(tags, k + 1) + tail) == lines_of_tags(tags, k) + tail);
    } else {
        assert(tag_block_from(tags, k) + rest == rest);
        assert(s.skip(i).len() == s.len() - i);
        assert(lines_of_tags(tags, k) + split_from(s, i, '\n') == split_from(s, i, '\n'));
    }
}

proof fn lemma_lines_of_tags(tags: Seq<(Seq<char>, Seq<char>)>, k: int)
    requires
        0 <= k <= tags.len(),
    ensures
        lines_of_tags(tags, k).len() == tags.len() - k,
        forall|j: int|
            0 <= j < tags.len() - k ==> #[trigger] lines_of_tags(tags, k)[j] == line_of_tag(
                tags[k + j],
            ),
    decreases tags.len() - k,
{
    if k < tags.len() {
        lemma_lines_of_tags(tags, k + 1);
        let all = lines_of_tags(tags, k);
        let rest = lines_of_tags(tags, k + 1);
        assert forall|j: int| 0 <= j < tags.len() - k implies #[trigger] all[j] == line_of_tag(
            tags[k + j],
        ) by {
            if j > 0 {
                assert(all[j] == rest[j - 1]);
                assert(rest[j - 1] == line_of_tag(tags[k + 1 + (j - 1)]));
            }
        }
    }
}

/// A document of tags, a blank line and a body falls into its sections.
proof fn lemma_sections(
    text: Seq<char>,
    tags: Seq<(Seq<char>, Seq<char>)>,
    body: Seq<char>,
)
    requires
        tags.len() > 0,
        forall|j: int| 0 <= j < tags.len() ==> strict_tag(#[trigger] tags[j]),
        text == tag_block_from(tags, 0) + (seq!['\n'] + body),
        forall|j: int| 0 <= j < text.len() ==> #[trigger] text[j] != '\r',
        body.len() > 0,
        !white_space(body[0]),
    ensures
        sections(lines_of(text)) == Some(
            Sections { tag_lines: lines_of_tags(tags, 0), movetext: body, errors: seq![] },
        ),
{
    let n = tags.len() as int;
    let rest = seq!['\n'] + body;
    lemma_newlines_kept(text, 0);
    assert(text.skip(0) == text);
    lemma_splits_tags(text, 0, tags, 0, rest);
    let at = text.len() - rest.len();
    let none = Seq::<char>::empty();
    assert(none + seq!['\n'] + body == rest);
    lemma_first_line(text, at, none, body);
    lemma_join_lines(text, at + 1);
    lemma_lines_of_tags(tags, 0);
    let tag_lines = lines_of_tags(tags, 0);
    let tail = split_from(text, at + 1, '\n');
    let lines = lines_of(text);
    assert(lines == tag_lines + (seq![none] + tail));

    lemma_run_end(text, at + 1, Class::Not('\n'));
    let e = run_end(text, at + 1, Class::Not('\n'));
    assert(text[at + 1] == text.skip(at + 1)[0]);
    assert(e > at + 1) by {
        assert(in_class(Class::Not('\n'), text[at + 1]));
        lemma_run_end(text, at + 2, Class::Not('\n'));
    }
    assert(tail[0] == text.subrange(at + 1, e));
    assert(tail[0][0] == body[0]);
    lemma_solid_start(tail[0]);

    assert forall|j: int| 0 <= j < n implies opens_tag(#[trigger] lines[j]) && !blank(lines[j]) by {
        assert(lines[j] == tag_lines[j]);
        assert(tag_lines[j] == line_of_tag(tags[0 + j]));
        assert(strict_tag(tags[j]));
        lemma_line_of_tag(tags[j]);
    }
    assert(lines[n] == none);
    assert(lines[n + 1] == tail[0]);
    assert(!opens_tag(none));
    assert(blank(none)) by {
        assert(run_end(none, 0, Class::Space) == 0);
        assert(none.skip(0) == none);
    }
    assert(after_blanks(lines, 0) == 0) by {
        assert(!blank(lines[0]));
    }
    lemma_after_tags(lines, 0, n);
    assert(after_blanks(lines, n + 1) == n + 1);
    assert(after_blanks(lines, n) == n + 1);
    assert(lines.subrange(0, n) == tag_lines);
    assert(lines.skip(n + 1) == tail);
}

/// Where an escaped value ends.
proof fn lemma_value_end(s: Seq<char>, i: int, value: Seq<char>, k: int, rest: Seq<char>)
    requires
        0 <= i <= s.len(),
        0 <= k <= value.len(),
        single_line(value),
        s.skip(i) == escaped(value, k) + seq!['"'] + rest,
    ensures
        value_end(s, i) == i + escaped(value, k).len(),
    decreases value.len() - k,
{
    let esc = escaped(value, k);
    let t = esc + seq!['"'] + rest;
    assert(s.skip(i).len() == s.len() - i);
    assert(s[i] == s.skip(i)[0]);
    if k < value.len() {
        let more = escaped(value, k + 1);
        let c = value[k];
        if c == '\\' || c == '"' {
            assert(t == seq!['\\', c] + (more + seq!['"'] + rest));
            assert(s[i + 1] == s.skip(i)[1]);
            assert(s.skip(i + 2) == s.skip(i).skip(2));
            assert(t.skip(2) == more + seq!['"'] + rest);
            lemma_value_end(s, i + 2, value, k + 1, rest);
        } else {
            assert(t == seq![c] + (more + seq!['"'] + rest));
            assert(s.skip(i + 1) == s.skip(i).skip(1));
            assert(t.skip(1) == more + seq!['"'] + rest);
            lemma_value_end(s, i + 1, value, k + 1, rest);
        }
    } else {
        assert(t[0] == '"');
    }
}

/// The strict checks read a tag line as the tag it was written from.
proof fn lemma_tag_of_line(tag: (Seq<char>, Seq<char>))
    requires
        strict_tag(tag),
    ensures
        tag_of_line(line_of_tag(tag)) == Some((tag.0, escaped(tag.1, 0))),
{
    let name = tag.0;
    let esc = escaped(tag.1, 0);
    let n = name.len() as int;
    let m = esc.len() as int;
    let s = line_of_tag(tag);
    assert(s.len() == n + m + 5);
    assert(s[0] == '[');
    assert forall|j: int| 1 <= j < 1 + n implies in_class(Class::AsciiWord, #[trigger] s[j]) by {
        assert(s[j] == name[j - 1]);
        assert(ascii_word(name[j - 1]));
    }
    assert(s[1 + n] == ' ');
    lemma_run_end_is(s, 1, Class::AsciiWord, 1 + n);
    assert(s[2 + n] == '"');
    lemma_run_end_is(s, 1 + n, Class::Space, 2 + n);
    assert(s.skip(3 + n) == esc + seq!['"'] + seq![']']);
    lemma_value_end(s, 3 + n, tag.1, 0, seq![']']);
    assert(s[3 + n + m + 1] == ']');
    assert(s.subrange(1, 1 + n) == name);
    assert(s.subrange(3 + n, 3 + n + m) == esc);
}

/// Whether no name occurs twice.
pub open spec fn distinct(tags: Tags) -> bool {
    forall|i: int, j: int| 0 <= i < j < tags.len() ==> (#[trigger] tags[i]).0 != (
    #[trigger] tags[j]).0
}

/// The strict checks read tag lines as the tags they were written from.
proof fn lemma_scan_tags(tags: Tags, n: int)
    requires
        0 <= n <= tags.len(),
        distinct(tags),
        forall|j: int| 0 <= j < tags.len() ==> strict_tag(#[trigger] tags[j]),
    ensures
        scan_tags(lines_of_tags(tags, 0), n) == (TagScan { tags: tags.take(n), errors: seq![] }),
    decreases n,
{
    if n > 0 {
        lemma_scan_tags(tags, n - 1);
        lemma_lines_of_tags(tags, 0);
        let tag = tags[n - 1];
        assert(strict_tag(tag));
        assert(lines_of_tags(tags, 0)[n - 1] == line_of_tag(tags[0 + (n - 1)]));
        lemma_line_of_tag(tag);
        lemma_tag_of_line(tag);
        law_escapes_read_back(tag.1);
        let before = tags.take(n - 1);
        assert(!has_name(before, tag.0)) by {
            if has_name(before, tag.0) {
                let i = choose|i: int| 0 <= i < before.len() && (#[trigger] before[i]).0 == tag.0;
                assert(before[i] == tags[i]);
                assert(tags[i].0 != tags[n - 1].0);
            }
        }
        assert(tags.take(n) == before.push(tag));
    } else {
        assert(tags.take(0) == Seq::<(Seq<char>, Seq<char>)>::empty());
    }
}

// ---------------------------------------------------------------------------
// Names of exported tags
// ---------------------------------------------------------------------------

/// A number for each name that an export uses, by its length and a letter.
spec fn rank(name: Seq<char>) -> int {
    if name.len() == 5 {
        if name[0] == 'E' {
            0
        } else if name[0] == 'R' {
            3
        } else if name[0] == 'W' {
            4
        } else if name[0] == 'B' {
            5
        } else {
            12
        }
    } else if name.len() == 4 {
        if name[0] == 'S' {
            1
        } else {
            2
        }
    } else if name.len() == 6 {
        6
    } else if name.len() == 8 {
        if name[0] == 'W' {
            7
        } else {
            8
        }
    } else if name.len() == 11 {
        if name[1] == 'i' {
            9
        } else {
            10
        }
    } else if name.len() == 7 {
        11
    } else {
        13
    }
}

proof fn lemma_ranks()
    ensures
        rank("Event"@) == 0,
        rank("Site"@) == 1,
        rank("Date"@) == 2,
        rank("Round"@) == 3,
        rank("White"@) == 4,
        rank("Black"@) == 5,
        rank("Result"@) == 6,
        rank("WhiteElo"@) == 7,
        rank("BlackElo"@) == 8,
        rank("TimeControl"@) == 9,
        rank("Termination"@) == 10,
        rank("Variant"@) == 11,
        rank("SetUp"@) == 12,
        rank("FEN"@) == 13,
{
    reveal_strlit("Event");
    reveal_strlit("Site");
    reveal_strlit("Date");
    reveal_strlit("Round");
    reveal_strlit("White");
    reveal_strlit("Black");
    reveal_strlit("Result");
    reveal_strlit("WhiteElo");
    reveal_strlit("BlackElo");
    reveal_strlit("TimeControl");
    reveal_strlit("Termination");
    reveal_strlit("Variant");
    reveal_strlit("SetUp");
    reveal_strlit("FEN");
}

/// Whether the ranks of some names rise from `low`, below `high`.
spec fn rising(tags: Tags, low: int, high: int) -> bool {
    &&& low <= high
    &&& forall|i: int| 0 <= i < tags.len() ==> low <= rank((#[trigger] tags[i]).0) < high
    &&& forall|i: int, j: int| 0 <= i < j < tags.len() ==> rank((#[trigger] tags[i]).0) < rank(
        (#[trigger] tags[j]).0,
    )
}

proof fn lemma_rising_add(a: Tags, b: Tags, low: int, mid: int, high: int)
    requires
        rising(a, low, mid),
        rising(b, mid, high),
    ensures
        rising(a + b, low, high),
{
    let t = a + b;
    assert forall|i: int| 0 <= i < t.len() implies low <= rank((#[trigger] t[i]).0) < high by {
        if i < a.len() {
            assert(t[i] == a[i]);
        } else {
            assert(t[i] == b[i - a.len()]);
        }
    }
    assert forall|i: int, j: int| 0 <= i < j < t.len() implies rank((#[trigger] t[i]).0) < rank(
        (#[trigger] t[j]).0,
    ) by {
        if j < a.len() {
            assert(t[i] == a[i] && t[j] == a[j]);
        } else if i >= a.len() {
            assert(t[i] == b[i - a.len()] && t[j] == b[j - a.len()]);
        } else {
            assert(t[i] == a[i] && t[j] == b[j - a.len()]);
        }
    }
}

proof fn lemma_export_ranks(h: ExportHeaders)
    ensures
        rising(roster_tags(h), 0, 7),
        rising(supplemental_tags(h), 7, 14),
        rising(export_tags(h), 0, 14),
        distinct(export_tags(h)),
{
    lemma_ranks();
    let b = optional_pair("WhiteElo"@, opt_dec(h.white_elo));
    let c = optional_pair("BlackElo"@, opt_dec(h.black_elo));
    let d = optional_pair("TimeControl"@, opt_text(h.time_control));
    let e = optional_pair("Termination"@, opt_text(h.termination));
    let f = optional_pair("Variant"@, opt_text(h.variant));
    let g = setup_tags(h);
    let r = roster_tags(h);
    assert forall|i: int| 0 <= i < r.len() implies rank((#[trigger] r[i]).0) == i by {
        assert(i == 0 || i == 1 || i == 2 || i == 3 || i == 4 || i == 5 || i == 6);
    }
    assert(rising(r, 0, 7));
    assert(rising(b, 7, 8));
    assert(rising(c, 8, 9));
    assert(rising(d, 9, 10));
    assert(rising(e, 10, 11));
    assert(rising(f, 11, 12));
    assert(rising(g, 12, 14));
    lemma_rising_add(b, c, 7, 8, 9);
    lemma_rising_add(b + c, d, 7, 9, 10);
    lemma_rising_add(b + c + d, e, 7, 10, 11);
    lemma_rising_add(b + c + d + e, f, 7, 11, 12);
    lemma_rising_add(b + c + d + e + f, g, 7, 12, 14);
    lemma_rising_add(r, supplemental_tags(h), 0, 7, 14);
}

/// The roster of an export is complete and comes first.
proof fn lemma_roster(h: ExportHeaders)
    ensures
        roster_faults(export_tags(h)) == Seq::<Fault>::empty(),
{
    lemma_ranks();
    lemma_export_ranks(h);
    let tags = export_tags(h);
    let all = names(tags);
    let n = tags.len() as int;
    assert forall|i: int| 0 <= i < 7 implies #[trigger] roster()[i] == tags[i].0 && rank(
        roster()[i],
    ) == i by {
        assert(tags[i] == roster_tags(h)[i]);
        assert(i == 0 || i == 1 || i == 2 || i == 3 || i == 4 || i == 5 || i == 6);
    }
    lemma_no_missing(tags, 7);
    lemma_roster_names(tags, n);
    assert(roster_names(all, n) == roster());
    assert forall|i: int| 0 <= i < 7 implies roster().contains(#[trigger] all[i]) by {
        assert(all[i] == roster()[i]);
    }
    assert(roster_order_fault(tags) is None);
}

proof fn lemma_no_missing(tags: Tags, n: int)
    requires
        0 <= n <= 7,
        tags.len() >= 7,
        forall|i: int| 0 <= i < 7 ==> #[trigger] roster()[i] == tags[i].0,
    ensures
        missing_roster_tags(tags, n) == Seq::<Fault>::empty(),
    decreases n,
{
    if n > 0 {
        lemma_no_missing(tags, n - 1);
        assert(roster()[n - 1] == tags[n - 1].0);
        assert(has_name(tags, roster()[n - 1]));
    }
}

proof fn lemma_roster_names(tags: Tags, n: int)
    requires
        7 <= tags.len(),
        0 <= n <= tags.len(),
        rising(tags, 0, 14),
        forall|i: int|
            0 <= i < 7 ==> #[trigger] roster()[i] == tags[i].0 && rank(roster()[i]) == i,
    ensures
        roster_names(names(tags), n) == roster().take(
            if n < 7 {
                n
            } else {
                7
            },
        ),
    decreases n,
{
    let all = names(tags);
    if n > 0 {
        lemma_roster_names(tags, n - 1);
        assert(all[n - 1] == tags[n - 1].0);
        if n <= 7 {
            assert(roster()[n - 1] == tags[n - 1].0);
            assert(roster().contains(all[n - 1]));
            assert(roster().take(n) == roster().take(n - 1).push(roster()[n - 1]));
        } else {
            assert(rank(tags[6].0) == 6) by {
                assert(roster()[6] == tags[6].0);
            }
            assert(rank(tags[n - 1].0) > rank(tags[6].0));
            if roster().contains(all[n - 1]) {
                let i = choose|i: int| 0 <= i < roster().len() && roster()[i] == all[n - 1];
                assert(rank(roster()[i]) == i);
            }
        }
    } else {
        assert(roster().take(0) == Seq::<Seq<char>>::empty());
    }
}

proof fn lemma_tag_from_shift(a: Tags, b: Tags, j: int, name: Seq<char>)
    requires
        0 <= j <= b.len(),
    ensures
        tag_from(a + b, a.len() + j, name) == tag_from(b, j, name),
    decreases b.len() - j,
{
    if j < b.len() {
        lemma_tag_from_shift(a, b, j + 1, name);
        assert((a + b)[a.len() + j] == b[j]);
    }
}

proof fn lemma_tag_from_add(a: Tags, b: Tags, i: int, name: Seq<char>)
    requires
        0 <= i <= a.len(),
    ensures
        tag_from(a + b, i, name) == match tag_from(a, i, name) {
            Some(v) => Some(v),
            None => tag_value(b, name),
        },
    decreases a.len() - i,
{
    if i < a.len() {
        lemma_tag_from_add(a, b, i + 1, name);
        assert((a + b)[i] == a[i]);
    } else {
        lemma_tag_from_shift(a, b, 0, name);
    }
}

proof fn lemma_tag_absent(tags: Tags, i: int, name: Seq<char>, low: int, high: int)
    requires
        0 <= i <= tags.len(),
        rising(tags, low, high),
        !(low <= rank(name) < high),
    ensures
        tag_from(tags, i, name) is None,
    decreases tags.len() - i,
{
    if i < tags.len() {
        lemma_tag_absent(tags, i + 1, name, low, high);
        assert(rank(tags[i].0) != rank(name));
    }
}

proof fn lemma_pair_value(own: Seq<char>, value: Option<Seq<char>>, name: Seq<char>)
    ensures
        tag_value(optional_pair(own, value), name) == if own == name {
            value
        } else {
            None
        },
{
    reveal_with_fuel(tag_from, 2);
}

proof fn lemma_setup_value(h: ExportHeaders)
    ensures
        tag_value(setup_tags(h), "SetUp"@) == match h.start_fen {
            Some(_) => Some("1"@),
            None => None,
        },
        tag_value(setup_tags(h), "FEN"@) == opt_text(h.start_fen),
{
    lemma_ranks();
    reveal_with_fuel(tag_from, 3);
}

/// The value of a supplemental tag.
proof fn lemma_supplemental_value(h: ExportHeaders, name: Seq<char>)
    ensures
        name == "Termination"@ ==> tag_value(supplemental_tags(h), name) == opt_text(
            h.termination,
        ),
        name == "Variant"@ ==> tag_value(supplemental_tags(h), name) == opt_text(h.variant),
        name == "SetUp"@ || name == "FEN"@ ==> tag_value(supplemental_tags(h), name) == tag_value(
            setup_tags(h),
            name,
        ),
{
    lemma_ranks();
    let b = optional_pair("WhiteElo"@, opt_dec(h.white_elo));
    let c = optional_pair("BlackElo"@, opt_dec(h.black_elo));
    let d = optional_pair("TimeControl"@, opt_text(h.time_control));
    let e = optional_pair("Termination"@, opt_text(h.termination));
    let f = optional_pair("Variant"@, opt_text(h.variant));
    let g = setup_tags(h);
    lemma_pair_value("WhiteElo"@, opt_dec(h.white_elo), name);
    lemma_pair_value("BlackElo"@, opt_dec(h.black_elo), name);
    lemma_pair_value("TimeControl"@, opt_text(h.time_control), name);
    lemma_pair_value("Termination"@, opt_text(h.termination), name);
    lemma_pair_value("Variant"@, opt_text(h.variant), name);
    assert(rising(g, 12, 14));
    if rank(name) < 12 {
        lemma_tag_absent(g, 0, name, 12, 14);
    }
    lemma_tag_from_add(b, c, 0, name);
    lemma_tag_from_add(b + c, d, 0, name);
    lemma_tag_from_add(b + c + d, e, 0, name);
    lemma_tag_from_add(b + c + d + e, f, 0, name);
    lemma_tag_from_add(b + c + d + e + f, g, 0, name);
}

/// The values of the tags that the strict checks look at.
proof fn lemma_values(h: ExportHeaders)
    ensures
        tag_value(export_tags(h), "Date"@) == Some(h.date@),
        tag_value(export_tags(h), "Result"@) == Some(result_marker(h.result)),
        tag_value(export_tags(h), "Termination"@) == opt_text(h.termination),
        tag_value(export_tags(h), "Variant"@) == opt_text(h.variant),
        tag_value(export_tags(h), "SetUp"@) == match h.start_fen {
            Some(_) => Some("1"@),
            None => None,
        },
        tag_value(export_tags(h), "FEN"@) == opt_text(h.start_fen),
{
    lemma_ranks();
    lemma_export_ranks(h);
    let r = roster_tags(h);
    let s = supplemental_tags(h);
    reveal_with_fuel(tag_from, 8);
    lemma_tag_from_add(r, s, 0, "Date"@);
    lemma_tag_from_add(r, s, 0, "Result"@);
    lemma_tag_absent(r, 0, "Termination"@, 0, 7);
    lemma_tag_from_add(r, s, 0, "Termination"@);
    lemma_supplemental_value(h, "Termination"@);
    lemma_tag_absent(r, 0, "Variant"@, 0, 7);
    lemma_tag_from_add(r, s, 0, "Variant"@);
    lemma_supplemental_value(h, "Variant"@);
    lemma_tag_absent(r, 0, "SetUp"@, 0, 7);
    lemma_tag_from_add(r, s, 0, "SetUp"@);
    lemma_supplemental_value(h, "SetUp"@);
    lemma_tag_absent(r, 0, "FEN"@, 0, 7);
    lemma_tag_from_add(r, s, 0, "FEN"@);
    lemma_supplemental_value(h, "FEN"@);
    lemma_setup_value(h);
}

// ---------------------------------------------------------------------------
// Comments
// ---------------------------------------------------------------------------

/// Whether a clock reading has the standard form.
pub open spec fn strict_clock(clock: Option<String>) -> bool {
    match clock {
        Some(c) => clock_command(clock_tag(c@)),
        None => true,
    }
}

/// Whether annotations pass the strict checks, as far as they are written.
pub open spec fn strict_annotations(moves: Seq<MoveAnnotation>, analysis: bool) -> bool {
    forall|i: int|
        0 <= i < moves.len() ==> glyph((#[trigger] moves[i]).classification) && (analysis
            ==> strict_clock(moves[i].clock))
}

/// A command as it is written: a kind, a blank and a value without brackets.
spec fn command(kind: Seq<char>, value: Seq<char>) -> Seq<char> {
    seq!['[', '%'] + kind + seq![' '] + value + seq![']']
}

/// Whether a text holds no closing bracket.
spec fn unbracketed(s: Seq<char>) -> bool {
    forall|j: int| 0 <= j < s.len() ==> #[trigger] s[j] != ']'
}

/// Whether a text is one well-formed command.
spec fn good_part(part: Seq<char>, kind: Seq<char>, value: Seq<char>) -> bool {
    &&& part == command(kind, value)
    &&& tag_name(kind)
    &&& unbracketed(value)
    &&& command_faults(kind, part) == Seq::<Fault>::empty()
}

/// The strict checks find a command where it is written.
proof fn lemma_annotation_at(
    s: Seq<char>,
    i: int,
    part: Seq<char>,
    kind: Seq<char>,
    value: Seq<char>,
    rest: Seq<char>,
)
    requires
        0 <= i <= s.len(),
        s.skip(i) == part + rest,
        good_part(part, kind, value),
    ensures
        annotation_at(s, i) == Some((kind, i + part.len())),
        i + part.len() <= s.len(),
        s.subrange(i, i + part.len()) == part,
        s.skip(i + part.len()) == rest,
{
    let n = kind.len() as int;
    let m = value.len() as int;
    assert(part.len() == n + m + 4);
    assert(s.skip(i).len() == s.len() - i);
    assert forall|j: int| 0 <= j < part.len() implies s[i + j] == #[trigger] part[j] by {
        assert(s.skip(i)[j] == s[i + j]);
        assert((part + rest)[j] == part[j]);
    }
    assert(part[0] == '[' && part[1] == '%');
    assert(s[i + 0] == part[0] && s[i + 1] == part[1]);
    assert forall|j: int| i + 2 <= j < i + 2 + n implies in_class(Class::Word, #[trigger] s[j]) by {
        assert(s[i + (j - i)] == part[j - i]);
        assert(part[j - i] == kind[j - i - 2]);
        assert(ascii_word(kind[j - i - 2]));
    }
    assert(part[2 + n] == ' ');
    assert(s[i + (2 + n)] == part[2 + n]);
    lemma_run_end_is(s, i + 2, Class::Word, i + 2 + n);
    assert forall|j: int| i + 2 + n <= j < i + 3 + n + m implies in_class(
        Class::Not(']'),
        #[trigger] s[j],
    ) by {
        assert(s[i + (j - i)] == part[j - i]);
        if j > i + 2 + n {
            assert(part[j - i] == value[j - i - 3 - n]);
        }
    }
    assert(part[3 + n + m] == ']');
    assert(s[i + (3 + n + m)] == part[3 + n + m]);
    lemma_run_end_is(s, i + 2 + n, Class::Not(']'), i + 3 + n + m);
    assert(s.subrange(i + 2, i + 2 + n) == kind) by {
        assert forall|j: int| 0 <= j < n implies s.subrange(i + 2, i + 2 + n)[j] == kind[j] by {
            assert(s[i + (2 + j)] == part[2 + j]);
        }
    }
    assert(s.subrange(i, i + part.len()) == part);
    assert(s.skip(i + part.len()) == s.skip(i).skip(part.len() as int));
    assert((part + rest).skip(part.len() as int) == rest);
}

/// Nothing is wrong with one command.
proof fn lemma_one_command(part: Seq<char>, kind: Seq<char>, value: Seq<char>)
    requires
        good_part(part, kind, value),
    ensures
        comment_faults(part) == Seq::<Fault>::empty(),
{
    let none = Seq::<char>::empty();
    assert(part.skip(0) == part + none);
    lemma_annotation_at(part, 0, part, kind, value, none);
    assert(annotation_at(part, 0) is Some);
    assert(annotation_faults(part, part.len() as int) == Seq::<Fault>::empty());
    assert(has_annotation(part));
}

/// Nothing is wrong with two commands and a blank between them.
proof fn lemma_two_commands(
    p: Seq<char>,
    k: Seq<char>,
    v: Seq<char>,
    p2: Seq<char>,
    k2: Seq<char>,
    v2: Seq<char>,
)
    requires
        good_part(p, k, v),
        good_part(p2, k2, v2),
    ensures
        comment_faults(p + seq![' '] + p2) == Seq::<Fault>::empty(),
{
    let s = p + seq![' '] + p2;
    let none = Seq::<char>::empty();
    let n = p.len() as int;
    assert(s.skip(0) == p + (seq![' '] + p2));
    lemma_annotation_at(s, 0, p, k, v, seq![' '] + p2);
    assert(s[n] == ' ');
    assert(annotation_at(s, n) is None);
    assert(s.skip(n + 1) == p2 + none);
    lemma_annotation_at(s, n + 1, p2, k2, v2, none);
    assert(annotation_faults(s, s.len() as int) == Seq::<Fault>::empty());
    assert(annotation_faults(s, n + 1) == Seq::<Fault>::empty());
    assert(annotation_faults(s, n) == Seq::<Fault>::empty());
    assert(annotation_at(s, 0) is Some);
    assert(has_annotation(s));
}

proof fn lemma_digits_run(s: Seq<char>, i: int, digits: Seq<char>, n: nat, rest: Seq<char>)
    requires
        0 <= i <= s.len(),
        digits == dec_nat(n),
        s.skip(i) == digits + rest,
        rest.len() > 0 ==> !decimal(rest[0]),
    ensures
        run_end(s, i, Class::Decimal) == i + digits.len(),
        digits.len() > 0,
        s.len() == i + digits.len() + rest.len(),
        rest.len() > 0 ==> s[i + digits.len()] == rest[0],
{
    lemma_dec_nat(n);
    let d = digits.len() as int;
    assert(s.skip(i).len() == s.len() - i);
    assert forall|j: int| i <= j < i + d implies in_class(Class::Decimal, #[trigger] s[j]) by {
        assert(s.skip(i)[j - i] == s[j]);
        assert((digits + rest)[j - i] == digits[j - i]);
        assert(ascii_digit(digits[j - i]));
    }
    if rest.len() > 0 {
        assert(s.skip(i)[d] == s[i + d]);
        assert((digits + rest)[d] == rest[0]);
    }
    lemma_run_end_is(s, i, Class::Decimal, i + d);
}

/// A mate distance has the standard form.
proof fn lemma_mate_form(mate: int)
    ensures
        signed_digits(seq!['#'] + dec(mate), 1),
{
    let s = seq!['#'] + dec(mate);
    let none = Seq::<char>::empty();
    if mate < 0 {
        let digits = dec_nat((-mate) as nat);
        assert(s[1] == '-');
        assert(s.skip(2) == digits + none);
        lemma_digits_run(s, 2, digits, (-mate) as nat, none);
    } else {
        let digits = dec_nat(mate as nat);
        lemma_dec_nat(mate as nat);
        assert(s[1] == digits[0]);
        assert(ascii_digit(digits[0]));
        assert(s.skip(1) == digits + none);
        lemma_digits_run(s, 1, digits, mate as nat, none);
    }
}

/// An evaluation in pawns has the standard form.
proof fn lemma_pawns_form(cp: int)
    ensures
        signed_fraction(pawns(cp)),
        pawns(cp).len() > 0,
        pawns(cp)[0] != '#',
{
    let n = if cp < 0 {
        -cp
    } else {
        cp
    };
    let s = pawns(cp);
    let whole = dec_nat((n / 100) as nat);
    let cents = seq!['.', digit_char(n / 10 % 10), digit_char(n % 10)];
    lemma_dec_nat((n / 100) as nat);
    let start: int = if cp < 0 {
        1
    } else {
        0
    };
    assert(s.skip(start) == whole + cents);
    if cp < 0 {
        assert(s[0] == '-');
    } else {
        assert(s[0] == whole[0]);
        assert(ascii_digit(whole[0]));
    }
    lemma_digits_run(s, start, whole, (n / 100) as nat, cents);
    let e = start + whole.len();
    assert(s[e + 1] == cents[1] && s[e + 2] == cents[2]) by {
        assert(s.skip(start)[whole.len() as int + 1] == s[e + 1]);
        assert(s.skip(start)[whole.len() as int + 2] == s[e + 2]);
    }
    assert(decimal(s[e + 1]) && decimal(s[e + 2]));
    lemma_run_end_is(s, e + 1, Class::Decimal, s.len() as int);
}

/// An evaluation command passes the strict checks.
proof fn lemma_eval_part(value: Seq<char>)
    requires
        value.len() > 0,
        if value[0] == '#' {
            signed_digits(value, 1)
        } else {
            signed_fraction(value)
        },
        unbracketed(value),
    ensures
        good_part("[%eval "@ + value + "]"@, "eval"@, value),
{
    reveal_strlit("[%eval ");
    reveal_strlit("]");
    reveal_strlit("eval");
    reveal_strlit("clk");
    let part = "[%eval "@ + value + "]"@;
    assert("[%eval "@ == seq!['[', '%'] + "eval"@ + seq![' ']);
    assert("]"@ == seq![']']);
    assert(part == command("eval"@, value));
    let n = part.len() as int;
    assert(part.take(7) == "[%eval "@);
    assert(part[n - 1] == ']');
    assert(part.subrange(7, n - 1) == value);
    assert("eval"@.len() != "clk"@.len());
}

proof fn lemma_unbracketed_dec(n: int)
    ensures
        unbracketed(dec(n)),
{
    let digits = dec_nat(
        if n < 0 {
            (-n) as nat
        } else {
            n as nat
        },
    );
    lemma_dec_nat(
        if n < 0 {
            (-n) as nat
        } else {
            n as nat
        },
    );
    assert forall|j: int| 0 <= j < dec(n).len() implies #[trigger] dec(n)[j] != ']' by {
        if n < 0 {
            if j > 0 {
                assert(dec(n)[j] == digits[j - 1]);
                assert(ascii_digit(digits[j - 1]));
            }
        } else {
            assert(ascii_digit(digits[j]));
        }
    }
}

proof fn lemma_unbracketed_pawns(cp: int)
    ensures
        unbracketed(pawns(cp)),
{
    let n = if cp < 0 {
        -cp
    } else {
        cp
    };
    let whole = dec_nat((n / 100) as nat);
    let start: int = if cp < 0 {
        1
    } else {
        0
    };
    lemma_dec_nat((n / 100) as nat);
    let s = pawns(cp);
    assert forall|j: int| 0 <= j < s.len() implies #[trigger] s[j] != ']' by {
        if start <= j < start + whole.len() {
            assert(s[j] == whole[j - start]);
            assert(ascii_digit(whole[j - start]));
        }
    }
}

/// The evaluation of a move passes the strict checks.
proof fn lemma_eval_tag(ann: MoveAnnotation) -> (value: Seq<char>)
    requires
        eval_tag(ann) is Some,
    ensures
        good_part(eval_tag(ann)->0, "eval"@, value),
{
    match ann.eval_mate {
        Some(mate) => {
            let value = seq!['#'] + dec(mate as int);
            reveal_strlit("[%eval ");
            reveal_strlit("[%eval #");
            lemma_mate_form(mate as int);
            lemma_unbracketed_dec(mate as int);
            assert(unbracketed(value)) by {
                assert forall|j: int| 0 <= j < value.len() implies #[trigger] value[j] != ']' by {
                    if j > 0 {
                        assert(value[j] == dec(mate as int)[j - 1]);
                    }
                }
            }
            lemma_eval_part(value);
            assert("[%eval #"@ == "[%eval "@ + seq!['#']);
            assert("[%eval #"@ + dec(mate as int) + "]"@ == "[%eval "@ + value + "]"@);
            value
        },
        None => {
            let cp = ann.eval_centipawns->0;
            let value = pawns(cp as int);
            lemma_pawns_form(cp as int);
            lemma_unbracketed_pawns(cp as int);
            lemma_eval_part(value);
            value
        },
    }
}

/// A clock reading in the standard form holds only digits and colons.
proof fn lemma_clock_chars(clock: Seq<char>)
    requires
        clock_command(clock_tag(clock)),
    ensures
        forall|j: int| 0 <= j < clock.len() ==> decimal(#[trigger] clock[j]) || clock[j] == ':',
{
    reveal_strlit("[%clk ");
    reveal_strlit("]");
    let s = clock_tag(clock);
    lemma_run_end(s, 6, Class::Decimal);
    let h = run_end(s, 6, Class::Decimal);
    assert forall|j: int| 0 <= j < clock.len() implies decimal(#[trigger] clock[j]) || clock[j]
        == ':' by {
        assert(s[6 + j] == clock[j]);
        if 6 + j < h {
            assert(in_class(Class::Decimal, s[6 + j]));
        } else {
            let q = 6 + j;
            assert(q == h || q == h + 1 || q == h + 2 || q == h + 3 || q == h + 4 || q == h + 5);
        }
    }
}

/// A clock reading in the standard form passes the strict checks.
proof fn lemma_clock_part(clock: Seq<char>)
    requires
        clock_command(clock_tag(clock)),
    ensures
        good_part(clock_tag(clock), "clk"@, clock),
{
    reveal_strlit("[%clk ");
    reveal_strlit("]");
    reveal_strlit("eval");
    reveal_strlit("clk");
    lemma_clock_chars(clock);
    assert("[%clk "@ == seq!['[', '%'] + "clk"@ + seq![' ']);
    assert("]"@ == seq![']']);
    assert(clock_tag(clock) == command("clk"@, clock));
    assert(unbracketed(clock));
    assert("eval"@.len() != "clk"@.len());
}

/// A comment that the strict checks have nothing to say about.
spec fn strict_comment(t: Seq<char>) -> bool {
    &&& closed_comment(t)
    &&& single_line(t)
    &&& comment_faults(trim(t.subrange(1, t.len() - 1))) == Seq::<Fault>::empty()
}

proof fn lemma_single_line_clock(clock: Seq<char>)
    requires
        clock_command(clock_tag(clock)),
    ensures
        single_line(clock),
        forall|j: int| 0 <= j < clock.len() ==> #[trigger] clock[j] != '}' && clock[j] != '"',
{
    lemma_clock_chars(clock);
    assert forall|j: int| 0 <= j < clock.len() implies #[trigger] clock[j] != '\n' && clock[j]
        != '\r' && clock[j] != '}' && clock[j] != '"' by {
        assert(decimal(clock[j]) || clock[j] == ':');
    }
}

/// Digits, signs, dots and brackets stay on one line.
proof fn lemma_single_line_dec(n: int)
    ensures
        single_line(dec(n)),
{
    let digits = dec_nat(
        if n < 0 {
            (-n) as nat
        } else {
            n as nat
        },
    );
    lemma_dec_nat(
        if n < 0 {
            (-n) as nat
        } else {
            n as nat
        },
    );
    assert forall|j: int| 0 <= j < dec(n).len() implies #[trigger] dec(n)[j] != '\n' && dec(n)[j]
        != '\r' by {
        if n < 0 {
            if j > 0 {
                assert(dec(n)[j] == digits[j - 1]);
                assert(ascii_digit(digits[j - 1]));
            }
        } else {
            assert(ascii_digit(digits[j]));
        }
    }
}

proof fn lemma_single_line_pawns(cp: int)
    ensures
        single_line(pawns(cp)),
{
    let n = if cp < 0 {
        -cp
    } else {
        cp
    };
    let whole = dec_nat((n / 100) as nat);
    let start: int = if cp < 0 {
        1
    } else {
        0
    };
    lemma_dec_nat((n / 100) as nat);
    let s = pawns(cp);
    assert forall|j: int| 0 <= j < s.len() implies #[trigger] s[j] != '\n' && s[j] != '\r' by {
        if start <= j < start + whole.len() {
            assert(s[j] == whole[j - start]);
            assert(ascii_digit(whole[j - start]));
        }
    }
}

proof fn lemma_single_line_eval(ann: MoveAnnotation)
    requires
        eval_tag(ann) is Some,
    ensures
        single_line(eval_tag(ann)->0),
{
    reveal_strlit("[%eval #");
    reveal_strlit("[%eval ");
    reveal_strlit("]");
    assert(single_line("[%eval #"@));
    assert(single_line("[%eval "@));
    assert(single_line("]"@));
    match ann.eval_mate {
        Some(mate) => {
            lemma_single_line_dec(mate as int);
            lemma_single_line_add("[%eval #"@, dec(mate as int));
            lemma_single_line_add("[%eval #"@ + dec(mate as int), "]"@);
        },
        None => {
            let cp = ann.eval_centipawns->0;
            lemma_single_line_pawns(cp as int);
            lemma_single_line_add("[%eval "@, pawns(cp as int));
            lemma_single_line_add("[%eval "@ + pawns(cp as int), "]"@);
        },
    }
}

proof fn lemma_single_line_clock_tag(clock: Seq<char>)
    requires
        clock_command(clock_tag(clock)),
    ensures
        single_line(clock_tag(clock)),
{
    reveal_strlit("[%clk ");
    reveal_strlit("]");
    lemma_single_line_clock(clock);
    assert(single_line("[%clk "@));
    assert(single_line("]"@));
    lemma_single_line_add("[%clk "@, clock);
    lemma_single_line_add("[%clk "@ + clock, "]"@);
}

/// A text that can be the content of a comment.
spec fn strict_content(inner: Seq<char>) -> bool {
    &&& inner.len() > 0
    &&& inner[0] == '['
    &&& inner.last() == ']'
    &&& single_line(inner)
    &&& comment_faults(inner) == Seq::<Fault>::empty()
}

proof fn lemma_one_part(part: Seq<char>, kind: Seq<char>, value: Seq<char>)
    requires
        good_part(part, kind, value),
        single_line(part),
    ensures
        strict_content(join(seq![part], seq![' '])),
{
    lemma_one_command(part, kind, value);
}

proof fn lemma_two_parts(
    p: Seq<char>,
    k: Seq<char>,
    v: Seq<char>,
    p2: Seq<char>,
    k2: Seq<char>,
    v2: Seq<char>,
)
    requires
        good_part(p, k, v),
        good_part(p2, k2, v2),
        single_line(p),
        single_line(p2),
    ensures
        strict_content(join(seq![p, p2], seq![' '])),
{
    let s = p + seq![' '] + p2;
    lemma_join_two(p, p2);
    assert(comment_faults(s) == Seq::<Fault>::empty()) by {
        lemma_two_commands(p, k, v, p2, k2, v2);
    }
    assert(single_line(s)) by {
        assert(single_line(seq![' ']));
        lemma_single_line_add(p, seq![' ']);
        lemma_single_line_add(p + seq![' '], p2);
    }
    lemma_command_ends(k, v);
    lemma_command_ends(k2, v2);
    assert(s[0] == p[0]);
    assert(s.last() == p2.last());
}

proof fn lemma_command_ends(kind: Seq<char>, value: Seq<char>)
    ensures
        command(kind, value).len() > 0,
        command(kind, value)[0] == '[',
        command(kind, value).last() == ']',
{
}

proof fn lemma_join_two(a: Seq<char>, b: Seq<char>)
    ensures
        join(seq![a, b], seq![' ']) == a + seq![' '] + b,
{
    reveal_with_fuel(join, 2);
    assert(seq![a, b].drop_last() == seq![a]);
}

/// The annotations of a move as one text.
proof fn lemma_parts(ann: MoveAnnotation)
    requires
        annotation_parts(ann).len() > 0,
        strict_clock(ann.clock),
    ensures
        strict_content(join(annotation_parts(ann), seq![' '])),
{
    let parts = annotation_parts(ann);
    match (eval_tag(ann), ann.clock) {
        (Some(p), Some(clock)) => {
            let value = lemma_eval_tag(ann);
            lemma_single_line_eval(ann);
            lemma_clock_part(clock@);
            lemma_single_line_clock_tag(clock@);
            assert(parts == seq![p, clock_tag(clock@)]);
            lemma_two_parts(p, "eval"@, value, clock_tag(clock@), "clk"@, clock@);
        },
        (Some(p), None) => {
            let value = lemma_eval_tag(ann);
            lemma_single_line_eval(ann);
            assert(parts == seq![p]);
            lemma_one_part(p, "eval"@, value);
        },
        (None, Some(clock)) => {
            lemma_clock_part(clock@);
            lemma_single_line_clock_tag(clock@);
            assert(parts == seq![clock_tag(clock@)]);
            lemma_one_part(clock_tag(clock@), "clk"@, clock@);
        },
        (None, None) => {
            assert(parts.len() == 0);
        },
    }
}

/// The comment of a move passes the strict checks.
proof fn lemma_strict_comment(ann: MoveAnnotation)
    requires
        annotation_parts(ann).len() > 0,
        strict_clock(ann.clock),
    ensures
        comment_tokens(ann, true).len() == 1,
        strict_comment(comment_tokens(ann, true)[0]),
{
    reveal_strlit("{ ");
    reveal_strlit(" }");
    match ann.clock {
        Some(clock) => lemma_single_line_clock(clock@),
        None => {},
    }
    lemma_comment_token(ann);
    lemma_parts(ann);
    let inner = join(annotation_parts(ann), seq![' ']);
    let t = comment_tokens(ann, true)[0];
    assert(t == "{ "@ + inner + " }"@);
    assert(single_line("{ "@));
    assert(single_line(" }"@));
    lemma_single_line_add("{ "@, inner);
    lemma_single_line_add("{ "@ + inner, " }"@);
    let content = t.subrange(1, t.len() - 1);
    assert(content == seq![' '] + inner + seq![' ']);
    lemma_trim_blanks(inner);
}

proof fn lemma_trim_blanks(s: Seq<char>)
    requires
        s.len() > 0,
        !white_space(s[0]),
        !white_space(s.last()),
    ensures
        trim(seq![' '] + s + seq![' ']) == s,
{
    let t = seq![' '] + s + seq![' '];
    assert(t[0] == ' ');
    assert(t[1] == s[0]);
    assert(run_end(t, 1, Class::Space) == 1);
    assert(run_end(t, 0, Class::Space) == 1);
    let u = t.skip(1);
    assert(u == s + seq![' ']);
    let n = u.len() as int;
    assert(u[n - 1] == ' ');
    assert(u[n - 2] == s.last());
    assert(run_start(u, n - 1, Class::Space) == n - 1);
    assert(run_start(u, n, Class::Space) == n - 1);
    assert(u.take(n - 1) == s);
}

// ---------------------------------------------------------------------------
// Movetext
// ---------------------------------------------------------------------------

/// A token that the strict checks take as it is.
spec fn strict_token(t: Seq<char>) -> bool {
    plain_token(t) || strict_comment(t)
}

/// What a token adds to the movetext items.
spec fn token_items(t: Seq<char>) -> Seq<Item> {
    if comment(t) || drop_quality(t).len() == 0 {
        seq![]
    } else {
        seq![item_of(drop_quality(t))]
    }
}

/// What some tokens add to the movetext items.
spec fn items_in(tokens: Seq<Seq<char>>) -> Seq<Item>
    decreases tokens.len(),
{
    if tokens.len() == 0 {
        seq![]
    } else {
        items_in(tokens.drop_last()) + token_items(tokens.last())
    }
}

proof fn lemma_items_in_add(a: Seq<Seq<char>>, b: Seq<Seq<char>>)
    ensures
        items_in(a + b) == items_in(a) + items_in(b),
    decreases b.len(),
{
    if b.len() == 0 {
        assert(a + b == a);
        assert(items_in(a) + seq![] == items_in(a));
    } else {
        lemma_items_in_add(a, b.drop_last());
        assert((a + b).drop_last() == a + b.drop_last());
        assert((a + b).last() == b.last());
        assert(items_in(a + b) == items_in(a) + items_in(b));
    }
}

proof fn lemma_items_in_one(t: Seq<char>)
    ensures
        items_in(seq![t]) == token_items(t),
{
    reveal_with_fuel(items_in, 2);
    assert(seq![t].drop_last() == Seq::<Seq<char>>::empty());
    assert(Seq::<Item>::empty() + token_items(t) == token_items(t));
}

/// A text that goes on at `i` with a piece and a rest.
proof fn lemma_goes_on_with(s: Seq<char>, i: int, piece: Seq<char>, rest: Seq<char>)
    requires
        0 <= i <= s.len(),
        s.skip(i) == piece + rest,
    ensures
        i + piece.len() <= s.len(),
        s.subrange(i, i + piece.len()) == piece,
        s.skip(i + piece.len()) == rest,
        forall|j: int| 0 <= j < piece.len() ==> #[trigger] piece[j] == s[i + j],
{
    let n = piece.len() as int;
    assert(s.skip(i).len() == s.len() - i);
    assert forall|j: int| 0 <= j < n implies #[trigger] piece[j] == s[i + j] by {
        assert(s.skip(i)[j] == s[i + j]);
        assert((piece + rest)[j] == piece[j]);
    }
    assert(s.subrange(i, i + n) == piece);
    assert(s.skip(i + n) == s.skip(i).skip(n));
    assert((piece + rest).skip(n) == rest);
}

/// Cutting up laid-out tokens finds nothing wrong, and gives what the tokens
/// stand for.
proof fn lemma_scan(s: Seq<char>, i: int, tokens: Seq<Seq<char>>, seps: Seq<char>, k: int)
    requires
        0 <= i <= s.len(),
        0 <= k < tokens.len() == seps.len(),
        s.skip(i) == tokens[k] + (spread(tokens, seps, k + 1) + seq!['\n']),
        separators(seps),
        forall|j: int| 0 <= j < tokens.len() ==> strict_token(#[trigger] tokens[j]),
    ensures
        scan_items(s, i, false) == (ItemScan { items: items_in(tokens.skip(k)), errors: seq![] }),
    decreases tokens.len() - k,
{
    let t = tokens[k];
    let n = t.len() as int;
    let rest = spread(tokens, seps, k + 1) + seq!['\n'];
    let e = i + n;
    lemma_goes_on_with(s, i, t, rest);
    assert(strict_token(t));
    assert(s.skip(e).len() == s.len() - e);
    assert(s[e] == s.skip(e)[0]);
    assert(tokens.skip(k) == seq![t] + tokens.skip(k + 1));
    lemma_items_in_add(seq![t], tokens.skip(k + 1));
    lemma_items_in_one(t);

    // What follows the token.
    let after = scan_items(s, e, false);
    if k + 1 < tokens.len() {
        let more = tokens[k + 1] + (spread(tokens, seps, k + 2) + seq!['\n']);
        assert(rest == seq![seps[k + 1]] + more);
        assert(seps[k + 1] == ' ' || seps[k + 1] == '\n');
        assert(s.skip(e + 1) == s.skip(e).skip(1));
        assert(rest.skip(1) == more);
        lemma_scan(s, e + 1, tokens, seps, k + 1);
        assert(scan_items(s, e, false) == scan_items(s, e + 1, false));
    } else {
        assert(rest == seq!['\n']);
        assert(s.len() == e + 1);
        assert(scan_items(s, e + 1, false) == (ItemScan { items: seq![], errors: seq![] }));
        assert(scan_items(s, e, false) == scan_items(s, e + 1, false));
        assert(tokens.skip(k + 1) == Seq::<Seq<char>>::empty());
    }
    assert(after == (ItemScan { items: items_in(tokens.skip(k + 1)), errors: seq![] }));
    assert(white_space(s[e]));

    // The token itself.
    assert(t[0] == s[i + 0]);
    if comment(t) {
        if plain_token(t) {
            assert(plain_char(t[0]));
        }
        assert forall|j: int| i + 1 <= j < e - 1 implies in_class(
            Class::Not('}'),
            #[trigger] s[j],
        ) by {
            assert(t[j - i] == s[i + (j - i)]);
        }
        assert(t[n - 1] == s[i + (n - 1)]);
        assert(t.last() == t[n - 1]);
        lemma_run_end_is(s, i + 1, Class::Not('}'), e - 1);
        assert(s.subrange(i, e).subrange(1, n - 1) == s.subrange(i + 1, e - 1));
        assert(scan_items(s, i, false).errors == Seq::<Fault>::empty() + after.errors);
        assert(Seq::<Fault>::empty() + after.errors == Seq::<Fault>::empty());
        assert(Seq::<Item>::empty() + after.items == after.items);
    } else {
        assert(plain_token(t));
        assert(plain_char(t[0]));
        assert forall|j: int| i <= j < e implies in_class(Class::Solid, #[trigger] s[j]) by {
            assert(plain_char(t[j - i]));
            assert(t[j - i] == s[i + (j - i)]);
        }
        lemma_run_end_is(s, i, Class::Solid, e);
        if drop_quality(t).len() == 0 {
            assert(Seq::<Item>::empty() + after.items == after.items);
        }
    }
}

proof fn lemma_number_of_dec(n: nat)
    ensures
        number(dec_nat(n)) == n,
    decreases n,
{
    reveal_with_fuel(number, 2);
    if n < 10 {
        let s = dec_nat(n);
        assert(s.drop_last() == Seq::<char>::empty());
        assert(digit_value(s.last()) == n);
    } else {
        lemma_number_of_dec(n / 10);
        let s = dec_nat(n);
        assert(s.drop_last() == dec_nat(n / 10));
        assert(digit_value(s.last()) == n % 10);
    }
}

/// A move number token is read as the number it was written from.
proof fn lemma_number_item(n: nat, dots: Seq<char>)
    requires
        n <= u32::MAX,
        dots == "."@ || dots == "..."@,
    ensures
        token_items(dec_nat(n) + dots) == seq![
            Item::Number { number: n as u32, dots: dots.len() as usize },
        ],
        plain_token(dec_nat(n) + dots),
{
    reveal_strlit(".");
    reveal_strlit("...");
    lemma_number_token(n, dots);
    lemma_dec_nat(n);
    lemma_number_of_dec(n);
    let digits = dec_nat(n);
    let d = digits.len() as int;
    let t = digits + dots;
    assert(t[t.len() - 1] == '.');
    assert(drop_quality(t) == t);
    assert(t.skip(0) == digits + dots);
    lemma_digits_run(t, 0, digits, n, dots);
    assert(t[d] == '.');
    lemma_run_end_is(t, d, Class::Only('.'), t.len() as int);
    assert(t.take(d) == digits);
    assert(all_in(digits, Class::AsciiDigit));
}

proof fn lemma_move_item(san: Seq<char>, ann: MoveAnnotation)
    requires
        written_san(san),
        glyph(ann.classification),
    ensures
        token_items(move_token(san, ann)) == seq![Item::San(san)],
        plain_token(move_token(san, ann)),
{
    lemma_move_token(san, ann);
    lemma_written_san(san);
    assert(!decimal(san[0]));
    assert(run_end(san, 0, Class::Decimal) == 0);
}

proof fn lemma_marker_item(r: GameResult)
    ensures
        token_items(result_marker(r)) == seq![Item::Result(result_marker(r))],
        plain_token(result_marker(r)),
{
    lemma_marker_token(r);
    reveal_strlit("1-0");
    reveal_strlit("0-1");
    reveal_strlit("1/2-1/2");
    reveal_strlit("*");
    let t = result_marker(r);
    assert(drop_quality(t) == t);
    reveal_with_fuel(run_end, 3);
    let d = run_end(t, 0, Class::Decimal);
    assert(d == if r == GameResult::Ongoing {
        0int
    } else {
        1
    });
    if d == 1 {
        assert(t[1] != '.');
        assert(run_end(t, 1, Class::Only('.')) == 1);
    }
}

/// What ply `i` of a game adds to the movetext items.
spec fn ply_items(side: Side, first: u32, sans: Seq<Seq<char>>, i: int) -> Seq<Item> {
    let number = move_number(side, first, i) as u32;
    (if white_ply(side, i) {
        seq![Item::Number { number, dots: 1 }]
    } else if i == 0 {
        seq![Item::Number { number, dots: 3 }]
    } else {
        seq![]
    }) + seq![Item::San(sans[i])]
}

/// The movetext items of the first `n` plies.
spec fn game_items(side: Side, first: u32, sans: Seq<Seq<char>>, n: int) -> Seq<Item>
    decreases n,
{
    if n <= 0 {
        seq![]
    } else {
        game_items(side, first, sans, n - 1) + ply_items(side, first, sans, n - 1)
    }
}

/// The tokens of a ply stand for its items.
proof fn lemma_ply_items(
    side: Side,
    first: u32,
    sans: Seq<Seq<char>>,
    ann: MoveAnnotation,
    analysis: bool,
    i: int,
)
    requires
        0 <= i,
        written_san(sans[i]),
        glyph(ann.classification),
        analysis ==> strict_clock(ann.clock),
    ensures
        items_in(ply_tokens(side, first, i, sans[i], ann, analysis)) == ply_items(
            side,
            first,
            sans,
            i,
        ),
        forall|k: int|
            0 <= k < ply_tokens(side, first, i, sans[i], ann, analysis).len() ==> strict_token(
                #[trigger] ply_tokens(side, first, i, sans[i], ann, analysis)[k],
            ),
{
    reveal_strlit(".");
    reveal_strlit("...");
    let san = sans[i];
    let n = move_number(side, first, i);
    let numbers = number_tokens(side, first, i);
    let token = move_token(san, ann);
    let notes = comment_tokens(ann, analysis);
    let all = ply_tokens(side, first, i, san, ann, analysis);
    lemma_number_item(n, "."@);
    lemma_number_item(n, "..."@);
    lemma_items_in_one(dec_nat(n) + "."@);
    lemma_items_in_one(dec_nat(n) + "..."@);
    lemma_move_item(san, ann);
    lemma_items_in_one(token);
    if notes.len() > 0 {
        lemma_strict_comment(ann);
        lemma_items_in_one(notes[0]);
        assert(notes == seq![notes[0]]);
    }
    lemma_items_in_add(numbers, seq![token]);
    lemma_items_in_add(numbers + seq![token], notes);
    assert(items_in(notes) == Seq::<Item>::empty());
    assert(items_in(all) == ply_items(side, first, sans, i));
    assert forall|k: int| 0 <= k < all.len() implies strict_token(#[trigger] all[k]) by {
        let m = numbers.len() as int;
        if k < m {
            assert(all[k] == numbers[k]);
        } else if k == m {
            assert(all[k] == token);
        } else {
            assert(all[k] == notes[k - m - 1]);
        }
    }
}

proof fn lemma_game_items(
    side: Side,
    first: u32,
    sans: Seq<Seq<char>>,
    moves: Seq<MoveAnnotation>,
    analysis: bool,
    n: int,
)
    requires
        0 <= n <= sans.len() == moves.len(),
        forall|i: int| 0 <= i < sans.len() ==> written_san(#[trigger] sans[i]),
        strict_annotations(moves, analysis),
    ensures
        items_in(game_tokens(side, first, sans, moves, analysis, n)) == game_items(
            side,
            first,
            sans,
            n,
        ),
        forall|k: int|
            0 <= k < game_tokens(side, first, sans, moves, analysis, n).len() ==> strict_token(
                #[trigger] game_tokens(side, first, sans, moves, analysis, n)[k],
            ),
    decreases n,
{
    if n > 0 {
        lemma_game_items(side, first, sans, moves, analysis, n - 1);
        let before = game_tokens(side, first, sans, moves, analysis, n - 1);
        let more = ply_tokens(side, first, n - 1, sans[n - 1], moves[n - 1], analysis);
        let all = game_tokens(side, first, sans, moves, analysis, n);
        assert(written_san(sans[n - 1]));
        assert(glyph(moves[n - 1].classification));
        lemma_ply_items(side, first, sans, moves[n - 1], analysis, n - 1);
        lemma_items_in_add(before, more);
        assert forall|k: int| 0 <= k < all.len() implies strict_token(#[trigger] all[k]) by {
            if k < before.len() {
                assert(all[k] == before[k]);
            } else {
                assert(all[k] == more[k - before.len()]);
            }
        }
    }
}

// ---------------------------------------------------------------------------
// Replay
// ---------------------------------------------------------------------------

/// The replay of a written game before ply `i`, in move number `number`.
spec fn replay_at(fens: Seq<Seq<char>>, sans: Seq<Seq<char>>, number: u32, i: int) -> Replay {
    Replay {
        fen: fens[i],
        fullmove: number,
        ply: i,
        pending: None,
        moves: sans.take(i),
        marker: None,
        errors: seq![],
        halted: false,
    }
}

/// The sides take turns.
proof fn lemma_turns(fens: Seq<Seq<char>>, ms: Seq<Seq<char>>, sans: Seq<Seq<char>>, i: int)
    requires
        written_line(fens, ms, sans),
        0 <= i <= sans.len(),
    ensures
        side_to_move(fens[i]) == if white_ply(side_to_move(fens[0]), i) {
            Side::White
        } else {
            Side::Black
        },
    decreases i,
{
    if i > 0 {
        lemma_turns(fens, ms, sans, i - 1);
        assert(written_ply(fens[i - 1], ms[i - 1], fens[i], sans[i - 1]));
    }
}

/// A SAN with its check mark splits into the two.
proof fn lemma_split_san(bare: Seq<char>, next: Seq<char>)
    requires
        canonical_san(bare),
    ensures
        bare_move(bare + check_mark(next)) == bare,
        move_mark(bare + check_mark(next)) == check_mark(next),
        san_form(bare),
{
    reveal_strlit("#");
    reveal_strlit("+");
    reveal_strlit("");
    lemma_canonical_san(bare);
    let t = bare + check_mark(next);
    if check_mark(next).len() > 0 {
        assert(t.drop_last() == bare);
        assert(t.last() == check_mark(next)[0]);
    } else {
        assert(t == bare);
    }
}

/// Black's moves end the move they belong to.
proof fn lemma_next_move_number(side: Side, first: u32, i: int)
    requires
        0 <= i < 0xffff_fffe,
    ensures
        move_number(side, first, i) <= u32::MAX,
        move_number(side, first, i + 1) == if white_ply(side, i) {
            move_number(side, first, i)
        } else {
            next_number(move_number(side, first, i) as u32) as nat
        },
{
    let plies = if side == Side::White {
        i
    } else {
        i + 1
    };
    lemma_small_mod(plies as nat, 0x1_0000_0000);
    lemma_small_mod((plies + 1) as nat, 0x1_0000_0000);
    lemma_wraps(first + plies / 2);
    assert((plies + 1) / 2 == if plies % 2 == 0 {
        plies / 2
    } else {
        plies / 2 + 1
    });
}

/// Counting on in 32-bit arithmetic.
proof fn lemma_wraps(x: int)
    requires
        0 <= x < 0x1_ffff_ffff,
    ensures
        0 <= x % 0x1_0000_0000 <= u32::MAX,
        (x + 1) % 0x1_0000_0000 == next_number((x % 0x1_0000_0000) as u32),
{
    let m: int = 0x1_0000_0000;
    if x + 1 < m {
        lemma_small_mod(x as nat, m as nat);
        lemma_small_mod((x + 1) as nat, m as nat);
    } else {
        assert((x + 1) % m == x + 1 - m);
        assert(x % m == if x < m {
            x
        } else {
            x - m
        });
    }
}

/// The moves of a written game carry the check mark that the position after them
/// calls for, behind the canonical SAN in the position before them.
pub proof fn law_written_marks_follow_the_position(
    fens: Seq<Seq<char>>,
    ms: Seq<Seq<char>>,
    sans: Seq<Seq<char>>,
    i: int,
)
    requires
        written_line(fens, ms, sans),
        0 <= i < sans.len(),
    ensures
        bare_move(sans[i]) == move_san(fens[i], ms[i]),
        move_mark(sans[i]) == check_mark(fens[i + 1]),
        sans[i].last() == '#' <==> in_checkmate(fens[i + 1]),
        sans[i].last() == '+' <==> !in_checkmate(fens[i + 1]) && in_check(fens[i + 1]),
{
    reveal_strlit("#");
    reveal_strlit("+");
    reveal_strlit("");
    assert(written_ply(fens[i], ms[i], fens[i + 1], sans[i]));
    let bare = move_san(fens[i], ms[i]);
    lemma_split_san(bare, fens[i + 1]);
    lemma_canonical_san(bare);
    if !in_checkmate(fens[i + 1]) && !in_check(fens[i + 1]) {
        assert(sans[i] =~= bare);
    }
}

/// Whether `san` is the canonical SAN of ply `i` of the game that `moves` play
/// from a position, with `#` behind it exactly when the move mates, `+` exactly
/// when it checks and does not mate, and nothing otherwise.
pub open spec fn recomputed_ply(
    start: Seq<char>,
    moves: Seq<Seq<char>>,
    i: int,
    san: Seq<char>,
) -> bool {
    &&& replayed(start, moves.take(i), 0) matches Ok(fen)
    &&& played(fen, moves[i]) matches Ok((m, next))
    &&& canonical_san(move_san(fen, m))
    &&& bare_move(san) == move_san(fen, m)
    &&& san == move_san(fen, m) + move_mark(san)
    &&& san.last() == '#' <==> in_checkmate(next)
    &&& san.last() == '+' <==> !in_checkmate(next) && in_check(next)
}

proof fn lemma_played_line_replays(
    fens: Seq<Seq<char>>,
    ms: Seq<Seq<char>>,
    moves: Seq<Seq<char>>,
    sans: Seq<Seq<char>>,
    i: int,
    n: int,
)
    requires
        written_line(fens, ms, sans),
        played_line(fens, ms, moves, moves.len() as int),
        sans.len() == moves.len(),
        0 <= i <= n <= moves.len(),
    ensures
        replayed(fens[i], moves.take(n), i) == Ok::<Seq<char>, PgnErrorView>(fens[n]),
        written_sans(fens[i], moves, i) == Ok::<Seq<Seq<char>>, PgnErrorView>(sans.skip(i)),
    decreases moves.len() - i,
{
    if i < moves.len() {
        if i < n {
            lemma_played_line_replays(fens, ms, moves, sans, i + 1, n);
            assert(moves.take(n)[i] == moves[i]);
        } else {
            lemma_played_line_replays(fens, ms, moves, sans, i + 1, i + 1);
        }
        assert(played(fens[i], moves[i]) == Ok::<(Seq<char>, Seq<char>), MoveFault>(
            (ms[i], fens[i + 1]),
        ));
        assert(written_ply(fens[i], ms[i], fens[i + 1], sans[i]));
        assert(seq![sans[i]] + sans.skip(i + 1) =~= sans.skip(i));
    } else {
        assert(sans.skip(i) =~= seq![]);
    }
}

/// Check marks are recomputed: moves that differ from some others only in the
/// one check mark that each may carry are written alike, one SAN for each, and
/// each SAN carries the mark that the position after its move calls for.
pub proof fn law_check_marks_are_recomputed(
    start: Seq<char>,
    moves: Seq<Seq<char>>,
    other: Seq<Seq<char>>,
    sans: Seq<Seq<char>>,
)
    requires
        recomputed(start, moves, sans),
        same_but_marks(moves, other),
    ensures
        sans.len() == moves.len(),
        written_sans(start, moves, 0) == Ok::<Seq<Seq<char>>, PgnErrorView>(sans),
        written_sans(start, other, 0) == Ok::<Seq<Seq<char>>, PgnErrorView>(sans),
        forall|i: int|
            0 <= i < moves.len() ==> recomputed_ply(start, moves, i, #[trigger] sans[i]),
{
    let (fens, ms) = choose|fens: Seq<Seq<char>>, ms: Seq<Seq<char>>| #[trigger]
        written_line(fens, ms, sans) && fens[0] == start && played_line(
            fens,
            ms,
            moves,
            moves.len() as int,
        );
    lemma_played_line_replays(fens, ms, moves, sans, 0, 0);
    assert(sans.skip(0) =~= sans);
    lemma_marks_ignored(fens, ms, moves);
    assert forall|i: int| 0 <= i < moves.len() implies recomputed_ply(
        start,
        moves,
        i,
        #[trigger] sans[i],
    ) by {
        lemma_played_line_replays(fens, ms, moves, sans, 0, i);
        law_written_marks_follow_the_position(fens, ms, sans, i);
        assert(played(fens[i], moves[i]) == Ok::<(Seq<char>, Seq<char>), MoveFault>(
            (ms[i], fens[i + 1]),
        ));
        assert(written_ply(fens[i], ms[i], fens[i + 1], sans[i]));
    }
}

/// A move is replayed without complaint, in move number `here`, when the number
/// before it, if there is one, is right.
proof fn lemma_token_replays(
    fens: Seq<Seq<char>>,
    ms: Seq<Seq<char>>,
    sans: Seq<Seq<char>>,
    here: u32,
    i: int,
    pending: Option<(u32, usize)>,
)
    requires
        written_line(fens, ms, sans),
        0 <= i < sans.len() < 0xffff_ffff,
        match pending {
            Some((number, dots)) => number == here && dots == (if side_to_move(fens[i])
                == Side::White {
                1usize
            } else {
                3usize
            }),
            None => side_to_move(fens[i]) == Side::Black,
        },
    ensures
        replay_token(Replay { pending, ..replay_at(fens, sans, here, i) }, sans[i]) == replay_at(
            fens,
            sans,
            if side_to_move(fens[i]) == Side::Black {
                next_number(here)
            } else {
                here
            },
            i + 1,
        ),
{
    let r = Replay { pending, ..replay_at(fens, sans, here, i) };
    assert(written_ply(fens[i], ms[i], fens[i + 1], sans[i]));
    let bare = move_san(fens[i], ms[i]);
    let mark = check_mark(fens[i + 1]);
    lemma_split_san(bare, fens[i + 1]);
    let none = Seq::<Fault>::empty();
    assert(number_faults(i as usize, pending, side_to_move(fens[i]), here) == none);
    assert(writing_faults(i as usize, sans[i], bare, mark) == none);
    assert(none + none == none);
    assert(sans.take(i + 1) == sans.take(i).push(sans[i]));
    let done = replay_token(r, sans[i]);
    assert(done.errors == none);
    assert(done.moves == sans.take(i + 1));
}

/// The items of a ply are replayed without complaint.
proof fn lemma_ply_replays(
    fens: Seq<Seq<char>>,
    ms: Seq<Seq<char>>,
    sans: Seq<Seq<char>>,
    side: Side,
    first: u32,
    all: Seq<Item>,
    at: int,
    i: int,
)
    requires
        written_line(fens, ms, sans),
        0 <= i < sans.len() < 0xffff_ffff,
        side == side_to_move(fens[0]),
        0 <= at,
        at + ply_items(side, first, sans, i).len() <= all.len(),
        forall|j: int|
            0 <= j < ply_items(side, first, sans, i).len() ==> all[at + j] == #[trigger] ply_items(
                side,
                first,
                sans,
                i,
            )[j],
    ensures
        replay_from(replay_at(fens, sans, move_number(side, first, i) as u32, i), all, at)
            == replay_from(
            replay_at(fens, sans, move_number(side, first, i + 1) as u32, i + 1),
            all,
            at + ply_items(side, first, sans, i).len(),
        ),
{
    let number = move_number(side, first, i) as u32;
    let own = ply_items(side, first, sans, i);
    lemma_turns(fens, ms, sans, i);
    lemma_next_move_number(side, first, i);
    assert(all[at + 0] == own[0]);
    if white_ply(side, i) || i == 0 {
        let dots: usize = if white_ply(side, i) {
            1
        } else {
            3
        };
        assert(own.len() == 2);
        assert(own[0] == (Item::Number { number, dots }));
        assert(own[1] == Item::San(sans[i]));
        assert(all[at + 1] == own[1]);
        lemma_numbered_ply_replays(fens, ms, sans, number, dots, all, at, i);
    } else {
        assert(own.len() == 1);
        assert(own[0] == Item::San(sans[i]));
        lemma_token_replays(fens, ms, sans, number, i, None);
        let r = replay_at(fens, sans, number, i);
        assert(replay_from(r, all, at) == replay_from(replay_step(r, all, at), all, at + 1));
    }
}

/// A move number and its move are replayed without complaint.
proof fn lemma_numbered_ply_replays(
    fens: Seq<Seq<char>>,
    ms: Seq<Seq<char>>,
    sans: Seq<Seq<char>>,
    number: u32,
    dots: usize,
    all: Seq<Item>,
    at: int,
    i: int,
)
    requires
        written_line(fens, ms, sans),
        0 <= i < sans.len() < 0xffff_ffff,
        dots == (if side_to_move(fens[i]) == Side::White {
            1usize
        } else {
            3usize
        }),
        0 <= at,
        at + 2 <= all.len(),
        all[at] == (Item::Number { number, dots }),
        all[at + 1] == Item::San(sans[i]),
    ensures
        replay_from(replay_at(fens, sans, number, i), all, at) == replay_from(
            replay_at(
                fens,
                sans,
                if side_to_move(fens[i]) == Side::Black {
                    next_number(number)
                } else {
                    number
                },
                i + 1,
            ),
            all,
            at + 2,
        ),
{
    let r = replay_at(fens, sans, number, i);
    let numbered = Replay { pending: Some((number, dots)), ..r };
    assert(Seq::<Fault>::empty() + Seq::<Fault>::empty() == Seq::<Fault>::empty());
    assert(replay_step(r, all, at) == numbered);
    lemma_token_replays(fens, ms, sans, number, i, Some((number, dots)));
    let done = replay_step(numbered, all, at + 1);
    assert(replay_from(r, all, at) == replay_from(numbered, all, at + 1));
    assert(replay_from(numbered, all, at + 1) == replay_from(done, all, at + 2));
}

proof fn lemma_game_items_prefix(side: Side, first: u32, sans: Seq<Seq<char>>, i: int, n: int)
    requires
        0 <= i <= n,
    ensures
        game_items(side, first, sans, i).len() <= game_items(side, first, sans, n).len(),
        forall|j: int|
            0 <= j < game_items(side, first, sans, i).len() ==> #[trigger] game_items(
                side,
                first,
                sans,
                n,
            )[j] == game_items(side, first, sans, i)[j],
    decreases n - i,
{
    if i < n {
        lemma_game_items_prefix(side, first, sans, i, n - 1);
        let before = game_items(side, first, sans, n - 1);
        let all = game_items(side, first, sans, n);
        assert forall|j: int| 0 <= j < game_items(side, first, sans, i).len() implies
            #[trigger] all[j] == game_items(side, first, sans, i)[j] by {
            assert(all[j] == before[j]);
        }
    }
}

proof fn lemma_plies_replay(
    fens: Seq<Seq<char>>,
    ms: Seq<Seq<char>>,
    sans: Seq<Seq<char>>,
    side: Side,
    first: u32,
    marker: Item,
    i: int,
)
    requires
        written_line(fens, ms, sans),
        0 <= i <= sans.len() < 0xffff_ffff,
        side == side_to_move(fens[0]),
    ensures
        ({
            let all = game_items(side, first, sans, sans.len() as int).push(marker);
            replay_from(replay_at(fens, sans, move_number(side, first, 0) as u32, 0), all, 0)
                == replay_from(
                replay_at(fens, sans, move_number(side, first, i) as u32, i),
                all,
                game_items(side, first, sans, i).len() as int,
            )
        }),
    decreases i,
{
    if i > 0 {
        let n = sans.len() as int;
        let game = game_items(side, first, sans, n);
        let all = game.push(marker);
        lemma_plies_replay(fens, ms, sans, side, first, marker, i - 1);
        lemma_game_items_prefix(side, first, sans, i, n);
        let before = game_items(side, first, sans, i - 1);
        let upto = game_items(side, first, sans, i);
        let own = ply_items(side, first, sans, i - 1);
        let at = before.len() as int;
        assert(upto == before + own);
        assert forall|j: int| 0 <= j < own.len() implies all[at + j] == #[trigger] own[j] by {
            assert(upto[at + j] == own[j]);
            assert(game[at + j] == upto[at + j]);
        }
        lemma_ply_replays(fens, ms, sans, side, first, all, at, i - 1);
    }
}

/// A written game is replayed to its end without complaint.
proof fn lemma_game_replays(
    fens: Seq<Seq<char>>,
    ms: Seq<Seq<char>>,
    sans: Seq<Seq<char>>,
    marker: Seq<char>,
)
    requires
        written_line(fens, ms, sans),
        sans.len() < 0xffff_ffff,
    ensures
        ({
            let side = side_to_move(fens[0]);
            let first = full_moves(fens[0]);
            let all = game_items(side, first, sans, sans.len() as int).push(Item::Result(marker));
            let r = replay_all(fens[0], all);
            &&& r.fen == fens.last()
            &&& r.ply == sans.len()
            &&& r.moves == sans
            &&& r.marker == Some(marker)
            &&& r.errors == Seq::<Fault>::empty()
        }),
{
    let side = side_to_move(fens[0]);
    let first = full_moves(fens[0]);
    let n = sans.len() as int;
    let game = game_items(side, first, sans, n);
    let all = game.push(Item::Result(marker));
    let number = move_number(side, first, n) as u32;
    lemma_first_move_number(side, first);
    lemma_plies_replay(fens, ms, sans, side, first, Item::Result(marker), n);
    lemma_ending_replays(fens, sans, number, all, marker);
    lemma_beginning_replays(fens, sans);
}

proof fn lemma_first_move_number(side: Side, first: u32)
    ensures
        move_number(side, first, 0) == first,
{
    lemma_small_mod(first as nat, 0x1_0000_0000);
}

proof fn lemma_beginning_replays(fens: Seq<Seq<char>>, sans: Seq<Seq<char>>)
    ensures
        replay_start(fens[0]) == replay_at(fens, sans, full_moves(fens[0]), 0),
{
    assert(replay_start(fens[0]).moves == sans.take(0));
}

proof fn lemma_ending_replays(
    fens: Seq<Seq<char>>,
    sans: Seq<Seq<char>>,
    number: u32,
    all: Seq<Item>,
    marker: Seq<char>,
)
    requires
        fens.len() == sans.len() + 1,
        all.len() > 0,
        all.last() == Item::Result(marker),
    ensures
        ({
            let r = replay_from(
                replay_at(fens, sans, number, sans.len() as int),
                all,
                all.len() - 1,
            );
            &&& r.fen == fens.last()
            &&& r.ply == sans.len()
            &&& r.moves == sans
            &&& r.marker == Some(marker)
            &&& r.errors == Seq::<Fault>::empty()
            &&& r.pending is None
        }),
{
    let done = replay_at(fens, sans, number, sans.len() as int);
    let marked = Replay { marker: Some(marker), ..done };
    assert(replay_step(done, all, all.len() - 1) == marked);
    assert(replay_from(marked, all, all.len() as int) == marked);
    assert(sans.take(sans.len() as int) == sans);
}

// ---------------------------------------------------------------------------
// Exports pass the strict checks
// ---------------------------------------------------------------------------

/// Whether every header stays on one line.
pub open spec fn one_line_headers(h: ExportHeaders) -> bool {
    &&& single_line(h.event@)
    &&& single_line(h.site@)
    &&& single_line(h.date@)
    &&& single_line(h.round@)
    &&& single_line(h.white@)
    &&& single_line(h.black@)
    &&& single_line_option(h.time_control)
    &&& single_line_option(h.termination)
    &&& single_line_option(h.variant)
    &&& single_line_option(h.start_fen)
}

/// Whether headers pass the strict checks on their own: every value stays on
/// one line, the date is a date, and a variant comes with a start position.
pub open spec fn strict_headers(h: ExportHeaders) -> bool {
    &&& one_line_headers(h)
    &&& valid_date(h.date@)
    &&& h.variant is None || standard_variant(h.variant->0@) || h.start_fen is Some
}

/// Whether the result and the termination go with the final position.
pub open spec fn strict_ending(h: ExportHeaders, end: Ending) -> bool {
    &&& position_faults(Some(h.result), end) == Seq::<Fault>::empty()
    &&& h.termination is Some
    &&& known_termination(ascii_lower_text(h.termination->0@))
    &&& termination_result_faults(h.termination->0@, h.result, end) == Seq::<Fault>::empty()
}

spec fn strict_tags(tags: Tags) -> bool {
    forall|j: int| 0 <= j < tags.len() ==> strict_tag(#[trigger] tags[j])
}

proof fn lemma_strict_tags_add(a: Tags, b: Tags)
    requires
        strict_tags(a),
        strict_tags(b),
    ensures
        strict_tags(a + b),
{
    assert forall|j: int| 0 <= j < (a + b).len() implies strict_tag(#[trigger] (a + b)[j]) by {
        if j < a.len() {
            assert((a + b)[j] == a[j]);
        } else {
            assert((a + b)[j] == b[j - a.len()]);
        }
    }
}

proof fn lemma_single_line_marker(r: GameResult)
    ensures
        single_line(result_marker(r)),
{
    reveal_strlit("1-0");
    reveal_strlit("0-1");
    reveal_strlit("1/2-1/2");
    reveal_strlit("*");
}

proof fn lemma_strict_tags(h: ExportHeaders)
    requires
        one_line_headers(h),
    ensures
        strict_tags(export_tags(h)),
{
    reveal_strlit("1");
    lemma_tag_names();
    lemma_single_line_marker(h.result);
    let r = roster_tags(h);
    assert forall|j: int| 0 <= j < r.len() implies strict_tag(#[trigger] r[j]) by {
        assert(j == 0 || j == 1 || j == 2 || j == 3 || j == 4 || j == 5 || j == 6);
    }
    let b = optional_pair("WhiteElo"@, opt_dec(h.white_elo));
    let c = optional_pair("BlackElo"@, opt_dec(h.black_elo));
    let d = optional_pair("TimeControl"@, opt_text(h.time_control));
    let e = optional_pair("Termination"@, opt_text(h.termination));
    let f = optional_pair("Variant"@, opt_text(h.variant));
    match h.white_elo {
        Some(n) => lemma_single_line_dec(n as int),
        None => {},
    }
    match h.black_elo {
        Some(n) => lemma_single_line_dec(n as int),
        None => {},
    }
    assert(strict_tags(r));
    assert(strict_tags(b));
    assert(strict_tags(c));
    assert(strict_tags(d));
    assert(strict_tags(e));
    assert(strict_tags(f));
    assert(single_line("1"@));
    assert(strict_tags(setup_tags(h)));
    lemma_strict_tags_add(b, c);
    lemma_strict_tags_add(b + c, d);
    lemma_strict_tags_add(b + c + d, e);
    lemma_strict_tags_add(b + c + d + e, f);
    lemma_strict_tags_add(b + c + d + e + f, setup_tags(h));
    lemma_strict_tags_add(r, supplemental_tags(h));
}

/// Whether a text holds no carriage return.
spec fn no_return(s: Seq<char>) -> bool {
    forall|j: int| 0 <= j < s.len() ==> #[trigger] s[j] != '\r'
}

proof fn lemma_no_return_add(a: Seq<char>, b: Seq<char>)
    requires
        no_return(a),
        no_return(b),
    ensures
        no_return(a + b),
{
    let t = a + b;
    assert forall|j: int| 0 <= j < t.len() implies #[trigger] t[j] != '\r' by {
        if j < a.len() {
            assert(t[j] == a[j]);
        } else {
            assert(t[j] == b[j - a.len()]);
        }
    }
}

proof fn lemma_tags_no_return(tags: Tags, k: int)
    requires
        0 <= k <= tags.len(),
        strict_tags(tags),
    ensures
        no_return(tag_block_from(tags, k)),
    decreases tags.len() - k,
{
    if k < tags.len() {
        lemma_tags_no_return(tags, k + 1);
        assert(strict_tag(tags[k]));
        lemma_tag_line(tags[k]);
        lemma_line_of_tag(tags[k]);
        assert(no_return(line_of_tag(tags[k])));
        lemma_no_return_add(line_of_tag(tags[k]), seq!['\n']);
        lemma_no_return_add(tag_line(tags[k].0, tags[k].1), tag_block_from(tags, k + 1));
    }
}

proof fn lemma_spread_no_return(tokens: Seq<Seq<char>>, seps: Seq<char>, k: int)
    requires
        0 <= k <= tokens.len() == seps.len(),
        separators(seps),
        forall|j: int| 0 <= j < tokens.len() ==> strict_token(#[trigger] tokens[j]),
    ensures
        no_return(spread(tokens, seps, k)),
    decreases tokens.len() - k,
{
    if k < tokens.len() {
        lemma_spread_no_return(tokens, seps, k + 1);
        let t = tokens[k];
        assert(strict_token(t));
        assert(no_return(t)) by {
            assert forall|j: int| 0 <= j < t.len() implies #[trigger] t[j] != '\r' by {
                if plain_token(t) {
                    assert(plain_char(t[j]));
                }
            }
        }
        assert(seps[k] == ' ' || seps[k] == '\n');
        lemma_no_return_add(seq![seps[k]], t);
        lemma_no_return_add(seq![seps[k]] + t, spread(tokens, seps, k + 1));
    }
}

proof fn lemma_strict_is_readable(moves: Seq<MoveAnnotation>, analysis: bool)
    requires
        strict_annotations(moves, analysis),
    ensures
        readable_annotations(moves, analysis),
{
    assert forall|i: int| 0 <= i < moves.len() implies glyph(
        (#[trigger] moves[i]).classification,
    ) && (analysis ==> quotable_clock(moves[i].clock)) by {
        if analysis && moves[i].clock is Some {
            assert(strict_clock(moves[i].clock));
            lemma_single_line_clock(moves[i].clock->0@);
        }
    }
}

/// The movetext of a written game gives its items, and nothing is wrong with
/// it.
proof fn lemma_movetext_scan(
    body: Seq<char>,
    side: Side,
    first: u32,
    sans: Seq<Seq<char>>,
    moves: Seq<MoveAnnotation>,
    analysis: bool,
    result: GameResult,
    seps: Seq<char>,
)
    requires
        sans.len() == moves.len(),
        forall|i: int| 0 <= i < sans.len() ==> written_san(#[trigger] sans[i]),
        strict_annotations(moves, analysis),
        seps.len() == document_tokens(side, first, sans, moves, analysis, result).len(),
        separators(seps),
        seps[0] == '\n',
        seq!['\n'] + body == spread(
            document_tokens(side, first, sans, moves, analysis, result),
            seps,
            0,
        ),
    ensures
        scan_items(body + seq!['\n'], 0, false) == (ItemScan {
            items: game_items(side, first, sans, sans.len() as int).push(
                Item::Result(result_marker(result)),
            ),
            errors: seq![],
        }),
        body.len() > 0,
        !white_space(body[0]),
        no_return(seq!['\n'] + body),
{
    let n = moves.len() as int;
    let game = game_tokens(side, first, sans, moves, analysis, n);
    let marker = result_marker(result);
    let tokens = document_tokens(side, first, sans, moves, analysis, result);
    lemma_game_items(side, first, sans, moves, analysis, n);
    lemma_marker_item(result);
    assert(tokens == game + seq![marker]);
    lemma_items_in_add(game, seq![marker]);
    lemma_items_in_one(marker);
    assert forall|k: int| 0 <= k < tokens.len() implies strict_token(#[trigger] tokens[k]) by {
        if k < game.len() {
            assert(tokens[k] == game[k]);
        } else {
            assert(tokens[k] == marker);
        }
    }
    let rest = spread(tokens, seps, 1);
    assert((seq!['\n'] + body).skip(1) == body);
    assert((seq![seps[0]] + tokens[0] + rest).skip(1) == tokens[0] + rest);
    let s = body + seq!['\n'];
    assert(s.skip(0) == tokens[0] + (rest + seq!['\n']));
    lemma_scan(s, 0, tokens, seps, 0);
    assert(tokens.skip(0) == tokens);
    assert(items_in(tokens) == game_items(side, first, sans, n).push(Item::Result(marker)));
    assert(strict_token(tokens[0]));
    assert(body[0] == tokens[0][0]);
    if plain_token(tokens[0]) {
        assert(plain_char(tokens[0][0]));
    }
    lemma_spread_no_return(tokens, seps, 0);
}

/// The report on an export, as far as its tags decide it.
proof fn lemma_tag_checks(h: ExportHeaders, start: Seq<char>)
    requires
        start_of(h) == Ok::<Seq<char>, PgnErrorView>(start),
    ensures
        ({
            let tags = export_tags(h);
            let none = Seq::<Fault>::empty();
            &&& result_faults(tags) == none
            &&& declared_result(tags) == Some(h.result)
            &&& start_faults(tags) == none
            &&& declared_start(tags) == if h.start_fen is Some {
                Some(start)
            } else {
                None
            }
            &&& marker_faults(tags, Some(result_marker(h.result))) == none
        }),
{
    let tags = export_tags(h);
    lemma_values(h);
    law_result_marker_reads_back(h.result);
}

/// The items of a written game hold no result marker.
proof fn lemma_game_items_unmarked(side: Side, first: u32, sans: Seq<Seq<char>>, n: int)
    ensures
        forall|j: int|
            0 <= j < game_items(side, first, sans, n).len() ==> !(#[trigger] game_items(
                side,
                first,
                sans,
                n,
            )[j] is Result),
    decreases n,
{
    if n > 0 {
        lemma_game_items_unmarked(side, first, sans, n - 1);
        let before = game_items(side, first, sans, n - 1);
        let own = ply_items(side, first, sans, n - 1);
        let all = game_items(side, first, sans, n);
        assert forall|j: int| 0 <= j < all.len() implies !(#[trigger] all[j] is Result) by {
            if j < before.len() {
                assert(all[j] == before[j]);
            } else {
                assert(all[j] == own[j - before.len()]);
            }
        }
    }
}

/// The marker behind items without one is the marker of all of them.
proof fn lemma_marker_behind(game: Seq<Item>, marker: Seq<char>, i: int)
    requires
        0 <= i <= game.len(),
        forall|j: int| 0 <= j < game.len() ==> !(#[trigger] game[j] is Result),
    ensures
        marker_from(game.push(Item::Result(marker)), i) == Some(marker),
    decreases game.len() - i,
{
    if i < game.len() {
        lemma_marker_behind(game, marker, i + 1);
        assert(game.push(Item::Result(marker))[i] == game[i]);
    }
}

/// An error that a date, a variant without a start position, a result or a
/// termination can bring on.
pub open spec fn header_or_ending_fault(fault: Fault) -> bool {
    ||| fault is InvalidDate
    ||| fault is VariantWithoutStartPosition
    ||| fault is ResultPositionMismatch
    ||| fault is MissingTerminationTag
    ||| fault is InvalidTerminationValue
    ||| fault is TerminationResultMismatch
    ||| fault is StalemateClaimButNotStalemate
    ||| fault is FiftyMoveRuleNotSatisfied
}

/// The sections of an export, and what is read from them.
proof fn lemma_export_sections(
    text: Seq<char>,
    h: ExportHeaders,
    moves: Seq<MoveAnnotation>,
    analysis: bool,
    start: Seq<char>,
    sans: Seq<Seq<char>>,
    end: Seq<char>,
)
    requires
        documents(text, h, moves, analysis, start, sans, end),
        one_line_headers(h),
        strict_annotations(moves, analysis),
    ensures
        sections(lines_of(text)) matches Some(doc) && {
            let all = game_items(side_to_move(start), full_moves(start), sans, sans.len() as int);
            &&& doc.errors == Seq::<Fault>::empty()
            &&& scan_tags(doc.tag_lines, doc.tag_lines.len() as int) == (TagScan {
                tags: export_tags(h),
                errors: seq![],
            })
            &&& scan_items(doc.movetext, 0, false) == (ItemScan {
                items: all.push(Item::Result(result_marker(h.result))),
                errors: seq![],
            })
        },
{
    let (fens, ms) = choose|fens: Seq<Seq<char>>, ms: Seq<Seq<char>>| #[trigger]
        written_line(fens, ms, sans) && fens[0] == start && fens.last() == end;
    lemma_written_line_sans(fens, ms, sans);
    lemma_strict_is_readable(moves, analysis);
    let side = side_to_move(start);
    let first = full_moves(start);
    let seps = lemma_document_shape(h, side, first, sans, moves, analysis);
    let body = movetext(side, first, sans, moves, analysis, h.result);
    lemma_movetext_scan(body, side, first, sans, moves, analysis, h.result, seps);

    let tags = export_tags(h);
    let whole = body + seq!['\n'];
    lemma_tag_section(h);
    lemma_strict_tags(h);
    lemma_tags_no_return(tags, 0);
    assert(text == tag_block_from(tags, 0) + (seq!['\n'] + whole)) by {
        assert(seq!['\n'] + body + seq!['\n'] == seq!['\n'] + whole);
        assert(tag_block_from(tags, 0) + (seq!['\n'] + body) + seq!['\n'] == tag_block_from(
            tags,
            0,
        ) + (seq!['\n'] + body + seq!['\n']));
    }
    assert(no_return(text)) by {
        assert(no_return(seq!['\n']));
        lemma_no_return_add(seq!['\n'] + body, seq!['\n']);
        assert(seq!['\n'] + body + seq!['\n'] == seq!['\n'] + whole);
        lemma_no_return_add(tag_block_from(tags, 0), seq!['\n'] + whole);
    }
    assert(whole[0] == body[0]);
    lemma_sections(text, tags, whole);
    lemma_export_ranks(h);
    lemma_lines_of_tags(tags, 0);
    lemma_scan_tags(tags, tags.len() as int);
    assert(tags.take(tags.len() as int) == tags);
}

/// Whatever its date, variant, result and termination are, nothing else is wrong
/// with what is exported: the tags are well formed and the roster is complete,
/// the moves are legal and canonical with the right numbers and check marks, the
/// comments have the standard form, and the result marker is there and is the
/// declared one. This holds of every legal game, from any start position, whose
/// headers stay on one line and whose annotations have the standard form.
#[verifier::rlimit(30)]
pub proof fn law_exported_movetext_is_sound(
    text: Seq<char>,
    h: ExportHeaders,
    moves: Seq<MoveAnnotation>,
    analysis: bool,
    start: Seq<char>,
    sans: Seq<Seq<char>>,
    end: Seq<char>,
)
    requires
        documents(text, h, moves, analysis, start, sans, end),
        one_line_headers(h),
        strict_annotations(moves, analysis),
        moves.len() < 0xffff_ffff,
    ensures
        linted(text).errors == date_faults(export_tags(h)) + variant_faults(
            export_tags(h),
            h.start_fen is Some,
        ) + position_faults(Some(h.result), ending_of(end)) + termination_faults(
            export_tags(h),
            Some(h.result),
            ending_of(end),
        ),
        forall|j: int|
            0 <= j < linted(text).errors.len() ==> header_or_ending_fault(
                #[trigger] linted(text).errors[j],
            ),
        linted(text).validated matches Some(v) ==> v == (ValidatedView {
            tags: export_tags(h),
            movetext: sans,
            result: h.result,
            termination: text_or_empty(opt_text(h.termination)),
            final_fen: published_fen(end),
            ply_count: moves.len() as int,
            halfmoves: ending_of(end).halfmoves,
            variant: opt_text(h.variant),
            is_checkmate: ending_of(end).checkmate,
            is_stalemate: ending_of(end).stalemate,
        }),
{
    let (fens, ms) = choose|fens: Seq<Seq<char>>, ms: Seq<Seq<char>>| #[trigger]
        written_line(fens, ms, sans) && fens[0] == start && fens.last() == end;
    let tags = export_tags(h);
    let marker = result_marker(h.result);
    let game = game_items(side_to_move(start), full_moves(start), sans, sans.len() as int);
    lemma_export_sections(text, h, moves, analysis, start, sans, end);
    lemma_roster(h);
    lemma_tag_checks(h, start);
    lemma_values(h);
    lemma_game_replays(fens, ms, sans, marker);
    lemma_game_items_unmarked(side_to_move(start), full_moves(start), sans, sans.len() as int);
    lemma_marker_behind(game, marker, 0);
    let none = Seq::<Fault>::empty();
    let date = date_faults(tags);
    let variant = variant_faults(tags, h.start_fen is Some);
    let ending = position_faults(Some(h.result), ending_of(end));
    let termination = termination_faults(tags, Some(h.result), ending_of(end));
    let doc = sections(lines_of(text))->0;
    assert(report_on(doc).errors == none + none + none + date + none + none + variant + none + none
        + (none + ending + termination));
    lemma_only_these_faults(date, variant, ending, termination);
    lemma_fault_kinds(date, variant, ending, termination);
}

proof fn lemma_only_these_faults(a: Seq<Fault>, b: Seq<Fault>, c: Seq<Fault>, d: Seq<Fault>)
    ensures
        ({
            let none = Seq::<Fault>::empty();
            none + none + none + a + none + none + b + none + none + (none + c + d) == a + b + c + d
        }),
{
    let none = Seq::<Fault>::empty();
    assert(none + none + none + a =~= a);
    assert(a + none + none + b =~= a + b);
    assert(a + b + none + none + (none + c + d) =~= a + b + c + d);
}

proof fn lemma_fault_kinds(a: Seq<Fault>, b: Seq<Fault>, c: Seq<Fault>, d: Seq<Fault>)
    requires
        forall|j: int| 0 <= j < a.len() ==> header_or_ending_fault(#[trigger] a[j]),
        forall|j: int| 0 <= j < b.len() ==> header_or_ending_fault(#[trigger] b[j]),
        forall|j: int| 0 <= j < c.len() ==> header_or_ending_fault(#[trigger] c[j]),
        forall|j: int| 0 <= j < d.len() ==> header_or_ending_fault(#[trigger] d[j]),
    ensures
        forall|j: int|
            0 <= j < (a + b + c + d).len() ==> header_or_ending_fault(
                #[trigger] (a + b + c + d)[j],
            ),
{
}

/// What is exported passes the strict checks. The document of a legal game is
/// reported clean, with the tags, moves and final position it was written from,
/// when its headers stay on one line and name a date, its annotations have the
/// standard form, and its result and termination go with the final position.
pub proof fn law_exports_pass_the_strict_checks(
    text: Seq<char>,
    h: ExportHeaders,
    moves: Seq<MoveAnnotation>,
    analysis: bool,
    start: Seq<char>,
    sans: Seq<Seq<char>>,
    end: Seq<char>,
)
    requires
        documents(text, h, moves, analysis, start, sans, end),
        strict_headers(h),
        strict_annotations(moves, analysis),
        strict_ending(h, ending_of(end)),
        moves.len() < 0xffff_ffff,
    ensures
        linted(text) == (ReportView {
            errors: seq![],
            validated: Some(
                ValidatedView {
                    tags: export_tags(h),
                    movetext: sans,
                    result: h.result,
                    termination: h.termination->0@,
                    final_fen: published_fen(end),
                    ply_count: moves.len() as int,
                    halfmoves: ending_of(end).halfmoves,
                    variant: opt_text(h.variant),
                    is_checkmate: ending_of(end).checkmate,
                    is_stalemate: ending_of(end).stalemate,
                },
            ),
        }),
{
    law_exported_movetext_is_sound(text, h, moves, analysis, start, sans, end);
    lemma_values(h);
    let none = Seq::<Fault>::empty();
    assert(none + none == none);
    assert(termination_faults(export_tags(h), Some(h.result), ending_of(end)) == none);
    assert(linted(text).errors == none);
}

// ---------------------------------------------------------------------------
// Reports
// ---------------------------------------------------------------------------

/// A report holds the parsed document exactly when it holds no error, and the
/// verdict on a document is the first error of its report.
pub proof fn law_reports_are_clean_or_name_an_error(text: Seq<char>)
    ensures
        linted(text).validated is Some <==> linted(text).errors.len() == 0,
        verdict(linted(text)) is Ok <==> linted(text).errors.len() == 0,
        verdict(linted(text)) matches Err(fault) ==> fault == linted(text).errors[0],
{
}

/// A validated export is the plain export, and a document that the strict
/// checks find nothing wrong with.
pub proof fn law_validated_exports_are_clean(
    h: ExportHeaders,
    moves: Seq<MoveAnnotation>,
    analysis: bool,
    text: Seq<char>,
)
    requires
        exported_validated(h, moves, analysis) == Ok::<Seq<char>, PgnErrorView>(text),
    ensures
        exported(h, moves, analysis) == Ok::<Seq<char>, PgnErrorView>(text),
        linted(text).errors.len() == 0,
        linted(text).validated is Some,
{
}

/// However a document repeats its tags, each name that is kept has one value.
pub proof fn law_kept_tags_are_distinct(lines: Seq<Seq<char>>, n: int)
    ensures
        distinct(scan_tags(lines, n).tags),
    decreases n,
{
    if n > 0 {
        law_kept_tags_are_distinct(lines, n - 1);
        let before = scan_tags(lines, n - 1).tags;
        let after = scan_tags(lines, n).tags;
        assert forall|i: int, j: int| 0 <= i < j < after.len() implies (#[trigger] after[i]).0 != (
        #[trigger] after[j]).0 by {
            if after.len() > before.len() && j == after.len() - 1 {
                assert(before[i] == after[i]);
                assert(after == before.push(after[j]));
            } else {
                assert(before[i] == after[i] && before[j] == after[j]);
            }
        }
    }
}

} // verus!
