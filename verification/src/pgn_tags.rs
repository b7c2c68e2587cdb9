//! The tag section of a PGN document.

use vstd::prelude::*;

use crate::pgn_faults::{faults, report, Fault, PgnValidationError};
use crate::text::{
    all_in, chars_of, find_run_end, is_all_in, is_text, parse_u32_or_zero, run_end, same_str, slice,
    string_of, strings, texts, trim_end, trimmed_end, u32_or_zero, Class,
};

verus! {

/// The seven mandatory tags, in the order a PGN document lists them.
pub const SEVEN_TAG_ROSTER: [&'static str; 7] = [
    "Event",
    "Site",
    "Date",
    "Round",
    "White",
    "Black",
    "Result",
];

/// Name/value pairs as character sequences.
pub open spec fn pairs(tags: Seq<(String, String)>) -> Seq<(Seq<char>, Seq<char>)> {
    Seq::new(tags.len(), |i: int| (tags[i].0@, tags[i].1@))
}

// ---------------------------------------------------------------------------
// Escapes
// ---------------------------------------------------------------------------

/// Whether every backslash from `i` on stands before a quote or a backslash.
pub open spec fn valid_escapes(s: Seq<char>, i: int) -> bool
    decreases s.len() - i,
{
    if 0 <= i < s.len() {
        if s[i] == '\\' {
            i + 1 < s.len() && (s[i + 1] == '"' || s[i + 1] == '\\') && valid_escapes(s, i + 2)
        } else {
            valid_escapes(s, i + 1)
        }
    } else {
        true
    }
}

/// The text from `i` on with each backslash dropped and the character behind
/// it kept.
pub open spec fn unescaped(s: Seq<char>, i: int) -> Seq<char>
    decreases s.len() - i,
{
    if 0 <= i < s.len() {
        if s[i] == '\\' {
            if i + 1 < s.len() {
                seq![s[i + 1]] + unescaped(s, i + 2)
            } else {
                seq![]
            }
        } else {
            seq![s[i]] + unescaped(s, i + 1)
        }
    } else {
        seq![]
    }
}

pub fn has_valid_escapes(value: &[char]) -> (r: bool)
    ensures
        r == valid_escapes(value@, 0),
{
    let mut i: usize = 0;
    while i < value.len()
        invariant
            i <= value@.len(),
            valid_escapes(value@, 0) == valid_escapes(value@, i as int),
        decreases value@.len() - i,
    {
        if value[i] == '\\' {
            if value.len() - i < 2 || (value[i + 1] != '"' && value[i + 1] != '\\') {
                return false;
            }
            i += 2;
        } else {
            i += 1;
        }
    }
    true
}

pub fn unescape_tag_value(value: &[char]) -> (r: Vec<char>)
    ensures
        r@ == unescaped(value@, 0),
{
    let mut out: Vec<char> = Vec::new();
    let mut i: usize = 0;
    while i < value.len()
        invariant
            i <= value@.len(),
            unescaped(value@, 0) == out@ + unescaped(value@, i as int),
        decreases value@.len() - i,
    {
        let ghost before = out@;
        if value[i] == '\\' {
            if value.len() - i < 2 {
                assert(before + seq![] == before);
                return out;
            }
            out.push(value[i + 1]);
            assert(before + (seq![value@[i + 1]] + unescaped(value@, i + 2)) == out@ + unescaped(
                value@,
                i + 2,
            ));
            i += 2;
        } else {
            out.push(value[i]);
            assert(before + (seq![value@[i as int]] + unescaped(value@, i + 1)) == out@
                + unescaped(value@, i + 1));
            i += 1;
        }
    }
    out
}

// ---------------------------------------------------------------------------
// Tag lines
// ---------------------------------------------------------------------------

/// Where a quoted value that starts at `i` ends: at the first quote that no
/// backslash escapes. The end of the text stands for a value that never ends.
pub open spec fn value_end(s: Seq<char>, i: int) -> int
    decreases s.len() - i,
{
    if 0 <= i < s.len() {
        if s[i] == '"' {
            i
        } else if s[i] == '\\' {
            if i + 1 < s.len() && s[i + 1] != '\n' {
                value_end(s, i + 2)
            } else {
                s.len() as int
            }
        } else {
            value_end(s, i + 1)
        }
    } else {
        s.len() as int
    }
}

pub proof fn lemma_value_end(s: Seq<char>, i: int)
    requires
        0 <= i <= s.len(),
    ensures
        i <= value_end(s, i) <= s.len(),
        value_end(s, i) < s.len() ==> s[value_end(s, i)] == '"',
    decreases s.len() - i,
{
    if i < s.len() && s[i] != '"' {
        if s[i] == '\\' {
            if i + 1 < s.len() {
                lemma_value_end(s, i + 2);
            }
        } else {
            lemma_value_end(s, i + 1);
        }
    }
}

/// The name of a tag line and its value as written: the whole line has to be an
/// opening bracket, a name of ASCII word characters, white space, a quoted value
/// and a closing bracket.
pub open spec fn tag_of_line(s: Seq<char>) -> Option<(Seq<char>, Seq<char>)> {
    let name_end = run_end(s, 1, Class::AsciiWord);
    let quote = run_end(s, name_end, Class::Space);
    let close = value_end(s, quote + 1);
    if s.len() > 0 && s[0] == '[' && 1 < name_end < quote < s.len() && s[quote] == '"' && close + 2
        == s.len() && s[close + 1] == ']' {
        Some((s.subrange(1, name_end), s.subrange(quote + 1, close)))
    } else {
        None
    }
}

/// Reads a tag line: its name and its value as written.
pub fn parse_tag(s: &[char]) -> (r: Option<(Vec<char>, Vec<char>)>)
    ensures
        match r {
            Some((name, raw)) => tag_of_line(s@) == Some((name@, raw@)),
            None => tag_of_line(s@) is None,
        },
{
    if s.len() == 0 || s[0] != '[' {
        return None;
    }
    let name_end = find_run_end(s, 1, Class::AsciiWord);
    let quote = find_run_end(s, name_end, Class::Space);
    if 1 >= name_end || name_end >= quote || quote >= s.len() || s[quote] != '"' {
        return None;
    }
    let mut i: usize = quote + 1;
    let mut open: bool = true;
    while open && i < s.len() && s[i] != '"'
        invariant
            quote + 1 <= i <= s@.len(),
            open ==> value_end(s@, quote + 1) == value_end(s@, i as int),
            !open ==> value_end(s@, quote + 1) == s@.len(),
        decreases s@.len() - i + (if open { 1int } else { 0int }),
    {
        if s[i] == '\\' {
            if s.len() - i < 2 || s[i + 1] == '\n' {
                open = false;
            } else {
                i += 2;
            }
        } else {
            i += 1;
        }
    }
    let close: usize = if open {
        i
    } else {
        s.len()
    };
    assert(close == value_end(s@, quote + 1));
    if s.len() - close != 2 || s[close + 1] != ']' {
        return None;
    }
    Some((slice(s, 1, name_end), slice(s, quote + 1, close)))
}

/// Whether a tag of this name is among the tags.
pub open spec fn has_name(tags: Seq<(Seq<char>, Seq<char>)>, name: Seq<char>) -> bool {
    exists|i: int| 0 <= i < tags.len() && (#[trigger] tags[i]).0 == name
}

/// The value of the first tag of a name, from `i` on.
pub open spec fn tag_from(tags: Seq<(Seq<char>, Seq<char>)>, i: int, name: Seq<char>) -> Option<
    Seq<char>,
>
    decreases tags.len() - i,
{
    if 0 <= i < tags.len() {
        if tags[i].0 == name {
            Some(tags[i].1)
        } else {
            tag_from(tags, i + 1, name)
        }
    } else {
        None
    }
}

/// The value of a tag.
pub open spec fn tag_value(tags: Seq<(Seq<char>, Seq<char>)>, name: Seq<char>) -> Option<
    Seq<char>,
> {
    tag_from(tags, 0, name)
}

/// The value of a tag.
pub fn get_tag<'a>(tags: &'a Vec<(String, String)>, name: &str) -> (r: Option<&'a str>)
    ensures
        match r {
            Some(v) => tag_value(pairs(tags@), name@) == Some(v@),
            None => tag_value(pairs(tags@), name@) is None,
        },
{
    let mut i: usize = 0;
    while i < tags.len()
        invariant
            i <= tags@.len(),
            tag_value(pairs(tags@), name@) == tag_from(pairs(tags@), i as int, name@),
        decreases tags@.len() - i,
    {
        if same_str(tags[i].0.as_str(), name) {
            return Some(tags[i].1.as_str());
        }
        i += 1;
    }
    None
}

proof fn lemma_has_name(tags: Seq<(Seq<char>, Seq<char>)>, i: int, name: Seq<char>)
    requires
        0 <= i <= tags.len(),
    ensures
        tag_from(tags, i, name) is Some <==> exists|j: int|
            i <= j < tags.len() && (#[trigger] tags[j]).0 == name,
    decreases tags.len() - i,
{
    if i < tags.len() {
        lemma_has_name(tags, i + 1, name);
    }
}

pub fn has_tag(tags: &Vec<(String, String)>, name: &str) -> (r: bool)
    ensures
        r == has_name(pairs(tags@), name@),
{
    proof {
        lemma_has_name(pairs(tags@), 0, name@);
    }
    get_tag(tags, name).is_some()
}

/// What reading some tag lines gives: the tags, and what was wrong.
pub ghost struct TagScan {
    pub tags: Seq<(Seq<char>, Seq<char>)>,
    pub errors: Seq<Fault>,
}

/// Reads the first `n` lines. A line that is not a tag, one with an escape that
/// does not exist, and one that repeats a name are each reported and dropped.
pub open spec fn scan_tags(lines: Seq<Seq<char>>, n: int) -> TagScan
    decreases n,
{
    if n <= 0 {
        TagScan { tags: seq![], errors: seq![] }
    } else {
        let scan = scan_tags(lines, n - 1);
        let line = trim_end(lines[n - 1]);
        match tag_of_line(line) {
            None => TagScan {
                errors: scan.errors.push(Fault::InvalidTagSyntax(line)),
                ..scan
            },
            Some((name, raw)) => if !valid_escapes(raw, 0) {
                TagScan { errors: scan.errors.push(Fault::InvalidTagEscapeSequence(line)), ..scan }
            } else if has_name(scan.tags, name) {
                TagScan { errors: scan.errors.push(Fault::DuplicateTag(name)), ..scan }
            } else {
                TagScan { tags: scan.tags.push((name, unescaped(raw, 0))), ..scan }
            },
        }
    }
}

/// Reads `lines[from..to]` as tags.
pub fn parse_tag_lines(
    lines: &Vec<Vec<char>>,
    from: usize,
    to: usize,
    errors: &mut Vec<PgnValidationError>,
) -> (r: Vec<(String, String)>)
    requires
        from <= to <= lines@.len(),
    ensures
        ({
            let scan = scan_tags(
                texts(lines@).subrange(from as int, to as int),
                to - from,
            );
            pairs(r@) == scan.tags && faults(final(errors)@) == faults(old(errors)@) + scan.errors
        }),
{
    let ghost given = faults(errors@);
    let ghost tag_lines = texts(lines@).subrange(from as int, to as int);
    let mut tags: Vec<(String, String)> = Vec::new();
    let mut i: usize = from;
    while i < to
        invariant
            from <= i <= to <= lines@.len(),
            tag_lines == texts(lines@).subrange(from as int, to as int),
            pairs(tags@) == scan_tags(tag_lines, i - from).tags,
            faults(errors@) == given + scan_tags(tag_lines, i - from).errors,
        decreases to - i,
    {
        let line = trimmed_end(lines[i].as_slice());
        assert(tag_lines[i - from] == lines@[i as int]@);
        let ghost before = scan_tags(tag_lines, i - from);
        match parse_tag(line.as_slice()) {
            None => {
                report(errors, PgnValidationError::InvalidTagSyntax(string_of(line.as_slice())));
                assert(faults(errors@) == given + before.errors.push(
                    Fault::InvalidTagSyntax(line@),
                ));
            },
            Some((name, raw)) => {
                let name = string_of(name.as_slice());
                if !has_valid_escapes(raw.as_slice()) {
                    report(
                        errors,
                        PgnValidationError::InvalidTagEscapeSequence(string_of(line.as_slice())),
                    );
                    assert(faults(errors@) == given + before.errors.push(
                        Fault::InvalidTagEscapeSequence(line@),
                    ));
                } else if has_tag(&tags, name.as_str()) {
                    let ghost repeated = name@;
                    report(errors, PgnValidationError::DuplicateTag(name));
                    assert(faults(errors@) == given + before.errors.push(
                        Fault::DuplicateTag(repeated),
                    ));
                } else {
                    let value = string_of(unescape_tag_value(raw.as_slice()).as_slice());
                    let ghost pair = (name@, value@);
                    let ghost had = pairs(tags@);
                    tags.push((name, value));
                    assert(pairs(tags@) == had.push(pair));
                }
            },
        }
        i += 1;
    }
    tags
}

// ---------------------------------------------------------------------------
// Dates
// ---------------------------------------------------------------------------

/// Whether `s[i..j]` is all decimal digits or all question marks.
pub open spec fn date_field(s: Seq<char>, i: int, j: int) -> bool {
    all_in(s.subrange(i, j), Class::Decimal) || all_in(s.subrange(i, j), Class::Only('?'))
}

/// Whether a field of a date is unknown or a number from 1 to `max`.
pub open spec fn date_number(s: Seq<char>, max: u32) -> bool {
    s == "??"@ || 1 <= u32_or_zero(s) <= max
}

/// A date `YYYY.MM.DD`, in which each field may be question marks instead.
pub open spec fn valid_date(s: Seq<char>) -> bool {
    &&& s.len() == 10
    &&& date_field(s, 0, 4)
    &&& s[4] == '.'
    &&& date_field(s, 5, 7)
    &&& s[7] == '.'
    &&& date_field(s, 8, 10)
    &&& date_number(s.subrange(5, 7), 12)
    &&& date_number(s.subrange(8, 10), 31)
}

fn is_date_field(s: &[char], i: usize, j: usize) -> (r: bool)
    requires
        i <= j <= s@.len(),
    ensures
        r == date_field(s@, i as int, j as int),
{
    let field = slice(s, i, j);
    is_all_in(field.as_slice(), Class::Decimal) || is_all_in(field.as_slice(), Class::Only('?'))
}

fn is_date_number(s: &[char], i: usize, j: usize, max: u32) -> (r: bool)
    requires
        i <= j <= s@.len(),
    ensures
        r == date_number(s@.subrange(i as int, j as int), max),
{
    let field = slice(s, i, j);
    if is_text(field.as_slice(), "??") {
        return true;
    }
    let n: u32 = parse_u32_or_zero(field.as_slice());
    1 <= n && n <= max
}

pub fn is_valid_date(value: &str) -> (r: bool)
    ensures
        r == valid_date(value@),
{
    let chars = chars_of(value);
    let s = chars.as_slice();
    s.len() == 10 && is_date_field(s, 0, 4) && s[4] == '.' && is_date_field(s, 5, 7) && s[7] == '.'
        && is_date_field(s, 8, 10) && is_date_number(s, 5, 7, 12) && is_date_number(s, 8, 10, 31)
}

// ---------------------------------------------------------------------------
// The Seven Tag Roster
// ---------------------------------------------------------------------------

/// The names of the roster.
pub open spec fn roster() -> Seq<Seq<char>> {
    Seq::new(7, |i: int| SEVEN_TAG_ROSTER@[i]@)
}

/// The names of some tags.
pub open spec fn names(tags: Seq<(Seq<char>, Seq<char>)>) -> Seq<Seq<char>> {
    Seq::new(tags.len(), |i: int| tags[i].0)
}

/// An error for each of the first `n` roster tags that is missing.
pub open spec fn missing_roster_tags(tags: Seq<(Seq<char>, Seq<char>)>, n: int) -> Seq<Fault>
    decreases n,
{
    if n <= 0 {
        seq![]
    } else {
        let before = missing_roster_tags(tags, n - 1);
        if has_name(tags, roster()[n - 1]) {
            before
        } else {
            before.push(Fault::MissingSevenTagRosterTag(roster()[n - 1]))
        }
    }
}

/// The first `n` names, without those that are not in the roster.
pub open spec fn roster_names(all: Seq<Seq<char>>, n: int) -> Seq<Seq<char>>
    decreases n,
{
    if n <= 0 {
        seq![]
    } else {
        let before = roster_names(all, n - 1);
        if roster().contains(all[n - 1]) {
            before.push(all[n - 1])
        } else {
            before
        }
    }
}

/// The first place from `i` on where two lists differ, as far as both go;
/// `0` where they do not.
pub open spec fn first_difference(a: Seq<Seq<char>>, b: Seq<Seq<char>>, i: int) -> int
    decreases a.len() - i,
{
    if 0 <= i < a.len() && i < b.len() {
        if a[i] != b[i] {
            i
        } else {
            first_difference(a, b, i + 1)
        }
    } else {
        0
    }
}

/// The text at a place of a list, empty where the list is shorter.
pub open spec fn text_at(list: Seq<Seq<char>>, i: int) -> Seq<char> {
    if 0 <= i < list.len() {
        list[i]
    } else {
        seq![]
    }
}

/// What is wrong with the order of a complete roster: the roster tags come in
/// another order, or another tag stands among the first seven.
pub open spec fn roster_order_fault(tags: Seq<(Seq<char>, Seq<char>)>) -> Option<Fault> {
    let all = names(tags);
    let observed = roster_names(all, all.len() as int);
    let at = first_difference(observed, roster(), 0);
    if observed != roster() {
        Some(
            Fault::SevenTagRosterOutOfOrder {
                expected: text_at(roster(), at),
                found: text_at(observed, at),
            },
        )
    } else if exists|i: int| 0 <= i < 7 && i < all.len() && !roster().contains(#[trigger] all[i]) {
        Some(
            Fault::SevenTagRosterOutOfOrder {
                expected: roster()[6],
                found: text_at(all, 6),
            },
        )
    } else {
        None
    }
}

/// Everything that is wrong with the roster.
pub open spec fn roster_faults(tags: Seq<(Seq<char>, Seq<char>)>) -> Seq<Fault> {
    let missing = missing_roster_tags(tags, 7);
    if missing.len() == 0 {
        match roster_order_fault(tags) {
            Some(e) => seq![e],
            None => seq![],
        }
    } else {
        missing
    }
}

fn is_roster_name(name: &str) -> (r: bool)
    ensures
        r == roster().contains(name@),
{
    let mut i: usize = 0;
    while i < 7
        invariant
            i <= 7,
            forall|j: int| 0 <= j < i ==> roster()[j] != name@,
        decreases 7 - i,
    {
        if same_str(SEVEN_TAG_ROSTER[i], name) {
            assert(roster()[i as int] == name@);
            return true;
        }
        i += 1;
    }
    false
}

fn find_first_difference(a: &Vec<String>) -> (r: usize)
    ensures
        r == first_difference(strings(a@), roster(), 0),
{
    let mut i: usize = 0;
    while i < a.len() && i < 7
        invariant
            i <= a@.len(),
            i <= 7,
            first_difference(strings(a@), roster(), 0) == first_difference(
                strings(a@),
                roster(),
                i as int,
            ),
        decreases 7 - i,
    {
        if !same_str(a[i].as_str(), SEVEN_TAG_ROSTER[i]) {
            return i;
        }
        i += 1;
    }
    0
}

/// Checks that the roster is there, in order, before all other tags.
pub fn check_roster(tags: &Vec<(String, String)>, errors: &mut Vec<PgnValidationError>)
    ensures
        faults(final(errors)@) == faults(old(errors)@) + roster_faults(pairs(tags@)),
{
    let ghost given = faults(errors@);
    let ghost all = names(pairs(tags@));
    let mut complete: bool = true;
    let mut i: usize = 0;
    while i < 7
        invariant
            i <= 7,
            faults(errors@) == given + missing_roster_tags(pairs(tags@), i as int),
            complete == (missing_roster_tags(pairs(tags@), i as int).len() == 0),
        decreases 7 - i,
    {
        if !has_tag(tags, SEVEN_TAG_ROSTER[i]) {
            let ghost before = missing_roster_tags(pairs(tags@), i as int);
            complete = false;
            report(
                errors,
                PgnValidationError::MissingSevenTagRosterTag(SEVEN_TAG_ROSTER[i].to_owned()),
            );
            assert(faults(errors@) == given + before.push(
                Fault::MissingSevenTagRosterTag(roster()[i as int]),
            ));
        }
        i += 1;
    }
    if !complete {
        return;
    }
    let mut observed: Vec<String> = Vec::new();
    let mut supplemental: bool = false;
    let mut j: usize = 0;
    while j < tags.len()
        invariant
            j <= tags@.len(),
            all == names(pairs(tags@)),
            strings(observed@) == roster_names(all, j as int),
            supplemental == exists|k: int|
                0 <= k < 7 && k < j && !roster().contains(#[trigger] all[k]),
        decreases tags@.len() - j,
    {
        assert(all[j as int] == tags@[j as int].0@);
        if is_roster_name(tags[j].0.as_str()) {
            let ghost before = strings(observed@);
            observed.push(tags[j].0.clone());
            assert(strings(observed@) == before.push(all[j as int]));
        } else if j < 7 {
            supplemental = true;
        }
        j += 1;
    }
    let at: usize = find_first_difference(&observed);
    let mut same: bool = observed.len() == 7;
    let mut k: usize = 0;
    while k < 7 && same
        invariant
            k <= 7,
            same ==> observed@.len() == 7 && forall|m: int|
                0 <= m < k ==> strings(observed@)[m] == roster()[m],
            !same ==> strings(observed@) != roster(),
        decreases 7 - k + (if same { 1int } else { 0int }),
    {
        if !same_str(observed[k].as_str(), SEVEN_TAG_ROSTER[k]) {
            assert(strings(observed@)[k as int] != roster()[k as int]);
            same = false;
        } else {
            k += 1;
        }
    }
    if !same {
        let expected = if at < 7 {
            SEVEN_TAG_ROSTER[at].to_owned()
        } else {
            String::new()
        };
        let found = if at < observed.len() {
            observed[at].clone()
        } else {
            String::new()
        };
        report(errors, PgnValidationError::SevenTagRosterOutOfOrder { expected, found });
        assert(expected@ == text_at(roster(), at as int));
        assert(found@ == text_at(strings(observed@), at as int));
    } else {
        assert(strings(observed@) == roster());
        if supplemental {
            let found = if tags.len() > 6 {
                tags[6].0.clone()
            } else {
                String::new()
            };
            report(
                errors,
                PgnValidationError::SevenTagRosterOutOfOrder {
                    expected: SEVEN_TAG_ROSTER[6].to_owned(),
                    found,
                },
            );
            assert(found@ == text_at(all, 6));
        }
    }
}

} // verus!
