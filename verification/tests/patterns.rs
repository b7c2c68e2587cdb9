//! The hand-written scanners against the patterns they stand for.

use std::collections::HashMap;

use knightverse::pgn::{parse_headers, parse_moves, without_quality};
use knightverse::pgn_movetext::{
    classify_token, is_clock_command, is_eval_command, is_san_syntax, validate_comment,
    MovetextItem,
};
use knightverse::pgn_tags::{has_valid_escapes, is_valid_date, parse_tag, unescape_tag_value};
use knightverse::pgn_validator::PgnValidationError;
use knightverse::text::{int_text, width_up_to};
use knightverse::unicode::{is_decimal, is_white_space, is_word, to_lower_text};
use regex::Regex;

fn chars(s: &str) -> Vec<char> {
    s.chars().collect()
}

fn text(v: &[char]) -> String {
    v.iter().collect()
}

/// Texts made of up to `max` pieces, pseudo-randomly.
fn samples(pieces: &[&str], max: u64, count: usize) -> Vec<String> {
    let mut state: u64 = 0x9e37_79b9_7f4a_7c15;
    let mut next = |n: u64| {
        state = state.wrapping_mul(6364136223846793005).wrapping_add(1442695040888963407);
        (state >> 33) % n
    };
    (0..count)
        .map(|_| {
            let n = next(max + 1);
            (0..n).map(|_| pieces[next(pieces.len() as u64) as usize]).collect()
        })
        .collect()
}

#[test]
fn characters_beyond_ascii_are_classed_as_the_pattern_language_classes_them() {
    let digit = Regex::new(r"^\d$").unwrap();
    let word = Regex::new(r"^\w$").unwrap();
    let space = Regex::new(r"^\s$").unwrap();
    let mut all: Vec<char> = (0u32..0x300).filter_map(char::from_u32).collect();
    all.extend("٣४๕𝟘²½ǅéßжחа‿_·\u{200c}\u{2003}\u{2028}\u{3000}\u{feff}\u{180e}♔".chars());
    for c in all {
        let s = c.to_string();
        assert_eq!(is_decimal(c), digit.is_match(&s), "{c:?}");
        assert_eq!(is_word(c), word.is_match(&s), "{c:?}");
        assert_eq!(is_white_space(c), space.is_match(&s), "{c:?}");
        assert_eq!(is_white_space(c), c.is_whitespace(), "{c:?}");
    }
    assert!(is_decimal('٣') && !is_decimal('²'));
    assert!(is_word('é') && !is_word('♔'));
}

#[test]
fn lower_case_is_the_standard_librarys() {
    for s in ["", "WhiteElo", "ÉVÉNEMENT", "WHİTE", "ΟΔΟΣ", "Straße", "ǅ", "K"] {
        assert_eq!(text(&to_lower_text(&chars(s))), s.to_lowercase(), "{s}");
    }
    // A Kelvin sign lowers to a plain letter.
    assert_eq!(text(&to_lower_text(&chars("\u{212a}"))), "k");
}

#[test]
fn dates_fit_their_pattern() {
    let pattern = Regex::new(r"^(\d{4}|\?{4})\.(\d{2}|\?{2})\.(\d{2}|\?{2})$").unwrap();
    let in_range = |field: &str, max: u32| {
        field == "??" || (1..=max).contains(&field.parse::<u32>().unwrap_or(0))
    };
    let mut dates = samples(&["2026", "??", "????", ".", "12", "0", "3", "1", "٣", "31"], 7, 20_000);
    for m in 0..15 {
        for d in [0, 1, 9, 28, 31, 32] {
            dates.push(format!("2026.{m:02}.{d:02}"));
        }
    }
    dates.extend(["????.??.??", "2026.??.31", "????.13.??", "٢٠٢٦.01.01", "2026.٠١.01", "2026.1.1"]
        .map(String::from));
    let mut good = 0;
    for date in dates {
        let expected = match pattern.captures(&date) {
            None => false,
            Some(c) => in_range(&c[2], 12) && in_range(&c[3], 31),
        };
        good += expected as usize;
        assert_eq!(is_valid_date(&date), expected, "{date:?}");
    }
    assert!(good > 30);
}

#[test]
fn sans_fit_their_pattern() {
    let pattern =
        Regex::new(r"^(O-O(-O)?|0-0(-0)?|[KQRBN]?[a-h]?[1-8]?x?[a-h][1-8](=[QRBN])?)$").unwrap();
    let pieces = ["K", "Q", "a", "h", "1", "8", "x", "=", "O", "-", "0", "i", "9", "k", "é"];
    let mut good = 0;
    for s in samples(&pieces, 8, 200_000) {
        let expected = pattern.is_match(&s);
        good += expected as usize;
        assert_eq!(is_san_syntax(&chars(&s)), expected, "{s:?}");
    }
    assert!(good > 50);
    for s in ["O-O", "O-O-O", "0-0", "0-0-0", "e4", "exd5", "Nf3", "Ng1f3", "e8=Q", "axb1=N", "1e4"] {
        assert!(is_san_syntax(&chars(s)), "{s}");
    }
}

#[test]
fn tag_lines_fit_their_pattern() {
    let pattern = Regex::new(r#"^\[([A-Za-z0-9_]+)\s+"((?:[^"\\]|\\.)*)"\]$"#).unwrap();
    let pieces =
        ["[", "]", "\"", "\\", " ", "\t", "a", "Z", "_", "7", "é", "[a ", "\"]", "[Event \"", "x\\\""];
    let mut good = 0;
    for s in samples(&pieces, 9, 100_000) {
        let expected = pattern.captures(&s).map(|c| (c[1].to_string(), c[2].to_string()));
        good += expected.is_some() as usize;
        let found = parse_tag(&chars(&s)).map(|(n, v)| (text(&n), text(&v)));
        assert_eq!(found, expected, "{s:?}");
    }
    assert!(good > 50);
}

#[test]
fn escapes_stand_before_quotes_and_backslashes_only() {
    for s in samples(&["\\", "\"", "a", "é"], 7, 20_000) {
        let mut valid = true;
        let mut plain = String::new();
        let mut rest = s.chars();
        while let Some(c) = rest.next() {
            if c == '\\' {
                match rest.next() {
                    Some(d) => {
                        valid &= d == '"' || d == '\\';
                        plain.push(d);
                    }
                    None => valid = false,
                }
            } else {
                plain.push(c);
            }
        }
        assert_eq!(has_valid_escapes(&chars(&s)), valid, "{s:?}");
        assert_eq!(text(&unescape_tag_value(&chars(&s))), plain, "{s:?}");
    }
}

#[test]
fn header_tags_are_found_as_the_pattern_finds_them() {
    let pattern = Regex::new(r#"\[(\w+)\s+"([^"]+)"\]"#).unwrap();
    let pieces = [
        "[", "]", "\"", " ", "\n", "k", "É", "٣", "x7", "♔", "[k \"", "\"]", "v", "[z\u{2003}\"", "1. e4",
    ];
    let prefix = "[White \"w\"][black \"b\"]";
    for s in samples(&pieces, 12, 4_000) {
        let pgn = format!("{prefix}{s}");
        let mut expected: HashMap<String, String> = HashMap::new();
        let mut end = 0;
        for c in pattern.captures_iter(&pgn) {
            end = c.get(0).unwrap().end();
            let key = c[1].to_string();
            if key != "White" && key != "black" {
                expected.insert(key, c[2].to_string());
            }
        }
        let (headers, at) = parse_headers(&chars(&pgn)).unwrap();
        assert_eq!(at, pgn[..end].chars().count(), "{pgn:?}");
        let found: HashMap<String, String> = headers.other.iter().cloned().collect();
        assert_eq!(found.len(), headers.other.len(), "{pgn:?}");
        assert_eq!(found, expected, "{pgn:?}");
        assert_eq!((headers.white.as_str(), headers.black.as_str()), ("w", "b"));
    }
}

#[test]
fn moves_are_found_as_the_patterns_find_them() {
    let braces = Regex::new(r"\{[^}]*\}").unwrap();
    let line_comments = Regex::new(r";[^\n]*").unwrap();
    let nags = Regex::new(r"\$\d+").unwrap();
    let number = Regex::new(r"^\d+\.+").unwrap();
    let quality = Regex::new(r"[!?]{1,2}$").unwrap();
    let result = Regex::new(r"^(1-0|0-1|1/2-1/2|\*)$").unwrap();
    let pieces = [
        "{", "}", ";", "\n", "$", "1", "٣", ".", "(", ")", "e4", " ", "!", "?", "1-0", "0-1", "1/2-1/2",
        "*", "\u{2003}", "Nf3", "...",
    ];
    for s in samples(&pieces, 16, 20_000) {
        let t = braces.replace_all(&s, " ").into_owned();
        let t = line_comments.replace_all(&t, " ").into_owned();
        let t = nags.replace_all(&t, " ").into_owned();
        let mut open: u32 = 0;
        let mut main = String::new();
        for c in t.chars() {
            match c {
                '(' => open += 1,
                ')' => open = open.saturating_sub(1),
                _ if open == 0 => main.push(c),
                _ => {}
            }
        }
        let expected: Vec<String> = main
            .split_whitespace()
            .map(|token| number.replace(token, "").into_owned())
            .map(|token| quality.replace(&token, "").into_owned())
            .filter(|token| !token.is_empty() && !result.is_match(token))
            .collect();
        assert_eq!(parse_moves(&chars(&s)), expected, "{s:?}");
    }
}

#[test]
fn tokens_are_classed_as_the_patterns_class_them() {
    let number = Regex::new(r"^(\d+)\.{1,3}$").unwrap();
    let result = Regex::new(r"^(1-0|0-1|1/2-1/2|\*)$").unwrap();
    let quality = Regex::new(r"[!?]{1,2}$").unwrap();
    let pieces = ["1", "0", "٣", ".", "-", "/2", "*", "e4", "!", "?", "99999", "1-0"];
    for s in samples(&pieces, 6, 20_000) {
        assert_eq!(text(&without_quality(&chars(&s))), quality.replace(&s, ""), "{s:?}");
        let item = classify_token(&chars(&s));
        if let Some(c) = number.captures(&s) {
            let n = c[1].parse::<u32>().unwrap_or(0);
            let d = s.matches('.').count();
            assert!(
                matches!(item, MovetextItem::Number { number, dots } if number == n && dots == d),
                "{s:?}"
            );
        } else if result.is_match(&s) {
            assert!(matches!(item, MovetextItem::Result(m) if m == s), "{s:?}");
        } else {
            assert!(matches!(item, MovetextItem::San(t) if t == s), "{s:?}");
        }
    }
}

#[test]
fn annotations_fit_their_patterns() {
    let annotation = Regex::new(r"\[%(\w+)([^\]]*)\]").unwrap();
    let eval = Regex::new(r"^\[%eval (#-?\d+|-?\d+(\.\d+)?)\]$").unwrap();
    let clock = Regex::new(r"^\[%clk \d+:\d{2}:\d{2}\]$").unwrap();
    let pieces = [
        "[%", "eval ", "clk ", "]", "#", "-", "1", "23", ".", ":", "0:04", ":05", " ", "٣", "x", "é",
        "[%eval ", "[%clk ", "[%clk 1:02:", "[%csl Ra4]",
    ];
    let (mut evals, mut clocks) = (0, 0);
    for s in samples(&pieces, 8, 30_000) {
        let mut expected = Vec::new();
        let mut seen = false;
        for c in annotation.captures_iter(&s) {
            seen = true;
            let whole = c[0].to_string();
            if &c[1] == "eval" {
                assert_eq!(is_eval_command(&chars(&whole)), eval.is_match(&whole), "{whole:?}");
                evals += eval.is_match(&whole) as usize;
                if !eval.is_match(&whole) {
                    expected.push(PgnValidationError::MalformedEvalAnnotation(whole));
                }
            } else if &c[1] == "clk" {
                assert_eq!(is_clock_command(&chars(&whole)), clock.is_match(&whole), "{whole:?}");
                clocks += clock.is_match(&whole) as usize;
                if !clock.is_match(&whole) {
                    expected.push(PgnValidationError::MalformedClockAnnotation(whole));
                }
            }
        }
        if s.contains("[%") && !seen {
            expected.push(PgnValidationError::MalformedAnnotation(s.clone()));
        }
        let mut found = Vec::new();
        validate_comment(&chars(&s), &mut found);
        assert_eq!(found, expected, "{s:?}");
    }
    assert!(evals > 20 && clocks > 3, "{evals} {clocks}");
}

#[test]
fn integers_and_widths_are_counted_to_their_limits() {
    for n in [i64::MIN, i64::MIN + 1, -10, -1, 0, 9, 10, i64::MAX] {
        assert_eq!(int_text(n), chars(&n.to_string()));
    }
    for text in ["", "abc", "\u{e9}\u{20ac}\u{1f600}"] {
        assert_eq!(width_up_to(&chars(text), usize::MAX - 4), text.len());
        assert_eq!(width_up_to(&chars(text), 1), text.len().min(2));
    }
}
