use knightverse::pgn::{
    export_pgn, export_pgn_validated, parse_pgn, strip_variations, validate_game, ExportHeaders,
    GameResult, MoveAnnotation, PgnError,
};
use knightverse::pgn_validator::is_valid_pgn_export;

#[test]
fn test_parse_simple_pgn() {
    let pgn = r#"[White "Magnus Carlsen"]
[Black "Hikaru Nakamura"]
[Result "1-0"]

1. e4 e5 2. Nf3 Nc6 3. Bb5 1-0"#;

    let result = parse_pgn(pgn);
    assert!(result.is_ok());

    let parsed = result.unwrap();
    assert_eq!(parsed.headers.white, "Magnus Carlsen");
    assert_eq!(parsed.headers.black, "Hikaru Nakamura");
    assert_eq!(parsed.headers.result, GameResult::WhiteWins);
    assert_eq!(parsed.moves.len(), 5);
}

#[test]
fn test_validate_legal_game() {
    let pgn = r#"[White "Player1"]
[Black "Player2"]
[Result "1-0"]

1. e4 e5 2. Nf3 Nc6 1-0"#;

    let parsed = parse_pgn(pgn).unwrap();
    let validated = validate_game(&parsed);

    assert!(validated.is_ok());
    let game = validated.unwrap();
    assert!(game.is_valid);
    assert_eq!(game.ply_count, 4);
}

#[test]
fn test_reject_illegal_move() {
    // Ke3 is illegal because the king cannot move to e3 from e1 in one move
    // (it would need to pass through e2)
    let pgn = r#"[White "Player1"]
[Black "Player2"]
[Result "*"]

1. e4 e5 2. Ke3 *"#;

    let parsed = parse_pgn(pgn).unwrap();
    let validated = validate_game(&parsed);

    assert!(validated.is_err());
    if let Err(PgnError::IllegalMove { move_text, .. }) = validated {
        assert_eq!(move_text, "Ke3");
    }
}

#[test]
fn test_missing_white_header() {
    let pgn = r#"[Black "Player2"]
[Result "1-0"]

1. e4 1-0"#;

    let result = parse_pgn(pgn);
    assert!(matches!(result, Err(PgnError::MissingHeader(_))));
}

#[test]
fn test_parse_headers_with_comments() {
    let pgn = r#"[White "Player1"]
[Black "Player2"]
[Result "1/2-1/2"]

1. e4 {Opening move} e5 2. Nf3 Nc6 1/2-1/2"#;

    let parsed = parse_pgn(pgn).unwrap();
    assert_eq!(parsed.moves.len(), 4);
    assert_eq!(parsed.headers.result, GameResult::Draw);
}

#[test]
fn test_parse_compact_move_numbers() {
    // Compact form: move number glued to the move (`1.e4`), as produced by
    // many exporters.
    let pgn = r#"[White "Player1"]
[Black "Player2"]
[Result "*"]

1.e4 e5 2.Nf3 Nc6 3.Bb5 *"#;

    let parsed = parse_pgn(pgn).unwrap();
    assert_eq!(parsed.moves, vec!["e4", "e5", "Nf3", "Nc6", "Bb5"]);
    assert!(validate_game(&parsed).is_ok());
}

#[test]
fn test_parse_compact_black_continuation() {
    // Black move-number continuation glued to the move (`1...e5`).
    let pgn = r#"[White "Player1"]
[Black "Player2"]
[Result "1-0"]

1.e4 {comment} 1...e5 2.Nf3 1-0"#;

    let parsed = parse_pgn(pgn).unwrap();
    assert_eq!(parsed.moves, vec!["e4", "e5", "Nf3"]);
}

#[test]
fn test_parse_two_digit_move_numbers() {
    let pgn = r#"[White "Player1"]
[Black "Player2"]
[Result "*"]

10.Ba2 Bb7 11.Qe2 *"#;

    let parsed = parse_pgn(pgn).unwrap();
    assert_eq!(parsed.moves, vec!["Ba2", "Bb7", "Qe2"]);
}

#[test]
fn test_parse_nested_variations() {
    // Variations nest. The whole variation is dropped and only the mainline
    // kept.
    let pgn = r#"[White "Player1"]
[Black "Player2"]
[Result "*"]

1.e4 e5 (1...c5 2.Nf3 (2.Nc3 Nc6) d6) 2.Nf3 Nc6 *"#;

    let parsed = parse_pgn(pgn).unwrap();
    assert_eq!(parsed.moves, vec!["e4", "e5", "Nf3", "Nc6"]);
    assert!(validate_game(&parsed).is_ok());
}

#[test]
fn test_strip_variations_handles_nesting_and_unbalanced() {
    assert_eq!(strip_variations("a (b (c) d) e"), "a  e");
    assert_eq!(strip_variations("x (1 (2 (3) 4) 5) y"), "x  y");
    // An unclosed group swallows the rest; a stray close is just dropped.
    assert_eq!(strip_variations("a (b c"), "a ");
    assert_eq!(strip_variations("a ) b"), "a  b");
}

#[test]
fn test_game_result_parsing() {
    assert_eq!(
        GameResult::from_pgn_string("1-0").unwrap(),
        GameResult::WhiteWins
    );
    assert_eq!(
        GameResult::from_pgn_string("0-1").unwrap(),
        GameResult::BlackWins
    );
    assert_eq!(
        GameResult::from_pgn_string("1/2-1/2").unwrap(),
        GameResult::Draw
    );
    assert_eq!(
        GameResult::from_pgn_string("*").unwrap(),
        GameResult::Ongoing
    );
}

// -----------------------------------------------------------------
// Export tests
// -----------------------------------------------------------------

fn sample_export_headers() -> ExportHeaders {
    ExportHeaders {
        event: "Rated Blitz Game".to_string(),
        site: "chess.example.com".to_string(),
        date: "2026.08.27".to_string(),
        round: "1".to_string(),
        white: "Magnus Carlsen".to_string(),
        black: "Hikaru Nakamura".to_string(),
        result: GameResult::WhiteWins,
        white_elo: Some(2839),
        black_elo: Some(2802),
        time_control: Some("300+3".to_string()),
        termination: Some("Normal".to_string()),
        start_fen: None,
        variant: None,
    }
}

fn sample_moves() -> Vec<MoveAnnotation> {
    vec![
        MoveAnnotation {
            san: "e4".to_string(),
            clock: Some("0:04:58".to_string()),
            ..Default::default()
        },
        MoveAnnotation {
            san: "e5".to_string(),
            clock: Some("0:04:57".to_string()),
            ..Default::default()
        },
        MoveAnnotation {
            san: "Nf3".to_string(),
            clock: Some("0:04:55".to_string()),
            eval_centipawns: Some(32),
            ..Default::default()
        },
        MoveAnnotation {
            san: "Nc6".to_string(),
            clock: Some("0:04:53".to_string()),
            eval_centipawns: Some(28),
            ..Default::default()
        },
        MoveAnnotation {
            san: "Bb5".to_string(),
            clock: Some("0:04:50".to_string()),
            classification: Some("!".to_string()),
            ..Default::default()
        },
    ]
}

#[test]
fn test_export_pgn_headers_present() {
    let pgn = export_pgn(sample_export_headers(), sample_moves(), false).unwrap();
    assert!(pgn.contains("[Event \"Rated Blitz Game\"]"));
    assert!(pgn.contains("[Site \"chess.example.com\"]"));
    assert!(pgn.contains("[Date \"2026.08.27\"]"));
    assert!(pgn.contains("[Round \"1\"]"));
    assert!(pgn.contains("[White \"Magnus Carlsen\"]"));
    assert!(pgn.contains("[Black \"Hikaru Nakamura\"]"));
    assert!(pgn.contains("[WhiteElo \"2839\"]"));
    assert!(pgn.contains("[BlackElo \"2802\"]"));
    assert!(pgn.contains("[TimeControl \"300+3\"]"));
    assert!(pgn.contains("[Termination \"Normal\"]"));
    assert!(pgn.contains("[Result \"1-0\"]"));
}

#[test]
fn test_export_pgn_roundtrips_through_parser() {
    let pgn = export_pgn(sample_export_headers(), sample_moves(), false).unwrap();
    let parsed = parse_pgn(&pgn).unwrap();
    let validated = validate_game(&parsed).unwrap();
    assert!(validated.is_valid);
    assert_eq!(validated.moves, vec!["e4", "e5", "Nf3", "Nc6", "Bb5"]);
}

#[test]
fn test_export_pgn_includes_clock_and_eval_when_requested() {
    let pgn = export_pgn(sample_export_headers(), sample_moves(), true).unwrap();
    assert!(pgn.contains("[%clk 0:04:58]"));
    assert!(pgn.contains("[%eval 0.32]"));
    // Result string still parses cleanly with annotations present.
    let parsed = parse_pgn(&pgn).unwrap();
    assert!(validate_game(&parsed).is_ok());
}

#[test]
fn test_export_pgn_omits_analysis_when_not_requested() {
    let pgn = export_pgn(sample_export_headers(), sample_moves(), false).unwrap();
    assert!(!pgn.contains("%clk"));
    assert!(!pgn.contains("%eval"));
}

#[test]
fn test_export_pgn_recomputes_check_suffix() {
    // Scholar's mate — bare SANs supplied with no +/# suffix; the
    // builder must recompute "Qxf7#" itself.
    let moves = vec![
        MoveAnnotation {
            san: "e4".to_string(),
            ..Default::default()
        },
        MoveAnnotation {
            san: "e5".to_string(),
            ..Default::default()
        },
        MoveAnnotation {
            san: "Bc4".to_string(),
            ..Default::default()
        },
        MoveAnnotation {
            san: "Nc6".to_string(),
            ..Default::default()
        },
        MoveAnnotation {
            san: "Qh5".to_string(),
            ..Default::default()
        },
        MoveAnnotation {
            san: "Nf6".to_string(),
            ..Default::default()
        },
        MoveAnnotation {
            san: "Qxf7".to_string(),
            ..Default::default()
        },
    ];
    let mut headers = sample_export_headers();
    headers.result = GameResult::WhiteWins;

    let pgn = export_pgn(headers, moves, false).unwrap();
    assert!(pgn.contains("Qxf7#"));
}

#[test]
fn test_export_pgn_check_suffix_non_mating() {
    // A mid-game check that is not mate should get "+", never "#".
    // 1.e4 c5 2.Nf3 d6 3.Bb5+ — the classic Rossolimo/Moscow check: by
    // move 3 both c6 and d7 are vacated, so the bishop's diagonal to e8
    // is open (unlike e.g. 1.e4 e6 2.Bb5, which stays blocked by the
    // still-present d7 pawn).
    let moves = vec![
        MoveAnnotation {
            san: "e4".to_string(),
            ..Default::default()
        },
        MoveAnnotation {
            san: "c5".to_string(),
            ..Default::default()
        },
        MoveAnnotation {
            san: "Nf3".to_string(),
            ..Default::default()
        },
        MoveAnnotation {
            san: "d6".to_string(),
            ..Default::default()
        },
        MoveAnnotation {
            san: "Bb5".to_string(),
            ..Default::default()
        },
    ];
    let mut headers = sample_export_headers();
    headers.result = GameResult::Ongoing;

    let pgn = export_pgn(headers, moves, false).unwrap();
    assert!(pgn.contains("Bb5+"));
    assert!(!pgn.contains("Bb5#"));
}

#[test]
fn test_export_pgn_rejects_missing_white() {
    let mut headers = sample_export_headers();
    headers.white = String::new();
    let result = export_pgn(headers, sample_moves(), false);
    assert!(matches!(result, Err(PgnError::MissingHeader(_))));
}

#[test]
fn test_export_pgn_rejects_missing_black() {
    let mut headers = sample_export_headers();
    headers.black = String::new();
    let result = export_pgn(headers, sample_moves(), false);
    assert!(matches!(result, Err(PgnError::MissingHeader(_))));
}

#[test]
fn test_export_pgn_rejects_illegal_move_sequence() {
    let moves = vec![MoveAnnotation {
        san: "Ke3".to_string(),
        ..Default::default()
    }];
    let result = export_pgn(sample_export_headers(), moves, false);
    assert!(matches!(result, Err(PgnError::IllegalMove { .. })));
}

#[test]
fn test_export_pgn_handles_no_moves() {
    let mut headers = sample_export_headers();
    headers.result = GameResult::Ongoing;
    let pgn = export_pgn(headers, vec![], false).unwrap();
    assert!(pgn.contains("[Result \"*\"]"));
    assert!(pgn.trim_end().ends_with('*'));
}

#[test]
fn test_export_pgn_emits_chess960_setup_tags() {
    // A valid Chess960 back rank: rooks on the a/h files, king between
    // them, bishops on opposite colours.
    let fen = "rnkbbqnr/pppppppp/8/8/8/8/PPPPPPPP/RNKBBQNR w KQkq - 0 1";
    let mut headers = sample_export_headers();
    headers.result = GameResult::Ongoing;
    headers.termination = Some("Unterminated".to_string());
    headers.variant = Some("Chess960".to_string());
    headers.start_fen = Some(fen.to_string());

    let pgn = export_pgn(headers, vec![MoveAnnotation {
        san: "Nc3".to_string(),
        ..Default::default()
    }], false)
    .unwrap();

    assert!(pgn.contains("[Variant \"Chess960\"]"));
    assert!(pgn.contains("[SetUp \"1\"]"));
    assert!(pgn.contains(format!("[FEN \"{fen}\"]").as_str()));
    // Moves are replayed from the Chess960 position, not the standard one.
    assert!(pgn.contains("1. Nc3 *"));
}

#[test]
fn test_export_pgn_supports_custom_start_position() {
    let fen = "8/8/8/4k3/8/8/4P3/4K3 w - - 0 1";
    let mut headers = sample_export_headers();
    headers.result = GameResult::Ongoing;
    headers.termination = Some("Unterminated".to_string());
    headers.variant = Some("Custom".to_string());
    headers.start_fen = Some(fen.to_string());

    let pgn = export_pgn(headers, vec![MoveAnnotation {
        san: "Kd1".to_string(),
        ..Default::default()
    }], false)
    .unwrap();

    assert!(pgn.contains(format!("[FEN \"{fen}\"]").as_str()));
    assert!(pgn.contains("1. Kd1 *"));
}

#[test]
fn test_export_pgn_rejects_invalid_start_fen() {
    let mut headers = sample_export_headers();
    headers.start_fen = Some("this is not a fen".to_string());
    let result = export_pgn(headers, sample_moves(), false);
    assert!(matches!(result, Err(PgnError::InvalidFormat(_))));
}

#[test]
fn test_export_pgn_validated_accepts_clean_export() {
    let pgn = export_pgn_validated(sample_export_headers(), sample_moves(), false).unwrap();
    assert!(is_valid_pgn_export(&pgn));
}

#[test]
fn test_export_pgn_validated_rejects_missing_termination_tag() {
    let mut headers = sample_export_headers();
    headers.termination = None;
    let result = export_pgn_validated(headers, sample_moves(), false);
    assert!(matches!(result, Err(PgnError::InvalidFormat(_))));
}
