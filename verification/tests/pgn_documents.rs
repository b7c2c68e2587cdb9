use knightverse::pgn::{
    export_pgn, export_pgn_validated, parse_pgn, strip_variations, validate_game, ExportHeaders,
    GameResult, MoveAnnotation, PgnBuilder, PgnError, PgnHeaders,
};
use knightverse::pgn_tags::get_tag;
use knightverse::pgn_validator::{
    is_valid_pgn_export, lint_pgn_export, validate_pgn_export, PgnValidationError,
    PgnValidationReport, SEVEN_TAG_ROSTER,
};

fn players(result: GameResult) -> ExportHeaders {
    ExportHeaders {
        white: "Ann".to_string(),
        black: "Bea".to_string(),
        result,
        termination: Some("Normal".to_string()),
        ..Default::default()
    }
}

fn plies(sans: &[&str]) -> Vec<MoveAnnotation> {
    sans.iter().map(|s| MoveAnnotation { san: s.to_string(), ..Default::default() }).collect()
}

fn document(movetext: &str) -> String {
    document_with("*", "Unterminated", "", movetext)
}

fn document_with(result: &str, termination: &str, more: &str, movetext: &str) -> String {
    format!(
        "[Event \"E\"]\n[Site \"S\"]\n[Date \"2026.01.31\"]\n[Round \"1\"]\n[White \"A\"]\n\
         [Black \"B\"]\n[Result \"{result}\"]\n[Termination \"{termination}\"]\n{more}\n{movetext}"
    )
}

fn lint(pgn: &str) -> Vec<PgnValidationError> {
    lint_pgn_export(pgn).errors
}

fn s(text: &str) -> String {
    text.to_string()
}

// ---------------------------------------------------------------------------
// Parsing
// ---------------------------------------------------------------------------

#[test]
fn results_read_back_from_their_markers() {
    for r in [GameResult::WhiteWins, GameResult::BlackWins, GameResult::Draw, GameResult::Ongoing] {
        let marker = r.to_pgn_string();
        assert_eq!(GameResult::from_pgn_string(marker).unwrap(), r);
        assert_eq!(GameResult::from_pgn_string(&format!("\u{2003}{marker}\n")).unwrap(), r);
    }
    assert!(matches!(
        GameResult::from_pgn_string(" 2-0 "),
        Err(PgnError::InvalidResult(t)) if t == "2-0"
    ));
    assert_eq!(GameResult::default(), GameResult::Ongoing);
}

#[test]
fn parse_failures_say_what_is_missing() {
    assert!(matches!(parse_pgn(" \n\t"), Err(PgnError::EmptyPgn)));
    assert!(matches!(
        parse_pgn("1. e4 *"),
        Err(PgnError::MissingHeader(t)) if t == "White"
    ));
    assert!(matches!(
        parse_pgn("[White \"A\"]\n1. e4 *"),
        Err(PgnError::MissingHeader(t)) if t == "Black"
    ));
    assert!(matches!(
        parse_pgn("[White \"A\"]\n[Black \"B\"]\n[Result \"won\"]\n1. e4 *"),
        Err(PgnError::InvalidResult(t)) if t == "won"
    ));
}

#[test]
fn headers_are_kept_by_name() {
    let game = parse_pgn(
        "[EVENT \"E\"]\n[site \"S\"]\n[Date \"D\"]\n[Round \"R\"]\n[White \"A\"]\n[White \"A2\"]\n\
         [Black \"B\"]\n[Result \"0-1\"]\n[ECO \"C20\"]\n[eco \"x\"]\n[ECO \"C21\"]\n\n1. e4 0-1",
    )
    .unwrap();
    assert_eq!(game.headers.event.as_deref(), Some("E"));
    assert_eq!(game.headers.site.as_deref(), Some("S"));
    assert_eq!(game.headers.date.as_deref(), Some("D"));
    assert_eq!(game.headers.round.as_deref(), Some("R"));
    assert_eq!(game.headers.white, "A2");
    assert_eq!(game.headers.result, GameResult::BlackWins);
    let mut other = game.headers.other.clone();
    other.sort();
    assert_eq!(other, vec![(s("ECO"), s("C21")), (s("eco"), s("x"))]);
    assert_eq!(game.moves, vec!["e4"]);
    assert_eq!((game.final_fen.as_str(), game.ply_count), ("", 1));

    let empty = PgnHeaders::default();
    assert!(empty.white.is_empty() && empty.other.is_empty() && empty.event.is_none());
}

#[test]
fn a_mainline_without_parentheses_is_kept_as_it_is() {
    assert_eq!(strip_variations("1. e4 e5 {x} ♔"), "1. e4 e5 {x} ♔");
    assert_eq!(strip_variations("((a)b)c)d(e"), "cd");
}

#[test]
fn replayed_games_end_in_a_published_position() {
    let game = |moves: &str| parse_pgn(&format!("[White \"A\"]\n[Black \"B\"]\n\n{moves}")).unwrap();
    let fen = |moves: &str| validate_game(&game(moves)).unwrap().final_fen;
    assert_eq!(fen("*"), "rnbqkbnr/pppppppp/8/8/8/8/PPPPPPPP/RNBQKBNR w KQkq - 0 1");
    // No pawn can capture en passant, so no square is published.
    assert_eq!(fen("1. e4 *"), "rnbqkbnr/pppppppp/8/8/4P3/8/PPPP1PPP/RNBQKBNR b KQkq - 0 1");
    // Here one can.
    assert_eq!(
        fen("1. e4 a6 2. e5 d5 *"),
        "rnbqkbnr/1pp1pppp/p7/3pP3/8/8/PPPP1PPP/RNBQKBNR w KQkq d6 0 3"
    );
    assert_eq!(
        fen("1. e4 e5 2. Nf3 Nc6 *"),
        "r1bqkbnr/pppp1ppp/2n5/4p3/4P3/5N2/PPPP1PPP/RNBQKB1R w KQkq - 2 3"
    );

    let validated = validate_game(&game("1. e4 e5 2. Nf3 *")).unwrap();
    assert!(validated.is_valid);
    assert_eq!(validated.ply_count, 3);
    assert_eq!(validated.moves, vec!["e4", "e5", "Nf3"]);
    assert_eq!(validated.headers.white, "A");

    let fault = |moves: &str| validate_game(&game(moves)).unwrap_err();
    assert!(matches!(
        fault("1. e4 e5 2. banana *"),
        PgnError::IllegalMove { move_number: 2, move_text, reason }
            if move_text == "banana" && reason == "Invalid move notation"
    ));
    assert!(matches!(
        fault("1. e4 Ke6 *"),
        PgnError::IllegalMove { move_number: 1, move_text, reason }
            if move_text == "Ke6" && reason == "Move is not legal in this position"
    ));
    // Nothing can be played after mate.
    assert!(matches!(
        fault("1. f3 e5 2. g4 Qh4# 3. a3 *"),
        PgnError::IllegalMove { move_number: 3, .. }
    ));
}

#[test]
fn parse_errors_have_messages() {
    for (error, message) in [
        (PgnError::InvalidFormat(s("x")), "Invalid PGN format: x"),
        (PgnError::MissingHeader(s("White")), "Missing required header: White"),
        (PgnError::InvalidHeader(s("x")), "Invalid header format: x"),
        (
            PgnError::IllegalMove { move_number: 12, move_text: s("Ke3"), reason: s("no") },
            "Illegal move at move 12: 'Ke3' - no",
        ),
        (PgnError::InvalidResult(s("x")), "Invalid result format: x"),
        (PgnError::EmptyPgn, "Empty PGN string"),
    ] {
        assert_eq!(error.message(), message);
    }
}

// ---------------------------------------------------------------------------
// Export
// ---------------------------------------------------------------------------

#[test]
fn a_document_is_tags_a_blank_line_and_movetext() {
    let headers = ExportHeaders {
        event: s("She said \"hi\" \\o/"),
        white_elo: Some(-5),
        time_control: Some(s("300+3")),
        ..players(GameResult::Ongoing)
    };
    let pgn = export_pgn(headers, plies(&["e4", "c5"]), false).unwrap();
    assert_eq!(
        pgn,
        "[Event \"She said \\\"hi\\\" \\\\o/\"]\n[Site \"?\"]\n[Date \"????.??.??\"]\n[Round \"?\"]\n\
         [White \"Ann\"]\n[Black \"Bea\"]\n[Result \"*\"]\n[WhiteElo \"-5\"]\n\
         [TimeControl \"300+3\"]\n[Termination \"Normal\"]\n\n1. e4 c5 *\n"
    );
}

#[test]
fn a_game_that_black_starts_is_numbered_with_three_dots() {
    let headers = ExportHeaders {
        start_fen: Some(s("rnbqkbnr/pppppppp/8/8/4P3/8/PPPP1PPP/RNBQKBNR b KQkq - 0 7")),
        ..players(GameResult::Ongoing)
    };
    let pgn = export_pgn(headers, plies(&["e5", "Nf3", "Nc6", "Bb5"]), false).unwrap();
    assert!(pgn.ends_with("\n\n7... e5 8. Nf3 Nc6 9. Bb5 *\n"), "{pgn}");
}

#[test]
fn stored_check_marks_are_recomputed() {
    let pgn = export_pgn(
        players(GameResult::BlackWins),
        plies(&["f3+", "e5", "g4#", "Qh4"]),
        false,
    )
    .unwrap();
    assert!(pgn.ends_with("1. f3 e5 2. g4 Qh4# 0-1\n"), "{pgn}");
    // And a long form is written in its canonical short one.
    let pgn = export_pgn(players(GameResult::Ongoing), plies(&["Ng1f3"]), false).unwrap();
    assert!(pgn.ends_with("1. Nf3 *\n"), "{pgn}");
}

#[test]
fn castling_is_written_as_castling() {
    let headers = ExportHeaders {
        start_fen: Some(s("r3k2r/8/8/8/8/8/8/R3K2R w KQkq - 0 1")),
        ..players(GameResult::Ongoing)
    };
    let pgn = export_pgn(headers, plies(&["O-O", "O-O-O"]), false).unwrap();
    assert!(pgn.ends_with("1. O-O O-O-O *\n"), "{pgn}");
}

#[test]
fn evaluations_are_written_in_pawns() {
    let tag = |cp: Option<i32>, mate: Option<i32>| {
        PgnBuilder::format_eval_tag(&MoveAnnotation {
            eval_centipawns: cp,
            eval_mate: mate,
            ..Default::default()
        })
    };
    for cp in [0, 1, -1, 9, 10, -5, 32, 99, 100, -100, 101, 1234, -98765, i32::MAX, i32::MIN] {
        assert_eq!(tag(Some(cp), None), Some(format!("[%eval {:.2}]", cp as f64 / 100.0)));
    }
    assert_eq!(tag(Some(-5), None).as_deref(), Some("[%eval -0.05]"));
    assert_eq!(tag(Some(5), Some(-3)).as_deref(), Some("[%eval #-3]"));
    assert_eq!(tag(None, None), None);
    assert_eq!(PgnBuilder::format_clk_tag("0:01:02"), "[%clk 0:01:02]");
    assert_eq!(PgnBuilder::escape_tag_value("a\\\"b"), "a\\\\\\\"b");
    assert_eq!(PgnBuilder::tag("ECO", "C20"), "[ECO \"C20\"]\n");
}

#[test]
fn annotations_stand_behind_their_move() {
    let moves = vec![
        MoveAnnotation {
            san: s("e4"),
            clock: Some(s("0:04:58")),
            eval_centipawns: Some(32),
            classification: Some(s("!?")),
            ..Default::default()
        },
        MoveAnnotation { san: s("e5"), ..Default::default() },
    ];
    let pgn = export_pgn(players(GameResult::Ongoing), moves.clone(), true).unwrap();
    assert!(pgn.ends_with("1. e4!? { [%eval 0.32] [%clk 0:04:58] } e5 *\n"), "{pgn}");
    let pgn = export_pgn(players(GameResult::Ongoing), moves, false).unwrap();
    assert!(pgn.ends_with("1. e4!? e5 *\n"), "{pgn}");
}

#[test]
fn movetext_lines_fit_the_width() {
    let sans: Vec<&str> = ["Nf3", "Nf6", "Ng1", "Ng8"].iter().cycle().take(120).copied().collect();
    let pgn = PgnBuilder::new(players(GameResult::Ongoing), plies(&sans), false).build().unwrap();
    let (_, movetext) = pgn.split_once("\n\n").unwrap();
    let lines: Vec<&str> = movetext.trim_end().split('\n').collect();
    assert!(lines.len() > 5);
    for pair in lines.windows(2) {
        assert!(pair[0].len() <= 80);
        // No line is broken before it must be.
        let word = pair[1].split(' ').next().unwrap();
        assert!(pair[0].len() + 1 + word.len() > 80);
    }
    assert!(lines.join(" ").starts_with("1. Nf3 Nf6 2. Ng1 Ng8 3. Nf3"));
    let parsed = parse_pgn(&pgn).unwrap();
    assert_eq!(parsed.moves, sans);
}

#[test]
fn a_start_position_must_be_a_legal_one() {
    let start = |fen: &str| {
        export_pgn(
            ExportHeaders { start_fen: Some(s(fen)), ..players(GameResult::Ongoing) },
            vec![],
            false,
        )
    };
    assert!(matches!(
        start("nonsense"),
        Err(PgnError::InvalidFormat(t)) if t.starts_with("invalid start FEN: ")
    ));
    assert!(matches!(
        start("8/8/8/8/8/8/8/8 w - - 0 1"),
        Err(PgnError::InvalidFormat(t)) if t.starts_with("illegal start position: ")
    ));
}

#[test]
fn exports_read_back_and_pass_the_strict_checks() {
    let headers = ExportHeaders {
        event: s("Ünïcode \\ Cup"),
        date: s("2026.02.03"),
        black_elo: Some(1500),
        ..players(GameResult::WhiteWins)
    };
    let mut moves = plies(&["e4", "e5", "Bc4", "Nc6", "Qh5", "Nf6", "Qxf7"]);
    moves[0].clock = Some(s("1:02:03"));
    moves[1].eval_mate = Some(2);
    moves[2].classification = Some(s("!!"));
    for analysis in [false, true] {
        let pgn = export_pgn_validated(headers.clone(), moves.clone(), analysis).unwrap();
        let parsed = parse_pgn(&pgn).unwrap();
        assert_eq!(parsed.moves, vec!["e4", "e5", "Bc4", "Nc6", "Qh5", "Nf6", "Qxf7#"]);
        assert_eq!(parsed.headers.white, "Ann");
        assert_eq!(parsed.headers.event.as_deref(), Some("Ünïcode \\\\ Cup"));
        assert_eq!(parsed.headers.result, GameResult::WhiteWins);
        let replayed = validate_game(&parsed).unwrap();

        let strict = validate_pgn_export(&pgn).unwrap();
        assert_eq!(strict.final_fen, replayed.final_fen);
        assert_eq!(strict.movetext, parsed.moves);
        assert!(strict.is_checkmate && !strict.is_stalemate);
        assert_eq!(get_tag(&strict.tags, "Event"), Some("Ünïcode \\ Cup"));
        assert_eq!(get_tag(&strict.tags, "BlackElo"), Some("1500"));
        assert_eq!(get_tag(&strict.tags, "Nope"), None);
    }
}

#[test]
fn a_rejected_export_says_why() {
    let headers = ExportHeaders { termination: None, date: s("2026.02.03"), ..players(GameResult::Ongoing) };
    assert!(matches!(
        export_pgn_validated(headers, plies(&["e4"]), false),
        Err(PgnError::InvalidFormat(t)) if t == "missing Termination tag"
    ));
}

// ---------------------------------------------------------------------------
// Strict checks
// ---------------------------------------------------------------------------

#[test]
fn the_roster_is_the_standard_one() {
    assert_eq!(
        SEVEN_TAG_ROSTER,
        ["Event", "Site", "Date", "Round", "White", "Black", "Result"]
    );
}

#[test]
fn blank_documents_are_empty() {
    for pgn in ["", "\n\n", " \t\r\n\r", "\u{2003}\n"] {
        assert_eq!(lint(pgn), vec![PgnValidationError::EmptyDocument]);
        assert!(matches!(validate_pgn_export(pgn), Err(PgnValidationError::EmptyDocument)));
    }
    let report = PgnValidationReport::default();
    assert!(report.errors.is_empty() && report.validated.is_none() && !report.is_valid());
}

#[test]
fn line_ends_of_any_kind_will_do() {
    let pgn = document("1. e4 e5 *");
    assert!(is_valid_pgn_export(&pgn));
    assert!(is_valid_pgn_export(&pgn.replace('\n', "\r\n")));
    assert!(is_valid_pgn_export(&pgn.replace('\n', "\r")));
    assert!(is_valid_pgn_export(&format!("\n \n{pgn}\n\n")));
}

#[test]
fn tag_faults_are_named() {
    let with = |line: &str| lint(&document_with("*", "Unterminated", line, "1. e4 *"));
    assert_eq!(with("[ECO C20]\n"), vec![PgnValidationError::InvalidTagSyntax(s("[ECO C20]"))]);
    assert_eq!(
        with("[ECO \"a\\b\"]  \n"),
        vec![PgnValidationError::InvalidTagEscapeSequence(s("[ECO \"a\\b\"]"))]
    );
    assert_eq!(with("[Round \"2\"]\n"), vec![PgnValidationError::DuplicateTag(s("Round"))]);
    assert_eq!(with("[ECO \"a\\\\\\\"b\"]\n"), vec![]);

    let date = |d: &str| lint(&document("1. e4 *").replace("2026.01.31", d));
    assert_eq!(date("2026.13.01"), vec![PgnValidationError::InvalidDate(s("2026.13.01"))]);
    assert_eq!(date("????.??.??"), vec![]);

    let result = lint(&document("1. e4 *").replace("[Result \"*\"]", "[Result \"2-0\"]"));
    assert_eq!(
        result,
        vec![
            PgnValidationError::InvalidResultValue(s("2-0")),
            PgnValidationError::ResultHeaderMismatch { header: s("2-0"), terminator: s("*") },
        ]
    );
}

#[test]
fn the_roster_comes_first_and_in_order() {
    let swapped = document("1. e4 *")
        .replace("[White \"A\"]\n[Black \"B\"]\n", "[Black \"B\"]\n[White \"A\"]\n");
    assert_eq!(
        lint(&swapped),
        vec![PgnValidationError::SevenTagRosterOutOfOrder { expected: s("White"), found: s("Black") }]
    );
    let early = document("1. e4 *").replace("[White", "[ECO \"C20\"]\n[White");
    assert_eq!(
        lint(&early),
        vec![PgnValidationError::SevenTagRosterOutOfOrder { expected: s("Result"), found: s("Black") }]
    );
    assert_eq!(
        lint("1. e4 *"),
        SEVEN_TAG_ROSTER
            .iter()
            .map(|t| PgnValidationError::MissingSevenTagRosterTag(s(t)))
            .chain([PgnValidationError::MissingTerminationTag])
            .collect::<Vec<_>>()
    );
}

#[test]
fn start_positions_need_both_tags() {
    let with = |tags: &str, moves: &str| lint(&document_with("*", "Unterminated", tags, moves));
    let fen = "8/8/8/4k3/8/8/4P3/4K3 w - - 0 1";
    assert_eq!(
        with(&format!("[SetUp \"0\"]\n[FEN \"{fen}\"]\n"), "1. e4 *"),
        vec![PgnValidationError::InvalidSetupValue(s("0"))]
    );
    assert!(matches!(
        with("[SetUp \"1\"]\n[FEN \"x\"]\n", "1. e4 *").as_slice(),
        [PgnValidationError::InvalidStartFen(t)] if !t.is_empty()
    ));
    assert!(matches!(
        with("[SetUp \"1\"]\n[FEN \"8/8/8/8/8/8/8/8 w - - 0 1\"]\n", "1. e4 *").as_slice(),
        [PgnValidationError::InvalidStartFen(t)] if !t.is_empty()
    ));
    assert_eq!(with(&format!("[SetUp \"1\"]\n[FEN \"{fen}\"]\n"), "1. Kd1 *"), vec![]);
    assert_eq!(with("[Variant \"CHESS\"]\n", "1. e4 *"), vec![]);
    assert_eq!(with("[Variant \"Standard\"]\n", "1. e4 *"), vec![]);
    assert_eq!(
        with("[Variant \"Atomic\"]\n", "1. e4 *"),
        vec![PgnValidationError::VariantWithoutStartPosition(s("Atomic"))]
    );
}

#[test]
fn movetext_faults_are_named_with_their_ply() {
    for (movetext, errors) in [
        (
            "1. e4 e5 3. Nf3 *",
            vec![PgnValidationError::MoveNumberOutOfSequence { ply: 2, expected: 2, found: 3 }],
        ),
        (
            "1... e4 *",
            vec![PgnValidationError::InvalidMoveNumberFormat { ply: 0, token: s("1...") }],
        ),
        ("1. e4 1... e5 *", vec![]),
        (
            "1. e4 1. e5 *",
            vec![PgnValidationError::InvalidMoveNumberFormat { ply: 1, token: s("1.") }],
        ),
        ("e4 e5 *", vec![PgnValidationError::MissingMoveNumber { ply: 0 }]),
        ("1. e4 e5 2. *", vec![PgnValidationError::MissingMoveAfterNumber { ply: 2 }]),
        ("1. 1. e4 *", vec![PgnValidationError::UnexpectedMoveNumber { ply: 0 }]),
        ("1. Zq9 *", vec![PgnValidationError::InvalidMoveSyntax { ply: 0, token: s("Zq9") }]),
        ("1. 0-0 *", vec![PgnValidationError::InvalidMoveSyntax { ply: 0, token: s("0-0") }]),
        ("1. e4 $ e5 *", vec![PgnValidationError::InvalidMoveSyntax { ply: 0, token: s("$") }]),
        ("1. e4 $12 e5! ; all the rest\n*", vec![]),
        (
            "1. e4 e5 2. Ng1f3 *",
            vec![PgnValidationError::NonCanonicalSan { ply: 2, expected: s("Nf3"), found: s("Ng1f3") }],
        ),
        (
            "1. e4 c5 2. Nf3 d6 3. Bb5 *",
            vec![PgnValidationError::IncorrectCheckSuffix {
                ply: 4,
                expected: s("Bb5+"),
                found: s("Bb5"),
            }],
        ),
        ("1. e4 (1. d4 (1. c4)) (x) e5 *", vec![PgnValidationError::VariationsNotAllowed]),
        ("1. e4 } e5 ) *", vec![PgnValidationError::UnbalancedComment; 2]),
        (
            "1. e4 { open *",
            vec![
                PgnValidationError::UnbalancedComment,
                PgnValidationError::MissingTerminationMarker,
            ],
        ),
        ("1. e4 {[%} *", vec![PgnValidationError::MalformedAnnotation(s("[%"))]),
        (
            "1. e4 * 1-0",
            vec![PgnValidationError::TokenAfterTermination(s("1-0"))],
        ),
        ("1. e4 * 2.. x", vec![PgnValidationError::TokenAfterTermination(s("2.."))]),
    ] {
        assert_eq!(lint(&document(movetext)), errors, "{movetext}");
    }
    assert!(matches!(
        lint(&document("1. e4 e5 2. Ke3 *")).as_slice(),
        [PgnValidationError::IllegalMove { ply: 2, token, reason }]
            if token == "Ke3" && !reason.is_empty()
    ));
    assert_eq!(
        lint(&document("1. f3 e5 2. g4 Qh4# 3. a3 *")),
        vec![
            PgnValidationError::MovesAfterGameOver { ply: 4 },
            PgnValidationError::ResultPositionMismatch { result: s("*"), position: s("checkmate") },
        ]
    );
    assert_eq!(
        lint(&document("1. f3 e5 2. g4 Qh4# 3. a3 0-1")),
        vec![
            PgnValidationError::MovesAfterGameOver { ply: 4 },
            PgnValidationError::ResultHeaderMismatch { header: s("*"), terminator: s("0-1") },
            PgnValidationError::ResultPositionMismatch { result: s("*"), position: s("checkmate") },
        ]
    );
    assert_eq!(
        lint(&document("1. f3 e5 2. g4 Qh4# 3. a3")),
        vec![
            PgnValidationError::MovesAfterGameOver { ply: 4 },
            PgnValidationError::MissingTerminationMarker,
            PgnValidationError::ResultPositionMismatch { result: s("*"), position: s("checkmate") },
        ]
    );
}

#[test]
fn endings_must_fit_the_result_and_the_position() {
    let ending = |result: &str, termination: &str, movetext: &str| {
        lint(&document_with(result, termination, "", movetext))
    };
    let mismatch = |termination: &str, result: &str| {
        vec![PgnValidationError::TerminationResultMismatch {
            termination: s(termination),
            result: s(result),
        }]
    };
    assert_eq!(ending("1-0", "RESIGNATION", "1. e4 1-0"), vec![]);
    assert_eq!(ending("*", "Resignation", "1. e4 *"), mismatch("Resignation", "*"));
    assert_eq!(ending("1/2-1/2", "timeout", "1. e4 1/2-1/2"), mismatch("timeout", "1/2-1/2"));
    assert_eq!(ending("1-0", "Unterminated", "1. e4 1-0"), mismatch("Unterminated", "1-0"));
    assert_eq!(ending("1-0", "Stalemate", "1. e4 1-0"), mismatch("Stalemate", "1-0"));
    assert_eq!(
        ending("1/2-1/2", "Stalemate", "1. e4 1/2-1/2"),
        vec![PgnValidationError::StalemateClaimButNotStalemate]
    );
    assert_eq!(ending("0-1", "Fifty-move rule", "1. e4 0-1"), mismatch("Fifty-move rule", "0-1"));
    assert_eq!(
        ending("1/2-1/2", "50-move rule", "1. Nf3 1/2-1/2"),
        vec![PgnValidationError::FiftyMoveRuleNotSatisfied { halfmoves: 1 }]
    );
    assert_eq!(ending("1-0", "Agreement", "1. e4 1-0"), vec![]);
    assert_eq!(
        ending("1-0", "Magic", "1. e4 1-0"),
        vec![PgnValidationError::InvalidTerminationValue(s("Magic"))]
    );
    assert_eq!(
        ending("1-0", "Normal", "1. f3 e5 2. g4 Qh4# 1-0"),
        vec![PgnValidationError::ResultPositionMismatch { result: s("1-0"), position: s("checkmate") }]
    );
    assert_eq!(ending("0-1", "Normal", "1. f3 e5 2. g4 Qh4# 0-1"), vec![]);
    let stalemate = document_with(
        "1-0",
        "Normal",
        "[SetUp \"1\"]\n[FEN \"k7/2K5/8/8/8/8/8/1Q6 w - - 0 1\"]\n",
        "1. Qb6 1-0",
    );
    assert_eq!(
        lint(&stalemate),
        vec![PgnValidationError::ResultPositionMismatch { result: s("1-0"), position: s("stalemate") }]
    );
}

#[test]
fn a_clean_report_holds_the_game_and_a_dirty_one_does_not() {
    let report = lint_pgn_export(&document("1. e4 e5 2. Nf3 Nc6 *"));
    assert!(report.is_valid());
    let game = report.validated.unwrap();
    assert_eq!(game.tags.len(), 8);
    assert_eq!(game.tags[7], (s("Termination"), s("Unterminated")));
    assert_eq!(game.movetext, vec!["e4", "e5", "Nf3", "Nc6"]);
    assert_eq!((game.ply_count, game.halfmoves), (4, 2));
    assert_eq!(game.result, GameResult::Ongoing);
    assert_eq!(game.termination, "Unterminated");
    assert_eq!(game.variant, None);
    assert_eq!(
        game.final_fen,
        "r1bqkbnr/pppp1ppp/2n5/4p3/4P3/5N2/PPPP1PPP/RNBQKB1R w KQkq - 2 3"
    );

    let report = lint_pgn_export(&document("1. e4 e4 *"));
    assert!(!report.is_valid() && report.validated.is_none() && !report.errors.is_empty());
    assert_eq!(
        validate_pgn_export(&document("1. e4 e4 *")).unwrap_err(),
        report.errors[0]
    );
}

#[test]
fn every_fault_has_a_code_and_a_message() {
    let all: Vec<(PgnValidationError, &str, &str)> = vec![
        (PgnValidationError::EmptyDocument, "PGN_EMPTY_DOCUMENT", "empty PGN document"),
        (
            PgnValidationError::MissingBlankLine,
            "PGN_MISSING_BLANK_LINE",
            "missing blank line between the tag section and the movetext",
        ),
        (
            PgnValidationError::InvalidTagSyntax(s("x")),
            "PGN_INVALID_TAG_SYNTAX",
            "invalid tag syntax: x",
        ),
        (
            PgnValidationError::InvalidTagEscapeSequence(s("x")),
            "PGN_INVALID_TAG_ESCAPE",
            "invalid escape sequence in tag value: x",
        ),
        (PgnValidationError::DuplicateTag(s("x")), "PGN_DUPLICATE_TAG", "duplicate tag: x"),
        (
            PgnValidationError::MissingSevenTagRosterTag(s("x")),
            "PGN_MISSING_ROSTER_TAG",
            "missing Seven Tag Roster tag: x",
        ),
        (
            PgnValidationError::SevenTagRosterOutOfOrder { expected: s("a"), found: s("b") },
            "PGN_ROSTER_OUT_OF_ORDER",
            "Seven Tag Roster out of order: expected a, found b",
        ),
        (PgnValidationError::InvalidDate(s("x")), "PGN_INVALID_DATE", "invalid Date tag value: x"),
        (
            PgnValidationError::InvalidResultValue(s("x")),
            "PGN_INVALID_RESULT",
            "invalid Result value: x",
        ),
        (
            PgnValidationError::ResultHeaderMismatch { header: s("a"), terminator: s("b") },
            "PGN_RESULT_MISMATCH",
            "Result header \"a\" does not match movetext terminator \"b\"",
        ),
        (
            PgnValidationError::MissingTerminationTag,
            "PGN_MISSING_TERMINATION_TAG",
            "missing Termination tag",
        ),
        (
            PgnValidationError::InvalidTerminationValue(s("x")),
            "PGN_INVALID_TERMINATION",
            "invalid Termination value: x",
        ),
        (
            PgnValidationError::InvalidSetupValue(s("x")),
            "PGN_INVALID_SETUP",
            "invalid SetUp value: x (must be \"1\")",
        ),
        (
            PgnValidationError::SetupWithoutFen,
            "PGN_SETUP_WITHOUT_FEN",
            "SetUp tag requires a FEN tag",
        ),
        (
            PgnValidationError::FenWithoutSetup,
            "PGN_FEN_WITHOUT_SETUP",
            "FEN tag requires SetUp \"1\"",
        ),
        (
            PgnValidationError::InvalidStartFen(s("x")),
            "PGN_INVALID_START_FEN",
            "invalid start FEN: x",
        ),
        (
            PgnValidationError::VariantWithoutStartPosition(s("x")),
            "PGN_VARIANT_WITHOUT_START",
            "variant \"x\" requires SetUp/FEN start position tags",
        ),
        (
            PgnValidationError::UnbalancedComment,
            "PGN_UNBALANCED_COMMENT",
            "unbalanced comment braces in movetext",
        ),
        (
            PgnValidationError::MalformedAnnotation(s("x")),
            "PGN_MALFORMED_ANNOTATION",
            "malformed annotation comment: x",
        ),
        (
            PgnValidationError::MalformedEvalAnnotation(s("x")),
            "PGN_MALFORMED_EVAL",
            "malformed eval annotation: x",
        ),
        (
            PgnValidationError::MalformedClockAnnotation(s("x")),
            "PGN_MALFORMED_CLOCK",
            "malformed clock annotation: x",
        ),
        (
            PgnValidationError::VariationsNotAllowed,
            "PGN_VARIATIONS_NOT_ALLOWED",
            "variations are not allowed in a canonical PGN export",
        ),
        (
            PgnValidationError::MoveNumberOutOfSequence { ply: 1, expected: 2, found: 30 },
            "PGN_MOVE_NUMBER_SEQUENCE",
            "move number out of sequence at ply 1: expected 2, found 30",
        ),
        (
            PgnValidationError::InvalidMoveNumberFormat { ply: 1, token: s("x") },
            "PGN_MOVE_NUMBER_FORMAT",
            "invalid move-number format at ply 1: x",
        ),
        (
            PgnValidationError::MissingMoveNumber { ply: 1 },
            "PGN_MISSING_MOVE_NUMBER",
            "missing move number before the white move at ply 1",
        ),
        (
            PgnValidationError::MissingMoveAfterNumber { ply: 1 },
            "PGN_MISSING_MOVE_AFTER_NUMBER",
            "move number without a following move at ply 1",
        ),
        (
            PgnValidationError::UnexpectedMoveNumber { ply: 10 },
            "PGN_UNEXPECTED_MOVE_NUMBER",
            "unexpected move-number token at ply 10",
        ),
        (
            PgnValidationError::InvalidMoveSyntax { ply: 1, token: s("x") },
            "PGN_INVALID_MOVE_SYNTAX",
            "syntactically invalid SAN \"x\" at ply 1",
        ),
        (
            PgnValidationError::IllegalMove { ply: 1, token: s("x"), reason: s("y") },
            "PGN_ILLEGAL_MOVE",
            "illegal move \"x\" at ply 1: y",
        ),
        (
            PgnValidationError::NonCanonicalSan { ply: 1, expected: s("a"), found: s("b") },
            "PGN_NON_CANONICAL_SAN",
            "non-canonical SAN at ply 1: expected \"a\", found \"b\"",
        ),
        (
            PgnValidationError::IncorrectCheckSuffix { ply: 1, expected: s("a"), found: s("b") },
            "PGN_INCORRECT_CHECK_SUFFIX",
            "incorrect check/checkmate suffix at ply 1: expected \"a\", found \"b\"",
        ),
        (
            PgnValidationError::MovesAfterGameOver { ply: 7 },
            "PGN_MOVES_AFTER_GAME_OVER",
            "moves continue after the game is already over (ply 7)",
        ),
        (
            PgnValidationError::MissingTerminationMarker,
            "PGN_MISSING_TERMINATION_MARKER",
            "missing game termination marker",
        ),
        (
            PgnValidationError::MultipleTerminationMarkers(s("x")),
            "PGN_MULTIPLE_TERMINATION_MARKERS",
            "multiple termination markers: x",
        ),
        (
            PgnValidationError::TokenAfterTermination(s("x")),
            "PGN_TOKEN_AFTER_TERMINATION",
            "unexpected token after the termination marker: x",
        ),
        (
            PgnValidationError::TerminationResultMismatch { termination: s("x"), result: s("*") },
            "PGN_TERMINATION_RESULT_MISMATCH",
            "Termination \"x\" is inconsistent with result *",
        ),
        (
            PgnValidationError::FiftyMoveRuleNotSatisfied { halfmoves: 12 },
            "PGN_FIFTY_MOVE_NOT_SATISFIED",
            "Termination \"50-move rule\" requires at least 100 halfmoves, found 12",
        ),
        (
            PgnValidationError::StalemateClaimButNotStalemate,
            "PGN_STALEMATE_CLAIM_INVALID",
            "Termination \"Stalemate\" but the final position is not stalemate",
        ),
        (
            PgnValidationError::ResultPositionMismatch { result: s("*"), position: s("checkmate") },
            "PGN_RESULT_POSITION_MISMATCH",
            "result * is inconsistent with the final position (checkmate)",
        ),
    ];
    assert_eq!(all.len(), 39);
    for (fault, code, message) in &all {
        assert_eq!(fault.code(), *code);
        assert_eq!(fault.message(), *message);
    }
    for (i, a) in all.iter().enumerate() {
        for b in &all[i + 1..] {
            assert_ne!(a.1, b.1);
        }
    }
}

#[test]
fn an_accepted_document_is_what_it_says_it_is() {
    let fen = "4k3/8/8/8/8/8/4P3/4K3 b - - 98 40";
    let more = format!("[SetUp \"1\"]\n[FEN \"{fen}\"]\n");
    let movetext = "40... Kd7 { [%clk 0:04:05] [%eval -0.25] } 41. Kf1 { plain } 41... Kd6 1/2-1/2";
    let pgn = document_with("1/2-1/2", "Fifty-Move Rule", &more, movetext);
    let game = validate_pgn_export(&pgn).unwrap();
    let names: Vec<&str> = game.tags.iter().map(|tag| tag.0.as_str()).collect();
    assert_eq!(names[..7], ["Event", "Site", "Date", "Round", "White", "Black", "Result"]);
    assert_eq!(game.movetext, ["Kd7", "Kf1", "Kd6"]);
    assert_eq!(game.ply_count, 3);
    assert_eq!(game.result, GameResult::Draw);
    assert_eq!(game.termination, "Fifty-Move Rule");
    assert_eq!(game.halfmoves, 101);
    assert_eq!(game.final_fen, "8/8/3k4/8/8/8/4P3/5K2 w - - 101 42");
    assert_eq!((game.is_checkmate, game.is_stalemate), (false, false));
}

#[test]
fn clocks_and_evaluations_must_have_their_standard_form() {
    assert_eq!(
        lint(&document("1. e4 { [%eval 0.3] [%clk 1:2:3] } e5 *")),
        vec![PgnValidationError::MalformedClockAnnotation(s("[%clk 1:2:3]"))]
    );
    assert_eq!(
        lint(&document("1. e4 { [%eval up] [%other x] } e5 *")),
        vec![PgnValidationError::MalformedEvalAnnotation(s("[%eval up]"))]
    );
    assert_eq!(
        lint(&document("1. e4 { see [% } e5 *")),
        vec![PgnValidationError::MalformedAnnotation(s("see [%"))]
    );
}

#[test]
fn stored_check_marks_do_not_change_the_export() {
    let headers = || players(GameResult::BlackWins);
    let plain = export_pgn(headers(), plies(&["f3", "e5", "g4", "Qh4"]), false).unwrap();
    for sans in [["f3+", "e5#", "g4", "Qh4#"], ["f3", "e5+", "g4#", "Qh4+"]] {
        assert_eq!(export_pgn(headers(), plies(&sans), false).unwrap(), plain);
    }
    assert!(plain.ends_with("\n1. f3 e5 2. g4 Qh4# 0-1\n"));
    assert!(export_pgn(headers(), plies(&["f3++"]), false).is_err());
    // A move that is spelled out more than it has to be is read the same way.
    let spelled = export_pgn(headers(), plies(&["f2f3+", "e7e5", "g4", "Qd8h4"]), false).unwrap();
    assert_eq!(spelled, plain);
}

#[test]
fn check_suffixes_are_recomputed_move_by_move() {
    let recompute = |start_fen: Option<&str>, sans: &[&str]| -> Result<Vec<String>, String> {
        let headers = ExportHeaders {
            start_fen: start_fen.map(|fen| fen.to_string()),
            ..players(GameResult::Ongoing)
        };
        let start = PgnBuilder::new(headers, Vec::new(), false).start_position().map_err(|e| e.message())?;
        let out = PgnBuilder::recompute_check_suffixes(start, &plies(sans));
        Ok(out.map_err(|e| e.message())?.iter().map(|san| san.iter().collect()).collect())
    };
    let bare = ["e4", "e5", "Qh5", "Nc6", "Bc4", "Nf6", "Qxf7"];
    let marked = ["e4#", "e5+", "Qh5", "Nc6+", "Bc4#", "Nf6", "Qxf7+"];
    let written = vec!["e4", "e5", "Qh5", "Nc6", "Bc4", "Nf6", "Qxf7#"];
    assert_eq!(recompute(None, &bare).unwrap(), written);
    assert_eq!(recompute(None, &marked).unwrap(), written);
    // A check that does not mate, from a custom position.
    let rooks = Some("4k3/8/8/8/8/8/8/R3K3 w Q - 0 1");
    for sans in [["Ra8", "Kd7"], ["Ra8+", "Kd7"], ["Ra8#", "Kd7+"]] {
        assert_eq!(recompute(rooks, &sans).unwrap(), vec!["Ra8+", "Kd7"]);
    }
    assert_eq!(recompute(None, &[]).unwrap(), Vec::<String>::new());
    assert!(recompute(None, &["e4", "e4"]).is_err());
    assert!(recompute(Some("nowhere"), &["e4"]).is_err());
}

#[test]
fn only_headers_and_endings_can_fault_an_export() {
    let headers = ExportHeaders {
        date: s("yesterday"),
        variant: s_option("Horde"),
        termination: None,
        ..players(GameResult::WhiteWins)
    };
    let text = export_pgn(headers, plies(&["f3", "e5", "g4", "Qh4"]), false).unwrap();
    assert_eq!(
        lint(&text),
        vec![
            PgnValidationError::InvalidDate(s("yesterday")),
            PgnValidationError::VariantWithoutStartPosition(s("Horde")),
            PgnValidationError::ResultPositionMismatch {
                result: s("1-0"),
                position: s("checkmate"),
            },
            PgnValidationError::MissingTerminationTag,
        ]
    );
}

fn s_option(text: &str) -> Option<String> {
    Some(s(text))
}

#[test]
fn players_and_moves_read_back_past_empty_headers() {
    let headers = ExportHeaders {
        event: s(""),
        round: s(""),
        time_control: s_option(""),
        termination: s_option("Normal"),
        ..players(GameResult::Draw)
    };
    let (white, black) = (headers.white.clone(), headers.black.clone());
    let text = export_pgn(headers, plies(&["e4", "e5"]), false).unwrap();
    let game = parse_pgn(&text).unwrap();
    assert_eq!((game.headers.white, game.headers.black), (white, black));
    assert_eq!(game.headers.result, GameResult::Draw);
    assert_eq!((game.headers.event, game.headers.round), (None, None));
    assert_eq!(game.headers.other, vec![(s("Termination"), s("Normal"))]);
    assert_eq!(game.moves, vec!["e4", "e5"]);
    assert_eq!(game.ply_count, 2);

    // Behind an empty last tag its line is taken for moves.
    let headers = ExportHeaders { termination: s_option(""), ..players(GameResult::Draw) };
    let text = export_pgn(headers, plies(&["e4", "e5"]), false).unwrap();
    assert_eq!(parse_pgn(&text).unwrap().moves, vec!["[Termination", "\"\"]", "e4", "e5"]);
}

#[test]
fn a_stalemate_is_no_checkmate_and_a_draw() {
    let more = "[SetUp \"1\"]\n[FEN \"7k/8/5KQ1/8/8/8/8/8 w - - 0 1\"]\n";
    let game =
        validate_pgn_export(&document_with("1/2-1/2", "Stalemate", more, "1. Kf7 1/2-1/2")).unwrap();
    assert_eq!((game.is_checkmate, game.is_stalemate), (false, true));
    assert_eq!(game.result, GameResult::Draw);
}
