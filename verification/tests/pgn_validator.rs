use knightverse::pgn::{export_pgn, ExportHeaders, GameResult, MoveAnnotation};
use knightverse::pgn_validator::{lint_pgn_export, validate_pgn_export, PgnValidationError};

fn doc(result: &str, termination: &str, movetext: &str) -> String {
    format!(
        "[Event \"Test\"]\n[Site \"?\"]\n[Date \"2026.09.26\"]\n[Round \"1\"]\n\
         [White \"White\"]\n[Black \"Black\"]\n[Result \"{result}\"]\n\
         [Termination \"{termination}\"]\n\n{movetext}"
    )
}

fn errors_of(pgn: &str) -> Vec<PgnValidationError> {
    lint_pgn_export(pgn).errors
}

fn assert_ok(pgn: &str) {
    let report = lint_pgn_export(pgn);
    assert!(
        report.is_valid(),
        "expected a valid PGN export, got errors: {:?}",
        report.errors
    );
}

fn assert_error(pgn: &str, predicate: impl Fn(&PgnValidationError) -> bool, label: &str) {
    let errors = errors_of(pgn);
    assert!(
        errors.iter().any(|error| predicate(error)),
        "expected {label}, got errors: {errors:?}"
    );
}

fn headers(result: GameResult, termination: &str) -> ExportHeaders {
    ExportHeaders {
        event: "Test Event".to_string(),
        site: "test.example.com".to_string(),
        date: "2026.09.26".to_string(),
        round: "1".to_string(),
        white: "Alice".to_string(),
        black: "Bob".to_string(),
        result,
        termination: Some(termination.to_string()),
        ..Default::default()
    }
}

fn moves(sans: &[&str]) -> Vec<MoveAnnotation> {
    sans.iter()
        .map(|san| MoveAnnotation {
            san: (*san).to_string(),
            ..Default::default()
        })
        .collect()
}

// ---------------------------------------------------------------
// Positive cases
// ---------------------------------------------------------------

#[test]
fn accepts_minimal_valid_export() {
    assert_ok(&doc("*", "Unterminated", "1. e4 e5 2. Nf3 Nc6 *"));
}

#[test]
fn accepts_check_and_checkmate_suffixes() {
    // Rossolimo check (not mate): "+" is required.
    assert_ok(&doc("*", "Unterminated", "1. e4 c5 2. Nf3 d6 3. Bb5+ *"));
    // Scholar's mate: "#" is required.
    assert_ok(&doc(
        "1-0",
        "Normal",
        "1. e4 e5 2. Bc4 Nc6 3. Qh5 Nf6 4. Qxf7# 1-0",
    ));
}

#[test]
fn accepts_full_document_with_analysis_annotations() {
    let pgn = "[Event \"Rated Blitz Game\"]\n[Site \"chess.example.com\"]\n\
               [Date \"2026.09.26\"]\n[Round \"1\"]\n[White \"Alice\"]\n[Black \"Bob\"]\n\
               [Result \"1-0\"]\n[WhiteElo \"2839\"]\n[BlackElo \"2802\"]\n\
               [TimeControl \"300+3\"]\n[Termination \"Resignation\"]\n\n\
               1. e4 { [%eval 0.32] [%clk 0:04:58] } e5 { [%clk 0:04:57] } \
               2. Nf3 { [%eval 0.28] } Nc6 3. Bb5 1-0";
    let validated = validate_pgn_export(pgn).expect("document should validate");
    assert_eq!(validated.ply_count, 5);
    assert_eq!(validated.result, GameResult::WhiteWins);
    assert_eq!(validated.termination, "Resignation");
}

#[test]
fn accepts_builder_export_for_resignation() {
    let pgn = export_pgn(
        headers(GameResult::WhiteWins, "Resignation"),
        moves(&["e4", "e5", "Nf3", "Nc6", "Bb5"]),
        false,
    )
    .unwrap();
    let validated = validate_pgn_export(&pgn).expect("export should validate");
    assert_eq!(validated.ply_count, 5);
    assert_eq!(validated.result, GameResult::WhiteWins);
}

#[test]
fn accepts_builder_export_for_timeout() {
    let pgn = export_pgn(
        headers(GameResult::BlackWins, "Time forfeit"),
        moves(&["e4", "e5", "Nf3", "Nc6", "Bb5"]),
        false,
    )
    .unwrap();
    let validated = validate_pgn_export(&pgn).expect("export should validate");
    assert_eq!(validated.result, GameResult::BlackWins);
    assert_eq!(validated.termination, "Time forfeit");
}

#[test]
fn accepts_builder_export_for_stalemate() {
    let mut export_headers = headers(GameResult::Draw, "Stalemate");
    export_headers.start_fen = Some("k7/2K5/8/8/8/8/8/1Q6 w - - 0 1".to_string());
    let pgn = export_pgn(export_headers, moves(&["Qb6"]), false).unwrap();
    assert!(pgn.contains("[SetUp \"1\"]"));
    assert!(pgn.contains("[FEN \"k7/2K5/8/8/8/8/8/1Q6 w - - 0 1\"]"));

    let validated = validate_pgn_export(&pgn).expect("stalemate export should validate");
    assert!(validated.is_stalemate);
    assert_eq!(validated.result, GameResult::Draw);
}

#[test]
fn accepts_builder_export_for_fifty_move_rule() {
    let mut export_headers = headers(GameResult::Draw, "50-move rule");
    export_headers.start_fen = Some("8/8/8/4k3/8/8/4P3/4K3 w - - 99 1".to_string());
    let pgn = export_pgn(export_headers, moves(&["Kd1"]), false).unwrap();

    let validated = validate_pgn_export(&pgn).expect("50-move export should validate");
    assert_eq!(validated.halfmoves, 100);
    assert_eq!(validated.result, GameResult::Draw);
}

#[test]
fn accepts_builder_export_with_analysis_annotations() {
    let mut annotated = moves(&["e4", "e5", "Nf3"]);
    annotated[0].clock = Some("0:04:58".to_string());
    annotated[0].eval_centipawns = Some(32);
    annotated[1].eval_mate = Some(3);

    let pgn = export_pgn(
        headers(GameResult::Ongoing, "Unterminated"),
        annotated,
        true,
    )
    .unwrap();
    let validated = validate_pgn_export(&pgn).expect("annotated export should validate");
    assert_eq!(validated.ply_count, 3);
}

#[test]
fn accepts_chess960_export() {
    let mut export_headers = headers(GameResult::Ongoing, "Unterminated");
    export_headers.start_fen =
        Some("rnkbbqnr/pppppppp/8/8/8/8/PPPPPPPP/RNKBBQNR w KQkq - 0 1".to_string());
    export_headers.variant = Some("Chess960".to_string());
    let pgn = export_pgn(export_headers, moves(&["Nc3"]), false).unwrap();
    assert!(pgn.contains("[Variant \"Chess960\"]"));

    let validated = validate_pgn_export(&pgn).expect("Chess960 export should validate");
    assert_eq!(validated.variant.as_deref(), Some("Chess960"));
    assert_eq!(validated.ply_count, 1);
}

#[test]
fn accepts_custom_variant_export() {
    let mut export_headers = headers(GameResult::Ongoing, "Unterminated");
    export_headers.start_fen = Some("8/8/8/4k3/8/8/4P3/4K3 w - - 0 1".to_string());
    export_headers.variant = Some("Custom".to_string());
    let pgn = export_pgn(export_headers, moves(&["Kd1"]), false).unwrap();

    let validated = validate_pgn_export(&pgn).expect("custom export should validate");
    assert_eq!(validated.variant.as_deref(), Some("Custom"));
}

// ---------------------------------------------------------------
// Negative cases: structure and tags
// ---------------------------------------------------------------

#[test]
fn rejects_empty_document() {
    assert_error("", |error| {
        matches!(error, PgnValidationError::EmptyDocument)
    }, "EmptyDocument");
}

#[test]
fn rejects_missing_blank_line() {
    let pgn = "[Event \"Test\"]\n[Site \"?\"]\n[Date \"2026.09.26\"]\n[Round \"1\"]\n\
               [White \"White\"]\n[Black \"Black\"]\n[Result \"*\"]\n\
               [Termination \"Unterminated\"]\n1. e4 *";
    assert_error(pgn, |error| {
        matches!(error, PgnValidationError::MissingBlankLine)
    }, "MissingBlankLine");
}

#[test]
fn rejects_missing_seven_tag_roster_tag() {
    let pgn = "[Event \"Test\"]\n[Site \"?\"]\n[Round \"1\"]\n[White \"White\"]\n\
               [Black \"Black\"]\n[Result \"*\"]\n[Termination \"Unterminated\"]\n\n1. e4 *";
    assert_error(pgn, |error| {
        matches!(error, PgnValidationError::MissingSevenTagRosterTag(tag) if tag == "Date")
    }, "MissingSevenTagRosterTag(Date)");
}

#[test]
fn rejects_seven_tag_roster_out_of_order() {
    let pgn = "[Event \"Test\"]\n[Site \"?\"]\n[Date \"2026.09.26\"]\n[Round \"1\"]\n\
               [Black \"Black\"]\n[White \"White\"]\n[Result \"*\"]\n\
               [Termination \"Unterminated\"]\n\n1. e4 *";
    assert_error(pgn, |error| {
        matches!(error, PgnValidationError::SevenTagRosterOutOfOrder { .. })
    }, "SevenTagRosterOutOfOrder");
}

#[test]
fn rejects_duplicate_tag() {
    let pgn = "[Event \"Test\"]\n[Event \"Again\"]\n[Site \"?\"]\n[Date \"2026.09.26\"]\n\
               [Round \"1\"]\n[White \"White\"]\n[Black \"Black\"]\n[Result \"*\"]\n\
               [Termination \"Unterminated\"]\n\n1. e4 *";
    assert_error(pgn, |error| {
        matches!(error, PgnValidationError::DuplicateTag(tag) if tag == "Event")
    }, "DuplicateTag(Event)");
}

#[test]
fn rejects_missing_termination_tag() {
    let pgn = "[Event \"Test\"]\n[Site \"?\"]\n[Date \"2026.09.26\"]\n[Round \"1\"]\n\
               [White \"White\"]\n[Black \"Black\"]\n[Result \"*\"]\n\n1. e4 *";
    assert_error(pgn, |error| {
        matches!(error, PgnValidationError::MissingTerminationTag)
    }, "MissingTerminationTag");
}

#[test]
fn rejects_invalid_termination_value() {
    assert_error(&doc("*", "Something else", "1. e4 e5 *"), |error| {
        matches!(error, PgnValidationError::InvalidTerminationValue(_))
    }, "InvalidTerminationValue");
}

#[test]
fn rejects_result_header_mismatch() {
    assert_error(&doc("1-0", "Normal", "1. e4 e5 2. Nf3 Nc6 *"), |error| {
        matches!(error, PgnValidationError::ResultHeaderMismatch { .. })
    }, "ResultHeaderMismatch");
}

#[test]
fn rejects_setup_without_fen() {
    let pgn = "[Event \"Test\"]\n[Site \"?\"]\n[Date \"2026.09.26\"]\n[Round \"1\"]\n\
               [White \"White\"]\n[Black \"Black\"]\n[Result \"*\"]\n[SetUp \"1\"]\n\
               [Termination \"Unterminated\"]\n\n1. e4 *";
    assert_error(pgn, |error| {
        matches!(error, PgnValidationError::SetupWithoutFen)
    }, "SetupWithoutFen");
}

#[test]
fn rejects_fen_without_setup() {
    let pgn = "[Event \"Test\"]\n[Site \"?\"]\n[Date \"2026.09.26\"]\n[Round \"1\"]\n\
               [White \"White\"]\n[Black \"Black\"]\n[Result \"*\"]\n\
               [FEN \"8/8/8/4k3/8/8/4P3/4K3 w - - 0 1\"]\n\
               [Termination \"Unterminated\"]\n\n1. Kd1 *";
    assert_error(pgn, |error| {
        matches!(error, PgnValidationError::FenWithoutSetup)
    }, "FenWithoutSetup");
}

#[test]
fn rejects_variant_without_start_position() {
    let mut export_headers = headers(GameResult::Ongoing, "Unterminated");
    export_headers.variant = Some("Chess960".to_string());
    let pgn = export_pgn(export_headers, vec![], false).unwrap();
    assert_error(&pgn, |error| {
        matches!(error, PgnValidationError::VariantWithoutStartPosition(variant) if variant == "Chess960")
    }, "VariantWithoutStartPosition");
}

// ---------------------------------------------------------------
// Negative cases: movetext
// ---------------------------------------------------------------

#[test]
fn rejects_malformed_move_syntax() {
    assert_error(&doc("*", "Unterminated", "1. e4 e5 2. Nf3 Zq9 *"), |error| {
        matches!(error, PgnValidationError::InvalidMoveSyntax { .. })
    }, "InvalidMoveSyntax");
}

#[test]
fn rejects_illegal_move() {
    assert_error(&doc("*", "Unterminated", "1. e4 e5 2. Ke3 *"), |error| {
        matches!(error, PgnValidationError::IllegalMove { .. })
    }, "IllegalMove");
}

#[test]
fn rejects_non_canonical_long_algebraic_san() {
    let errors = errors_of(&doc("*", "Unterminated", "1. e4 e5 2. Ng1f3 *"));
    assert!(
        errors.iter().any(|error| matches!(
            error,
            PgnValidationError::NonCanonicalSan { .. } | PgnValidationError::IllegalMove { .. }
        )),
        "expected long algebraic SAN to be rejected, got {errors:?}"
    );
}

#[test]
fn rejects_missing_move_number() {
    assert_error(&doc("*", "Unterminated", "e4 e5 *"), |error| {
        matches!(error, PgnValidationError::MissingMoveNumber { .. })
    }, "MissingMoveNumber");
}

#[test]
fn rejects_move_number_out_of_sequence() {
    assert_error(&doc("*", "Unterminated", "1. e4 e5 3. Nf3 *"), |error| {
        matches!(error, PgnValidationError::MoveNumberOutOfSequence { .. })
    }, "MoveNumberOutOfSequence");
}

#[test]
fn rejects_missing_check_suffix() {
    // 3. Bb5 gives check but is exported without the required "+".
    assert_error(&doc("*", "Unterminated", "1. e4 c5 2. Nf3 d6 3. Bb5 *"), |error| {
        matches!(error, PgnValidationError::IncorrectCheckSuffix { .. })
    }, "IncorrectCheckSuffix");
}

#[test]
fn rejects_missing_checkmate_suffix() {
    // 4. Qxf7 is mate but is exported without the required "#".
    assert_error(&doc("1-0", "Normal", "1. e4 e5 2. Bc4 Nc6 3. Qh5 Nf6 4. Qxf7 1-0"), |error| {
        matches!(error, PgnValidationError::IncorrectCheckSuffix { .. })
    }, "IncorrectCheckSuffix");
}

#[test]
fn rejects_check_suffix_on_a_non_checking_move() {
    assert_error(&doc("*", "Unterminated", "1. e4+ *"), |error| {
        matches!(error, PgnValidationError::IncorrectCheckSuffix { .. })
    }, "IncorrectCheckSuffix");
}

#[test]
fn rejects_moves_after_checkmate() {
    assert_error(&doc(
        "*",
        "Unterminated",
        "1. e4 e5 2. Bc4 Nc6 3. Qh5 Nf6 4. Qxf7# 5. Kg1 *",
    ), |error| {
        matches!(error, PgnValidationError::MovesAfterGameOver { .. })
    }, "MovesAfterGameOver");
}

#[test]
fn rejects_missing_termination_marker() {
    assert_error(&doc("*", "Unterminated", "1. e4 e5 2. Nf3 Nc6"), |error| {
        matches!(error, PgnValidationError::MissingTerminationMarker)
    }, "MissingTerminationMarker");
}

#[test]
fn rejects_tokens_after_termination_marker() {
    assert_error(&doc("*", "Unterminated", "1. e4 e5 * 2. Nf3"), |error| {
        matches!(error, PgnValidationError::TokenAfterTermination(_))
    }, "TokenAfterTermination");
}

// ---------------------------------------------------------------
// Negative cases: annotations and end-of-game consistency
// ---------------------------------------------------------------

#[test]
fn rejects_malformed_eval_annotation() {
    assert_error(&doc("*", "Unterminated", "1. e4 {[%eval 0.3.2]} *"), |error| {
        matches!(error, PgnValidationError::MalformedEvalAnnotation(_))
    }, "MalformedEvalAnnotation");
}

#[test]
fn rejects_malformed_clock_annotation() {
    assert_error(&doc("*", "Unterminated", "1. e4 {[%clk 4:58]} *"), |error| {
        matches!(error, PgnValidationError::MalformedClockAnnotation(_))
    }, "MalformedClockAnnotation");
}

#[test]
fn rejects_unbalanced_comment() {
    assert_error(&doc("*", "Unterminated", "1. e4 {unterminated comment *"), |error| {
        matches!(error, PgnValidationError::UnbalancedComment)
    }, "UnbalancedComment");
}

#[test]
fn rejects_termination_result_mismatch() {
    assert_error(&doc("*", "Time forfeit", "1. e4 e5 *"), |error| {
        matches!(error, PgnValidationError::TerminationResultMismatch { .. })
    }, "TerminationResultMismatch");
}

#[test]
fn rejects_stalemate_claim_when_position_is_not_stalemate() {
    assert_error(&doc("1/2-1/2", "Stalemate", "1. e4 e5 2. Nf3 1/2-1/2"), |error| {
        matches!(error, PgnValidationError::StalemateClaimButNotStalemate)
    }, "StalemateClaimButNotStalemate");
}

#[test]
fn rejects_fifty_move_claim_not_satisfied() {
    assert_error(&doc("1/2-1/2", "50-move rule", "1. e4 e5 1/2-1/2"), |error| {
        matches!(error, PgnValidationError::FiftyMoveRuleNotSatisfied { .. })
    }, "FiftyMoveRuleNotSatisfied");
}

#[test]
fn rejects_result_inconsistent_with_checkmate() {
    assert_error(&doc("1/2-1/2", "Normal", "1. e4 e5 2. Bc4 Nc6 3. Qh5 Nf6 4. Qxf7# 1/2-1/2"), |error| {
        matches!(error, PgnValidationError::ResultPositionMismatch { .. })
    }, "ResultPositionMismatch");
}

#[test]
fn error_codes_are_stable_and_machine_readable() {
    assert_eq!(
        PgnValidationError::MissingTerminationTag.code(),
        "PGN_MISSING_TERMINATION_TAG"
    );
    assert_eq!(
        PgnValidationError::IncorrectCheckSuffix {
            ply: 0,
            expected: "Qxf7#".to_string(),
            found: "Qxf7".to_string(),
        }
        .code(),
        "PGN_INCORRECT_CHECK_SUFFIX"
    );
}
