//! What a strict check of a PGN document can find wrong with it.

use vstd::prelude::*;

use crate::text::{dec_nat, nat_text, string_of};

verus! {

/// A single reason a PGN export was rejected.
///
/// `T` is the type of the texts an error carries: `String` in a report, and a
/// character sequence ([`Fault`]) in specifications.
#[derive(Debug, Clone, PartialEq, Eq)]
pub enum PgnValidationError<T = String> {
    EmptyDocument,
    MissingBlankLine,
    InvalidTagSyntax(T),
    InvalidTagEscapeSequence(T),
    DuplicateTag(T),
    MissingSevenTagRosterTag(T),
    SevenTagRosterOutOfOrder { expected: T, found: T },
    InvalidDate(T),
    InvalidResultValue(T),
    ResultHeaderMismatch { header: T, terminator: T },
    MissingTerminationTag,
    InvalidTerminationValue(T),
    InvalidSetupValue(T),
    SetupWithoutFen,
    FenWithoutSetup,
    InvalidStartFen(T),
    VariantWithoutStartPosition(T),
    UnbalancedComment,
    MalformedAnnotation(T),
    MalformedEvalAnnotation(T),
    MalformedClockAnnotation(T),
    VariationsNotAllowed,
    MoveNumberOutOfSequence { ply: usize, expected: u32, found: u32 },
    InvalidMoveNumberFormat { ply: usize, token: T },
    MissingMoveNumber { ply: usize },
    MissingMoveAfterNumber { ply: usize },
    UnexpectedMoveNumber { ply: usize },
    InvalidMoveSyntax { ply: usize, token: T },
    IllegalMove { ply: usize, token: T, reason: T },
    NonCanonicalSan { ply: usize, expected: T, found: T },
    IncorrectCheckSuffix { ply: usize, expected: T, found: T },
    MovesAfterGameOver { ply: usize },
    MissingTerminationMarker,
    MultipleTerminationMarkers(T),
    TokenAfterTermination(T),
    TerminationResultMismatch { termination: T, result: T },
    FiftyMoveRuleNotSatisfied { halfmoves: u32 },
    StalemateClaimButNotStalemate,
    ResultPositionMismatch { result: T, position: T },
}

/// A validation error with its texts as character sequences.
pub type Fault = PgnValidationError<Seq<char>>;

/// Some validation errors with their texts as character sequences.
pub open spec fn faults(errors: Seq<PgnValidationError>) -> Seq<Fault> {
    Seq::new(errors.len(), |i: int| errors[i]@)
}

impl View for PgnValidationError {
    type V = Fault;

    open spec fn view(&self) -> Fault {
        match *self {
            PgnValidationError::EmptyDocument => PgnValidationError::EmptyDocument,
            PgnValidationError::MissingBlankLine => PgnValidationError::MissingBlankLine,
            PgnValidationError::InvalidTagSyntax(text) => {
                PgnValidationError::InvalidTagSyntax(text@)
            },
            PgnValidationError::InvalidTagEscapeSequence(text) => {
                PgnValidationError::InvalidTagEscapeSequence(text@)
            },
            PgnValidationError::DuplicateTag(text) => PgnValidationError::DuplicateTag(text@),
            PgnValidationError::MissingSevenTagRosterTag(text) => {
                PgnValidationError::MissingSevenTagRosterTag(text@)
            },
            PgnValidationError::SevenTagRosterOutOfOrder { expected, found } => {
                PgnValidationError::SevenTagRosterOutOfOrder { expected: expected@, found: found@ }
            },
            PgnValidationError::InvalidDate(text) => PgnValidationError::InvalidDate(text@),
            PgnValidationError::InvalidResultValue(text) => {
                PgnValidationError::InvalidResultValue(text@)
            },
            PgnValidationError::ResultHeaderMismatch { header, terminator } => {
                PgnValidationError::ResultHeaderMismatch {
                    header: header@,
                    terminator: terminator@,
                }
            },
            PgnValidationError::MissingTerminationTag => PgnValidationError::MissingTerminationTag,
            PgnValidationError::InvalidTerminationValue(text) => {
                PgnValidationError::InvalidTerminationValue(text@)
            },
            PgnValidationError::InvalidSetupValue(text) => {
                PgnValidationError::InvalidSetupValue(text@)
            },
            PgnValidationError::SetupWithoutFen => PgnValidationError::SetupWithoutFen,
            PgnValidationError::FenWithoutSetup => PgnValidationError::FenWithoutSetup,
            PgnValidationError::InvalidStartFen(text) => PgnValidationError::InvalidStartFen(text@),
            PgnValidationError::VariantWithoutStartPosition(text) => {
                PgnValidationError::VariantWithoutStartPosition(text@)
            },
            PgnValidationError::UnbalancedComment => PgnValidationError::UnbalancedComment,
            PgnValidationError::MalformedAnnotation(text) => {
                PgnValidationError::MalformedAnnotation(text@)
            },
            PgnValidationError::MalformedEvalAnnotation(text) => {
                PgnValidationError::MalformedEvalAnnotation(text@)
            },
            PgnValidationError::MalformedClockAnnotation(text) => {
                PgnValidationError::MalformedClockAnnotation(text@)
            },
            PgnValidationError::VariationsNotAllowed => PgnValidationError::VariationsNotAllowed,
            PgnValidationError::MoveNumberOutOfSequence { ply, expected, found } => {
                PgnValidationError::MoveNumberOutOfSequence { ply, expected, found }
            },
            PgnValidationError::InvalidMoveNumberFormat { ply, token } => {
                PgnValidationError::InvalidMoveNumberFormat { ply, token: token@ }
            },
            PgnValidationError::MissingMoveNumber { ply } => {
                PgnValidationError::MissingMoveNumber { ply }
            },
            PgnValidationError::MissingMoveAfterNumber { ply } => {
                PgnValidationError::MissingMoveAfterNumber { ply }
            },
            PgnValidationError::UnexpectedMoveNumber { ply } => {
                PgnValidationError::UnexpectedMoveNumber { ply }
            },
            PgnValidationError::InvalidMoveSyntax { ply, token } => {
                PgnValidationError::InvalidMoveSyntax { ply, token: token@ }
            },
            PgnValidationError::IllegalMove { ply, token, reason } => {
                PgnValidationError::IllegalMove { ply, token: token@, reason: reason@ }
            },
            PgnValidationError::NonCanonicalSan { ply, expected, found } => {
                PgnValidationError::NonCanonicalSan { ply, expected: expected@, found: found@ }
            },
            PgnValidationError::IncorrectCheckSuffix { ply, expected, found } => {
                PgnValidationError::IncorrectCheckSuffix { ply, expected: expected@, found: found@ }
            },
            PgnValidationError::MovesAfterGameOver { ply } => {
                PgnValidationError::MovesAfterGameOver { ply }
            },
            PgnValidationError::MissingTerminationMarker => {
                PgnValidationError::MissingTerminationMarker
            },
            PgnValidationError::MultipleTerminationMarkers(text) => {
                PgnValidationError::MultipleTerminationMarkers(text@)
            },
            PgnValidationError::TokenAfterTermination(text) => {
                PgnValidationError::TokenAfterTermination(text@)
            },
            PgnValidationError::TerminationResultMismatch { termination, result } => {
                PgnValidationError::TerminationResultMismatch {
                    termination: termination@,
                    result: result@,
                }
            },
            PgnValidationError::FiftyMoveRuleNotSatisfied { halfmoves } => {
                PgnValidationError::FiftyMoveRuleNotSatisfied { halfmoves }
            },
            PgnValidationError::StalemateClaimButNotStalemate => {
                PgnValidationError::StalemateClaimButNotStalemate
            },
            PgnValidationError::ResultPositionMismatch { result, position } => {
                PgnValidationError::ResultPositionMismatch { result: result@, position: position@ }
            },
        }
    }
}

impl PgnValidationError<Seq<char>> {
    /// The machine-readable code of an error.
    pub open spec fn code_text(self) -> Seq<char> {
        match self {
            PgnValidationError::EmptyDocument => "PGN_EMPTY_DOCUMENT"@,
            PgnValidationError::MissingBlankLine => "PGN_MISSING_BLANK_LINE"@,
            PgnValidationError::InvalidTagSyntax(_) => "PGN_INVALID_TAG_SYNTAX"@,
            PgnValidationError::InvalidTagEscapeSequence(_) => "PGN_INVALID_TAG_ESCAPE"@,
            PgnValidationError::DuplicateTag(_) => "PGN_DUPLICATE_TAG"@,
            PgnValidationError::MissingSevenTagRosterTag(_) => "PGN_MISSING_ROSTER_TAG"@,
            PgnValidationError::SevenTagRosterOutOfOrder { .. } => "PGN_ROSTER_OUT_OF_ORDER"@,
            PgnValidationError::InvalidDate(_) => "PGN_INVALID_DATE"@,
            PgnValidationError::InvalidResultValue(_) => "PGN_INVALID_RESULT"@,
            PgnValidationError::ResultHeaderMismatch { .. } => "PGN_RESULT_MISMATCH"@,
            PgnValidationError::MissingTerminationTag => "PGN_MISSING_TERMINATION_TAG"@,
            PgnValidationError::InvalidTerminationValue(_) => "PGN_INVALID_TERMINATION"@,
            PgnValidationError::InvalidSetupValue(_) => "PGN_INVALID_SETUP"@,
            PgnValidationError::SetupWithoutFen => "PGN_SETUP_WITHOUT_FEN"@,
            PgnValidationError::FenWithoutSetup => "PGN_FEN_WITHOUT_SETUP"@,
            PgnValidationError::InvalidStartFen(_) => "PGN_INVALID_START_FEN"@,
            PgnValidationError::VariantWithoutStartPosition(_) => "PGN_VARIANT_WITHOUT_START"@,
            PgnValidationError::UnbalancedComment => "PGN_UNBALANCED_COMMENT"@,
            PgnValidationError::MalformedAnnotation(_) => "PGN_MALFORMED_ANNOTATION"@,
            PgnValidationError::MalformedEvalAnnotation(_) => "PGN_MALFORMED_EVAL"@,
            PgnValidationError::MalformedClockAnnotation(_) => "PGN_MALFORMED_CLOCK"@,
            PgnValidationError::VariationsNotAllowed => "PGN_VARIATIONS_NOT_ALLOWED"@,
            PgnValidationError::MoveNumberOutOfSequence { .. } => "PGN_MOVE_NUMBER_SEQUENCE"@,
            PgnValidationError::InvalidMoveNumberFormat { .. } => "PGN_MOVE_NUMBER_FORMAT"@,
            PgnValidationError::MissingMoveNumber { .. } => "PGN_MISSING_MOVE_NUMBER"@,
            PgnValidationError::MissingMoveAfterNumber { .. } => "PGN_MISSING_MOVE_AFTER_NUMBER"@,
            PgnValidationError::UnexpectedMoveNumber { .. } => "PGN_UNEXPECTED_MOVE_NUMBER"@,
            PgnValidationError::InvalidMoveSyntax { .. } => "PGN_INVALID_MOVE_SYNTAX"@,
            PgnValidationError::IllegalMove { .. } => "PGN_ILLEGAL_MOVE"@,
            PgnValidationError::NonCanonicalSan { .. } => "PGN_NON_CANONICAL_SAN"@,
            PgnValidationError::IncorrectCheckSuffix { .. } => "PGN_INCORRECT_CHECK_SUFFIX"@,
            PgnValidationError::MovesAfterGameOver { .. } => "PGN_MOVES_AFTER_GAME_OVER"@,
            PgnValidationError::MissingTerminationMarker => "PGN_MISSING_TERMINATION_MARKER"@,
            PgnValidationError::MultipleTerminationMarkers(_) => {
                "PGN_MULTIPLE_TERMINATION_MARKERS"@
            },
            PgnValidationError::TokenAfterTermination(_) => "PGN_TOKEN_AFTER_TERMINATION"@,
            PgnValidationError::TerminationResultMismatch { .. } => {
                "PGN_TERMINATION_RESULT_MISMATCH"@
            },
            PgnValidationError::FiftyMoveRuleNotSatisfied { .. } => "PGN_FIFTY_MOVE_NOT_SATISFIED"@,
            PgnValidationError::StalemateClaimButNotStalemate => "PGN_STALEMATE_CLAIM_INVALID"@,
            PgnValidationError::ResultPositionMismatch { .. } => "PGN_RESULT_POSITION_MISMATCH"@,
        }
    }

    /// The error in words.
    pub open spec fn words(self) -> Seq<char> {
        match self {
            PgnValidationError::EmptyDocument => "empty PGN document"@,
            PgnValidationError::MissingBlankLine => {
                "missing blank line between the tag section and the movetext"@
            },
            PgnValidationError::InvalidTagSyntax(text) => "invalid tag syntax: "@ + text,
            PgnValidationError::InvalidTagEscapeSequence(text) => {
                "invalid escape sequence in tag value: "@ + text
            },
            PgnValidationError::DuplicateTag(text) => "duplicate tag: "@ + text,
            PgnValidationError::MissingSevenTagRosterTag(text) => {
                "missing Seven Tag Roster tag: "@ + text
            },
            PgnValidationError::SevenTagRosterOutOfOrder { expected, found } => {
                "Seven Tag Roster out of order: expected "@ + expected + ", found "@ + found
            },
            PgnValidationError::InvalidDate(text) => "invalid Date tag value: "@ + text,
            PgnValidationError::InvalidResultValue(text) => "invalid Result value: "@ + text,
            PgnValidationError::ResultHeaderMismatch { header, terminator } => {
                "Result header \""@ + header + "\" does not match movetext terminator \""@
                    + terminator + "\""@
            },
            PgnValidationError::MissingTerminationTag => "missing Termination tag"@,
            PgnValidationError::InvalidTerminationValue(text) => {
                "invalid Termination value: "@ + text
            },
            PgnValidationError::InvalidSetupValue(text) => {
                "invalid SetUp value: "@ + text + " (must be \"1\")"@
            },
            PgnValidationError::SetupWithoutFen => "SetUp tag requires a FEN tag"@,
            PgnValidationError::FenWithoutSetup => "FEN tag requires SetUp \"1\""@,
            PgnValidationError::InvalidStartFen(text) => "invalid start FEN: "@ + text,
            PgnValidationError::VariantWithoutStartPosition(text) => {
                "variant \""@ + text + "\" requires SetUp/FEN start position tags"@
            },
            PgnValidationError::UnbalancedComment => "unbalanced comment braces in movetext"@,
            PgnValidationError::MalformedAnnotation(text) => {
                "malformed annotation comment: "@ + text
            },
            PgnValidationError::MalformedEvalAnnotation(text) => {
                "malformed eval annotation: "@ + text
            },
            PgnValidationError::MalformedClockAnnotation(text) => {
                "malformed clock annotation: "@ + text
            },
            PgnValidationError::VariationsNotAllowed => {
                "variations are not allowed in a canonical PGN export"@
            },
            PgnValidationError::MoveNumberOutOfSequence { ply, expected, found } => {
                "move number out of sequence at ply "@ + dec_nat(ply as nat) + ": expected "@
                    + dec_nat(expected as nat) + ", found "@ + dec_nat(found as nat)
            },
            PgnValidationError::InvalidMoveNumberFormat { ply, token } => {
                "invalid move-number format at ply "@ + dec_nat(ply as nat) + ": "@ + token
            },
            PgnValidationError::MissingMoveNumber { ply } => {
                "missing move number before the white move at ply "@ + dec_nat(ply as nat)
            },
            PgnValidationError::MissingMoveAfterNumber { ply } => {
                "move number without a following move at ply "@ + dec_nat(ply as nat)
            },
            PgnValidationError::UnexpectedMoveNumber { ply } => {
                "unexpected move-number token at ply "@ + dec_nat(ply as nat)
            },
            PgnValidationError::InvalidMoveSyntax { ply, token } => {
                "syntactically invalid SAN \""@ + token + "\" at ply "@ + dec_nat(ply as nat)
            },
            PgnValidationError::IllegalMove { ply, token, reason } => {
                "illegal move \""@ + token + "\" at ply "@ + dec_nat(ply as nat) + ": "@ + reason
            },
            PgnValidationError::NonCanonicalSan { ply, expected, found } => {
                "non-canonical SAN at ply "@ + dec_nat(ply as nat) + ": expected \""@ + expected
                    + "\", found \""@ + found + "\""@
            },
            PgnValidationError::IncorrectCheckSuffix { ply, expected, found } => {
                "incorrect check/checkmate suffix at ply "@ + dec_nat(ply as nat) + ": expected \""@
                    + expected + "\", found \""@ + found + "\""@
            },
            PgnValidationError::MovesAfterGameOver { ply } => {
                "moves continue after the game is already over (ply "@ + dec_nat(ply as nat) + ")"@
            },
            PgnValidationError::MissingTerminationMarker => "missing game termination marker"@,
            PgnValidationError::MultipleTerminationMarkers(text) => {
                "multiple termination markers: "@ + text
            },
            PgnValidationError::TokenAfterTermination(text) => {
                "unexpected token after the termination marker: "@ + text
            },
            PgnValidationError::TerminationResultMismatch { termination, result } => {
                "Termination \""@ + termination + "\" is inconsistent with result "@ + result
            },
            PgnValidationError::FiftyMoveRuleNotSatisfied { halfmoves } => {
                "Termination \"50-move rule\" requires at least 100 halfmoves, found "@
                    + dec_nat(halfmoves as nat)
            },
            PgnValidationError::StalemateClaimButNotStalemate => {
                "Termination \"Stalemate\" but the final position is not stalemate"@
            },
            PgnValidationError::ResultPositionMismatch { result, position } => {
                "result "@ + result + " is inconsistent with the final position ("@ + position
                    + ")"@
            },
        }
    }
}

fn append_number(out: &mut String, n: u64)
    ensures
        final(out)@ == old(out)@ + dec_nat(n as nat),
{
    out.append(string_of(nat_text(n).as_slice()).as_str());
}

impl PgnValidationError<String> {
    /// A stable, machine-readable error code suitable for API responses.
    pub fn code(&self) -> (r: &'static str)
        ensures
            r@ == self@.code_text(),
    {
        match self {
            PgnValidationError::EmptyDocument => "PGN_EMPTY_DOCUMENT",
            PgnValidationError::MissingBlankLine => "PGN_MISSING_BLANK_LINE",
            PgnValidationError::InvalidTagSyntax(_) => "PGN_INVALID_TAG_SYNTAX",
            PgnValidationError::InvalidTagEscapeSequence(_) => "PGN_INVALID_TAG_ESCAPE",
            PgnValidationError::DuplicateTag(_) => "PGN_DUPLICATE_TAG",
            PgnValidationError::MissingSevenTagRosterTag(_) => "PGN_MISSING_ROSTER_TAG",
            PgnValidationError::SevenTagRosterOutOfOrder { .. } => "PGN_ROSTER_OUT_OF_ORDER",
            PgnValidationError::InvalidDate(_) => "PGN_INVALID_DATE",
            PgnValidationError::InvalidResultValue(_) => "PGN_INVALID_RESULT",
            PgnValidationError::ResultHeaderMismatch { .. } => "PGN_RESULT_MISMATCH",
            PgnValidationError::MissingTerminationTag => "PGN_MISSING_TERMINATION_TAG",
            PgnValidationError::InvalidTerminationValue(_) => "PGN_INVALID_TERMINATION",
            PgnValidationError::InvalidSetupValue(_) => "PGN_INVALID_SETUP",
            PgnValidationError::SetupWithoutFen => "PGN_SETUP_WITHOUT_FEN",
            PgnValidationError::FenWithoutSetup => "PGN_FEN_WITHOUT_SETUP",
            PgnValidationError::InvalidStartFen(_) => "PGN_INVALID_START_FEN",
            PgnValidationError::VariantWithoutStartPosition(_) => "PGN_VARIANT_WITHOUT_START",
            PgnValidationError::UnbalancedComment => "PGN_UNBALANCED_COMMENT",
            PgnValidationError::MalformedAnnotation(_) => "PGN_MALFORMED_ANNOTATION",
            PgnValidationError::MalformedEvalAnnotation(_) => "PGN_MALFORMED_EVAL",
            PgnValidationError::MalformedClockAnnotation(_) => "PGN_MALFORMED_CLOCK",
            PgnValidationError::VariationsNotAllowed => "PGN_VARIATIONS_NOT_ALLOWED",
            PgnValidationError::MoveNumberOutOfSequence { .. } => "PGN_MOVE_NUMBER_SEQUENCE",
            PgnValidationError::InvalidMoveNumberFormat { .. } => "PGN_MOVE_NUMBER_FORMAT",
            PgnValidationError::MissingMoveNumber { .. } => "PGN_MISSING_MOVE_NUMBER",
            PgnValidationError::MissingMoveAfterNumber { .. } => "PGN_MISSING_MOVE_AFTER_NUMBER",
            PgnValidationError::UnexpectedMoveNumber { .. } => "PGN_UNEXPECTED_MOVE_NUMBER",
            PgnValidationError::InvalidMoveSyntax { .. } => "PGN_INVALID_MOVE_SYNTAX",
            PgnValidationError::IllegalMove { .. } => "PGN_ILLEGAL_MOVE",
            PgnValidationError::NonCanonicalSan { .. } => "PGN_NON_CANONICAL_SAN",
            PgnValidationError::IncorrectCheckSuffix { .. } => "PGN_INCORRECT_CHECK_SUFFIX",
            PgnValidationError::MovesAfterGameOver { .. } => "PGN_MOVES_AFTER_GAME_OVER",
            PgnValidationError::MissingTerminationMarker => "PGN_MISSING_TERMINATION_MARKER",
            PgnValidationError::MultipleTerminationMarkers(_) => "PGN_MULTIPLE_TERMINATION_MARKERS",
            PgnValidationError::TokenAfterTermination(_) => "PGN_TOKEN_AFTER_TERMINATION",
            PgnValidationError::TerminationResultMismatch { .. } => {
                "PGN_TERMINATION_RESULT_MISMATCH"
            },
            PgnValidationError::FiftyMoveRuleNotSatisfied { .. } => "PGN_FIFTY_MOVE_NOT_SATISFIED",
            PgnValidationError::StalemateClaimButNotStalemate => "PGN_STALEMATE_CLAIM_INVALID",
            PgnValidationError::ResultPositionMismatch { .. } => "PGN_RESULT_POSITION_MISMATCH",
        }
    }

    /// The error in words.
    pub fn message(&self) -> (r: String)
        ensures
            r@ == self@.words(),
    {
        match self {
            PgnValidationError::EmptyDocument => "empty PGN document".to_owned(),
            PgnValidationError::MissingBlankLine => {
                "missing blank line between the tag section and the movetext".to_owned()
            },
            PgnValidationError::InvalidTagSyntax(text) => {
                let mut out = "invalid tag syntax: ".to_owned();
                out.append(text.as_str());
                out
            },
            PgnValidationError::InvalidTagEscapeSequence(text) => {
                let mut out = "invalid escape sequence in tag value: ".to_owned();
                out.append(text.as_str());
                out
            },
            PgnValidationError::DuplicateTag(text) => {
                let mut out = "duplicate tag: ".to_owned();
                out.append(text.as_str());
                out
            },
            PgnValidationError::MissingSevenTagRosterTag(text) => {
                let mut out = "missing Seven Tag Roster tag: ".to_owned();
                out.append(text.as_str());
                out
            },
            PgnValidationError::SevenTagRosterOutOfOrder { expected, found } => {
                let mut out = "Seven Tag Roster out of order: expected ".to_owned();
                out.append(expected.as_str());
                out.append(", found ");
                out.append(found.as_str());
                out
            },
            PgnValidationError::InvalidDate(text) => {
                let mut out = "invalid Date tag value: ".to_owned();
                out.append(text.as_str());
                out
            },
            PgnValidationError::InvalidResultValue(text) => {
                let mut out = "invalid Result value: ".to_owned();
                out.append(text.as_str());
                out
            },
            PgnValidationError::ResultHeaderMismatch { header, terminator } => {
                let mut out = "Result header \"".to_owned();
                out.append(header.as_str());
                out.append("\" does not match movetext terminator \"");
                out.append(terminator.as_str());
                out.append("\"");
                out
            },
            PgnValidationError::MissingTerminationTag => "missing Termination tag".to_owned(),
            PgnValidationError::InvalidTerminationValue(text) => {
                let mut out = "invalid Termination value: ".to_owned();
                out.append(text.as_str());
                out
            },
            PgnValidationError::InvalidSetupValue(text) => {
                let mut out = "invalid SetUp value: ".to_owned();
                out.append(text.as_str());
                out.append(" (must be \"1\")");
                out
            },
            PgnValidationError::SetupWithoutFen => "SetUp tag requires a FEN tag".to_owned(),
            PgnValidationError::FenWithoutSetup => "FEN tag requires SetUp \"1\"".to_owned(),
            PgnValidationError::InvalidStartFen(text) => {
                let mut out = "invalid start FEN: ".to_owned();
                out.append(text.as_str());
                out
            },
            PgnValidationError::VariantWithoutStartPosition(text) => {
                let mut out = "variant \"".to_owned();
                out.append(text.as_str());
                out.append("\" requires SetUp/FEN start position tags");
                out
            },
            PgnValidationError::UnbalancedComment => {
                "unbalanced comment braces in movetext".to_owned()
            },
            PgnValidationError::MalformedAnnotation(text) => {
                let mut out = "malformed annotation comment: ".to_owned();
                out.append(text.as_str());
                out
            },
            PgnValidationError::MalformedEvalAnnotation(text) => {
                let mut out = "malformed eval annotation: ".to_owned();
                out.append(text.as_str());
                out
            },
            PgnValidationError::MalformedClockAnnotation(text) => {
                let mut out = "malformed clock annotation: ".to_owned();
                out.append(text.as_str());
                out
            },
            PgnValidationError::VariationsNotAllowed => {
                "variations are not allowed in a canonical PGN export".to_owned()
            },
            PgnValidationError::MoveNumberOutOfSequence { ply, expected, found } => {
                let mut out = "move number out of sequence at ply ".to_owned();
                append_number(&mut out, *ply as u64);
                out.append(": expected ");
                append_number(&mut out, *expected as u64);
                out.append(", found ");
                append_number(&mut out, *found as u64);
                out
            },
            PgnValidationError::InvalidMoveNumberFormat { ply, token } => {
                let mut out = "invalid move-number format at ply ".to_owned();
                append_number(&mut out, *ply as u64);
                out.append(": ");
                out.append(token.as_str());
                out
            },
            PgnValidationError::MissingMoveNumber { ply } => {
                let mut out = "missing move number before the white move at ply ".to_owned();
                append_number(&mut out, *ply as u64);
                out
            },
            PgnValidationError::MissingMoveAfterNumber { ply } => {
                let mut out = "move number without a following move at ply ".to_owned();
                append_number(&mut out, *ply as u64);
                out
            },
            PgnValidationError::UnexpectedMoveNumber { ply } => {
                let mut out = "unexpected move-number token at ply ".to_owned();
                append_number(&mut out, *ply as u64);
                out
            },
            PgnValidationError::InvalidMoveSyntax { ply, token } => {
                let mut out = "syntactically invalid SAN \"".to_owned();
                out.append(token.as_str());
                out.append("\" at ply ");
                append_number(&mut out, *ply as u64);
                out
            },
            PgnValidationError::IllegalMove { ply, token, reason } => {
                let mut out = "illegal move \"".to_owned();
                out.append(token.as_str());
                out.append("\" at ply ");
                append_number(&mut out, *ply as u64);
                out.append(": ");
                out.append(reason.as_str());
                out
            },
            PgnValidationError::NonCanonicalSan { ply, expected, found } => {
                let mut out = "non-canonical SAN at ply ".to_owned();
                append_number(&mut out, *ply as u64);
                out.append(": expected \"");
                out.append(expected.as_str());
                out.append("\", found \"");
                out.append(found.as_str());
                out.append("\"");
                out
            },
            PgnValidationError::IncorrectCheckSuffix { ply, expected, found } => {
                let mut out = "incorrect check/checkmate suffix at ply ".to_owned();
                append_number(&mut out, *ply as u64);
                out.append(": expected \"");
                out.append(expected.as_str());
                out.append("\", found \"");
                out.append(found.as_str());
                out.append("\"");
                out
            },
            PgnValidationError::MovesAfterGameOver { ply } => {
                let mut out = "moves continue after the game is already over (ply ".to_owned();
                append_number(&mut out, *ply as u64);
                out.append(")");
                out
            },
            PgnValidationError::MissingTerminationMarker => {
                "missing game termination marker".to_owned()
            },
            PgnValidationError::MultipleTerminationMarkers(text) => {
                let mut out = "multiple termination markers: ".to_owned();
                out.append(text.as_str());
                out
            },
            PgnValidationError::TokenAfterTermination(text) => {
                let mut out = "unexpected token after the termination marker: ".to_owned();
                out.append(text.as_str());
                out
            },
            PgnValidationError::TerminationResultMismatch { termination, result } => {
                let mut out = "Termination \"".to_owned();
                out.append(termination.as_str());
                out.append("\" is inconsistent with result ");
                out.append(result.as_str());
                out
            },
            PgnValidationError::FiftyMoveRuleNotSatisfied { halfmoves } => {
                let mut out =
                    "Termination \"50-move rule\" requires at least 100 halfmoves, found ".to_owned();
                append_number(&mut out, *halfmoves as u64);
                out
            },
            PgnValidationError::StalemateClaimButNotStalemate => {
                "Termination \"Stalemate\" but the final position is not stalemate".to_owned()
            },
            PgnValidationError::ResultPositionMismatch { result, position } => {
                let mut out = "result ".to_owned();
                out.append(result.as_str());
                out.append(" is inconsistent with the final position (");
                out.append(position.as_str());
                out.append(")");
                out
            },
        }
    }
}

/// Adds an error to a list.
pub fn report(errors: &mut Vec<PgnValidationError>, error: PgnValidationError)
    ensures
        faults(final(errors)@) == faults(old(errors)@).push(error@),
{
    errors.push(error);
    assert(faults(errors@) == faults(old(errors)@).push(error@));
}

} // verus!
