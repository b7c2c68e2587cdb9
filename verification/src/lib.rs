//! KnightVerse: the logic of an online chess service.
//!
//! - [`pgn`], [`pgn_export`] and [`pgn_validator`] read, write and check games
//!   in Portable Game Notation.
//! - [`arbiter_escrow`], [`referral_splitter`] and [`title_badge`] are the
//!   service's ledger contracts, over the [`host`] they run on.
//! - [`redis_broadcast`], [`metrics`] and [`server`] are what the backend
//!   decides while it talks to its spectators, its monitoring and its clients.

pub mod arbiter_escrow;
pub mod arbiter_escrow_laws;
pub mod arbiter_escrow_outcomes;
pub mod board;
pub mod host;
pub mod metrics;
pub mod pgn;
pub mod pgn_accepted_laws;
pub mod pgn_check_laws;
pub mod pgn_export;
pub mod pgn_faults;
pub mod pgn_form_laws;
pub mod pgn_laws;
pub mod pgn_layout;
pub mod pgn_movetext;
pub mod pgn_reading_laws;
pub mod pgn_replay_laws;
pub mod pgn_strict_laws;
pub mod pgn_tags;
pub mod pgn_validator;
pub mod pgn_writing_laws;
pub mod redis_broadcast;
pub mod referral_splitter;
pub mod server;
pub mod text;
pub mod text_laws;
pub mod title_badge;
pub mod unicode;

pub use pgn::{
    export_pgn, export_pgn_validated, parse_pgn, validate_game, ExportHeaders,
    GameResult as PgnGameResult, MoveAnnotation, ParsedGame, PgnBuilder, PgnError, PgnHeaders,
    ValidatedGame,
};
pub use pgn_validator::{
    is_valid_pgn_export, lint_pgn_export, validate_pgn_export, PgnValidationError,
    PgnValidationReport, ValidatedPgnExport, SEVEN_TAG_ROSTER,
};
