//! What the HTTP server decides: how it is configured, whom it answers, and
//! what it says of its own health.

use vstd::prelude::*;

use crate::text::{
    chars_of, opt_text, parse_usize, split, split_at_char, string_of, strings, texts, trim, trimmed,
    usize_of,
};
use crate::text_laws::{
    holds_no, law_cuts_are_at_the_character, law_numbers_are_read_by_place,
    law_only_digits_are_numbers, place_value,
};

verus! {

/// The address the server listens on where none is given.
pub const DEFAULT_SERVER_ADDR: &'static str = "127.0.0.1:8080";

/// How long a browser may keep a preflight answer, in seconds.
pub const CORS_MAX_AGE: usize = 3600;

// ---------------------------------------------------------------------------
// Configuration
// ---------------------------------------------------------------------------

/// What the environment says, as far as the server looks.
#[derive(Debug, Clone, PartialEq, Eq)]
pub struct Environment {
    /// `SERVER_ADDR`
    pub server_addr: Option<String>,
    /// `DATABASE_URL`
    pub database_url: Option<String>,
    /// `REDIS_URL`
    pub redis_url: Option<String>,
    /// `ALLOWED_ORIGINS`
    pub allowed_origins: Option<String>,
    /// `WORKERS`
    pub workers: Option<String>,
}

/// Which origins may call the server from a browser.
#[derive(Debug, Clone, PartialEq, Eq)]
pub enum CorsPolicy {
    /// In development, all.
    AnyOrigin,
    /// Those of a list.
    Origins(Vec<String>),
}

/// The origins of a list: what stands between the commas, without the white
/// space around it.
pub open spec fn origins_of(list: Seq<char>) -> Seq<Seq<char>> {
    let parts = split(list, ',');
    Seq::new(parts.len(), |i: int| trim(parts[i]))
}

/// The contents of a [`CorsPolicy`]: the origins it allows, or `None` for all.
pub open spec fn allowed(policy: CorsPolicy) -> Option<Seq<Seq<char>>> {
    match policy {
        CorsPolicy::AnyOrigin => None,
        CorsPolicy::Origins(origins) => Some(strings(origins@)),
    }
}

/// The origins `ALLOWED_ORIGINS` allows.
pub open spec fn origins_set(list: Option<Seq<char>>) -> Option<Seq<Seq<char>>> {
    match list {
        None => None,
        Some(list) => Some(origins_of(list)),
    }
}

/// Reads the comma-separated list of allowed origins; without one all origins
/// are allowed.
pub fn cors_policy(allowed_origins: &Option<String>) -> (r: CorsPolicy)
    ensures
        allowed(r) == origins_set(opt_text(*allowed_origins)),
{
    let list = match allowed_origins {
        None => {
            return CorsPolicy::AnyOrigin;
        },
        Some(list) => chars_of(list.as_str()),
    };
    let parts = split_at_char(list.as_slice(), ',');
    let ghost cut = split(list@, ',');
    let mut origins: Vec<String> = Vec::new();
    let mut i: usize = 0;
    while i < parts.len()
        invariant
            i <= parts@.len(),
            texts(parts@) == cut,
            origins@.len() == i,
            forall|j: int| 0 <= j < i ==> (#[trigger] origins@[j])@ == trim(cut[j]),
        decreases parts@.len() - i,
    {
        assert(texts(parts@)[i as int] == parts@[i as int]@);
        let origin = trimmed(parts[i].as_slice());
        origins.push(string_of(origin.as_slice()));
        i += 1;
    }
    assert(strings(origins@) =~= origins_of(list@));
    CorsPolicy::Origins(origins)
}

/// The worker count `WORKERS` asks for. What is no number is passed over.
pub open spec fn workers_set(workers: Option<Seq<char>>) -> Option<usize> {
    match workers {
        None => None,
        Some(text) => usize_of(text),
    }
}

/// Reads the worker count.
pub fn worker_count(workers: &Option<String>) -> (r: Option<usize>)
    ensures
        r == workers_set(opt_text(*workers)),
{
    match workers {
        None => None,
        Some(text) => parse_usize(chars_of(text.as_str()).as_slice()),
    }
}

/// What the server runs with.
#[derive(Debug, Clone, PartialEq, Eq)]
pub struct ServerSettings {
    pub server_addr: String,
    pub database_url: String,
    pub redis_url: String,
    pub cors: CorsPolicy,
    pub workers: Option<usize>,
}

/// Why the server refuses to start.
#[derive(Debug, Clone, Copy, PartialEq, Eq, Structural)]
pub enum SettingsError {
    MissingDatabaseUrl,
    MissingRedisUrl,
}

impl SettingsError {
    /// The text of the refusal.
    pub open spec fn text(self) -> Seq<char> {
        match self {
            SettingsError::MissingDatabaseUrl => "DATABASE_URL must be set in .env"@,
            SettingsError::MissingRedisUrl =>
                "REDIS_URL must be set. Refusing to start with a hardcoded fallback."@,
        }
    }

    /// What the operator is told.
    pub fn message(self) -> (r: &'static str)
        ensures
            r@ == self.text(),
    {
        match self {
            SettingsError::MissingDatabaseUrl => "DATABASE_URL must be set in .env",
            SettingsError::MissingRedisUrl =>
                "REDIS_URL must be set. Refusing to start with a hardcoded fallback.",
        }
    }
}

/// Reads the settings from the environment. Only the listening address has a
/// fallback: a missing store is no reason to guess where it is.
pub fn settings(environment: Environment) -> (r: Result<ServerSettings, SettingsError>)
    ensures
        match r {
            Ok(s) => {
                &&& s.server_addr@ == match environment.server_addr {
                    Some(addr) => addr@,
                    None => DEFAULT_SERVER_ADDR@,
                }
                &&& environment.database_url == Some(s.database_url)
                &&& environment.redis_url == Some(s.redis_url)
                &&& allowed(s.cors) == origins_set(opt_text(environment.allowed_origins))
                &&& s.workers == workers_set(opt_text(environment.workers))
            },
            Err(SettingsError::MissingDatabaseUrl) => environment.database_url is None,
            Err(SettingsError::MissingRedisUrl) => environment.database_url is Some
                && environment.redis_url is None,
        },
        r is Ok <==> environment.database_url is Some && environment.redis_url is Some,
{
    let server_addr = match environment.server_addr {
        Some(addr) => addr,
        None => DEFAULT_SERVER_ADDR.to_owned(),
    };
    let database_url = match environment.database_url {
        Some(url) => url,
        None => {
            return Err(SettingsError::MissingDatabaseUrl);
        },
    };
    let redis_url = match environment.redis_url {
        Some(url) => url,
        None => {
            return Err(SettingsError::MissingRedisUrl);
        },
    };
    Ok(
        ServerSettings {
            server_addr,
            database_url,
            redis_url,
            cors: cors_policy(&environment.allowed_origins),
            workers: worker_count(&environment.workers),
        },
    )
}

// ---------------------------------------------------------------------------
// Health
// ---------------------------------------------------------------------------

/// What came of a ping.
#[derive(Debug, Clone, PartialEq, Eq)]
pub enum RedisCheck {
    /// An answer, after so many milliseconds.
    Answered { elapsed_ms: u128 },
    /// A connection, but no answer.
    PingFailed { error: String },
    /// No connection.
    ConnectionFailed { error: String },
}

/// What else a health report says.
#[derive(Debug, Clone, PartialEq, Eq)]
pub enum HealthDetail {
    LatencyMs(u64),
    Error(String),
}

/// What is said of the store's health.
#[derive(Debug, Clone, PartialEq, Eq)]
pub struct HealthReport {
    /// The HTTP status of the answer.
    pub http_status: u16,
    pub status: String,
    pub redis: String,
    pub detail: HealthDetail,
}

/// Whether a report says what came of a ping: a store that answered is healthy,
/// and one that did not makes the service unavailable.
pub open spec fn reports(report: HealthReport, check: RedisCheck) -> bool {
    match check {
        RedisCheck::Answered { elapsed_ms } => {
            &&& report.http_status == 200
            &&& report.status@ == "ok"@
            &&& report.redis@ == "connected"@
            &&& report.detail == HealthDetail::LatencyMs(
                ((elapsed_ms as int) % 0x1_0000_0000_0000_0000) as u64,
            )
        },
        RedisCheck::PingFailed { error } => {
            &&& report.http_status == 503
            &&& report.status@ == "error"@
            &&& report.redis@ == "ping_failed"@
            &&& report.detail == HealthDetail::Error(error)
        },
        RedisCheck::ConnectionFailed { error } => {
            &&& report.http_status == 503
            &&& report.status@ == "error"@
            &&& report.redis@ == "connection_failed"@
            &&& report.detail == HealthDetail::Error(error)
        },
    }
}

/// Redis health check endpoint
pub fn health_redis(check: RedisCheck) -> (r: HealthReport)
    ensures
        reports(r, check),
{
    match check {
        RedisCheck::Answered { elapsed_ms } => {
            assert(elapsed_ms as u64 == elapsed_ms % 0x1_0000_0000_0000_0000) by (bit_vector);
            HealthReport {
                http_status: 200,
                status: "ok".to_owned(),
                redis: "connected".to_owned(),
                detail: HealthDetail::LatencyMs(#[verifier::truncate] (elapsed_ms as u64)),
            }
        },
        RedisCheck::PingFailed { error } => HealthReport {
            http_status: 503,
            status: "error".to_owned(),
            redis: "ping_failed".to_owned(),
            detail: HealthDetail::Error(error),
        },
        RedisCheck::ConnectionFailed { error } => HealthReport {
            http_status: 503,
            status: "error".to_owned(),
            redis: "connection_failed".to_owned(),
            detail: HealthDetail::Error(error),
        },
    }
}

// ---------------------------------------------------------------------------
// Laws
// ---------------------------------------------------------------------------

/// The allowed origins are what stands between the commas of the list, without
/// the white space around it; without a list all origins are allowed.
pub proof fn law_origins_stand_between_commas(first: Seq<char>, rest: Seq<char>)
    requires
        holds_no(first, ','),
    ensures
        origins_set(None) is None,
        origins_set(Some(first)) == Some(seq![trim(first)]),
        origins_set(Some(first + seq![','] + rest)) == Some(
            seq![trim(first)] + origins_set(Some(rest))->0,
        ),
{
    law_cuts_are_at_the_character(first, rest, ',');
    assert(origins_of(first) =~= seq![trim(first)]);
    assert(origins_of(first + seq![','] + rest) =~= seq![trim(first)] + origins_of(rest));
}

/// The server takes as many workers as it is told, where it is told a number, and
/// chooses by itself otherwise.
pub proof fn law_workers_are_as_told(digits: Seq<char>)
    requires
        digits.len() > 0,
        forall|i: int| 0 <= i < digits.len() ==> '0' <= #[trigger] digits[i] <= '9',
        place_value(digits) <= usize::MAX,
    ensures
        workers_set(None) is None,
        workers_set(Some(digits)) matches Some(n) && n == place_value(digits),
        forall|text: Seq<char>| #[trigger]
            workers_set(Some(text)) is Some ==> {
                let told = if text.len() > 0 && text[0] == '+' {
                    text.skip(1)
                } else {
                    text
                };
                told.len() > 0 && forall|i: int|
                    0 <= i < told.len() ==> '0' <= #[trigger] told[i] <= '9'
            },
{
    law_numbers_are_read_by_place(digits);
    assert forall|text: Seq<char>| #[trigger] workers_set(Some(text)) is Some implies ({
        let told = if text.len() > 0 && text[0] == '+' {
            text.skip(1)
        } else {
            text
        };
        told.len() > 0 && forall|i: int| 0 <= i < told.len() ==> '0' <= #[trigger] told[i] <= '9'
    }) by {
        law_only_digits_are_numbers(text);
    }
}

/// A store that answers makes the service healthy, and is reported with the time
/// it took; one that does not makes the service unavailable, and is reported with
/// what went wrong.
pub proof fn law_health_is_that_of_the_store(report: HealthReport, check: RedisCheck)
    requires
        reports(report, check),
    ensures
        report.http_status == 200 <==> check is Answered,
        report.http_status == 503 <==> !(check is Answered),
        report.status@ == if check is Answered {
            "ok"@
        } else {
            "error"@
        },
        match check {
            RedisCheck::Answered { elapsed_ms } => {
                &&& report.redis@ == "connected"@
                &&& report.detail matches HealthDetail::LatencyMs(ms) && (elapsed_ms <= u64::MAX
                    ==> ms == elapsed_ms)
            },
            RedisCheck::PingFailed { error } => report.redis@ == "ping_failed"@ && report.detail
                == HealthDetail::Error(error),
            RedisCheck::ConnectionFailed { error } => report.redis@ == "connection_failed"@
                && report.detail == HealthDetail::Error(error),
        },
        DEFAULT_SERVER_ADDR@ == "127.0.0.1:8080"@,
        CORS_MAX_AGE == 3600,
{
}

} // verus!
