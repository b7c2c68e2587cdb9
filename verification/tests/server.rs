use knightverse::server::{
    cors_policy, health_redis, settings, worker_count, CorsPolicy, Environment, HealthDetail,
    HealthReport, RedisCheck, SettingsError, CORS_MAX_AGE, DEFAULT_SERVER_ADDR,
};

fn some(text: &str) -> Option<String> {
    Some(text.to_string())
}

fn environment() -> Environment {
    Environment {
        server_addr: None,
        database_url: some("postgres://db"),
        redis_url: some("redis://store"),
        allowed_origins: None,
        workers: None,
    }
}

#[test]
fn only_the_address_has_a_fallback() {
    let s = settings(environment()).unwrap();
    assert_eq!(s.server_addr, "127.0.0.1:8080");
    assert_eq!(s.server_addr, DEFAULT_SERVER_ADDR);
    assert_eq!(s.database_url, "postgres://db");
    assert_eq!(s.redis_url, "redis://store");
    assert_eq!(s.cors, CorsPolicy::AnyOrigin);
    assert_eq!(s.workers, None);
    assert_eq!(CORS_MAX_AGE, 3600);

    let s = settings(Environment { server_addr: some("0.0.0.0:1"), ..environment() }).unwrap();
    assert_eq!(s.server_addr, "0.0.0.0:1");

    let e = settings(Environment { database_url: None, redis_url: None, ..environment() });
    assert_eq!(e, Err(SettingsError::MissingDatabaseUrl));
    assert_eq!(e.unwrap_err().message(), "DATABASE_URL must be set in .env");

    let e = settings(Environment { redis_url: None, ..environment() });
    assert_eq!(e, Err(SettingsError::MissingRedisUrl));
    assert_eq!(
        e.unwrap_err().message(),
        "REDIS_URL must be set. Refusing to start with a hardcoded fallback."
    );
}

#[test]
fn origins_are_cut_at_commas_and_trimmed() {
    assert_eq!(cors_policy(&None), CorsPolicy::AnyOrigin);
    assert_eq!(
        cors_policy(&some("https://a.example, https://b.example\t,\u{2003}https://c.example")),
        CorsPolicy::Origins(vec![
            "https://a.example".to_string(),
            "https://b.example".to_string(),
            "https://c.example".to_string(),
        ])
    );
    assert_eq!(cors_policy(&some("")), CorsPolicy::Origins(vec![String::new()]));
    assert_eq!(
        cors_policy(&some("x,,")),
        CorsPolicy::Origins(vec!["x".to_string(), String::new(), String::new()])
    );
}

#[test]
fn worker_counts_read_as_the_standard_library_reads_them() {
    for text in
        ["4", "+4", "0", "007", "", "+", "-1", " 4", "4 ", "4_0", "\u{0664}", "++4", "a", "4.0"]
    {
        assert_eq!(worker_count(&some(text)), text.parse::<usize>().ok(), "{text:?}");
    }
    let max = usize::MAX.to_string();
    assert_eq!(worker_count(&some(&max)), Some(usize::MAX));
    assert_eq!(worker_count(&some("18446744073709551616")), None);
    assert_eq!(worker_count(&some(&format!("{max}0"))), None);
    assert_eq!(worker_count(&None), None);
}

#[test]
fn the_store_is_healthy_only_if_it_answers() {
    assert_eq!(
        health_redis(RedisCheck::Answered { elapsed_ms: 12 }),
        HealthReport {
            http_status: 200,
            status: "ok".to_string(),
            redis: "connected".to_string(),
            detail: HealthDetail::LatencyMs(12),
        }
    );
    assert_eq!(
        health_redis(RedisCheck::Answered { elapsed_ms: (1u128 << 64) + 3 }).detail,
        HealthDetail::LatencyMs(3)
    );
    let ping = health_redis(RedisCheck::PingFailed { error: "late".to_string() });
    assert_eq!((ping.http_status, ping.redis.as_str()), (503, "ping_failed"));
    assert_eq!(ping.status, "error");
    assert_eq!(ping.detail, HealthDetail::Error("late".to_string()));
    let gone = health_redis(RedisCheck::ConnectionFailed { error: "gone".to_string() });
    assert_eq!((gone.http_status, gone.redis.as_str()), (503, "connection_failed"));
    assert_eq!(gone.detail, HealthDetail::Error("gone".to_string()));
}
