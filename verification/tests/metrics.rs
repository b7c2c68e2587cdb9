use knightverse::metrics::{
    decrement_active_games, decrement_matchmaking_queue, decrement_ws_connections,
    increment_active_games, increment_ai_requests, increment_auth_events, increment_game_events,
    increment_matchmaking_queue, increment_spectator_backpressure_disconnects,
    increment_spectator_frames_dropped, increment_ws_connections, set_matchmaking_queue_size,
    set_spectator_queue_depth, set_ws_connections, Metric, MetricKind, MetricOp, MetricUpdate,
};

fn update(metric: Metric, labels: &[&str], op: MetricOp) -> MetricUpdate {
    MetricUpdate { metric, labels: labels.iter().map(|l| l.to_string()).collect(), op }
}

const ALL: [Metric; 10] = [
    Metric::ActiveGames,
    Metric::WsConnections,
    Metric::DbQueryDuration,
    Metric::MatchmakingQueueSize,
    Metric::AiRequestsTotal,
    Metric::AuthEventsTotal,
    Metric::GameEventsTotal,
    Metric::SpectatorQueueDepth,
    Metric::SpectatorFramesDroppedTotal,
    Metric::SpectatorBackpressureDisconnectsTotal,
];

#[test]
fn gauges_move_both_ways() {
    assert_eq!(increment_active_games(), update(Metric::ActiveGames, &[], MetricOp::Inc));
    assert_eq!(decrement_active_games(), update(Metric::ActiveGames, &[], MetricOp::Dec));
    assert_eq!(increment_ws_connections(), update(Metric::WsConnections, &[], MetricOp::Inc));
    assert_eq!(decrement_ws_connections(), update(Metric::WsConnections, &[], MetricOp::Dec));
    assert_eq!(set_ws_connections(-3), update(Metric::WsConnections, &[], MetricOp::SetTo(-3)));
    let queue = Metric::MatchmakingQueueSize;
    assert_eq!(set_matchmaking_queue_size(12), update(queue, &[], MetricOp::SetTo(12)));
    assert_eq!(increment_matchmaking_queue(), update(queue, &[], MetricOp::Inc));
    assert_eq!(decrement_matchmaking_queue(), update(queue, &[], MetricOp::Dec));
}

#[test]
fn counters_carry_their_labels() {
    assert_eq!(
        increment_ai_requests("analysis"),
        update(Metric::AiRequestsTotal, &["analysis"], MetricOp::Inc)
    );
    assert_eq!(
        increment_auth_events("login", true),
        update(Metric::AuthEventsTotal, &["login", "true"], MetricOp::Inc)
    );
    assert_eq!(
        increment_auth_events("login", false),
        update(Metric::AuthEventsTotal, &["login", "false"], MetricOp::Inc)
    );
    assert_eq!(
        increment_game_events("created"),
        update(Metric::GameEventsTotal, &["created"], MetricOp::Inc)
    );
}

#[test]
fn spectator_metrics_are_per_room() {
    assert_eq!(
        set_spectator_queue_depth("r", usize::MAX),
        update(Metric::SpectatorQueueDepth, &["r"], MetricOp::SetTo(usize::MAX as i128))
    );
    assert_eq!(increment_spectator_frames_dropped("r", 0), None);
    assert_eq!(
        increment_spectator_frames_dropped("r", 7),
        Some(update(Metric::SpectatorFramesDroppedTotal, &["r"], MetricOp::IncBy(7)))
    );
    assert_eq!(
        increment_spectator_backpressure_disconnects("r"),
        update(Metric::SpectatorBackpressureDisconnectsTotal, &["r"], MetricOp::Inc)
    );
}

#[test]
fn the_catalogue_names_every_metric_once() {
    for (i, a) in ALL.iter().enumerate() {
        assert!(a.name().starts_with("xlmate_"));
        assert!(!a.help().is_empty());
        for b in &ALL[i + 1..] {
            assert_ne!(a.name(), b.name());
        }
    }
    assert_eq!(Metric::DbQueryDuration.name(), "xlmate_db_query_duration_seconds");
    assert_eq!(Metric::DbQueryDuration.kind(), MetricKind::Histogram);
    assert_eq!(Metric::ActiveGames.kind(), MetricKind::Gauge);
    assert_eq!(Metric::GameEventsTotal.kind(), MetricKind::Counter);
    assert_eq!(Metric::ActiveGames.help(), "Current number of active games");
    assert_eq!(Metric::AuthEventsTotal.label_names(), vec!["event_type", "success"]);
    assert_eq!(Metric::WsConnections.label_names(), Vec::<&str>::new());
}

#[test]
fn every_update_fits_its_metrics_labels() {
    for u in [
        increment_active_games(),
        set_ws_connections(1),
        increment_ai_requests("x"),
        increment_auth_events("x", true),
        increment_game_events("x"),
        set_spectator_queue_depth("x", 1),
        increment_spectator_backpressure_disconnects("x"),
    ] {
        assert_eq!(u.labels.len(), u.metric.label_names().len());
    }
}
