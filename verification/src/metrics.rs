//! The metrics of the backend, and how each event moves them.
//!
//! An event is worked out to a [`MetricUpdate`]: which series of which metric
//! moves, and by how much. The exporter that owns the registry applies it.

use vstd::prelude::*;

use crate::text::strings;

verus! {

/// Custom metrics of the backend.
#[derive(Debug, Clone, Copy, PartialEq, Eq, Structural)]
pub enum Metric {
    /// Number of currently active games
    ActiveGames,
    /// Number of active WebSocket connections
    WsConnections,
    /// Database query duration in seconds
    DbQueryDuration,
    /// Number of players in matchmaking queue
    MatchmakingQueueSize,
    /// Total AI requests (labeled by type: suggestion, analysis)
    AiRequestsTotal,
    /// Total authentication events (labeled by type and success status)
    AuthEventsTotal,
    /// Total game events (labeled by type: created, completed, abandoned)
    GameEventsTotal,
    /// Buffered outbound frames per spectator game room (labeled by game_id)
    SpectatorQueueDepth,
    /// Spectator frames dropped due to outbound backpressure (labeled by game_id)
    SpectatorFramesDroppedTotal,
    /// Spectator connections disconnected due to backpressure (labeled by game_id)
    SpectatorBackpressureDisconnectsTotal,
}

/// What kind of value a metric holds.
#[derive(Debug, Clone, Copy, PartialEq, Eq, Structural)]
pub enum MetricKind {
    /// A value that goes up and down.
    Gauge,
    /// A value that only goes up.
    Counter,
    /// A distribution of observed values.
    Histogram,
}

impl Metric {
    /// The kind of a metric.
    pub open spec fn kind_of(self) -> MetricKind {
        match self {
            Metric::ActiveGames
            | Metric::WsConnections
            | Metric::MatchmakingQueueSize
            | Metric::SpectatorQueueDepth => MetricKind::Gauge,
            Metric::DbQueryDuration => MetricKind::Histogram,
            _ => MetricKind::Counter,
        }
    }

    /// What kind of value the metric holds.
    pub fn kind(self) -> (r: MetricKind)
        ensures
            r == self.kind_of(),
    {
        match self {
            Metric::ActiveGames
            | Metric::WsConnections
            | Metric::MatchmakingQueueSize
            | Metric::SpectatorQueueDepth => MetricKind::Gauge,
            Metric::DbQueryDuration => MetricKind::Histogram,
            _ => MetricKind::Counter,
        }
    }

    /// The name of a metric.
    pub open spec fn name_text(self) -> Seq<char> {
        match self {
            Metric::ActiveGames => "xlmate_active_games"@,
            Metric::WsConnections => "xlmate_ws_connections"@,
            Metric::DbQueryDuration => "xlmate_db_query_duration_seconds"@,
            Metric::MatchmakingQueueSize => "xlmate_matchmaking_queue_size"@,
            Metric::AiRequestsTotal => "xlmate_ai_requests_total"@,
            Metric::AuthEventsTotal => "xlmate_auth_events_total"@,
            Metric::GameEventsTotal => "xlmate_game_events_total"@,
            Metric::SpectatorQueueDepth => "xlmate_spectator_queue_depth"@,
            Metric::SpectatorFramesDroppedTotal => "xlmate_spectator_frames_dropped_total"@,
            Metric::SpectatorBackpressureDisconnectsTotal =>
                "xlmate_spectator_backpressure_disconnects_total"@,
        }
    }

    /// The name the metric is exported under.
    pub fn name(self) -> (r: &'static str)
        ensures
            r@ == self.name_text(),
    {
        match self {
            Metric::ActiveGames => "xlmate_active_games",
            Metric::WsConnections => "xlmate_ws_connections",
            Metric::DbQueryDuration => "xlmate_db_query_duration_seconds",
            Metric::MatchmakingQueueSize => "xlmate_matchmaking_queue_size",
            Metric::AiRequestsTotal => "xlmate_ai_requests_total",
            Metric::AuthEventsTotal => "xlmate_auth_events_total",
            Metric::GameEventsTotal => "xlmate_game_events_total",
            Metric::SpectatorQueueDepth => "xlmate_spectator_queue_depth",
            Metric::SpectatorFramesDroppedTotal => "xlmate_spectator_frames_dropped_total",
            Metric::SpectatorBackpressureDisconnectsTotal =>
                "xlmate_spectator_backpressure_disconnects_total",
        }
    }

    /// The help text of a metric.
    pub open spec fn help_text(self) -> Seq<char> {
        match self {
            Metric::ActiveGames => "Current number of active games"@,
            Metric::WsConnections => "Current number of active WebSocket connections"@,
            Metric::DbQueryDuration => "Database query duration in seconds"@,
            Metric::MatchmakingQueueSize => "Number of players waiting in matchmaking queue"@,
            Metric::AiRequestsTotal => "Total number of AI requests"@,
            Metric::AuthEventsTotal => "Total number of authentication events"@,
            Metric::GameEventsTotal => "Total number of game events"@,
            Metric::SpectatorQueueDepth => "Buffered outbound frames per spectator game room"@,
            Metric::SpectatorFramesDroppedTotal =>
                "Spectator frames dropped due to outbound backpressure"@,
            Metric::SpectatorBackpressureDisconnectsTotal =>
                "Spectator connections disconnected due to outbound backpressure"@,
        }
    }

    /// The help text exported with the metric.
    pub fn help(self) -> (r: &'static str)
        ensures
            r@ == self.help_text(),
    {
        match self {
            Metric::ActiveGames => "Current number of active games",
            Metric::WsConnections => "Current number of active WebSocket connections",
            Metric::DbQueryDuration => "Database query duration in seconds",
            Metric::MatchmakingQueueSize => "Number of players waiting in matchmaking queue",
            Metric::AiRequestsTotal => "Total number of AI requests",
            Metric::AuthEventsTotal => "Total number of authentication events",
            Metric::GameEventsTotal => "Total number of game events",
            Metric::SpectatorQueueDepth => "Buffered outbound frames per spectator game room",
            Metric::SpectatorFramesDroppedTotal =>
                "Spectator frames dropped due to outbound backpressure",
            Metric::SpectatorBackpressureDisconnectsTotal =>
                "Spectator connections disconnected due to outbound backpressure",
        }
    }

    /// The label names of a metric.
    pub open spec fn label_texts(self) -> Seq<Seq<char>> {
        match self {
            Metric::ActiveGames
            | Metric::WsConnections
            | Metric::DbQueryDuration
            | Metric::MatchmakingQueueSize => seq![],
            Metric::AiRequestsTotal => seq!["request_type"@],
            Metric::AuthEventsTotal => seq!["event_type"@, "success"@],
            Metric::GameEventsTotal => seq!["event_type"@],
            Metric::SpectatorQueueDepth
            | Metric::SpectatorFramesDroppedTotal
            | Metric::SpectatorBackpressureDisconnectsTotal => seq!["game_id"@],
        }
    }

    /// The names of the labels that tell the metric's series apart.
    pub fn label_names(self) -> (r: Vec<&'static str>)
        ensures
            r@.len() == self.label_texts().len(),
            forall|i: int| 0 <= i < r@.len() ==> (#[trigger] r@[i])@ == self.label_texts()[i],
    {
        let mut names: Vec<&'static str> = Vec::new();
        match self {
            Metric::ActiveGames
            | Metric::WsConnections
            | Metric::DbQueryDuration
            | Metric::MatchmakingQueueSize => {},
            Metric::AiRequestsTotal => {
                names.push("request_type");
            },
            Metric::AuthEventsTotal => {
                names.push("event_type");
                names.push("success");
            },
            Metric::GameEventsTotal => {
                names.push("event_type");
            },
            Metric::SpectatorQueueDepth
            | Metric::SpectatorFramesDroppedTotal
            | Metric::SpectatorBackpressureDisconnectsTotal => {
                names.push("game_id");
            },
        }
        names
    }
}

/// How a series moves.
#[derive(Debug, Clone, Copy, PartialEq, Eq, Structural)]
pub enum MetricOp {
    /// Up by one.
    Inc,
    /// Down by one.
    Dec,
    /// Up by an amount.
    IncBy(u64),
    /// To a value.
    SetTo(i128),
}

/// A movement of one series of a metric.
#[derive(Debug, Clone, PartialEq, Eq)]
pub struct MetricUpdate {
    pub metric: Metric,
    /// The values of the metric's labels, in the order of their names.
    pub labels: Vec<String>,
    pub op: MetricOp,
}

/// The contents of a [`MetricUpdate`].
pub ghost struct UpdateView {
    pub metric: Metric,
    pub labels: Seq<Seq<char>>,
    pub op: MetricOp,
}

impl View for MetricUpdate {
    type V = UpdateView;

    open spec fn view(&self) -> UpdateView {
        UpdateView { metric: self.metric, labels: strings(self.labels@), op: self.op }
    }
}

/// An update of a metric without labels.
pub open spec fn plain(metric: Metric, op: MetricOp) -> UpdateView {
    UpdateView { metric, labels: seq![], op }
}

/// An update of one series of a metric with one label.
pub open spec fn labelled(metric: Metric, label: Seq<char>, op: MetricOp) -> UpdateView {
    UpdateView { metric, labels: seq![label], op }
}

/// The label value of a flag.
pub open spec fn flag_text(flag: bool) -> Seq<char> {
    if flag {
        "true"@
    } else {
        "false"@
    }
}

/// An event that moves a metric.
pub ghost enum Event {
    GameStarted,
    GameEnded,
    WsConnected,
    WsDisconnected,
    WsCounted(i64),
    QueueCounted(i64),
    QueueJoined,
    QueueLeft,
    AiRequested(Seq<char>),
    Authenticated(Seq<char>, bool),
    GameHappened(Seq<char>),
    DepthMeasured(Seq<char>, usize),
    FramesDropped(Seq<char>, u64),
    SpectatorDisconnected(Seq<char>),
}

/// The update an event makes.
pub open spec fn update_of(event: Event) -> UpdateView {
    match event {
        Event::GameStarted => plain(Metric::ActiveGames, MetricOp::Inc),
        Event::GameEnded => plain(Metric::ActiveGames, MetricOp::Dec),
        Event::WsConnected => plain(Metric::WsConnections, MetricOp::Inc),
        Event::WsDisconnected => plain(Metric::WsConnections, MetricOp::Dec),
        Event::WsCounted(n) => plain(Metric::WsConnections, MetricOp::SetTo(n as i128)),
        Event::QueueCounted(n) => plain(Metric::MatchmakingQueueSize, MetricOp::SetTo(n as i128)),
        Event::QueueJoined => plain(Metric::MatchmakingQueueSize, MetricOp::Inc),
        Event::QueueLeft => plain(Metric::MatchmakingQueueSize, MetricOp::Dec),
        Event::AiRequested(kind) => labelled(Metric::AiRequestsTotal, kind, MetricOp::Inc),
        Event::Authenticated(kind, success) => UpdateView {
            metric: Metric::AuthEventsTotal,
            labels: seq![kind, flag_text(success)],
            op: MetricOp::Inc,
        },
        Event::GameHappened(kind) => labelled(Metric::GameEventsTotal, kind, MetricOp::Inc),
        Event::DepthMeasured(game, depth) => labelled(
            Metric::SpectatorQueueDepth,
            game,
            MetricOp::SetTo(depth as i128),
        ),
        Event::FramesDropped(game, n) => labelled(
            Metric::SpectatorFramesDroppedTotal,
            game,
            MetricOp::IncBy(n),
        ),
        Event::SpectatorDisconnected(game) => labelled(
            Metric::SpectatorBackpressureDisconnectsTotal,
            game,
            MetricOp::Inc,
        ),
    }
}

fn plain_update(metric: Metric, op: MetricOp) -> (r: MetricUpdate)
    ensures
        r@ == plain(metric, op),
{
    let update = MetricUpdate { metric, labels: Vec::new(), op };
    assert(update@.labels =~= Seq::<Seq<char>>::empty());
    update
}

fn labelled_update(metric: Metric, label: &str, op: MetricOp) -> (r: MetricUpdate)
    ensures
        r@ == labelled(metric, label@, op),
{
    let mut labels: Vec<String> = Vec::new();
    labels.push(label.to_owned());
    let update = MetricUpdate { metric, labels, op };
    assert(update@.labels =~= seq![label@]);
    update
}

// ---------------------------------------------------------------------------
// Events
// ---------------------------------------------------------------------------

/// Increment active games counter
pub fn increment_active_games() -> (r: MetricUpdate)
    ensures
        r@ == update_of(Event::GameStarted),
{
    plain_update(Metric::ActiveGames, MetricOp::Inc)
}

/// Decrement active games counter
pub fn decrement_active_games() -> (r: MetricUpdate)
    ensures
        r@ == update_of(Event::GameEnded),
{
    plain_update(Metric::ActiveGames, MetricOp::Dec)
}

/// Increment WebSocket connections counter
pub fn increment_ws_connections() -> (r: MetricUpdate)
    ensures
        r@ == update_of(Event::WsConnected),
{
    plain_update(Metric::WsConnections, MetricOp::Inc)
}

/// Decrement WebSocket connections counter
pub fn decrement_ws_connections() -> (r: MetricUpdate)
    ensures
        r@ == update_of(Event::WsDisconnected),
{
    plain_update(Metric::WsConnections, MetricOp::Dec)
}

/// Set WebSocket connections to specific value
pub fn set_ws_connections(count: i64) -> (r: MetricUpdate)
    ensures
        r@ == update_of(Event::WsCounted(count)),
{
    plain_update(Metric::WsConnections, MetricOp::SetTo(count as i128))
}

/// Set matchmaking queue size
pub fn set_matchmaking_queue_size(size: i64) -> (r: MetricUpdate)
    ensures
        r@ == update_of(Event::QueueCounted(size)),
{
    plain_update(Metric::MatchmakingQueueSize, MetricOp::SetTo(size as i128))
}

/// Increment matchmaking queue size
pub fn increment_matchmaking_queue() -> (r: MetricUpdate)
    ensures
        r@ == update_of(Event::QueueJoined),
{
    plain_update(Metric::MatchmakingQueueSize, MetricOp::Inc)
}

/// Decrement matchmaking queue size
pub fn decrement_matchmaking_queue() -> (r: MetricUpdate)
    ensures
        r@ == update_of(Event::QueueLeft),
{
    plain_update(Metric::MatchmakingQueueSize, MetricOp::Dec)
}

/// Increment AI requests counter
pub fn increment_ai_requests(request_type: &str) -> (r: MetricUpdate)
    ensures
        r@ == update_of(Event::AiRequested(request_type@)),
{
    labelled_update(Metric::AiRequestsTotal, request_type, MetricOp::Inc)
}

/// Increment authentication events counter
pub fn increment_auth_events(event_type: &str, success: bool) -> (r: MetricUpdate)
    ensures
        r@ == update_of(Event::Authenticated(event_type@, success)),
{
    let flag: &str = if success {
        "true"
    } else {
        "false"
    };
    let mut labels: Vec<String> = Vec::new();
    labels.push(event_type.to_owned());
    labels.push(flag.to_owned());
    let update = MetricUpdate { metric: Metric::AuthEventsTotal, labels, op: MetricOp::Inc };
    assert(update@.labels =~= seq![event_type@, flag_text(success)]);
    update
}

/// Increment game events counter
pub fn increment_game_events(event_type: &str) -> (r: MetricUpdate)
    ensures
        r@ == update_of(Event::GameHappened(event_type@)),
{
    labelled_update(Metric::GameEventsTotal, event_type, MetricOp::Inc)
}

/// Set the current outbound queue depth for a spectator game room.
pub fn set_spectator_queue_depth(game_id: &str, depth: usize) -> (r: MetricUpdate)
    ensures
        r@ == update_of(Event::DepthMeasured(game_id@, depth)),
{
    labelled_update(Metric::SpectatorQueueDepth, game_id, MetricOp::SetTo(depth as i128))
}

/// Record frames dropped from a spectator's outbound queue. Where nothing was
/// dropped nothing moves.
pub fn increment_spectator_frames_dropped(game_id: &str, dropped: u64) -> (r: Option<MetricUpdate>)
    ensures
        match r {
            Some(update) => dropped > 0 && update@ == update_of(
                Event::FramesDropped(game_id@, dropped),
            ),
            None => dropped == 0,
        },
{
    if dropped > 0 {
        Some(
            labelled_update(
                Metric::SpectatorFramesDroppedTotal,
                game_id,
                MetricOp::IncBy(dropped),
            ),
        )
    } else {
        None
    }
}

/// Record a spectator disconnect caused by sustained outbound backpressure.
pub fn increment_spectator_backpressure_disconnects(game_id: &str) -> (r: MetricUpdate)
    ensures
        r@ == update_of(Event::SpectatorDisconnected(game_id@)),
{
    labelled_update(Metric::SpectatorBackpressureDisconnectsTotal, game_id, MetricOp::Inc)
}

// ---------------------------------------------------------------------------
// Laws
// ---------------------------------------------------------------------------

/// The value of a series after an update of it.
pub open spec fn moved(value: int, op: MetricOp) -> int {
    match op {
        MetricOp::Inc => value + 1,
        MetricOp::Dec => value - 1,
        MetricOp::IncBy(n) => value + n,
        MetricOp::SetTo(n) => n as int,
    }
}

/// Every update names a value for each of its metric's labels, and moves a
/// counter only up.
pub proof fn law_updates_fit_their_metric(event: Event, value: int)
    ensures
        update_of(event).labels.len() == update_of(event).metric.label_texts().len(),
        !(update_of(event).metric.kind_of() is Histogram),
        update_of(event).metric.kind_of() is Counter ==> moved(value, update_of(event).op) >= value,
{
}

/// Every event moves the metric that is named for it, in the series of the room,
/// kind or outcome it is about, and by as much as it says: what happens once
/// counts for one, what is counted elsewhere is taken over as it stands.
pub proof fn law_events_move_their_metric(event: Event, value: int)
    ensures
        ({
            let update = update_of(event);
            let after = moved(value, update.op);
            match event {
                Event::GameStarted => update.metric is ActiveGames && after == value + 1,
                Event::GameEnded => update.metric is ActiveGames && after == value - 1,
                Event::WsConnected => update.metric is WsConnections && after == value + 1,
                Event::WsDisconnected => update.metric is WsConnections && after == value - 1,
                Event::WsCounted(n) => update.metric is WsConnections && after == n,
                Event::QueueCounted(n) => update.metric is MatchmakingQueueSize && after == n,
                Event::QueueJoined => update.metric is MatchmakingQueueSize && after == value + 1,
                Event::QueueLeft => update.metric is MatchmakingQueueSize && after == value - 1,
                Event::AiRequested(kind) => update.metric is AiRequestsTotal && after == value + 1
                    && update.labels == seq![kind],
                Event::Authenticated(kind, success) => update.metric is AuthEventsTotal && after
                    == value + 1 && update.labels == seq![kind, if success {
                    "true"@
                } else {
                    "false"@
                }],
                Event::GameHappened(kind) => update.metric is GameEventsTotal && after == value + 1
                    && update.labels == seq![kind],
                Event::DepthMeasured(game, depth) => update.metric is SpectatorQueueDepth && after
                    == depth && update.labels == seq![game],
                Event::FramesDropped(game, n) => update.metric is SpectatorFramesDroppedTotal
                    && after == value + n && update.labels == seq![game],
                Event::SpectatorDisconnected(game) =>
                    update.metric is SpectatorBackpressureDisconnectsTotal && after == value + 1
                        && update.labels == seq![game],
            }
        }),
        event is GameStarted || event is GameEnded || event is WsConnected
            || event is WsDisconnected || event is WsCounted || event is QueueCounted
            || event is QueueJoined || event is QueueLeft ==> update_of(event).labels.len() == 0,
        Metric::ActiveGames.kind_of() is Gauge,
        Metric::WsConnections.kind_of() is Gauge,
        Metric::MatchmakingQueueSize.kind_of() is Gauge,
        Metric::SpectatorQueueDepth.kind_of() is Gauge,
        Metric::DbQueryDuration.kind_of() is Histogram,
        Metric::AiRequestsTotal.kind_of() is Counter,
        Metric::AuthEventsTotal.kind_of() is Counter,
        Metric::GameEventsTotal.kind_of() is Counter,
        Metric::SpectatorFramesDroppedTotal.kind_of() is Counter,
        Metric::SpectatorBackpressureDisconnectsTotal.kind_of() is Counter,
{
}

/// What an event adds to a gauge, its counterpart takes away.
pub proof fn law_counterparts_cancel(value: int)
    ensures
        moved(moved(value, update_of(Event::GameStarted).op), update_of(Event::GameEnded).op)
            == value,
        update_of(Event::GameStarted).metric == update_of(Event::GameEnded).metric,
        moved(moved(value, update_of(Event::WsConnected).op), update_of(Event::WsDisconnected).op)
            == value,
        update_of(Event::WsConnected).metric == update_of(Event::WsDisconnected).metric,
        moved(moved(value, update_of(Event::QueueJoined).op), update_of(Event::QueueLeft).op)
            == value,
        update_of(Event::QueueJoined).metric == update_of(Event::QueueLeft).metric,
{
}

/// No two metrics are exported under one name.
pub proof fn law_names_are_distinct(a: Metric, b: Metric)
    requires
        a.name_text() == b.name_text(),
    ensures
        a == b,
{
    reveal_strlit("xlmate_active_games");
    reveal_strlit("xlmate_ws_connections");
    reveal_strlit("xlmate_db_query_duration_seconds");
    reveal_strlit("xlmate_matchmaking_queue_size");
    reveal_strlit("xlmate_ai_requests_total");
    reveal_strlit("xlmate_auth_events_total");
    reveal_strlit("xlmate_game_events_total");
    reveal_strlit("xlmate_spectator_queue_depth");
    reveal_strlit("xlmate_spectator_frames_dropped_total");
    reveal_strlit("xlmate_spectator_backpressure_disconnects_total");
    let s = a.name_text();
    let t = b.name_text();
    assert(s.len() == t.len() && s[7] == t[7] && s[8] == t[8]);
}

/// Every metric is exported under the name that dashboards know it by, with a
/// help text and labels that go with it.
pub proof fn law_metrics_are_exported_as_known(metric: Metric)
    ensures
        match metric {
            Metric::ActiveGames => {
                &&& metric.name_text() == "xlmate_active_games"@
                &&& metric.help_text() == "Current number of active games"@
                &&& metric.label_texts() == Seq::<Seq<char>>::empty()
            },
            Metric::WsConnections => {
                &&& metric.name_text() == "xlmate_ws_connections"@
                &&& metric.help_text() == "Current number of active WebSocket connections"@
                &&& metric.label_texts() == Seq::<Seq<char>>::empty()
            },
            Metric::DbQueryDuration => {
                &&& metric.name_text() == "xlmate_db_query_duration_seconds"@
                &&& metric.help_text() == "Database query duration in seconds"@
                &&& metric.label_texts() == Seq::<Seq<char>>::empty()
            },
            Metric::MatchmakingQueueSize => {
                &&& metric.name_text() == "xlmate_matchmaking_queue_size"@
                &&& metric.help_text() == "Number of players waiting in matchmaking queue"@
                &&& metric.label_texts() == Seq::<Seq<char>>::empty()
            },
            Metric::AiRequestsTotal => {
                &&& metric.name_text() == "xlmate_ai_requests_total"@
                &&& metric.help_text() == "Total number of AI requests"@
                &&& metric.label_texts() == seq!["request_type"@]
            },
            Metric::AuthEventsTotal => {
                &&& metric.name_text() == "xlmate_auth_events_total"@
                &&& metric.help_text() == "Total number of authentication events"@
                &&& metric.label_texts() == seq!["event_type"@, "success"@]
            },
            Metric::GameEventsTotal => {
                &&& metric.name_text() == "xlmate_game_events_total"@
                &&& metric.help_text() == "Total number of game events"@
                &&& metric.label_texts() == seq!["event_type"@]
            },
            Metric::SpectatorQueueDepth => {
                &&& metric.name_text() == "xlmate_spectator_queue_depth"@
                &&& metric.help_text() == "Buffered outbound frames per spectator game room"@
                &&& metric.label_texts() == seq!["game_id"@]
            },
            Metric::SpectatorFramesDroppedTotal => {
                &&& metric.name_text() == "xlmate_spectator_frames_dropped_total"@
                &&& metric.help_text() == "Spectator frames dropped due to outbound backpressure"@
                &&& metric.label_texts() == seq!["game_id"@]
            },
            Metric::SpectatorBackpressureDisconnectsTotal => {
                &&& metric.name_text() == "xlmate_spectator_backpressure_disconnects_total"@
                &&& metric.help_text()
                    == "Spectator connections disconnected due to outbound backpressure"@
                &&& metric.label_texts() == seq!["game_id"@]
            },
        },
{
}

} // verus!
