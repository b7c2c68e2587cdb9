//! Pub/sub fan-out for WebSocket spectators.
//!
//! Player connections stay on a low-latency in-process lobby. Spectators
//! instead subscribe to a per-game channel so that any backend node can
//! broadcast to spectators connected to any other node, without registering
//! (potentially thousands of) spectator recipients with the lobby.
//!
//! # Backpressure policy
//!
//! Every spectator connection owns a bounded, drop-oldest outbound queue (see
//! [`SpectatorQueue`]). Fan-out can always produce frames faster than a
//! stalled client can drain its socket, so frames are buffered in that queue
//! and forwarded to the connection by a dedicated pump. The policy is:
//!
//! 1. **Bounded buffering**: a queue never holds more than its capacity, so a
//!    stalled connection's backlog (and therefore memory) is bounded no matter
//!    how long it stalls.
//! 2. **Drop-oldest**: when a queue is full the oldest buffered frame is
//!    discarded to make room for the newest one. The shared fan-out loop only
//!    enqueues (it never waits for a connection), so one slow spectator can
//!    never block or delay delivery to any other spectator in the same room.
//! 3. **Disconnect on sustained overflow**: a connection still saturated after
//!    [`MAX_CONSECUTIVE_OVERFLOWS`] consecutive fan-out events is considered
//!    unrecoverable and is disconnected instead of being buffered forever.
//!
//! A queue decides; what is to be done outside it (metrics to move, the pump to
//! wake, the connection to close) it leaves in a script of [`QueueEffect`]s.

use std::collections::VecDeque;

use vstd::prelude::*;

use crate::metrics;
use crate::metrics::{update_of, Event, Metric, MetricOp, MetricUpdate, UpdateView};
use crate::text::concat;

verus! {

/// Maximum number of outbound frames buffered for a single spectator
/// connection before the oldest buffered frame is discarded.
pub const SPECTATOR_QUEUE_CAPACITY: usize = 256;

/// Consecutive fan-out events that overflow a spectator's queue before the
/// connection is considered unrecoverable and disconnected.
pub const MAX_CONSECUTIVE_OVERFLOWS: usize = 64;

/// What spectators are sent.
#[derive(Debug, Clone, PartialEq, Eq)]
pub enum WsMessage {
    Chat { user: String, message: String },
    Clock { white: u32, black: u32 },
    SpectatorCount { count: u32 },
}

// ---------------------------------------------------------------------------
// The queue
// ---------------------------------------------------------------------------

/// Something to be done outside the queue.
#[derive(Debug, Clone, PartialEq, Eq)]
pub enum QueueEffect {
    /// A metric moves.
    Metric(MetricUpdate),
    /// The pump has something to look at.
    Wake,
    /// The spectator's connection is to be closed.
    Disconnect,
}

/// The contents of a [`QueueEffect`].
pub ghost enum EffectView {
    Metric(UpdateView),
    Wake,
    Disconnect,
}

impl View for QueueEffect {
    type V = EffectView;

    open spec fn view(&self) -> EffectView {
        match self {
            QueueEffect::Metric(update) => EffectView::Metric(update@),
            QueueEffect::Wake => EffectView::Wake,
            QueueEffect::Disconnect => EffectView::Disconnect,
        }
    }
}

/// The contents of a script.
pub open spec fn script(effects: Seq<QueueEffect>) -> Seq<EffectView> {
    Seq::new(effects.len(), |i: int| effects[i]@)
}

/// Adds a step to a script.
fn note(effects: &mut Vec<QueueEffect>, effect: QueueEffect)
    ensures
        script(final(effects)@) == script(old(effects)@).push(effect@),
{
    let ghost before = effects@;
    effects.push(effect);
    assert(script(effects@) =~= script(before).push(effect@));
}

/// The metric effect of an event.
pub open spec fn metric(event: Event) -> EffectView {
    EffectView::Metric(update_of(event))
}

/// Bounded, drop-oldest outbound queue for a single spectator connection.
///
/// See the module-level "Backpressure policy" section for the rationale.
#[derive(Debug)]
pub struct SpectatorQueue<F = WsMessage> {
    game_id: String,
    capacity: usize,
    frames: VecDeque<F>,
    /// Consecutive fan-out events that had to drop at least one frame.
    consecutive_overflows: usize,
    /// Total frames discarded because the queue was full.
    dropped_frames: usize,
    /// Set once the connection must be torn down (sustained backpressure).
    overflowed: bool,
    /// Set once the subscription has ended for any other reason.
    closed: bool,
}

/// The contents of a [`SpectatorQueue`].
pub ghost struct QueueState<F> {
    pub game_id: Seq<char>,
    pub capacity: usize,
    pub frames: Seq<F>,
    pub consecutive_overflows: usize,
    pub dropped_frames: usize,
    pub overflowed: bool,
    pub closed: bool,
}

impl<F> QueueState<F> {
    /// What holds of a queue between calls: the backlog is bounded, and the
    /// connection is marked for disconnection exactly when it has overflowed
    /// often enough in a row.
    pub open spec fn well_formed(self) -> bool {
        &&& self.capacity >= 1
        &&& self.frames.len() <= self.capacity
        &&& self.consecutive_overflows <= MAX_CONSECUTIVE_OVERFLOWS
        &&& self.overflowed <==> self.consecutive_overflows == MAX_CONSECUTIVE_OVERFLOWS
    }

    /// Whether another frame pushes one out.
    pub open spec fn full(self) -> bool {
        self.frames.len() >= self.capacity
    }
}

impl<F> View for SpectatorQueue<F> {
    type V = QueueState<F>;

    closed spec fn view(&self) -> QueueState<F> {
        QueueState {
            game_id: self.game_id@,
            capacity: self.capacity,
            frames: self.frames@,
            consecutive_overflows: self.consecutive_overflows,
            dropped_frames: self.dropped_frames,
            overflowed: self.overflowed,
            closed: self.closed,
        }
    }
}

/// A queue nothing was pushed to.
pub open spec fn fresh<F>(game_id: Seq<char>, capacity: usize) -> QueueState<F> {
    QueueState {
        game_id,
        capacity: if capacity == 0 {
            1
        } else {
            capacity
        },
        frames: seq![],
        consecutive_overflows: 0,
        dropped_frames: 0,
        overflowed: false,
        closed: false,
    }
}

/// What a push does: the queue it leaves, the script it adds, and whether the
/// connection must be disconnected.
pub ghost struct Pushed<F> {
    pub state: QueueState<F>,
    pub effects: Seq<EffectView>,
    pub disconnect: bool,
}

/// The queue with one more frame counted as dropped. The count wraps around.
pub open spec fn with_drop<F>(s: QueueState<F>) -> QueueState<F> {
    QueueState {
        dropped_frames: if s.dropped_frames == usize::MAX {
            0
        } else {
            (s.dropped_frames + 1) as usize
        },
        ..s
    }
}

/// [`SpectatorQueue::push`].
pub open spec fn pushed<F>(s: QueueState<F>, frame: F) -> Pushed<F> {
    let dropped = metric(Event::FramesDropped(s.game_id, 1));
    if s.overflowed {
        Pushed { state: with_drop(s), effects: seq![dropped], disconnect: true }
    } else if !s.full() {
        let frames = s.frames.push(frame);
        Pushed {
            state: QueueState { frames, consecutive_overflows: 0, ..s },
            effects: seq![
                metric(Event::DepthMeasured(s.game_id, frames.len() as usize)),
                EffectView::Wake,
            ],
            disconnect: false,
        }
    } else {
        let frames = s.frames.skip(1).push(frame);
        let run = (s.consecutive_overflows + 1) as usize;
        let last = run >= MAX_CONSECUTIVE_OVERFLOWS;
        Pushed {
            state: QueueState {
                frames,
                consecutive_overflows: run,
                overflowed: last,
                ..with_drop(s)
            },
            effects: seq![
                dropped,
                if last {
                    metric(Event::SpectatorDisconnected(s.game_id))
                } else {
                    metric(Event::DepthMeasured(s.game_id, frames.len() as usize))
                },
                EffectView::Wake,
            ],
            disconnect: last,
        }
    }
}

/// What a look for the next frame finds.
#[derive(Debug, Clone, PartialEq, Eq)]
pub enum Popped<F = WsMessage> {
    /// The oldest buffered frame.
    Frame(F),
    /// No frame, and none to come: the pump stops.
    Stopped,
    /// No frame yet: the pump waits to be woken.
    Waiting,
}

/// The queue [`SpectatorQueue::pop`] leaves.
pub open spec fn after_pop<F>(s: QueueState<F>) -> QueueState<F> {
    if s.frames.len() > 0 {
        QueueState { frames: s.frames.skip(1), ..s }
    } else {
        s
    }
}

/// What [`SpectatorQueue::pop`] finds.
pub open spec fn popped<F>(s: QueueState<F>) -> Popped<F> {
    if s.frames.len() > 0 {
        Popped::Frame(s.frames[0])
    } else if s.overflowed || s.closed {
        Popped::Stopped
    } else {
        Popped::Waiting
    }
}

/// The script [`SpectatorQueue::pop`] adds.
pub open spec fn pop_script<F>(s: QueueState<F>) -> Seq<EffectView> {
    if s.frames.len() > 0 {
        seq![metric(Event::DepthMeasured(s.game_id, (s.frames.len() - 1) as usize))]
    } else {
        seq![]
    }
}

impl<F> SpectatorQueue<F> {
    pub fn new(game_id: &str) -> (r: Self)
        ensures
            r@ == fresh::<F>(game_id@, SPECTATOR_QUEUE_CAPACITY),
            r@.well_formed(),
    {
        Self::with_capacity(game_id, SPECTATOR_QUEUE_CAPACITY)
    }

    pub fn with_capacity(game_id: &str, capacity: usize) -> (r: Self)
        ensures
            r@ == fresh::<F>(game_id@, capacity),
            r@.well_formed(),
    {
        let capacity: usize = if capacity < 1 {
            1
        } else {
            capacity
        };
        SpectatorQueue {
            game_id: game_id.to_owned(),
            capacity,
            frames: VecDeque::new(),
            consecutive_overflows: 0,
            dropped_frames: 0,
            overflowed: false,
            closed: false,
        }
    }

    pub fn game_id(&self) -> (r: &str)
        ensures
            r@ == self@.game_id,
    {
        self.game_id.as_str()
    }

    pub fn capacity(&self) -> (r: usize)
        ensures
            r == self@.capacity,
    {
        self.capacity
    }

    /// Number of frames currently buffered for this connection.
    pub fn depth(&self) -> (r: usize)
        ensures
            r == self@.frames.len(),
    {
        self.frames.len()
    }

    /// Total frames discarded by the drop-oldest policy.
    pub fn dropped_frames(&self) -> (r: usize)
        ensures
            r == self@.dropped_frames,
    {
        self.dropped_frames
    }

    /// Whether the connection has been marked for disconnection.
    pub fn is_overflowed(&self) -> (r: bool)
        ensures
            r == self@.overflowed,
    {
        self.overflowed
    }

    /// Buffer a frame without ever blocking the caller.
    ///
    /// If the queue is at capacity the oldest frame is discarded first
    /// (drop-oldest), keeping the backlog bounded. Returns `true` once the
    /// connection must be disconnected because it stayed saturated for
    /// [`MAX_CONSECUTIVE_OVERFLOWS`] consecutive fan-out events.
    pub fn push(&mut self, frame: F, effects: &mut Vec<QueueEffect>) -> (r: bool)
        requires
            old(self)@.well_formed(),
        ensures
            final(self)@ == pushed(old(self)@, frame).state,
            script(final(effects)@) =~= script(old(effects)@) + pushed(old(self)@, frame).effects,
            r == pushed(old(self)@, frame).disconnect,
            final(self)@.well_formed(),
    {
        if self.overflowed {
            self.record_drop(effects);
            return true;
        }
        let full: bool = self.frames.len() >= self.capacity;
        if full {
            self.frames.pop_front();
        }
        self.frames.push_back(frame);
        let depth: usize = self.frames.len();
        if full {
            self.record_drop(effects);
            self.consecutive_overflows = self.consecutive_overflows + 1;
            if self.consecutive_overflows >= MAX_CONSECUTIVE_OVERFLOWS {
                self.overflowed = true;
                note(
                    effects,
                    QueueEffect::Metric(
                        metrics::increment_spectator_backpressure_disconnects(
                            self.game_id.as_str(),
                        ),
                    ),
                );
                note(effects, QueueEffect::Wake);
                return true;
            }
        } else {
            self.consecutive_overflows = 0;
        }
        note(
            effects,
            QueueEffect::Metric(metrics::set_spectator_queue_depth(self.game_id.as_str(), depth)),
        );
        note(effects, QueueEffect::Wake);
        false
    }

    /// Take the oldest buffered frame, if there is one. Once the queue is
    /// closed or has been marked overflowed, and is empty, the pump is told to
    /// stop; before that, to wait.
    pub fn pop(&mut self, effects: &mut Vec<QueueEffect>) -> (r: Popped<F>)
        requires
            old(self)@.well_formed(),
        ensures
            final(self)@ == after_pop(old(self)@),
            script(final(effects)@) =~= script(old(effects)@) + pop_script(old(self)@),
            r == popped(old(self)@),
            final(self)@.well_formed(),
    {
        match self.frames.pop_front() {
            Some(frame) => {
                let depth: usize = self.frames.len();
                note(
                    effects,
                    QueueEffect::Metric(
                        metrics::set_spectator_queue_depth(self.game_id.as_str(), depth),
                    ),
                );
                Popped::Frame(frame)
            },
            None => {
                if self.overflowed || self.closed {
                    Popped::Stopped
                } else {
                    Popped::Waiting
                }
            },
        }
    }

    /// Stop the pump even if the queue is not overflowing.
    pub fn close(&mut self, effects: &mut Vec<QueueEffect>)
        ensures
            final(self)@ == (QueueState { closed: true, ..old(self)@ }),
            script(final(effects)@) =~= script(old(effects)@).push(EffectView::Wake),
    {
        self.closed = true;
        note(effects, QueueEffect::Wake);
    }

    /// Discard everything still buffered.
    pub fn clear(&mut self, effects: &mut Vec<QueueEffect>)
        ensures
            final(self)@ == (QueueState { frames: seq![], ..old(self)@ }),
            script(final(effects)@) =~= script(old(effects)@).push(
                metric(Event::DepthMeasured(old(self)@.game_id, 0)),
            ),
    {
        self.frames.clear();
        note(
            effects,
            QueueEffect::Metric(metrics::set_spectator_queue_depth(self.game_id.as_str(), 0)),
        );
    }

    fn record_drop(&mut self, effects: &mut Vec<QueueEffect>)
        ensures
            final(self)@ == with_drop(old(self)@),
            script(final(effects)@) =~= script(old(effects)@).push(
                metric(Event::FramesDropped(old(self)@.game_id, 1)),
            ),
    {
        self.dropped_frames = self.dropped_frames.wrapping_add(1);
        match metrics::increment_spectator_frames_dropped(self.game_id.as_str(), 1) {
            Some(update) => {
                note(effects, QueueEffect::Metric(update));
            },
            None => {},
        }
    }
}

// ---------------------------------------------------------------------------
// Publishing
// ---------------------------------------------------------------------------

/// A game's spectator channel.
pub open spec fn channel_name(game_id: Seq<char>) -> Seq<char> {
    "game:"@ + game_id + ":spectators"@
}

/// The key of a game's spectator count.
pub open spec fn count_key(game_id: Seq<char>) -> Seq<char> {
    "game:"@ + game_id + ":spectator_count"@
}

/// The channel a game's spectators subscribe to.
pub fn channel_for(game_id: &str) -> (r: String)
    ensures
        r@ == channel_name(game_id@),
{
    concat(concat("game:", game_id).as_str(), ":spectators")
}

/// The key a game's spectators are counted under.
pub fn spectator_count_key(game_id: &str) -> (r: String)
    ensures
        r@ == count_key(game_id@),
{
    concat(concat("game:", game_id).as_str(), ":spectator_count")
}

/// A message for a game's spectators, and the channel it goes to.
#[derive(Debug, Clone, PartialEq, Eq)]
pub struct Publication {
    pub channel: String,
    pub message: WsMessage,
}

/// A spectator chat message to publish.
pub fn publish_chat(game_id: &str, user: String, message: String) -> (r: Publication)
    ensures
        r.channel@ == channel_name(game_id@),
        r.message == (WsMessage::Chat { user, message }),
{
    Publication { channel: channel_for(game_id), message: WsMessage::Chat { user, message } }
}

/// A change of a game's spectator count.
#[derive(Debug, Clone, PartialEq, Eq)]
pub struct CountChange {
    pub key: String,
    pub delta: i64,
}

/// A spectator joined: the count goes up.
pub fn spectator_joined(game_id: &str) -> (r: CountChange)
    ensures
        r.key@ == count_key(game_id@),
        r.delta == 1,
{
    CountChange { key: spectator_count_key(game_id), delta: 1 }
}

/// A spectator left: the count goes down.
pub fn spectator_left(game_id: &str) -> (r: CountChange)
    ensures
        r.key@ == count_key(game_id@),
        r.delta == -1,
{
    CountChange { key: spectator_count_key(game_id), delta: -1 }
}

/// The count spectators are told: never below zero, and modulo the range of the
/// message's field.
pub open spec fn shown_count(count: i64) -> int {
    if count < 0 {
        0
    } else {
        (count as int) % 0x1_0000_0000
    }
}

/// The updated count to publish after a [`CountChange`] left `count` in store.
pub fn publish_spectator_count(game_id: &str, count: i64) -> (r: Publication)
    ensures
        r.channel@ == channel_name(game_id@),
        r.message matches WsMessage::SpectatorCount { count: shown } && shown == shown_count(count),
{
    let present: u64 = if count < 0 {
        0
    } else {
        count as u64
    };
    assert(present as u32 == present % 0x1_0000_0000) by (bit_vector);
    Publication {
        channel: channel_for(game_id),
        message: WsMessage::SpectatorCount {
            count: #[verifier::truncate]
            (present as u32),
        },
    }
}

// ---------------------------------------------------------------------------
// The subscriber
// ---------------------------------------------------------------------------

/// What a subscription meets.
#[derive(Debug, Clone, PartialEq, Eq)]
pub enum SubscriberEvent<F = WsMessage> {
    /// No connection could be opened.
    ConnectionFailed,
    /// The channel could not be subscribed to.
    SubscribeFailed,
    /// A message came that holds no frame.
    Undecodable,
    /// A frame came.
    Frame(F),
    /// The channel ended.
    Ended,
}

/// What a subscription does next: the queue and script an event leaves, and
/// whether the subscription goes on.
pub ghost struct SubscriberStep<F> {
    pub state: QueueState<F>,
    pub effects: Seq<EffectView>,
    pub listening: bool,
}

/// [`on_subscriber_event`].
pub open spec fn subscriber_step<F>(s: QueueState<F>, event: SubscriberEvent<F>) -> SubscriberStep<
    F,
> {
    match event {
        SubscriberEvent::Undecodable => SubscriberStep {
            state: s,
            effects: seq![],
            listening: true,
        },
        SubscriberEvent::Frame(frame) => {
            let push = pushed(s, frame);
            if push.disconnect {
                SubscriberStep {
                    state: QueueState { closed: true, ..push.state },
                    effects: push.effects + seq![EffectView::Disconnect, EffectView::Wake],
                    listening: false,
                }
            } else {
                SubscriberStep { state: push.state, effects: push.effects, listening: true }
            }
        },
        SubscriberEvent::ConnectionFailed
        | SubscriberEvent::SubscribeFailed
        | SubscriberEvent::Ended => SubscriberStep {
            state: QueueState { closed: true, ..s },
            effects: seq![EffectView::Wake],
            listening: false,
        },
    }
}

/// Takes a subscription one event further. Frames go to the spectator's queue;
/// the subscription ends, and closes the queue, when the connection drops or
/// the queue stays saturated, in which case the spectator is disconnected.
/// Returns whether the subscription goes on.
pub fn on_subscriber_event<F>(
    queue: &mut SpectatorQueue<F>,
    event: SubscriberEvent<F>,
    effects: &mut Vec<QueueEffect>,
) -> (r: bool)
    requires
        old(queue)@.well_formed(),
    ensures
        final(queue)@ == subscriber_step(old(queue)@, event).state,
        script(final(effects)@) =~= script(old(effects)@) + subscriber_step(
            old(queue)@,
            event,
        ).effects,
        r == subscriber_step(old(queue)@, event).listening,
        final(queue)@.well_formed(),
{
    match event {
        SubscriberEvent::Undecodable => true,
        SubscriberEvent::Frame(frame) => {
            if queue.push(frame, effects) {
                note(effects, QueueEffect::Disconnect);
                queue.close(effects);
                return false;
            }
            true
        },
        SubscriberEvent::ConnectionFailed
        | SubscriberEvent::SubscribeFailed
        | SubscriberEvent::Ended => {
            queue.close(effects);
            false
        },
    }
}

// ---------------------------------------------------------------------------
// Laws
// ---------------------------------------------------------------------------

/// A call that can change a queue.
pub ghost enum Call<F> {
    Push(F),
    Pop,
    Close,
    Clear,
}

/// The queue a call leaves.
pub open spec fn run<F>(s: QueueState<F>, call: Call<F>) -> QueueState<F> {
    match call {
        Call::Push(frame) => pushed(s, frame).state,
        Call::Pop => after_pop(s),
        Call::Close => QueueState { closed: true, ..s },
        Call::Clear => QueueState { frames: seq![], ..s },
    }
}

/// The backlog is bounded: whatever is called, a queue never holds more frames
/// than its capacity, which never changes.
pub proof fn law_backlog_is_bounded<F>(s: QueueState<F>, call: Call<F>)
    requires
        s.well_formed(),
    ensures
        run(s, call).well_formed(),
        run(s, call).frames.len() <= s.capacity,
        run(s, call).capacity == s.capacity,
        run(s, call).game_id == s.game_id,
{
}

/// A verdict is final: once marked for disconnection or closed a queue stays
/// so; every further push asks for the disconnection again, buffers nothing
/// and only counts its frame as dropped.
pub proof fn law_verdicts_are_final<F>(s: QueueState<F>, call: Call<F>, frame: F)
    requires
        s.well_formed(),
    ensures
        s.overflowed ==> run(s, call).overflowed,
        s.closed ==> run(s, call).closed,
        s.overflowed ==> pushed(s, frame).disconnect && pushed(s, frame).state == with_drop(s),
{
}

/// A push asks for the disconnection exactly when it leaves the queue marked
/// for it.
pub proof fn law_disconnect_means_overflowed<F>(s: QueueState<F>, frame: F)
    requires
        s.well_formed(),
    ensures
        pushed(s, frame).disconnect == pushed(s, frame).state.overflowed,
{
}

/// A push that finds room ends a run of overflows.
pub proof fn law_room_ends_a_run<F>(s: QueueState<F>, frame: F)
    requires
        s.well_formed(),
        !s.overflowed,
        !s.full(),
    ensures
        pushed(s, frame).state.consecutive_overflows == 0,
        pushed(s, frame).state.dropped_frames == s.dropped_frames,
        !pushed(s, frame).disconnect,
{
}

/// A push never loses its own frame while the connection stands: the newest
/// frame is the last to come out.
pub proof fn law_the_newest_frame_is_kept<F>(s: QueueState<F>, frame: F)
    requires
        s.well_formed(),
        !s.overflowed,
    ensures
        pushed(s, frame).state.frames.len() > 0,
        pushed(s, frame).state.frames.last() == frame,
{
}

/// The queue after a sequence of pushes.
pub open spec fn pushes<F>(s: QueueState<F>, frames: Seq<F>) -> QueueState<F>
    decreases frames.len(),
{
    if frames.len() == 0 {
        s
    } else {
        pushed(pushes(s, frames.drop_last()), frames.last()).state
    }
}

/// The last `n` of some frames, or all of them.
pub open spec fn newest<F>(frames: Seq<F>, n: int) -> Seq<F> {
    if frames.len() <= n {
        frames
    } else {
        frames.skip(frames.len() - n)
    }
}

/// Drop-oldest: while the connection stands, what is buffered is the newest
/// frames of all that came, in their order, as many as there is room for.
pub proof fn law_the_newest_frames_are_kept<F>(s: QueueState<F>, frames: Seq<F>)
    requires
        s.well_formed(),
        frames.len() > 0 ==> !pushes(s, frames.drop_last()).overflowed,
    ensures
        pushes(s, frames).well_formed(),
        pushes(s, frames).frames == newest(s.frames + frames, s.capacity as int),
        pushes(s, frames).capacity == s.capacity,
    decreases frames.len(),
{
    if frames.len() == 0 {
        assert(s.frames + frames =~= s.frames);
    } else {
        let init = frames.drop_last();
        if init.len() > 0 {
            if pushes(s, init.drop_last()).overflowed {
                lemma_overflow_stays(s, init.drop_last(), init.last());
                assert(init.drop_last().push(init.last()) =~= init);
            }
        }
        law_the_newest_frames_are_kept(s, init);
        let all = s.frames + frames;
        let before = s.frames + init;
        assert(all =~= before.push(frames.last()));
        let held = pushes(s, init);
        if held.full() {
            assert(held.frames.skip(1).push(frames.last()) =~= newest(all, s.capacity as int));
        } else {
            assert(held.frames.push(frames.last()) =~= newest(all, s.capacity as int));
        }
    }
}

proof fn lemma_overflow_stays<F>(s: QueueState<F>, frames: Seq<F>, frame: F)
    requires
        pushes(s, frames).overflowed,
    ensures
        pushes(s, frames.push(frame)).overflowed,
{
    assert(frames.push(frame).drop_last() =~= frames);
}

/// The queue after a sequence of calls.
pub open spec fn runs<F>(s: QueueState<F>, calls: Seq<Call<F>>) -> QueueState<F>
    decreases calls.len(),
{
    if calls.len() == 0 {
        s
    } else {
        run(runs(s, calls.drop_last()), calls.last())
    }
}

/// The frames that a sequence of calls pushed, in their order.
pub open spec fn frames_pushed<F>(calls: Seq<Call<F>>) -> Seq<F>
    decreases calls.len(),
{
    if calls.len() == 0 {
        seq![]
    } else {
        let before = frames_pushed(calls.drop_last());
        match calls.last() {
            Call::Push(frame) => before.push(frame),
            _ => before,
        }
    }
}

/// The frames that a sequence of calls took out, in their order.
pub open spec fn frames_popped<F>(s: QueueState<F>, calls: Seq<Call<F>>) -> Seq<F>
    decreases calls.len(),
{
    if calls.len() == 0 {
        seq![]
    } else {
        let before = frames_popped(s, calls.drop_last());
        match (calls.last(), popped(runs(s, calls.drop_last()))) {
            (Call::Pop, Popped::Frame(frame)) => before.push(frame),
            _ => before,
        }
    }
}

/// How many frames a sequence of calls cleared away.
pub open spec fn frames_cleared<F>(s: QueueState<F>, calls: Seq<Call<F>>) -> nat
    decreases calls.len(),
{
    if calls.len() == 0 {
        0
    } else {
        let before = frames_cleared(s, calls.drop_last());
        match calls.last() {
            Call::Clear => before + runs(s, calls.drop_last()).frames.len(),
            _ => before,
        }
    }
}

/// Every frame is accounted for: whatever is called, and in whatever order,
/// each frame that came is buffered, was taken out, was cleared away or is
/// counted as dropped, as long as the count has not wrapped around.
pub proof fn law_every_frame_is_accounted_for<F>(s: QueueState<F>, calls: Seq<Call<F>>)
    requires
        s.well_formed(),
        s.dropped_frames + frames_pushed(calls).len() <= usize::MAX,
    ensures
        runs(s, calls).well_formed(),
        s.frames.len() + s.dropped_frames + frames_pushed(calls).len() == runs(
            s,
            calls,
        ).frames.len() + runs(s, calls).dropped_frames + frames_popped(s, calls).len()
            + frames_cleared(s, calls),
        s.dropped_frames <= runs(s, calls).dropped_frames <= s.dropped_frames + frames_pushed(
            calls,
        ).len(),
        (forall|i: int| 0 <= i < calls.len() ==> calls[i] !is Clear) ==> frames_cleared(s, calls)
            == 0,
    decreases calls.len(),
{
    if calls.len() > 0 {
        let init = calls.drop_last();
        law_every_frame_is_accounted_for(s, init);
        assert(forall|i: int| 0 <= i < init.len() ==> init[i] == calls[i]);
        assert(calls.last() == calls[calls.len() - 1]);
    }
}

/// Only pushed, only popped: a new queue that frames are pushed to and taken
/// from, in whatever order, buffers, has handed out or has counted as dropped
/// exactly the frames that came.
pub proof fn law_frames_are_delivered_or_dropped<F>(
    game_id: Seq<char>,
    capacity: usize,
    calls: Seq<Call<F>>,
)
    requires
        forall|i: int| 0 <= i < calls.len() ==> calls[i] is Push || calls[i] is Pop,
        frames_pushed(calls).len() <= usize::MAX,
    ensures
        frames_pushed(calls).len() == runs(fresh::<F>(game_id, capacity), calls).frames.len()
            + frames_popped(fresh::<F>(game_id, capacity), calls).len() + runs(
            fresh::<F>(game_id, capacity),
            calls,
        ).dropped_frames,
{
    law_every_frame_is_accounted_for(fresh::<F>(game_id, capacity), calls);
}

/// The buffer trails the stream: until the connection is marked for
/// disconnection, and by the push that marks it, whatever else is called, what
/// is buffered is the last of the frames that came, in their order.
pub proof fn law_the_buffer_ends_the_stream<F>(s: QueueState<F>, calls: Seq<Call<F>>)
    requires
        s.well_formed(),
        calls.len() > 0 ==> !runs(s, calls.drop_last()).overflowed,
    ensures
        runs(s, calls).well_formed(),
        runs(s, calls).capacity == s.capacity,
        runs(s, calls).frames.len() <= s.frames.len() + frames_pushed(calls).len(),
        runs(s, calls).frames == newest(
            s.frames + frames_pushed(calls),
            runs(s, calls).frames.len() as int,
        ),
    decreases calls.len(),
{
    if calls.len() == 0 {
        assert(s.frames + frames_pushed(calls) =~= s.frames);
    } else {
        let init = calls.drop_last();
        if init.len() > 0 {
            law_verdicts_stand(s, init, init.len() - 1);
            assert(init.take(init.len() - 1) =~= init.drop_last());
        }
        law_the_buffer_ends_the_stream(s, init);
        let held = runs(s, init);
        let all = s.frames + frames_pushed(calls);
        match calls.last() {
            Call::Push(frame) => {
                assert(all =~= (s.frames + frames_pushed(init)).push(frame));
                if held.full() {
                    assert(held.frames.skip(1).push(frame) =~= newest(
                        all,
                        held.frames.len() as int,
                    ));
                } else {
                    assert(held.frames.push(frame) =~= newest(all, held.frames.len() + 1int));
                }
            },
            Call::Pop => {
                if held.frames.len() > 0 {
                    assert(held.frames.skip(1) =~= newest(all, held.frames.len() - 1));
                }
            },
            Call::Close => {},
            Call::Clear => {
                assert(newest(all, 0) =~= seq![]);
            },
        }
    }
}

/// Verdicts stand whatever follows: a queue that was marked for disconnection
/// or closed at some point of a sequence of calls is so at its end.
pub proof fn law_verdicts_stand<F>(s: QueueState<F>, calls: Seq<Call<F>>, i: int)
    requires
        s.well_formed(),
        0 <= i <= calls.len(),
    ensures
        runs(s, calls).well_formed(),
        runs(s, calls.take(i)).overflowed ==> runs(s, calls).overflowed,
        runs(s, calls.take(i)).closed ==> runs(s, calls).closed,
    decreases calls.len(),
{
    if i < calls.len() {
        law_verdicts_stand(s, calls.drop_last(), i);
        assert(calls.drop_last().take(i) =~= calls.take(i));
    } else {
        assert(calls.take(i) =~= calls);
        if calls.len() > 0 {
            law_verdicts_stand(s, calls.drop_last(), i - 1);
        }
    }
}

/// Whether `at` names the places of `part` in `whole`, in their order.
pub open spec fn picks<F>(whole: Seq<F>, at: Seq<int>, part: Seq<F>) -> bool {
    &&& at.len() == part.len()
    &&& forall|i: int|
        0 <= i < at.len() ==> 0 <= #[trigger] at[i] < whole.len() && whole[at[i]] == part[i]
    &&& forall|i: int, j: int| 0 <= i < j < at.len() ==> at[i] < at[j]
}

/// Spectators see the stream in order: what was taken out, and behind it what
/// is still buffered, are frames that came, each at most once and in the order
/// they came.
pub proof fn law_frames_keep_their_order<F>(s: QueueState<F>, calls: Seq<Call<F>>)
    requires
        s.well_formed(),
    ensures
        exists|at: Seq<int>| #[trigger]
            picks(
                s.frames + frames_pushed(calls),
                at,
                frames_popped(s, calls) + runs(s, calls).frames,
            ),
{
    let at = lemma_frames_keep_their_order(s, calls);
}

proof fn lemma_picks_push<F>(whole: Seq<F>, at: Seq<int>, part: Seq<F>, frame: F)
    requires
        picks(whole, at, part),
    ensures
        picks(whole.push(frame), at, part),
        picks(whole.push(frame), at.push(whole.len() as int), part.push(frame)),
{
    let longer = whole.push(frame);
    assert forall|i: int| 0 <= i < at.len() implies 0 <= #[trigger] at[i] < longer.len()
        && longer[at[i]] == part[i] by {
        assert(0 <= at[i] < whole.len() && whole[at[i]] == part[i]);
    }
    let more = at.push(whole.len() as int);
    let grown = part.push(frame);
    assert forall|i: int| 0 <= i < more.len() implies 0 <= #[trigger] more[i] < longer.len()
        && longer[more[i]] == grown[i] by {
        if i < at.len() {
            assert(more[i] == at[i]);
        }
    }
    assert forall|i: int, j: int| 0 <= i < j < more.len() implies more[i] < more[j] by {
        assert(more[i] == at[i]);
        if j < at.len() {
            assert(more[j] == at[j]);
        }
    }
}

proof fn lemma_picks_remove<F>(whole: Seq<F>, at: Seq<int>, part: Seq<F>, k: int)
    requires
        picks(whole, at, part),
        0 <= k < part.len(),
    ensures
        picks(whole, at.remove(k), part.remove(k)),
{
    let fewer = at.remove(k);
    let less = part.remove(k);
    assert forall|i: int| 0 <= i < fewer.len() implies 0 <= #[trigger] fewer[i] < whole.len()
        && whole[fewer[i]] == less[i] by {
        let j = if i < k {
            i
        } else {
            i + 1
        };
        assert(fewer[i] == at[j] && less[i] == part[j]);
    }
    assert forall|i: int, j: int| 0 <= i < j < fewer.len() implies fewer[i] < fewer[j] by {
        let a = if i < k {
            i
        } else {
            i + 1
        };
        let b = if j < k {
            j
        } else {
            j + 1
        };
        assert(fewer[i] == at[a] && fewer[j] == at[b]);
    }
}

proof fn lemma_frames_keep_their_order<F>(s: QueueState<F>, calls: Seq<Call<F>>) -> (at: Seq<int>)
    requires
        s.well_formed(),
    ensures
        runs(s, calls).well_formed(),
        picks(
            s.frames + frames_pushed(calls),
            at,
            frames_popped(s, calls) + runs(s, calls).frames,
        ),
    decreases calls.len(),
{
    if calls.len() == 0 {
        let all = s.frames + frames_pushed(calls);
        assert(all =~= s.frames);
        assert(frames_popped(s, calls) + s.frames =~= s.frames);
        Seq::new(s.frames.len(), |i: int| i)
    } else {
        let init = calls.drop_last();
        let before = lemma_frames_keep_their_order(s, init);
        assert(calls =~= init.push(calls.last()));
        lemma_call_keeps_order(s, init, calls.last(), before)
    }
}

proof fn lemma_call_keeps_order<F>(
    s: QueueState<F>,
    init: Seq<Call<F>>,
    call: Call<F>,
    before: Seq<int>,
) -> (at: Seq<int>)
    requires
        runs(s, init).well_formed(),
        picks(
            s.frames + frames_pushed(init),
            before,
            frames_popped(s, init) + runs(s, init).frames,
        ),
    ensures
        runs(s, init.push(call)).well_formed(),
        picks(
            s.frames + frames_pushed(init.push(call)),
            at,
            frames_popped(s, init.push(call)) + runs(s, init.push(call)).frames,
        ),
{
    let calls = init.push(call);
    assert(calls.drop_last() =~= init);
    let held = runs(s, init);
    let out = frames_popped(s, init);
    let whole = s.frames + frames_pushed(init);
    let part = out + held.frames;
    match call {
        Call::Push(frame) => {
            assert(s.frames + frames_pushed(calls) =~= whole.push(frame));
            if held.overflowed {
                lemma_picks_push(whole, before, part, frame);
                before
            } else if !held.full() {
                lemma_picks_push(whole, before, part, frame);
                assert(out + held.frames.push(frame) =~= part.push(frame));
                before.push(whole.len() as int)
            } else {
                let k = out.len() as int;
                lemma_picks_remove(whole, before, part, k);
                lemma_picks_push(whole, before.remove(k), part.remove(k), frame);
                assert(out + held.frames.skip(1).push(frame) =~= part.remove(k).push(frame));
                before.remove(k).push(whole.len() as int)
            }
        },
        Call::Pop => {
            assert(frames_popped(s, calls) + runs(s, calls).frames =~= part);
            before
        },
        Call::Close => before,
        Call::Clear => {
            let at = before.take(out.len() as int);
            assert(out + Seq::<F>::empty() =~= out);
            assert forall|i: int| 0 <= i < at.len() implies 0 <= #[trigger] at[i] < whole.len()
                && whole[at[i]] == out[i] by {
                assert(at[i] == before[i] && out[i] == part[i]);
            }
            at
        },
    }
}

/// Sustained overflow: a full queue that nothing is taken from counts every
/// push, and is marked for disconnection by the one that makes the run long
/// enough, not before.
pub proof fn law_sustained_overflow_disconnects<F>(s: QueueState<F>, frames: Seq<F>)
    requires
        s.well_formed(),
        s.full(),
    ensures
        pushes(s, frames).well_formed(),
        pushes(s, frames).full(),
        pushes(s, frames).overflowed <==> s.consecutive_overflows + frames.len()
            >= MAX_CONSECUTIVE_OVERFLOWS,
        !pushes(s, frames).overflowed ==> pushes(s, frames).consecutive_overflows
            == s.consecutive_overflows + frames.len(),
    decreases frames.len(),
{
    if frames.len() > 0 {
        law_sustained_overflow_disconnects(s, frames.drop_last());
    }
}

/// A stalled connection: a new queue that nothing is taken from is marked for
/// disconnection once as many frames came as fill it and then overflow it often
/// enough, not before.
pub proof fn law_stalled_connections_are_disconnected<F>(
    game_id: Seq<char>,
    capacity: usize,
    frames: Seq<F>,
)
    requires
        capacity >= 1,
    ensures
        pushes(fresh::<F>(game_id, capacity), frames).overflowed <==> frames.len() >= capacity
            + MAX_CONSECUTIVE_OVERFLOWS,
{
    lemma_stalled(fresh::<F>(game_id, capacity), frames);
}

proof fn lemma_stalled<F>(s: QueueState<F>, frames: Seq<F>)
    requires
        s.well_formed(),
        s.consecutive_overflows == 0,
        s.frames.len() == 0,
    ensures
        pushes(s, frames).well_formed(),
        pushes(s, frames).capacity == s.capacity,
        frames.len() <= s.capacity ==> pushes(s, frames).frames.len() == frames.len()
            && pushes(s, frames).consecutive_overflows == 0,
        frames.len() >= s.capacity ==> pushes(s, frames).full(),
        s.capacity <= frames.len() <= s.capacity + MAX_CONSECUTIVE_OVERFLOWS ==> pushes(
            s,
            frames,
        ).consecutive_overflows == frames.len() - s.capacity,
        frames.len() >= s.capacity + MAX_CONSECUTIVE_OVERFLOWS ==> pushes(s, frames).overflowed,
    decreases frames.len(),
{
    if frames.len() > 0 {
        lemma_stalled(s, frames.drop_last());
    }
}

/// The queue after a number of frames were taken.
pub open spec fn pops<F>(s: QueueState<F>, n: nat) -> QueueState<F>
    decreases n,
{
    if n == 0 {
        s
    } else {
        after_pop(pops(s, (n - 1) as nat))
    }
}

/// First in, first out: the buffered frames come out one by one in the order
/// they came, also once the queue is closed or marked for disconnection, and
/// only then is the pump told to stop or wait.
pub proof fn law_frames_come_out_in_order<F>(s: QueueState<F>, n: nat)
    ensures
        n <= s.frames.len() ==> pops(s, n) == (QueueState { frames: s.frames.skip(n as int), ..s }),
        n > s.frames.len() ==> pops(s, n) == (QueueState { frames: seq![], ..s }),
        n < s.frames.len() ==> popped(pops(s, n)) == Popped::Frame(s.frames[n as int]),
        n >= s.frames.len() ==> popped(pops(s, n)) == if s.overflowed || s.closed {
            Popped::<F>::Stopped
        } else {
            Popped::<F>::Waiting
        },
{
    lemma_pops(s, n);
}

proof fn lemma_pops<F>(s: QueueState<F>, n: nat)
    ensures
        pops(s, n) == (QueueState {
            frames: if n <= s.frames.len() {
                s.frames.skip(n as int)
            } else {
                seq![]
            },
            ..s
        }),
    decreases n,
{
    if n == 0 {
        assert(s.frames.skip(0) =~= s.frames);
    } else {
        lemma_pops(s, (n - 1) as nat);
        if n <= s.frames.len() {
            assert(s.frames.skip(n - 1).skip(1) =~= s.frames.skip(n as int));
        } else if n == s.frames.len() + 1 {
            assert(s.frames.skip(n - 1) =~= seq![]);
        }
    }
}

/// A subscription ends with its queue closed, and only such an end closes it:
/// while it goes on the queue is as open as it was.
pub proof fn law_subscriptions_end_closed<F>(s: QueueState<F>, event: SubscriberEvent<F>)
    requires
        s.well_formed(),
    ensures
        subscriber_step(s, event).state.well_formed(),
        !subscriber_step(s, event).listening ==> subscriber_step(s, event).state.closed,
        subscriber_step(s, event).listening ==> subscriber_step(s, event).state.closed == s.closed,
        subscriber_step(s, event).effects.contains(EffectView::Disconnect) ==> subscriber_step(
            s,
            event,
        ).state.overflowed,
{
}

/// Spectators are told how many they are: the count as it stands, wherever it
/// can be told, and none where it fell below zero.
pub proof fn law_counts_are_told_as_they_stand(count: i64)
    ensures
        0 <= count <= u32::MAX ==> shown_count(count) == count,
        count < 0 ==> shown_count(count) == 0,
        0 <= shown_count(count) <= u32::MAX,
        count >= 0 ==> (count - shown_count(count)) % 0x1_0000_0000 == 0,
{
}

/// A new queue is empty and open, and has room for as many frames as asked for,
/// for one at least.
pub proof fn law_new_queues_are_empty<F>(game_id: Seq<char>, capacity: usize)
    ensures
        ({
            let s = fresh::<F>(game_id, capacity);
            &&& s.game_id == game_id
            &&& s.capacity >= 1
            &&& capacity >= 1 ==> s.capacity == capacity
            &&& capacity == 0 ==> s.capacity == 1
            &&& s.frames.len() == 0
            &&& s.dropped_frames == 0
            &&& s.consecutive_overflows == 0
            &&& !s.overflowed
            &&& !s.closed
        }),
        SPECTATOR_QUEUE_CAPACITY == 256,
        MAX_CONSECUTIVE_OVERFLOWS == 64,
{
}

/// What a push tells the world: each frame that is lost is counted as one
/// dropped; while the connection stands the pump is woken and the new depth is
/// exported, and the push that gives the connection up exports the disconnection
/// instead.
pub proof fn law_pushes_are_exported<F>(s: QueueState<F>, frame: F)
    requires
        s.well_formed(),
    ensures
        ({
            let push = pushed(s, frame);
            let lost = EffectView::Metric(
                UpdateView {
                    metric: Metric::SpectatorFramesDroppedTotal,
                    labels: seq![s.game_id],
                    op: MetricOp::IncBy(1),
                },
            );
            let depth = EffectView::Metric(
                UpdateView {
                    metric: Metric::SpectatorQueueDepth,
                    labels: seq![s.game_id],
                    op: MetricOp::SetTo(push.state.frames.len() as i128),
                },
            );
            let gone = EffectView::Metric(
                UpdateView {
                    metric: Metric::SpectatorBackpressureDisconnectsTotal,
                    labels: seq![s.game_id],
                    op: MetricOp::Inc,
                },
            );
            push.effects == if s.overflowed {
                seq![lost]
            } else if s.frames.len() < s.capacity {
                seq![depth, EffectView::Wake]
            } else if s.consecutive_overflows + 1 < 64 {
                seq![lost, depth, EffectView::Wake]
            } else {
                seq![lost, gone, EffectView::Wake]
            }
        }),
        s.frames.len() > 0 ==> pop_script(s) == seq![
            EffectView::Metric(
                UpdateView {
                    metric: Metric::SpectatorQueueDepth,
                    labels: seq![s.game_id],
                    op: MetricOp::SetTo((s.frames.len() - 1) as i128),
                },
            ),
        ],
        s.frames.len() == 0 ==> pop_script(s).len() == 0,
{
}

/// What a push leaves, count by count: the frame joins the end, the oldest frame
/// goes where there is no room, a run of such losses is counted, and the
/// sixty-fourth in a row gives the connection up.
pub proof fn law_a_push_at_a_time<F>(s: QueueState<F>, frame: F)
    requires
        s.well_formed(),
        !s.overflowed,
    ensures
        ({
            let t = pushed(s, frame).state;
            let room = s.frames.len() < s.capacity;
            &&& t.frames == (if room {
                s.frames
            } else {
                s.frames.skip(1)
            }).push(frame)
            &&& t.consecutive_overflows == if room {
                0
            } else {
                s.consecutive_overflows + 1
            }
            &&& t.overflowed <==> t.consecutive_overflows == 64
            &&& !room && s.dropped_frames < usize::MAX ==> t.dropped_frames == s.dropped_frames + 1
            &&& room ==> t.dropped_frames == s.dropped_frames
            &&& (t.game_id, t.capacity, t.closed) == (s.game_id, s.capacity, s.closed)
            &&& pushed(s, frame).disconnect == t.overflowed
        }),
{
}

/// What a subscription does with what it meets: frames are pushed; a frame too
/// many closes the connection; what cannot be read is passed over; and an end,
/// however it comes about, closes the queue and wakes the pump.
pub proof fn law_subscriptions_follow_their_events<F>(s: QueueState<F>, event: SubscriberEvent<F>)
    requires
        s.well_formed(),
    ensures
        ({
            let step = subscriber_step(s, event);
            match event {
                SubscriberEvent::Undecodable => step.listening && step.state == s
                    && step.effects.len() == 0,
                SubscriberEvent::Frame(frame) => {
                    let push = pushed(s, frame);
                    &&& step.listening == !push.disconnect
                    &&& step.listening ==> step.state == push.state && step.effects == push.effects
                    &&& !step.listening ==> step.state == (QueueState {
                        closed: true,
                        ..push.state
                    }) && step.effects == push.effects + seq![
                        EffectView::Disconnect,
                        EffectView::Wake,
                    ]
                },
                SubscriberEvent::ConnectionFailed
                | SubscriberEvent::SubscribeFailed
                | SubscriberEvent::Ended => !step.listening && step.state == (QueueState {
                    closed: true,
                    ..s
                }) && step.effects == seq![EffectView::Wake],
            }
        }),
{
}

/// Games do not share channels or count keys, and no channel is a count key.
pub proof fn law_games_are_kept_apart(a: Seq<char>, b: Seq<char>)
    ensures
        channel_name(a) == channel_name(b) ==> a == b,
        count_key(a) == count_key(b) ==> a == b,
        channel_name(a) != count_key(b),
{
    reveal_strlit("game:");
    reveal_strlit(":spectators");
    reveal_strlit(":spectator_count");
    if channel_name(a) == channel_name(b) {
        assert(channel_name(a).len() == a.len() + 16);
        assert(channel_name(b).len() == b.len() + 16);
        assert(a =~= channel_name(a).subrange(5, 5 + a.len() as int));
        assert(b =~= channel_name(b).subrange(5, 5 + b.len() as int));
    }
    if count_key(a) == count_key(b) {
        assert(count_key(a).len() == a.len() + 21);
        assert(count_key(b).len() == b.len() + 21);
        assert(a =~= count_key(a).subrange(5, 5 + a.len() as int));
        assert(b =~= count_key(b).subrange(5, 5 + b.len() as int));
    }
    assert(channel_name(a).last() == 's');
    assert(count_key(b).last() == 't');
}

} // verus!
