use knightverse::metrics::{Metric, MetricOp};
use knightverse::redis_broadcast::{
    channel_for, on_subscriber_event, publish_chat, publish_spectator_count, spectator_count_key,
    spectator_joined, spectator_left, Popped, QueueEffect, SpectatorQueue, SubscriberEvent,
    WsMessage, MAX_CONSECUTIVE_OVERFLOWS, SPECTATOR_QUEUE_CAPACITY,
};

fn clock(i: u32) -> WsMessage {
    WsMessage::Clock { white: i, black: i }
}

/// The values a metric was moved to or by, in order.
fn moves_of(effects: &[QueueEffect], metric: Metric) -> Vec<MetricOp> {
    let mut ops = Vec::new();
    for effect in effects {
        if let QueueEffect::Metric(update) = effect {
            if update.metric == metric {
                ops.push(update.op);
            }
        }
    }
    ops
}

fn wakes(effects: &[QueueEffect]) -> usize {
    effects.iter().filter(|e| matches!(e, QueueEffect::Wake)).count()
}

#[test]
fn stalled_consumer_backlog_is_bounded_and_does_not_stall_others() {
    let mut effects = Vec::new();
    let mut stalled = SpectatorQueue::with_capacity("room-1", 8);
    let mut peer = SpectatorQueue::with_capacity("room-1", 256);

    for i in 0..200u32 {
        let frame = WsMessage::Clock { white: i, black: i };
        stalled.push(frame.clone(), &mut effects);
        peer.push(frame, &mut effects);
    }

    // Bounded backlog: the stalled connection never buffers more than its
    // configured capacity, no matter how many frames are fanned out.
    assert!(stalled.depth() <= 8, "stalled depth = {}", stalled.depth());
    assert_eq!(stalled.dropped_frames(), 192);

    // Independent: the healthy peer loses nothing and holds every frame.
    assert_eq!(peer.dropped_frames(), 0);
    assert_eq!(peer.depth(), 200);

    // ...and the peer still receives every frame, in order.
    for i in 0..200u32 {
        match peer.pop(&mut effects) {
            Popped::Frame(WsMessage::Clock { white, black }) => {
                assert_eq!((white, black), (i, i))
            }
            other => panic!("unexpected frame: {:?}", other),
        }
    }
}

#[test]
fn sustained_overflow_flags_connection_for_disconnect() {
    let mut effects = Vec::new();
    let mut queue = SpectatorQueue::with_capacity("room-2", 2);

    let mut disconnect = false;
    for i in 0..(MAX_CONSECUTIVE_OVERFLOWS + 16) as u32 {
        if queue.push(WsMessage::Clock { white: i, black: i }, &mut effects) {
            disconnect = true;
            break;
        }
    }

    assert!(disconnect, "sustained backpressure must flag a disconnect");
    assert!(queue.is_overflowed());
    assert!(queue.depth() <= 2, "depth = {}", queue.depth());
}

#[test]
fn outbox_pump_forwards_frames_and_stops_on_close() {
    let mut effects = Vec::new();
    let mut queue = SpectatorQueue::with_capacity("room-3", 4);

    queue.push(WsMessage::Clock { white: 1, black: 2 }, &mut effects);
    queue.push(WsMessage::Clock { white: 3, black: 4 }, &mut effects);
    queue.close(&mut effects);

    assert_eq!(
        queue.pop(&mut effects),
        Popped::Frame(WsMessage::Clock { white: 1, black: 2 })
    );
    assert_eq!(
        queue.pop(&mut effects),
        Popped::Frame(WsMessage::Clock { white: 3, black: 4 })
    );
    assert_eq!(queue.pop(&mut effects), Popped::Stopped);
}

#[test]
fn a_new_queue_is_empty_and_has_room_for_one_frame_at_least() {
    let queue: SpectatorQueue = SpectatorQueue::new("room");
    assert_eq!(queue.game_id(), "room");
    assert_eq!(queue.capacity(), 256);
    assert_eq!(queue.capacity(), SPECTATOR_QUEUE_CAPACITY);
    assert_eq!(queue.depth(), 0);
    assert_eq!(queue.dropped_frames(), 0);
    assert!(!queue.is_overflowed());

    let tiny: SpectatorQueue = SpectatorQueue::with_capacity("room", 0);
    assert_eq!(tiny.capacity(), 1);
}

#[test]
fn a_full_queue_drops_its_oldest_frame() {
    let mut effects = Vec::new();
    let mut queue = SpectatorQueue::with_capacity("room", 3);
    for i in 0..5u32 {
        assert!(!queue.push(clock(i), &mut effects));
    }
    assert_eq!(queue.dropped_frames(), 2);
    for i in 2..5u32 {
        assert_eq!(queue.pop(&mut effects), Popped::Frame(clock(i)));
    }
    assert_eq!(queue.pop(&mut effects), Popped::Waiting);
}

#[test]
fn the_verdict_comes_after_the_queue_filled_and_overflowed_in_a_row() {
    let mut effects = Vec::new();
    let mut queue = SpectatorQueue::with_capacity("room", 2);
    for i in 0..(2 + MAX_CONSECUTIVE_OVERFLOWS - 1) as u32 {
        assert!(!queue.push(clock(i), &mut effects), "too early: {i}");
    }
    assert!(queue.push(clock(1000), &mut effects));
    assert_eq!(
        moves_of(&effects, Metric::SpectatorBackpressureDisconnectsTotal),
        vec![MetricOp::Inc]
    );

    // The verdict is final: frames are dropped and counted from here on.
    effects.clear();
    assert!(queue.push(clock(1001), &mut effects));
    assert_eq!(queue.depth(), 2);
    assert_eq!(queue.dropped_frames(), MAX_CONSECUTIVE_OVERFLOWS + 1);
    assert_eq!(
        moves_of(&effects, Metric::SpectatorFramesDroppedTotal),
        vec![MetricOp::IncBy(1)]
    );
    assert_eq!(wakes(&effects), 0);

    // What was buffered still comes out, then the pump stops.
    assert!(matches!(queue.pop(&mut effects), Popped::Frame(_)));
    assert!(matches!(queue.pop(&mut effects), Popped::Frame(_)));
    assert_eq!(queue.pop(&mut effects), Popped::Stopped);
}

#[test]
fn every_frame_is_buffered_delivered_or_dropped() {
    let mut effects = Vec::new();
    let mut queue = SpectatorQueue::with_capacity("room", 3);
    let mut pushed: Vec<WsMessage> = Vec::new();
    let mut delivered: Vec<WsMessage> = Vec::new();
    for step in 0..400u32 {
        // Bursts of pushes with a pop now and then, and a long stall at the end.
        if step % 5 == 3 && step < 300 {
            if let Popped::Frame(frame) = queue.pop(&mut effects) {
                delivered.push(frame);
            }
        } else {
            queue.push(clock(step), &mut effects);
            pushed.push(clock(step));
        }
        assert!(queue.depth() <= 3);
        assert_eq!(pushed.len(), queue.depth() + delivered.len() + queue.dropped_frames());
    }
    assert!(queue.is_overflowed());
    while let Popped::Frame(frame) = queue.pop(&mut effects) {
        delivered.push(frame);
    }
    assert_eq!(pushed.len(), delivered.len() + queue.dropped_frames());
    // What came out are frames that came, in their order.
    let mut rest = pushed.iter();
    for frame in &delivered {
        assert!(rest.any(|p| p == frame), "{frame:?}");
    }
}

#[test]
fn the_buffer_is_the_end_of_the_stream_until_the_verdict() {
    let mut effects = Vec::new();
    let mut queue = SpectatorQueue::with_capacity("room", 4);
    for i in 0..10u32 {
        queue.push(clock(i), &mut effects);
        if i == 6 {
            assert_eq!(queue.pop(&mut effects), Popped::Frame(clock(3)));
        }
    }
    assert!(!queue.is_overflowed());
    assert_eq!(queue.dropped_frames(), 5);
    for i in 6..10u32 {
        assert_eq!(queue.pop(&mut effects), Popped::Frame(clock(i)));
    }
}

#[test]
fn one_frame_taken_ends_a_run_of_overflows() {
    let mut effects = Vec::new();
    let mut queue = SpectatorQueue::with_capacity("room", 1);
    queue.push(clock(0), &mut effects);
    for round in 0..3 {
        for i in 0..(MAX_CONSECUTIVE_OVERFLOWS - 1) as u32 {
            assert!(!queue.push(clock(i), &mut effects), "round {round}");
        }
        queue.pop(&mut effects);
        assert!(!queue.push(clock(0), &mut effects));
    }
    assert!(!queue.is_overflowed());
}

#[test]
fn pushes_and_pops_export_the_depth_and_wake_the_pump() {
    let mut effects = Vec::new();
    let mut queue = SpectatorQueue::with_capacity("room", 2);
    queue.push(clock(0), &mut effects);
    queue.push(clock(1), &mut effects);
    queue.push(clock(2), &mut effects);
    queue.pop(&mut effects);
    queue.clear(&mut effects);
    assert_eq!(
        moves_of(&effects, Metric::SpectatorQueueDepth),
        vec![
            MetricOp::SetTo(1),
            MetricOp::SetTo(2),
            MetricOp::SetTo(2),
            MetricOp::SetTo(1),
            MetricOp::SetTo(0),
        ]
    );
    assert_eq!(wakes(&effects), 3);
    assert_eq!(queue.depth(), 0);
    for effect in &effects {
        if let QueueEffect::Metric(update) = effect {
            assert_eq!(update.labels, vec!["room"]);
        }
    }
}

#[test]
fn a_subscription_goes_on_until_it_fails_ends_or_overflows() {
    for event in [
        SubscriberEvent::ConnectionFailed,
        SubscriberEvent::SubscribeFailed,
        SubscriberEvent::Ended,
    ] {
        let mut effects = Vec::new();
        let mut queue: SpectatorQueue = SpectatorQueue::new("room");
        assert!(!on_subscriber_event(&mut queue, event, &mut effects));
        assert_eq!(effects, vec![QueueEffect::Wake]);
        assert_eq!(queue.pop(&mut effects), Popped::Stopped);
    }

    let mut effects = Vec::new();
    let mut queue = SpectatorQueue::with_capacity("room", 1);
    assert!(on_subscriber_event(&mut queue, SubscriberEvent::Undecodable, &mut effects));
    assert!(effects.is_empty());
    assert_eq!(queue.pop(&mut effects), Popped::Waiting);
    for i in 0..MAX_CONSECUTIVE_OVERFLOWS as u32 {
        assert!(on_subscriber_event(&mut queue, SubscriberEvent::Frame(clock(i)), &mut effects));
    }
    assert!(!effects.contains(&QueueEffect::Disconnect));
    assert!(!on_subscriber_event(&mut queue, SubscriberEvent::Frame(clock(99)), &mut effects));
    assert_eq!(
        effects[effects.len() - 2..],
        [QueueEffect::Disconnect, QueueEffect::Wake]
    );
}

#[test]
fn channels_and_keys_carry_the_game() {
    assert_eq!(channel_for("42"), "game:42:spectators");
    assert_eq!(spectator_count_key("42"), "game:42:spectator_count");
}

#[test]
fn chat_and_counts_are_published_on_the_games_channel() {
    let chat = publish_chat("g", "ann".to_string(), "hi".to_string());
    assert_eq!(chat.channel, "game:g:spectators");
    assert_eq!(
        chat.message,
        WsMessage::Chat { user: "ann".to_string(), message: "hi".to_string() }
    );

    let joined = spectator_joined("g");
    assert_eq!((joined.key.as_str(), joined.delta), ("game:g:spectator_count", 1));
    let left = spectator_left("g");
    assert_eq!((left.key.as_str(), left.delta), ("game:g:spectator_count", -1));

    for (count, shown) in [(3i64, 3u32), (0, 0), (-2, 0), (0x1_0000_0005, 5), (i64::MIN, 0)] {
        let publication = publish_spectator_count("g", count);
        assert_eq!(publication.channel, "game:g:spectators");
        assert_eq!(publication.message, WsMessage::SpectatorCount { count: shown });
    }
}
