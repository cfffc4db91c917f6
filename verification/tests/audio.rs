use std::sync::atomic::{AtomicI32, Ordering};

use bytebeat::audio::{
    estimate_play_head, frames_available, process_shared, render_block, sync_play_head,
    AudioCommand, AudioEngine, AudioEvent, BlockReport, Recovery, StreamAction, StreamStateTracker,
    StreamStatus, BITRATE, CHANNELS, STRIDE,
};
use bytebeat::parser::Beat;
use bytebeat::ring::RING_CAPACITY;
use bytebeat::ui::new_beat;

fn beat(code: &str) -> Beat {
    Beat::compile(code).unwrap()
}

fn drain(consumer: &mut rtrb::Consumer<u8>) -> Vec<u8> {
    let mut out = Vec::new();
    while let Ok(v) = consumer.pop() {
        out.push(v);
    }
    out
}

#[test]
fn stream_format() {
    assert_eq!(CHANNELS, 2);
    assert_eq!(STRIDE, 2);
    assert_eq!(BITRATE, 8000);
    assert_eq!(RING_CAPACITY, 64000);
}

#[test]
fn render_block_writes_both_channels() {
    let (mut producer, mut consumer) = rtrb::RingBuffer::<u8>::new(16);
    let mut out = [7u8; 9];
    let report = render_block(&beat("t"), 250, &mut out, &mut producer);
    assert_eq!(
        report,
        BlockReport {
            frames: 4,
            pushed: 4,
            next_t: 254
        }
    );
    // the byte that is no whole frame stays as it was
    assert_eq!(out, [250, 250, 251, 251, 252, 252, 253, 253, 7]);
    assert_eq!(drain(&mut consumer), vec![250, 251, 252, 253]);
}

#[test]
fn render_block_follows_the_beat() {
    let (mut producer, mut consumer) = rtrb::RingBuffer::<u8>::new(64);
    let mut out = [0u8; 64];
    let melody = beat("t*(42&t>>10)");
    let report = render_block(&melody, 5000, &mut out, &mut producer);
    assert_eq!(report.frames, 32);
    assert_eq!(report.pushed, 32);
    assert_eq!(report.next_t, 5032);
    for i in 0..32 {
        let expected = melody.eval(5000 + i as i32);
        assert_eq!(out[2 * i], expected);
        assert_eq!(out[2 * i + 1], expected);
    }
    let seen = drain(&mut consumer);
    assert_eq!(seen.len(), 32);
    for (i, v) in seen.into_iter().enumerate() {
        assert_eq!(v, melody.eval(5000 + i as i32));
    }
}

#[test]
fn render_block_of_no_frames() {
    let (mut producer, mut consumer) = rtrb::RingBuffer::<u8>::new(4);
    let mut none: [u8; 0] = [];
    let report = render_block(&beat("t"), 3, &mut none, &mut producer);
    assert_eq!(
        report,
        BlockReport {
            frames: 0,
            pushed: 0,
            next_t: 3
        }
    );
    let mut one = [9u8];
    let report = render_block(&beat("t"), 3, &mut one, &mut producer);
    assert_eq!(report.frames, 0);
    assert_eq!(one, [9]);
    assert!(drain(&mut consumer).is_empty());
}

#[test]
fn a_full_ring_drops_samples_but_not_frames() {
    let (mut producer, mut consumer) = rtrb::RingBuffer::<u8>::new(3);
    let mut out = [0u8; 10];
    let report = render_block(&beat("t"), 10, &mut out, &mut producer);
    assert_eq!(report.frames, 5);
    assert_eq!(report.pushed, 3);
    assert_eq!(out, [10, 10, 11, 11, 12, 12, 13, 13, 14, 14]);
    assert_eq!(drain(&mut consumer), vec![10, 11, 12]);
    // once the consumer has made room, samples go in again
    let report = render_block(&beat("t"), 15, &mut out[..4], &mut producer);
    assert_eq!(report.pushed, 2);
    assert_eq!(drain(&mut consumer), vec![15, 16]);
}

#[test]
fn a_ring_with_room_takes_every_sample() {
    let (mut producer, mut consumer) = rtrb::RingBuffer::<u8>::new(RING_CAPACITY);
    let mut out = vec![0u8; 2 * 8000];
    let mut t = 0;
    for _ in 0..8 {
        assert!(producer.slots() >= 8000);
        let report = render_block(&beat("t>>4"), t, &mut out, &mut producer);
        assert_eq!(report.frames, 8000);
        assert_eq!(report.pushed, 8000);
        t = report.next_t;
    }
    assert_eq!(t, 64000);
    assert_eq!(consumer.slots(), 64000);
    // nothing more fits
    let report = render_block(&beat("t>>4"), t, &mut out, &mut producer);
    assert_eq!(report.pushed, 0);
    assert_eq!(drain(&mut consumer).len(), 64000);
}

#[test]
fn the_write_index_wraps() {
    let (mut producer, _consumer) = rtrb::RingBuffer::<u8>::new(8);
    let mut out = [0u8; 6];
    let report = render_block(&beat("t"), i32::MAX - 1, &mut out, &mut producer);
    assert_eq!(report.next_t, i32::MIN + 1);
    assert_eq!(out, [254, 254, 255, 255, 0, 0]);
}

#[test]
fn the_silent_beat_renders_zeros() {
    let (mut producer, mut consumer) = rtrb::RingBuffer::<u8>::new(8);
    let mut out = [1u8; 6];
    render_block(&Beat::default(), 77, &mut out, &mut producer);
    assert_eq!(out, [0; 6]);
    assert_eq!(drain(&mut consumer), vec![0, 0, 0]);
}

#[test]
fn play_head_lies_behind_the_write_index() {
    assert_eq!(estimate_play_head(1000, 100, 28), 872);
    assert_eq!(estimate_play_head(1000, 0, 0), 1000);
    assert_eq!(estimate_play_head(1000, 1000, 0), 0);
    assert_eq!(estimate_play_head(0, 5, 0), -5);
    for (t_write, queued, buffered) in [(8000, 800, 256), (i32::MAX, 0, 1), (5, 2, 3)] {
        let head = estimate_play_head(t_write, queued, buffered);
        assert!(0 <= head && head <= t_write);
    }
}

#[test]
fn play_head_wraps_like_the_write_index() {
    assert_eq!(estimate_play_head(i32::MIN, 1, 0), i32::MAX);
    assert_eq!(estimate_play_head(0, 1 << 32, 0), 0);
    assert_eq!(estimate_play_head(7, (1 << 32) + 2, 1 << 33), 5);
    assert_eq!(estimate_play_head(0, u64::MAX, 0), 1);
    assert_eq!(estimate_play_head(0, u64::MAX, u64::MAX), 2);
    assert_eq!(estimate_play_head(10, 1 << 31, 0), i32::MIN + 10);
}

#[test]
fn frames_available_is_what_the_device_has_not_queued() {
    assert_eq!(frames_available(8000, 0), 8000);
    assert_eq!(frames_available(8000, 7000), 1000);
    assert_eq!(frames_available(8000, 8000), 0);
    assert_eq!(frames_available(8000, 9000), 0);
    assert_eq!(frames_available(0, u32::MAX), 0);
}

#[test]
fn tracker_reports_only_changes() {
    let mut tracker = StreamStateTracker::new();
    assert_eq!(tracker.current(), StreamStatus::Unconnected);
    assert!(!tracker.is_active());
    assert_eq!(tracker.set(StreamStatus::Unconnected), None);
    assert_eq!(
        tracker.set(StreamStatus::Connecting),
        Some(AudioEvent::StateChange(StreamStatus::Connecting))
    );
    assert_eq!(tracker.set(StreamStatus::Connecting), None);
    assert_eq!(
        tracker.set(StreamStatus::Streaming),
        Some(AudioEvent::StateChange(StreamStatus::Streaming))
    );
    assert!(tracker.is_active());
    for status in [
        StreamStatus::Error,
        StreamStatus::Unconnected,
        StreamStatus::Connecting,
        StreamStatus::Paused,
    ] {
        assert_eq!(
            tracker.set(status),
            Some(AudioEvent::StateChange(status))
        );
        assert_eq!(tracker.current(), status);
        assert!(!tracker.is_active());
    }
}

#[test]
fn engine_starts_silent_and_unconnected() {
    let (mut producer, _consumer) = rtrb::RingBuffer::<u8>::new(8);
    let mut engine = AudioEngine::new();
    assert_eq!(engine.write_index(), 0);
    assert_eq!(engine.stream_status(), StreamStatus::Unconnected);
    let mut out = [9u8; 4];
    let report = engine.process(&mut out, &mut producer);
    assert_eq!(out, [0; 4]);
    assert_eq!(report.next_t, 2);
    assert_eq!(engine.write_index(), 2);
}

#[test]
fn engine_plays_and_pauses() {
    let mut engine = AudioEngine::new();
    assert_eq!(
        engine.set_status(StreamStatus::Connecting),
        Some(AudioEvent::StateChange(StreamStatus::Connecting))
    );
    assert_eq!(
        engine.set_status(StreamStatus::Paused),
        Some(AudioEvent::StateChange(StreamStatus::Paused))
    );
    assert_eq!(engine.set_status(StreamStatus::Paused), None);

    // pausing a stream that does not play does nothing
    let outcome = engine.handle_command(AudioCommand::<u8>::Pause);
    assert!(outcome.action.is_none());
    assert_eq!(outcome.event, None);

    let outcome = engine.handle_command(AudioCommand::<u8>::Play);
    assert!(matches!(outcome.action, Some(StreamAction::Start)));
    assert_eq!(
        outcome.event,
        Some(AudioEvent::StateChange(StreamStatus::Streaming))
    );
    assert_eq!(engine.stream_status(), StreamStatus::Streaming);

    let outcome = engine.handle_command(AudioCommand::<u8>::Play);
    assert!(outcome.action.is_none());
    assert_eq!(outcome.event, None);

    let outcome = engine.handle_command(AudioCommand::<u8>::Pause);
    assert!(matches!(outcome.action, Some(StreamAction::Stop)));
    assert_eq!(
        outcome.event,
        Some(AudioEvent::StateChange(StreamStatus::Paused))
    );
    assert_eq!(engine.stream_status(), StreamStatus::Paused);
}

#[test]
fn engine_hands_the_volume_to_the_backend() {
    let mut engine = AudioEngine::new();
    let outcome = engine.handle_command(AudioCommand::SetVolume(0.5f32));
    match outcome.action {
        Some(StreamAction::SetVolume(v)) => assert_eq!(v, 0.5),
        other => panic!("got {:?}", other),
    }
    assert_eq!(outcome.event, None);
    assert_eq!(engine.stream_status(), StreamStatus::Unconnected);
    assert_eq!(engine.write_index(), 0);
}

#[test]
fn a_new_beat_plays_from_the_next_buffer() {
    let (mut producer, mut consumer) = rtrb::RingBuffer::<u8>::new(64);
    let mut engine = AudioEngine::new();
    let first = beat("t*(42&t>>10)");
    let second = beat("t|(t>>3)");

    let outcome = engine.handle_command(AudioCommand::<f32>::NewBeat(first.clone()));
    assert!(outcome.action.is_none());
    assert_eq!(outcome.event, None);
    let mut a = [0u8; 16];
    assert_eq!(engine.process(&mut a, &mut producer).next_t, 8);

    engine.handle_command(new_beat::<f32>("t|(t>>3)").unwrap());
    let mut b = [0u8; 16];
    assert_eq!(engine.process(&mut b, &mut producer).next_t, 16);
    assert_eq!(engine.write_index(), 16);

    // every index is rendered once, in order, by the beat stored last before it
    for i in 0..8usize {
        assert_eq!(a[2 * i], first.eval(i as i32));
        assert_eq!(a[2 * i + 1], first.eval(i as i32));
        assert_eq!(b[2 * i], second.eval(8 + i as i32));
        assert_eq!(b[2 * i + 1], second.eval(8 + i as i32));
    }
    let seen = drain(&mut consumer);
    let expected: Vec<u8> = (0..8)
        .map(|t| first.eval(t))
        .chain((8..16).map(|t| second.eval(t)))
        .collect();
    assert_eq!(seen, expected);
}

#[test]
fn a_source_with_an_error_gives_no_command() {
    let errors = new_beat::<f32>("t +").unwrap_err();
    assert_eq!(errors, Beat::compile("t +").unwrap_err());
    assert!(matches!(
        new_beat::<f32>("t"),
        Ok(AudioCommand::NewBeat(_))
    ));
}

#[test]
fn engine_recovers_from_a_lost_device_only() {
    let mut engine = AudioEngine::new();
    engine.set_status(StreamStatus::Streaming);
    assert_eq!(
        engine.render_failed(true),
        (
            Recovery::Reinitialize,
            Some(AudioEvent::StateChange(StreamStatus::Connecting))
        )
    );
    assert_eq!(engine.render_failed(true), (Recovery::Reinitialize, None));
    assert_eq!(
        engine.render_failed(false),
        (
            Recovery::Fatal,
            Some(AudioEvent::StateChange(StreamStatus::Error))
        )
    );
    assert_eq!(engine.stream_status(), StreamStatus::Error);
}

#[test]
fn shared_counters_carry_the_indices() {
    let (mut producer, mut consumer) = rtrb::RingBuffer::<u8>::new(16);
    let t_write = AtomicI32::new(100);
    let t_play = AtomicI32::new(0);
    let mut out = [0u8; 8];
    let report = process_shared(&beat("t"), &t_write, &mut out, &mut producer);
    assert_eq!(report.frames, 4);
    assert_eq!(report.next_t, 104);
    assert_eq!(t_write.load(Ordering::Relaxed), 104);
    assert_eq!(out, [100, 100, 101, 101, 102, 102, 103, 103]);
    assert_eq!(drain(&mut consumer), vec![100, 101, 102, 103]);

    assert_eq!(sync_play_head(&t_write, &t_play, 3, 1), 100);
    assert_eq!(t_play.load(Ordering::Relaxed), 100);
    assert_eq!(t_write.load(Ordering::Relaxed), 104);
    assert!(t_play.load(Ordering::Relaxed) <= t_write.load(Ordering::Relaxed));
}

#[test]
fn the_play_head_advances_across_a_switch() {
    let (mut producer, _consumer) = rtrb::RingBuffer::<u8>::new(4096);
    let mut engine = AudioEngine::new();
    engine.handle_command(new_beat::<f32>("t*(42&t>>10)").unwrap());
    let mut out = [0u8; 64];
    let mut heads = Vec::new();
    let mut rendered = Vec::new();
    for round in 0..20 {
        if round == 10 {
            // the second beat arrives between two buffers
            engine.handle_command(new_beat::<f32>("t|(t>>3)").unwrap());
        }
        let start = engine.write_index();
        let report = engine.process(&mut out, &mut producer);
        assert_eq!(report.frames, 32);
        rendered.extend(start..report.next_t);
        // eight frames wait in the device, four in its queue
        heads.push(estimate_play_head(engine.write_index(), 4, 8));
    }
    // no index is skipped or rendered twice
    assert_eq!(rendered, (0..640).collect::<Vec<i32>>());
    for pair in heads.windows(2) {
        assert!(pair[0] < pair[1]);
        assert_eq!(pair[1] - pair[0], 32);
    }
    assert_eq!(heads[0], 20);
    assert!(heads.iter().all(|&h| h <= engine.write_index()));
}

#[test]
fn a_full_ring_keeps_what_it_holds() {
    let (mut producer, mut consumer) = rtrb::RingBuffer::<u8>::new(2);
    producer.push(1).unwrap();
    producer.push(2).unwrap();
    let mut out = [0u8; 6];
    let report = render_block(&beat("t"), 40, &mut out, &mut producer);
    assert_eq!(report.frames, 3);
    assert_eq!(report.pushed, 0);
    assert_eq!(out, [40, 40, 41, 41, 42, 42]);
    // nothing was overwritten, reordered or added
    assert_eq!(drain(&mut consumer), vec![1, 2]);
}

#[test]
fn the_ring_holds_what_it_held_and_then_the_block() {
    let (mut producer, mut consumer) = rtrb::RingBuffer::<u8>::new(8);
    producer.push(7).unwrap();
    producer.push(8).unwrap();
    let mut out = [0u8; 8];
    let report = render_block(&beat("t*2"), 10, &mut out, &mut producer);
    assert_eq!(report.pushed, 4);
    // the consumer takes from the front, the block stands behind in its order
    assert_eq!(consumer.pop(), Ok(7));
    let report = render_block(&beat("t*2"), 14, &mut out[..4], &mut producer);
    assert_eq!(report.pushed, 2);
    assert_eq!(drain(&mut consumer), vec![8, 20, 22, 24, 26, 28, 30]);
}

#[test]
fn a_ring_that_fills_midway_takes_the_first_samples() {
    let (mut producer, mut consumer) = rtrb::RingBuffer::<u8>::new(5);
    producer.push(99).unwrap();
    producer.push(98).unwrap();
    let mut out = [0u8; 12];
    let report = render_block(&beat("t"), 0, &mut out, &mut producer);
    assert_eq!(report.frames, 6);
    // three slots were free: the first three samples went in
    assert_eq!(report.pushed, 3);
    assert_eq!(drain(&mut consumer), vec![99, 98, 0, 1, 2]);
}
