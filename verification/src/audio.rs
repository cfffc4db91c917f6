//! What the audio thread decides: which samples go into a buffer, what a
//! command does to the stream, and where the play head is.
use std::sync::atomic::AtomicI32;
use vstd::prelude::*;

use crate::counter::{read_counter, write_counter};
use crate::parser::eval::{add32, lemma_wrap32_near, lemma_wrap32_same, sub32, wrap32};
use crate::parser::Beat;
use crate::ring::{
    ends_with, known_free, lemma_ends_with_end, lemma_ends_with_push, ring_is_full, ring_push,
    ring_size, starts_with, unread,
};

pub mod schedule;

verus! {

/// The stream is stereo.
pub const CHANNELS: usize = 2;

/// Bytes from one frame to the next: one byte for each channel.
pub const STRIDE: usize = 2;

/// Samples in a second.
pub const BITRATE: usize = 8000;

/// Milliseconds between two estimates of the play head.
pub const T_SYNC_INTERVAL_MS: u64 = 100;

/// The state of the output stream, as the console shows it.
#[derive(Clone, Copy, Debug, PartialEq, Eq, Structural)]
pub enum StreamStatus {
    /// the stream is in error
    Error,
    /// unconnected
    Unconnected,
    /// connection is in progress
    Connecting,
    /// paused
    Paused,
    /// streaming
    Streaming,
}

/// What the audio thread reports to the console.
#[derive(Clone, Copy, Debug, PartialEq, Eq, Structural)]
pub enum AudioEvent {
    StateChange(StreamStatus),
}

/// What the console asks of the audio thread. `V` is how the backend takes
/// a volume.
#[derive(Debug)]
pub enum AudioCommand<V> {
    Play,
    Pause,
    SetVolume(V),
    NewBeat(Beat),
}

/// The sample index of frame `i` of a buffer that starts at `t0`. The
/// counter wraps around.
pub open spec fn frame_time(t0: i32, i: int) -> i32 {
    wrap32(t0 + i)
}

/// `after` is the buffer `before` filled by `beat` from sample index `t0`:
/// every whole frame holds the beat's sample at its index in both channels,
/// and a byte left over at the end is as it was.
pub open spec fn rendered(beat: Beat, t0: i32, before: Seq<u8>, after: Seq<u8>) -> bool {
    let frames = before.len() as int / STRIDE as int;
    &&& after.len() == before.len()
    &&& forall|j: int|
        0 <= j < frames * STRIDE ==> #[trigger] after[j] == beat.sample(
            frame_time(t0, j / STRIDE as int),
        )
    &&& forall|j: int| frames * STRIDE <= j < before.len() ==> #[trigger] after[j] == before[j]
}

/// What rendering one buffer did.
#[derive(Clone, Copy, Debug, PartialEq, Eq, Structural)]
pub struct BlockReport {
    /// How many frames were written.
    pub frames: usize,
    /// How many of their samples went into the ring for the scope.
    pub pushed: usize,
    /// The sample index of the frame after the last one written.
    pub next_t: i32,
}

/// The samples of `frames` frames from sample index `t0` on.
pub open spec fn samples_of(beat: Beat, t0: i32, frames: nat) -> Seq<u8> {
    Seq::new(frames, |i: int| beat.sample(frame_time(t0, i)))
}

/// `kept` is what is left of `offered` when some of it is left out: the
/// same samples in the same order.
pub open spec fn kept_of(offered: Seq<u8>, kept: Seq<u8>) -> bool
    decreases offered.len(),
{
    if kept.len() == 0 {
        true
    } else if offered.len() == 0 {
        false
    } else {
        (offered.last() == kept.last() && kept_of(offered.drop_last(), kept.drop_last()))
            || kept_of(offered.drop_last(), kept)
    }
}

/// The smaller of the two.
pub open spec fn least(a: nat, b: nat) -> nat {
    if a <= b {
        a
    } else {
        b
    }
}

/// What offering `offered` to the ring did to what the producer holds
/// unread, when `pushed` of the samples went in. The ring holds what it
/// held, then the samples that found room, in the order they were offered,
/// less what was taken from its front meanwhile. As many samples as the
/// producer knew of free slots found room for sure, the first ones. While
/// it knew of room for all of them, none was left out and nothing was seen
/// taken.
pub open spec fn fed(
    before: rtrb::Producer<u8>,
    offered: Seq<u8>,
    pushed: nat,
    after: rtrb::Producer<u8>,
) -> bool {
    let sure = least(known_free(before), offered.len());
    &&& ring_size(after) == ring_size(before)
    &&& sure <= pushed <= offered.len()
    &&& sure == offered.len() ==> unread(after) == unread(before) + offered
    &&& exists|kept: Seq<u8>|
        {
            &&& #[trigger] kept_of(offered, kept)
            &&& kept.len() == pushed
            &&& starts_with(kept, offered.take(sure as int))
            &&& ends_with(unread(before) + kept, unread(after))
        }
}

/// The one sample, if it went in; nothing, if it did not.
pub open spec fn gone_in(value: u8, pushed: bool) -> Seq<u8> {
    if pushed {
        seq![value]
    } else {
        Seq::empty()
    }
}

/// Offers one sample to the ring, which takes it unless it is full.
fn offer(producer: &mut rtrb::Producer<u8>, value: u8) -> (pushed: bool)
    ensures
        ring_size(*final(producer)) == ring_size(*old(producer)),
        unread(*final(producer)).len() <= ring_size(*final(producer)),
        ends_with(unread(*old(producer)) + gone_in(value, pushed), unread(*final(producer))),
        unread(*old(producer)).len() < ring_size(*old(producer)) ==> pushed && unread(
            *final(producer),
        ) == unread(*old(producer)).push(value),
{
    let ghost held = unread(*producer);
    // best effort: the scope can do without a sample
    if !ring_is_full(producer) {
        let ghost looked = unread(*producer);
        let pushed = ring_push(producer, value);
        proof {
            lemma_ends_with_push(held, looked, value);
            assert(held + gone_in(value, true) =~= held.push(value));
        }
        pushed
    } else {
        proof {
            assert(held + gone_in(value, false) =~= held);
        }
        false
    }
}

/// How far offering the samples `all` has come after `i` of them, where the
/// producer held `held` unread at first and knew of room for `sure` of the
/// samples, `kept` are those that went in and `now` is what it holds
/// unread.
#[verifier::opaque]
pub open spec fn feeding(
    held: Seq<u8>,
    all: Seq<u8>,
    sure: nat,
    i: nat,
    kept: Seq<u8>,
    now: Seq<u8>,
) -> bool {
    &&& i <= all.len()
    &&& least(sure, i) <= kept.len() <= i
    &&& kept_of(all.take(i as int), kept)
    &&& starts_with(kept, all.take(least(sure, i) as int))
    &&& ends_with(held + kept, now)
    &&& i <= sure ==> now == held + all.take(i as int)
}

proof fn lemma_feed_start(held: Seq<u8>, all: Seq<u8>, sure: nat)
    ensures
        feeding(held, all, sure, 0, Seq::empty(), held),
{
    reveal(feeding);
    let none = Seq::<u8>::empty();
    assert(all.take(0) =~= none);
    assert(none.take(0) =~= none);
    assert(held + none =~= held);
    assert(held.skip(0) =~= held);
}

proof fn lemma_feed_step(
    held: Seq<u8>,
    all: Seq<u8>,
    sure: nat,
    i: nat,
    kept: Seq<u8>,
    now: Seq<u8>,
    value: u8,
    pushed: bool,
    after: Seq<u8>,
)
    requires
        feeding(held, all, sure, i, kept, now),
        i < all.len(),
        value == all[i as int],
        ends_with(now + gone_in(value, pushed), after),
        i < sure ==> pushed && after == now.push(value),
    ensures
        feeding(held, all, sure, i + 1, kept + gone_in(value, pushed), after),
{
    reveal(feeding);
    let so_far = all.take(i as int);
    let next = all.take(i as int + 1);
    let kept_now = kept + gone_in(value, pushed);
    assert(next =~= so_far.push(value));
    lemma_kept_longer(so_far, kept, value);
    if pushed {
        assert(kept_now =~= kept.push(value));
        assert(now + gone_in(value, pushed) =~= now.push(value));
        lemma_ends_with_push(held + kept, now, value);
        assert((held + kept).push(value) =~= held + kept_now);
        lemma_ends_with_end(held + kept_now, now.push(value), after);
    } else {
        assert(kept_now =~= kept);
        assert(now + gone_in(value, pushed) =~= now);
        lemma_ends_with_end(held + kept, now, after);
    }
    if i < sure {
        assert(least(sure, i) == i && least(sure, i + 1) == i + 1);
        assert(kept.take(i as int) =~= kept);
        assert(kept =~= so_far);
        assert(kept_now =~= next);
        assert(kept_now.take(next.len() as int) =~= next);
        assert(after =~= held + next);
    } else {
        assert(least(sure, i + 1) == least(sure, i));
        let first = all.take(least(sure, i) as int);
        assert(kept_now.take(first.len() as int) =~= kept.take(first.len() as int));
    }
}

/// While room is known for the samples to come, all those offered went in
/// behind what was held.
proof fn lemma_feed_room(
    held: Seq<u8>,
    all: Seq<u8>,
    sure: nat,
    i: nat,
    kept: Seq<u8>,
    now: Seq<u8>,
)
    requires
        feeding(held, all, sure, i, kept, now),
        i <= sure,
    ensures
        now.len() == held.len() + i,
        now == held + all.take(i as int),
{
    reveal(feeding);
}

/// Once every sample was offered, the ring is fed.
proof fn lemma_feed_end(
    before: rtrb::Producer<u8>,
    all: Seq<u8>,
    kept: Seq<u8>,
    after: rtrb::Producer<u8>,
)
    requires
        feeding(
            unread(before),
            all,
            least(known_free(before), all.len()),
            all.len(),
            kept,
            unread(after),
        ),
        ring_size(after) == ring_size(before),
    ensures
        fed(before, all, kept.len(), after),
{
    reveal(feeding);
    assert(all.take(all.len() as int) =~= all);
    assert(kept_of(all, kept));
}

/// Fills a buffer of interleaved stereo frames with the beat's samples from
/// index `t0` on, and offers each sample to the ring. A sample that finds
/// the ring full is dropped from the ring, not from the buffer; while the
/// ring is known to have room for the whole buffer none is dropped.
pub fn render_block(
    beat: &Beat,
    t0: i32,
    out: &mut [u8],
    producer: &mut rtrb::Producer<u8>,
) -> (report: BlockReport)
    ensures
        rendered(*beat, t0, old(out)@, final(out)@),
        report.frames == old(out)@.len() / STRIDE as nat,
        report.next_t == frame_time(t0, report.frames as int),
        fed(
            *old(producer),
            samples_of(*beat, t0, report.frames as nat),
            report.pushed as nat,
            *final(producer),
        ),
{
    let n_frames: usize = out.len() / STRIDE;
    let mut t: i32 = t0;
    let mut pushed: usize = 0;
    let mut i: usize = 0;
    let ghost all = samples_of(*beat, t0, n_frames as nat);
    let ghost held = unread(*old(producer));
    let ghost sure = least(known_free(*old(producer)), n_frames as nat);
    let ghost kept = Seq::<u8>::empty();
    proof {
        lemma_feed_start(held, all, sure);
    }
    while i < n_frames
        invariant
            n_frames == old(out)@.len() / STRIDE as nat,
            out@.len() == old(out)@.len(),
            n_frames * STRIDE <= out@.len() <= usize::MAX,
            i <= n_frames,
            t == frame_time(t0, i as int),
            all == samples_of(*beat, t0, n_frames as nat),
            held == unread(*old(producer)),
            sure == least(known_free(*old(producer)), n_frames as nat),
            ring_size(*producer) == ring_size(*old(producer)),
            kept.len() == pushed,
            pushed <= i,
            feeding(held, all, sure, i as nat, kept, unread(*producer)),
            forall|j: int|
                0 <= j < i * STRIDE ==> #[trigger] out@[j] == beat.sample(
                    frame_time(t0, j / STRIDE as int),
                ),
            forall|j: int| i * STRIDE <= j < out@.len() ==> #[trigger] out@[j] == old(out)@[j],
        decreases n_frames - i,
    {
        let left: usize = i * STRIDE;
        let val = beat.eval(t);
        out[left] = val;
        out[left + 1] = val;
        let ghost now = unread(*producer);
        let went_in = offer(producer, val);
        if went_in {
            pushed += 1;
        }
        proof {
            assert(val == all[i as int]);
            if i < sure {
                lemma_feed_room(held, all, sure, i as nat, kept, now);
            }
            lemma_feed_step(held, all, sure, i as nat, kept, now, val, went_in, unread(*producer));
            kept = kept + gone_in(val, went_in);
        }
        t = t.wrapping_add(1);
        i += 1;
    }
    proof {
        lemma_feed_end(*old(producer), all, kept, *producer);
    }
    BlockReport { frames: n_frames, pushed, next_t: t }
}

/// Leaving out the newest sample, or keeping it, leaves a choice of what
/// was offered.
proof fn lemma_kept_longer(offered: Seq<u8>, kept: Seq<u8>, value: u8)
    requires
        kept_of(offered, kept),
    ensures
        kept_of(offered.push(value), kept),
        kept_of(offered.push(value), kept.push(value)),
{
    let longer = offered.push(value);
    assert(longer.drop_last() =~= offered);
    assert(kept.push(value).drop_last() =~= kept);
}

/// Renders one buffer from the write index that the counter holds, and
/// leaves the counter at the index after the buffer. The whole buffer comes
/// from the one beat and from consecutive indices, whatever index the
/// counter held, and so do the samples offered to the ring.
pub fn process_shared(
    beat: &Beat,
    t_write: &AtomicI32,
    out: &mut [u8],
    producer: &mut rtrb::Producer<u8>,
) -> (report: BlockReport)
    ensures
        report.frames == old(out)@.len() / STRIDE as nat,
        exists|t0: i32| #[trigger]
            shared_block(*beat, t0, old(out)@, final(out)@, *old(producer), *final(producer), report),
{
    let t0 = read_counter(t_write);
    let report = render_block(beat, t0, out, producer);
    write_counter(t_write, report.next_t);
    assert(shared_block(*beat, t0, old(out)@, out@, *old(producer), *producer, report));
    report
}

/// What `process_shared` did, where the counter held `t0`: the buffer was
/// rendered from there, the samples of its frames were offered to the ring,
/// and the index after the buffer is reported.
pub open spec fn shared_block(
    beat: Beat,
    t0: i32,
    before: Seq<u8>,
    after: Seq<u8>,
    ring_before: rtrb::Producer<u8>,
    ring_after: rtrb::Producer<u8>,
    report: BlockReport,
) -> bool {
    &&& rendered(beat, t0, before, after)
    &&& report.next_t == frame_time(t0, report.frames as int)
    &&& fed(ring_before, samples_of(beat, t0, report.frames as nat), report.pushed as nat, ring_after)
}

/// Reads the write index from one counter and writes the estimate of the
/// play head into the other, as `estimate_play_head` gives it for that
/// index, and gives the estimate back. Both counters belong to other
/// threads too, so nothing is promised of what they hold: the exact
/// statement is that of `estimate_play_head`.
pub fn sync_play_head(t_write: &AtomicI32, t_play: &AtomicI32, queued: u64, buffered: u64) -> i32 {
    let written = read_counter(t_write);
    let head = estimate_play_head(written, queued, buffered);
    write_counter(t_play, head);
    head
}

/// Estimates the index of the sample that is heard next: the index written
/// next, less the frames that wait in the stream's queue and in its
/// buffers. While no more frames wait than were written, the estimate lies
/// at or before the write index.
pub fn estimate_play_head(t_write: i32, queued: u64, buffered: u64) -> (t_play: i32)
    ensures
        t_play == wrap32(t_write - queued - buffered),
        0 <= queued + buffered <= t_write ==> t_play == t_write - queued - buffered && 0 <= t_play
            <= t_write,
{
    let q: i32 = low_word(queued);
    let b: i32 = low_word(buffered);
    let pending: i32 = add32(q, b);
    proof {
        lemma_wrap32_near(queued as int);
        lemma_wrap32_near(buffered as int);
        lemma_wrap32_near(q + b);
        let waiting = queued + buffered;
        assert((pending - waiting) % 0x1_0000_0000 == 0);
        lemma_wrap32_same(t_write - pending, t_write - waiting);
        lemma_wrap32_near(t_write - waiting);
    }
    sub32(t_write, pending)
}

/// The low 32 bits of `x`, read as a signed number.
fn low_word(x: u64) -> (w: i32)
    ensures
        w == wrap32(x as int),
{
    assert(#[verifier::truncate] (x as i32) == if x % 0x1_0000_0000 >= 0x8000_0000 {
        (x % 0x1_0000_0000 - 0x1_0000_0000) as i32
    } else {
        (x % 0x1_0000_0000) as i32
    }) by (bit_vector);
    #[verifier::truncate]
    (x as i32)
}

/// How many frames of a device buffer of `buffer_frames` frames can be
/// written while `padding` of them still wait to be played.
pub fn frames_available(buffer_frames: u32, padding: u32) -> (frames: u32)
    ensures
        frames == if buffer_frames >= padding {
            buffer_frames - padding
        } else {
            0
        },
{
    buffer_frames.saturating_sub(padding)
}

/// Remembers the state of the stream, so that only a change is reported.
#[derive(Clone, Copy, Debug)]
pub struct StreamStateTracker {
    current: StreamStatus,
}

impl StreamStateTracker {
    /// The state last set.
    pub closed spec fn status(&self) -> StreamStatus {
        self.current
    }

    /// A tracker of a stream that is not connected yet.
    pub fn new() -> (tracker: StreamStateTracker)
        ensures
            tracker.status() == StreamStatus::Unconnected,
    {
        StreamStateTracker { current: StreamStatus::Unconnected }
    }

    /// Takes in the state of the stream and gives the event to send, if the
    /// state changed.
    pub fn set(&mut self, new_status: StreamStatus) -> (event: Option<AudioEvent>)
        ensures
            final(self).status() == new_status,
            event == if old(self).status() == new_status {
                None
            } else {
                Some(AudioEvent::StateChange(new_status))
            },
    {
        if self.current != new_status {
            self.current = new_status;
            Some(AudioEvent::StateChange(new_status))
        } else {
            None
        }
    }

    /// Whether the stream plays.
    pub fn is_active(&self) -> (active: bool)
        ensures
            active == (self.status() == StreamStatus::Streaming),
    {
        self.current == StreamStatus::Streaming
    }

    /// The state last set.
    pub fn current(&self) -> (status: StreamStatus)
        ensures
            status == self.status(),
    {
        self.current
    }
}

/// What the backend is to do with its stream.
#[derive(Debug)]
pub enum StreamAction<V> {
    Start,
    Stop,
    SetVolume(V),
}

/// What a command leads to: something for the backend to do, and an event
/// for the console.
#[derive(Debug)]
pub struct CommandOutcome<V> {
    pub action: Option<StreamAction<V>>,
    pub event: Option<AudioEvent>,
}

/// What to do after a buffer could not be rendered.
#[derive(Clone, Copy, Debug, PartialEq, Eq, Structural)]
pub enum Recovery {
    /// Drop the stream and open it again, keeping everything else.
    Reinitialize,
    /// Give up.
    Fatal,
}

/// The audio thread's own state: the beat that plays, the index of the
/// sample written next, and the state of the stream.
#[derive(Debug)]
pub struct AudioEngine {
    beat: Beat,
    t_write: i32,
    tracker: StreamStateTracker,
}

impl AudioEngine {
    /// The beat that plays.
    pub closed spec fn beat(&self) -> Beat {
        self.beat
    }

    /// The index of the sample written next.
    pub closed spec fn t_write(&self) -> i32 {
        self.t_write
    }

    /// The state of the stream.
    pub closed spec fn status(&self) -> StreamStatus {
        self.tracker.status()
    }

    /// An engine that plays the silent beat from index zero, on a stream
    /// that is not connected.
    pub fn new() -> (engine: AudioEngine)
        ensures
            engine.beat().arena().len() == 0,
            engine.t_write() == 0,
            engine.status() == StreamStatus::Unconnected,
    {
        AudioEngine { beat: Beat::default(), t_write: 0, tracker: StreamStateTracker::new() }
    }

    /// The index of the sample written next.
    pub fn write_index(&self) -> (t: i32)
        ensures
            t == self.t_write(),
    {
        self.t_write
    }

    /// The state of the stream.
    pub fn stream_status(&self) -> (status: StreamStatus)
        ensures
            status == self.status(),
    {
        self.tracker.current()
    }

    /// Takes in a state that the backend reports of its stream.
    pub fn set_status(&mut self, status: StreamStatus) -> (event: Option<AudioEvent>)
        ensures
            final(self).beat() == old(self).beat(),
            final(self).t_write() == old(self).t_write(),
            final(self).status() == status,
            event == if old(self).status() == status {
                None
            } else {
                Some(AudioEvent::StateChange(status))
            },
    {
        self.tracker.set(status)
    }

    /// Acts on a command. `Play` starts a stream that does not play and
    /// `Pause` stops one that does, each with the event of the new state;
    /// on a stream already in that state they do nothing. `NewBeat` makes
    /// the beat the one that plays from the next buffer on. `SetVolume` is
    /// handed to the backend. The write index stays.
    pub fn handle_command<V>(&mut self, command: AudioCommand<V>) -> (outcome: CommandOutcome<V>)
        ensures
            final(self).t_write() == old(self).t_write(),
            match command {
                AudioCommand::Play => {
                    &&& final(self).beat() == old(self).beat()
                    &&& final(self).status() == StreamStatus::Streaming
                    &&& if old(self).status() == StreamStatus::Streaming {
                        outcome.action is None && outcome.event is None
                    } else {
                        outcome.action == Some(StreamAction::<V>::Start) && outcome.event == Some(
                            AudioEvent::StateChange(StreamStatus::Streaming),
                        )
                    }
                },
                AudioCommand::Pause => {
                    &&& final(self).beat() == old(self).beat()
                    &&& if old(self).status() == StreamStatus::Streaming {
                        &&& final(self).status() == StreamStatus::Paused
                        &&& outcome.action == Some(StreamAction::<V>::Stop)
                        &&& outcome.event == Some(AudioEvent::StateChange(StreamStatus::Paused))
                    } else {
                        &&& final(self).status() == old(self).status()
                        &&& outcome.action is None
                        &&& outcome.event is None
                    }
                },
                AudioCommand::SetVolume(v) => {
                    &&& final(self).beat() == old(self).beat()
                    &&& final(self).status() == old(self).status()
                    &&& outcome.action == Some(StreamAction::SetVolume(v))
                    &&& outcome.event is None
                },
                AudioCommand::NewBeat(beat) => {
                    &&& final(self).beat() == beat
                    &&& final(self).status() == old(self).status()
                    &&& outcome.action is None
                    &&& outcome.event is None
                },
            },
    {
        match command {
            AudioCommand::Play => {
                if !self.tracker.is_active() {
                    let event = self.tracker.set(StreamStatus::Streaming);
                    CommandOutcome { action: Some(StreamAction::Start), event }
                } else {
                    CommandOutcome { action: None, event: None }
                }
            },
            AudioCommand::Pause => {
                if self.tracker.is_active() {
                    let event = self.tracker.set(StreamStatus::Paused);
                    CommandOutcome { action: Some(StreamAction::Stop), event }
                } else {
                    CommandOutcome { action: None, event: None }
                }
            },
            AudioCommand::NewBeat(beat) => {
                self.beat = beat;
                CommandOutcome { action: None, event: None }
            },
            AudioCommand::SetVolume(volume) => {
                CommandOutcome { action: Some(StreamAction::SetVolume(volume)), event: None }
            },
        }
    }

    /// Renders one buffer with the beat that plays and moves the write
    /// index past it. One beat fills the whole buffer, and its samples are
    /// offered to the ring as `render_block` offers them.
    pub fn process(&mut self, out: &mut [u8], producer: &mut rtrb::Producer<u8>) -> (report:
        BlockReport)
        ensures
            final(self).beat() == old(self).beat(),
            final(self).status() == old(self).status(),
            rendered(old(self).beat(), old(self).t_write(), old(out)@, final(out)@),
            report.frames == old(out)@.len() / STRIDE as nat,
            report.next_t == final(self).t_write(),
            final(self).t_write() == frame_time(old(self).t_write(), report.frames as int),
            fed(
                *old(producer),
                samples_of(old(self).beat(), old(self).t_write(), report.frames as nat),
                report.pushed as nat,
                *final(producer),
            ),
    {
        let report = render_block(&self.beat, self.t_write, out, producer);
        self.t_write = report.next_t;
        report
    }

    /// Takes in that a buffer could not be rendered. A device that went
    /// away is opened again; any other failure is final.
    pub fn render_failed(&mut self, device_invalidated: bool) -> (r: (Recovery, Option<AudioEvent>))
        ensures
            final(self).beat() == old(self).beat(),
            final(self).t_write() == old(self).t_write(),
            device_invalidated ==> r.0 == Recovery::Reinitialize && final(self).status()
                == StreamStatus::Connecting,
            !device_invalidated ==> r.0 == Recovery::Fatal && final(self).status()
                == StreamStatus::Error,
            r.1 == if old(self).status() == final(self).status() {
                None
            } else {
                Some(AudioEvent::StateChange(final(self).status()))
            },
    {
        if device_invalidated {
            let event = self.tracker.set(StreamStatus::Connecting);
            (Recovery::Reinitialize, event)
        } else {
            let event = self.tracker.set(StreamStatus::Error);
            (Recovery::Fatal, event)
        }
    }
}

} // verus!
