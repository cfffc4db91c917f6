//! What the audio thread emits over time, whatever order commands and
//! buffers come in.
use vstd::prelude::*;

use super::frame_time;
use crate::parser::eval::{lemma_wrap32_near, lemma_wrap32_same};
use crate::parser::Beat;

verus! {

/// One thing that happens on the audio thread.
pub enum Step {
    /// A new beat is stored.
    Store(Beat),
    /// A buffer of so many frames is rendered.
    Process(nat),
}

/// One emitted sample and where it came from.
pub struct Emission {
    pub sample: u8,
    /// The sample index it was computed at.
    pub t: i32,
    /// The index in the schedule of the step that rendered it.
    pub at: int,
    /// The index in the schedule of the step that stored its beat; -1 for
    /// the beat the engine started with.
    pub source: int,
}

/// The index of the last `Store` of the schedule, -1 if it has none.
pub open spec fn last_store(schedule: Seq<Step>) -> int
    decreases schedule.len(),
{
    if schedule.len() == 0 {
        -1
    } else if schedule.last() is Store {
        schedule.len() - 1
    } else {
        last_store(schedule.drop_last())
    }
}

/// The beat that plays after the schedule.
pub open spec fn beat_after(initial: Beat, schedule: Seq<Step>) -> Beat {
    if last_store(schedule) < 0 {
        initial
    } else {
        schedule[last_store(schedule)]->Store_0
    }
}

/// Every sample emitted during the schedule, in order, by an engine that
/// starts with the beat `initial` at sample index `t0`.
pub open spec fn emissions(initial: Beat, t0: i32, schedule: Seq<Step>) -> Seq<Emission>
    decreases schedule.len(),
{
    if schedule.len() == 0 {
        Seq::empty()
    } else {
        let before = schedule.drop_last();
        let so_far = emissions(initial, t0, before);
        match schedule.last() {
            Step::Store(_) => so_far,
            Step::Process(frames) => so_far + Seq::new(
                frames,
                |i: int|
                    Emission {
                        sample: beat_after(initial, before).sample(
                            frame_time(t0, so_far.len() + i),
                        ),
                        t: frame_time(t0, so_far.len() + i),
                        at: schedule.len() - 1,
                        source: last_store(before),
                    },
            ),
        }
    }
}

/// The write index after the schedule.
pub open spec fn t_after(initial: Beat, t0: i32, schedule: Seq<Step>) -> i32 {
    frame_time(t0, emissions(initial, t0, schedule).len() as int)
}

/// The last store lies in the schedule and is a store, and no step after
/// it is one.
pub proof fn lemma_last_store(schedule: Seq<Step>)
    ensures
        -1 <= last_store(schedule) < schedule.len(),
        last_store(schedule) >= 0 ==> schedule[last_store(schedule)] is Store,
        forall|j: int|
            last_store(schedule) < j < schedule.len() ==> !(#[trigger] schedule[j] is Store),
    decreases schedule.len(),
{
    if schedule.len() > 0 && !(schedule.last() is Store) {
        let before = schedule.drop_last();
        lemma_last_store(before);
        assert forall|j: int| last_store(schedule) < j < schedule.len() implies !(schedule[j]
            is Store) by {
            if j < before.len() {
                assert(before[j] == schedule[j]);
            }
        }
    }
}

/// Hot-swap safety. Whatever the schedule of stores and buffers, every
/// emitted sample was computed by a beat that was stored strictly before
/// the buffer it went into, or by the beat the engine started with if none
/// was stored before; it is the newest such beat, never an older one. And
/// the sample indices run on without a gap or a repeat.
pub proof fn lemma_hot_swap_safe(initial: Beat, t0: i32, schedule: Seq<Step>, i: int)
    requires
        0 <= i < emissions(initial, t0, schedule).len(),
    ensures
        ({
            let e = emissions(initial, t0, schedule)[i];
            &&& e.t == frame_time(t0, i)
            &&& -1 <= e.source < e.at < schedule.len()
            &&& schedule[e.at] is Process
            &&& e.source >= 0 ==> schedule[e.source] is Store && e.sample
                == schedule[e.source]->Store_0.sample(e.t)
            &&& e.source < 0 ==> e.sample == initial.sample(e.t)
            &&& forall|j: int| e.source < j < e.at ==> !(#[trigger] schedule[j] is Store)
        }),
    decreases schedule.len(),
{
    let before = schedule.drop_last();
    let so_far = emissions(initial, t0, before);
    if i < so_far.len() {
        lemma_hot_swap_safe(initial, t0, before, i);
        let e = so_far[i];
        assert(emissions(initial, t0, schedule)[i] == e);
        assert(forall|j: int| 0 <= j < before.len() ==> before[j] == schedule[j]);
    } else {
        lemma_last_store(before);
        assert(forall|j: int| 0 <= j < before.len() ==> before[j] == schedule[j]);
    }
}

/// Rendering a buffer of `frames` frames after the schedule emits what the
/// beat then playing gives from the write index then reached.
pub proof fn lemma_process_emits(
    initial: Beat,
    t0: i32,
    schedule: Seq<Step>,
    frames: nat,
    i: int,
)
    requires
        0 <= i < frames,
    ensures
        ({
            let before = emissions(initial, t0, schedule);
            let after = emissions(initial, t0, schedule.push(Step::Process(frames)));
            &&& after.len() == before.len() + frames
            &&& after[before.len() + i].sample == beat_after(initial, schedule).sample(
                frame_time(t_after(initial, t0, schedule), i),
            )
        }),
{
    let longer = schedule.push(Step::Process(frames));
    assert(longer.drop_last() =~= schedule);
    let n = emissions(initial, t0, schedule).len() as int;
    lemma_wrap32_near(t0 + n);
    lemma_wrap32_same(frame_time(t0, n) + i, t0 + n + i);
}

/// Storing a beat emits nothing, moves no index and makes that beat the
/// one that plays.
pub proof fn lemma_store_swaps(initial: Beat, t0: i32, schedule: Seq<Step>, beat: Beat)
    ensures
        emissions(initial, t0, schedule.push(Step::Store(beat))) == emissions(
            initial,
            t0,
            schedule,
        ),
        beat_after(initial, schedule.push(Step::Store(beat))) == beat,
{
    let longer = schedule.push(Step::Store(beat));
    assert(longer.drop_last() =~= schedule);
}

} // verus!
