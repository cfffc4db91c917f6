//! The scope's feed: samples come out of the ring, wait in a queue and are
//! plotted as the play head reaches them.
use std::collections::VecDeque;
use std::sync::atomic::AtomicI32;
use vstd::prelude::*;

use crate::audio::frame_time;
use crate::counter::read_counter;
use crate::parser::eval::{add32, lemma_wrap32_near, lemma_wrap32_same};
use crate::ring::{arrived, ring_pop, ring_waiting, starts_with};

verus! {

/// How many samples the chart shows at once.
pub const CHART_SAMPLES: usize = 32000;

/// How many waiting samples are due: as many as the play head is ahead of
/// the newest plotted sample, as far as samples wait.
pub open spec fn due(head: i32, play_head: i32, waiting: nat) -> nat {
    let needed = play_head - head;
    if needed <= 0 {
        0
    } else if needed > waiting {
        waiting
    } else {
        needed as nat
    }
}

/// The samples as points of the chart, the first of them at the index after
/// `head`.
pub open spec fn plotted(head: i32, samples: Seq<u8>) -> Seq<(i32, u8)> {
    Seq::new(samples.len(), |i: int| (frame_time(head, i + 1), samples[i]))
}

/// The last `limit` of the points, or all of them where there are fewer.
pub open spec fn newest(points: Seq<(i32, u8)>, limit: nat) -> Seq<(i32, u8)> {
    if points.len() > limit {
        points.skip(points.len() - limit)
    } else {
        points
    }
}

/// The window of sample indices that the chart shows: it fills from the
/// left, then scrolls with the newest plotted sample at its right edge.
pub open spec fn window_of(head: i32) -> (int, int) {
    if head < CHART_SAMPLES {
        (0, CHART_SAMPLES as int)
    } else {
        (head - CHART_SAMPLES, head as int)
    }
}

/// The feed of the scope: the reading end of the ring, the samples that
/// wait, and the points of the chart.
pub struct Scope {
    /// Samples stream incoming from audio thread
    consumer: rtrb::Consumer<u8>,
    /// Highest sample we've read off the ringbuffer
    t_read: i32,
    /// Intermediate queue waiting to be displayed
    intermediate_queue: VecDeque<u8>,
    /// The points we give to the chart
    chart_buffer: VecDeque<(i32, u8)>,
    /// The 't' of the last sample pushed to the chart_buffer
    t_chart_head: i32,
}

impl Scope {
    /// The samples that wait to be plotted, oldest first.
    pub closed spec fn waiting(&self) -> Seq<u8> {
        self.intermediate_queue@
    }

    /// The points of the chart, oldest first.
    pub closed spec fn chart(&self) -> Seq<(i32, u8)> {
        self.chart_buffer@
    }

    /// The sample index of the newest point of the chart; -1 before the
    /// first.
    pub closed spec fn head(&self) -> i32 {
        self.t_chart_head
    }

    /// How many samples were taken out of the ring, counted with
    /// wraparound.
    pub closed spec fn read_count(&self) -> i32 {
        self.t_read
    }

    /// The ring's reading end.
    pub closed spec fn ring(&self) -> rtrb::Consumer<u8> {
        self.consumer
    }

    /// The chart never holds more points than it shows.
    pub closed spec fn wf(&self) -> bool {
        self.chart_buffer@.len() <= CHART_SAMPLES
    }

    /// A scope that reads from `consumer`, with nothing waiting and nothing
    /// plotted.
    pub fn new(consumer: rtrb::Consumer<u8>) -> (scope: Scope)
        ensures
            scope.wf(),
            scope.ring() == consumer,
            scope.waiting() == Seq::<u8>::empty(),
            scope.chart() == Seq::<(i32, u8)>::empty(),
            scope.head() == -1,
            scope.read_count() == 0,
    {
        Scope {
            consumer,
            t_read: 0,
            intermediate_queue: VecDeque::with_capacity(4096),
            chart_buffer: VecDeque::with_capacity(CHART_SAMPLES),
            t_chart_head: -1,
        }
    }

    /// Takes every sample out of the ring that waits there when asked, and
    /// queues it. It never waits for the audio thread: what is produced
    /// meanwhile stays for the next call.
    pub fn drain(&mut self) -> (taken: usize)
        requires
            old(self).wf(),
        ensures
            final(self).wf(),
            final(self).chart() == old(self).chart(),
            final(self).head() == old(self).head(),
            final(self).waiting().len() == old(self).waiting().len() + taken,
            final(self).waiting().take(old(self).waiting().len() as int) == old(self).waiting(),
            // what the ring was known to hold comes first, in its order
            starts_with(
                final(self).waiting().skip(old(self).waiting().len() as int),
                arrived(old(self).ring()),
            ),
            final(self).read_count() == frame_time(old(self).read_count(), taken as int),
            arrived(final(self).ring()).len() == 0,
    {
        let available = ring_waiting(&mut self.consumer);
        let ghost found = arrived(self.consumer);
        let ghost queued = old(self).waiting();
        let mut taken: usize = 0;
        proof {
            assert(found.skip(0) =~= found);
            assert(queued + found.take(0) =~= queued);
        }
        while taken < available
            invariant
                self.wf(),
                taken <= available,
                available == found.len(),
                queued == old(self).waiting(),
                arrived(self.ring()) == found.skip(taken as int),
                self.chart() == old(self).chart(),
                self.head() == old(self).head(),
                self.waiting() == queued + found.take(taken as int),
                self.read_count() == frame_time(old(self).read_count(), taken as int),
            decreases available - taken,
        {
            match ring_pop(&mut self.consumer) {
                Some(sample) => {
                    self.intermediate_queue.push_back(sample);
                    proof {
                        lemma_wrap32_near(old(self).read_count() + taken);
                        lemma_wrap32_same(
                            self.t_read + 1,
                            old(self).read_count() + taken + 1,
                        );
                        assert(sample == found[taken as int]);
                        assert(found.skip(taken as int).drop_first() =~= found.skip(taken + 1));
                        assert(self.intermediate_queue@ =~= queued + found.take(taken + 1));
                    }
                    self.t_read = add32(self.t_read, 1);
                    taken += 1;
                },
                None => {
                    // a sample known to wait always comes
                    assert(false);
                },
            }
        }
        proof {
            lemma_wrap32_near(old(self).read_count() as int);
            assert(found.take(taken as int) =~= found);
            assert((queued + found).take(queued.len() as int) =~= queued);
            assert((queued + found).skip(queued.len() as int) =~= found);
        }
        taken
    }

    /// Plots the waiting samples that are due at `play_head`, oldest first,
    /// each at the index after the one before it, and lets the oldest points
    /// go where the chart would hold more than it shows.
    pub fn advance(&mut self, play_head: i32) -> (moved: usize)
        requires
            old(self).wf(),
        ensures
            final(self).wf(),
            final(self).ring() == old(self).ring(),
            final(self).read_count() == old(self).read_count(),
            moved == due(old(self).head(), play_head, old(self).waiting().len()),
            final(self).waiting() == old(self).waiting().skip(moved as int),
            final(self).chart() == newest(
                old(self).chart() + plotted(
                    old(self).head(),
                    old(self).waiting().take(moved as int),
                ),
                CHART_SAMPLES as nat,
            ),
            final(self).head() == frame_time(old(self).head(), moved as int),
    {
        let available: usize = self.intermediate_queue.len();
        let needed: i64 = (play_head as i64) - (self.t_chart_head as i64);
        // We can only push what we have
        let count: usize = if needed <= 0 {
            0
        } else if needed as u64 > available as u64 {
            available
        } else {
            needed as usize
        };
        let mut moved: usize = 0;
        proof {
            lemma_wrap32_near(old(self).head() as int);
            assert(old(self).waiting().skip(0) =~= old(self).waiting());
            assert(old(self).chart() + plotted(old(self).head(), old(self).waiting().take(0))
                =~= old(self).chart());
        }
        while moved < count
            invariant
                self.wf(),
                moved <= count <= old(self).waiting().len(),
                count == due(old(self).head(), play_head, old(self).waiting().len()),
                self.ring() == old(self).ring(),
                self.read_count() == old(self).read_count(),
                self.waiting() == old(self).waiting().skip(moved as int),
                self.chart() == newest(
                    old(self).chart() + plotted(
                        old(self).head(),
                        old(self).waiting().take(moved as int),
                    ),
                    CHART_SAMPLES as nat,
                ),
                self.head() == frame_time(old(self).head(), moved as int),
            decreases count - moved,
        {
            let ghost all = old(self).chart() + plotted(
                old(self).head(),
                old(self).waiting().take(moved as int),
            );
            let ghost longer = old(self).chart() + plotted(
                old(self).head(),
                old(self).waiting().take(moved + 1),
            );
            if let Some(sample) = self.intermediate_queue.pop_front() {
                proof {
                    lemma_wrap32_near(old(self).head() + moved);
                    lemma_wrap32_same(self.t_chart_head + 1, old(self).head() + moved + 1);
                }
                self.t_chart_head = add32(self.t_chart_head, 1);
                self.chart_buffer.push_back((self.t_chart_head, sample));
                proof {
                    assert(sample == old(self).waiting()[moved as int]);
                    assert(longer =~= all.push((self.t_chart_head, sample)));
                    assert(self.intermediate_queue@ =~= old(self).waiting().skip(moved + 1));
                }
                if self.chart_buffer.len() > CHART_SAMPLES {
                    self.chart_buffer.pop_front();
                }
                proof {
                    assert(self.chart_buffer@ =~= newest(longer, CHART_SAMPLES as nat));
                }
            }
            moved += 1;
        }
        moved
    }

    /// `after` is this scope one tick later, where the ring gave `taken`
    /// and the play head stood at `play_head`: the samples taken were queued
    /// behind those that waited, and what was due of the queue was plotted.
    pub open spec fn ticked(&self, after: Scope, play_head: i32, taken: Seq<u8>) -> bool {
        let queued = self.waiting() + taken;
        let moved = due(self.head(), play_head, queued.len());
        &&& starts_with(taken, arrived(self.ring()))
        &&& after.read_count() == frame_time(self.read_count(), taken.len() as int)
        &&& after.waiting() == queued.skip(moved as int)
        &&& after.chart() == newest(
            self.chart() + plotted(self.head(), queued.take(moved as int)),
            CHART_SAMPLES as nat,
        )
        &&& after.head() == frame_time(self.head(), moved as int)
    }

    /// One tick of the scope: takes what waits in the ring, reads the play
    /// head and plots what is due.
    pub fn update(&mut self, t_play: &AtomicI32)
        requires
            old(self).wf(),
        ensures
            final(self).wf(),
            arrived(final(self).ring()).len() == 0,
            exists|play_head: i32, taken: Seq<u8>| #[trigger]
                old(self).ticked(*final(self), play_head, taken),
    {
        let n = self.drain();
        let ghost queued = self.waiting();
        let play_head = read_counter(t_play);
        self.advance(play_head);
        proof {
            let taken = queued.skip(old(self).waiting().len() as int);
            assert(queued =~= old(self).waiting() + taken);
            assert(old(self).ticked(*self, play_head, taken));
        }
    }

    /// The points of the chart, oldest first.
    pub fn points(&self) -> (points: &VecDeque<(i32, u8)>)
        ensures
            points@ == self.chart(),
    {
        &self.chart_buffer
    }

    /// The sample index of the newest point of the chart.
    pub fn chart_head(&self) -> (head: i32)
        ensures
            head == self.head(),
    {
        self.t_chart_head
    }

    /// How many samples wait to be plotted.
    pub fn backlog(&self) -> (n: usize)
        ensures
            n == self.waiting().len(),
    {
        self.intermediate_queue.len()
    }

    /// The window of sample indices that the chart shows, left edge then
    /// right edge.
    pub fn window(&self) -> (w: (i32, i32))
        ensures
            (w.0 as int, w.1 as int) == window_of(self.head()),
    {
        if self.t_chart_head < 32000 {
            (0, 32000)
        } else {
            (self.t_chart_head - 32000, self.t_chart_head)
        }
    }
}

} // verus!
