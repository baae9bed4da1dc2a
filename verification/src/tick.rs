//! The fixed-timestep tick clock: accumulates elapsed wall-clock time and
//! derives at most one discrete simulation step per frame, plus a running
//! frame-time sample buffer for rate reporting.

use crate::components::Tick;
use vstd::prelude::*;

verus! {

/// Nanoseconds per discrete simulation step: a tenth of a second.
pub const TICK_RATE: u64 = 100_000_000;

/// How many discrete steps fit in one second.
pub const TICKS_PER_SECOND: u64 = 1_000_000_000 / TICK_RATE;

/// How many frame-time samples the rate report averages over.
pub const FPS_SAMPLE: usize = 20;

/// The sum of a sequence of samples.
pub open spec fn sample_sum(s: Seq<u64>) -> int
    decreases s.len(),
{
    if s.len() == 0 {
        0
    } else {
        sample_sum(s.drop_last()) + s.last()
    }
}

/// Deals with game ticks: carries the time accumulator and the frame-time
/// sample ring.
pub struct TickSystem {
    pub accumulator: u64,
    pub current: usize,
    pub average_fps: Vec<u64>,
}

impl TickSystem {
    /// The accumulator never reaches a full step, the ring cursor stays in
    /// range, and every stored sample is a frame time in microseconds.
    pub open spec fn wf(self) -> bool {
        &&& self.accumulator < TICK_RATE
        &&& self.current < FPS_SAMPLE
        &&& self.average_fps@.len() == FPS_SAMPLE
        &&& forall|i: int| 0 <= i < self.average_fps@.len() ==> self.average_fps@[i] <= u32::MAX as u64 / 1000
    }

    /// The elapsed time the clock holds after one evaluation: a long frame is
    /// clamped to exactly one step interval, a short one adds on.
    pub open spec fn accumulated(self, delta_nanos: u32) -> int {
        if delta_nanos > TICK_RATE {
            TICK_RATE as int
        } else {
            self.accumulator + delta_nanos
        }
    }

    /// Evaluates the clock for one frame that took `delta_nanos` wall-clock
    /// nanoseconds. Steps the tick counter at most once, no matter how large
    /// `delta_nanos` is; returns the average frame time in microseconds when
    /// a periodic rate report is due.
    pub fn run(&mut self, delta_nanos: u32, tick: &mut Tick) -> (fps_report: Option<u64>)
        requires
            old(self).wf(),
            old(tick).ticks < u64::MAX,
        ensures
            final(self).wf(),
            final(tick).game_over == old(tick).game_over,
            final(tick).ticks <= old(tick).ticks + 1,
            if old(self).accumulated(delta_nanos) >= TICK_RATE {
                final(tick).ticked && final(tick).ticks == old(tick).ticks + 1
                    && final(self).accumulator == 0
            } else {
                !final(tick).ticked && final(tick).ticks == old(tick).ticks
                    && final(self).accumulator == old(self).accumulated(delta_nanos)
            },
            final(self).current == (old(self).current + 1) % (FPS_SAMPLE as int),
            final(self).average_fps@ == old(self).average_fps@.update(
                old(self).current as int,
                (delta_nanos / 1000) as u64,
            ),
            fps_report matches Some(avg) ==> final(tick).ticked && avg
                == sample_sum(final(self).average_fps@) / (FPS_SAMPLE as int),
            fps_report is Some <==> (final(tick).ticked && (final(tick).ticks as int) % (3
                * (TICKS_PER_SECOND as int)) == 0),
    {
        if delta_nanos > TICK_RATE as u32 {
            self.accumulator = TICK_RATE;
        } else {
            self.accumulator = self.accumulator + delta_nanos as u64;
        }

        self.average_fps.set(self.current, (delta_nanos / 1000) as u64);
        self.current = self.current + 1;
        if self.current >= FPS_SAMPLE {
            self.current = 0;
        }

        let mut fps_report: Option<u64> = None;
        if self.accumulator >= TICK_RATE {
            self.accumulator = 0;
            tick.ticks = tick.ticks + 1;
            tick.ticked = true;

            if tick.ticks % (TICKS_PER_SECOND * 3) == 0 {
                // Report the average frame time every three seconds; turning
                // it into a frames-per-second figure is the caller's concern.
                let samples = self.sample_average();
                fps_report = Some(samples);
            }
        } else {
            tick.ticked = false;
        }
        fps_report
    }

    /// The average of the stored frame-time samples, in microseconds.
    fn sample_average(&self) -> (avg: u64)
        requires
            self.wf(),
        ensures
            avg == sample_sum(self.average_fps@) / (FPS_SAMPLE as int),
    {
        let mut total: u64 = 0;
        let mut i: usize = 0;
        while i < self.average_fps.len()
            invariant
                self.wf(),
                i <= self.average_fps@.len(),
                total == sample_sum(self.average_fps@.take(i as int)),
                total <= i * 4294967,
            decreases self.average_fps@.len() - i,
        {
            proof {
                let s = self.average_fps@;
                assert(s.take(i + 1).drop_last() =~= s.take(i as int));
                assert(s.take(i + 1).last() == s[i as int]);
            }
            total = total + self.average_fps[i];
            i = i + 1;
        }
        proof {
            assert(self.average_fps@.take(self.average_fps@.len() as int) =~= self.average_fps@);
        }
        total / (FPS_SAMPLE as u64)
    }
}

impl Default for TickSystem {
    /// A fresh clock: nothing accumulated, every sample zero.
    fn default() -> (r: Self)
        ensures
            r.wf(),
            r.accumulator == 0,
            r.current == 0,
            forall|i: int| 0 <= i < r.average_fps@.len() ==> r.average_fps@[i] == 0,
    {
        let mut samples: Vec<u64> = Vec::new();
        let mut i: usize = 0;
        while i < FPS_SAMPLE
            invariant
                i <= FPS_SAMPLE,
                samples@.len() == i,
                forall|j: int| 0 <= j < i ==> samples@[j] == 0,
            decreases FPS_SAMPLE - i,
        {
            samples.push(0);
            i = i + 1;
        }

        TickSystem { accumulator: 0, current: 0, average_fps: samples }
    }
}

} // verus!
