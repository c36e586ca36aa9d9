//! Musical time: the tick counter that the beat emitter advances.
//!
//! The emitter's outer loop (waiting on a timer and broadcasting) lives with
//! the shell; the decision of how the counters roll over is the verified
//! [`Tick::advance`] below.

use vstd::prelude::*;

verus! {

/// One position in musical time: a tick within a beat, a beat within a bar,
/// and the running totals.
#[derive(Clone, Copy, Debug, PartialEq, Eq, Structural)]
pub struct Tick {
    /// Position within the beat, `0 .. ticks_per_beat`.
    pub tick: usize,
    /// Position within the bar, `0 .. beats_per_bar`.
    pub beat: usize,
    /// Current measure index.
    pub bar: usize,
    /// How many ticks one beat has.
    pub ticks_per_beat: usize,
    /// How many beats one bar has.
    pub beats_per_bar: usize,
    /// Ticks since the start.
    pub total_ticks: usize,
}

impl Tick {
    /// The counters are in range and the subdivisions are sensible.
    pub open spec fn wf(self) -> bool {
        &&& self.ticks_per_beat >= 1
        &&& self.beats_per_bar >= 1
        &&& self.tick < self.ticks_per_beat
        &&& self.beat < self.beats_per_bar
    }

    /// The first tick of a piece with the given subdivisions.
    pub fn first(ticks_per_beat: usize, beats_per_bar: usize) -> (t: Tick)
        requires
            ticks_per_beat >= 1,
            beats_per_bar >= 1,
        ensures
            t.wf(),
            t.tick == 0 && t.beat == 0 && t.bar == 0 && t.total_ticks == 0,
            t.ticks_per_beat == ticks_per_beat,
            t.beats_per_bar == beats_per_bar,
    {
        Tick { tick: 0, beat: 0, bar: 0, ticks_per_beat, beats_per_bar, total_ticks: 0 }
    }

    /// The next position: the tick advances, rolling over into the next
    /// beat when the beat is full and into the next bar when the bar is
    /// full.
    pub fn advance(self) -> (t: Tick)
        requires
            self.wf(),
            self.total_ticks < usize::MAX,
            self.bar < usize::MAX,
        ensures
            t.wf(),
            t.ticks_per_beat == self.ticks_per_beat,
            t.beats_per_bar == self.beats_per_bar,
            t.total_ticks == self.total_ticks + 1,
            t == if self.tick + 1 < self.ticks_per_beat {
                (Tick {
                    tick: (self.tick + 1) as usize,
                    total_ticks: (self.total_ticks + 1) as usize,
                    ..self
                })
            } else if self.beat + 1 < self.beats_per_bar {
                (Tick {
                    tick: 0,
                    beat: (self.beat + 1) as usize,
                    total_ticks: (self.total_ticks + 1) as usize,
                    ..self
                })
            } else {
                (Tick {
                    tick: 0,
                    beat: 0,
                    bar: (self.bar + 1) as usize,
                    total_ticks: (self.total_ticks + 1) as usize,
                    ..self
                })
            },
    {
        let total_ticks = self.total_ticks + 1;
        if self.tick + 1 < self.ticks_per_beat {
            Tick { tick: self.tick + 1, total_ticks, ..self }
        } else if self.beat + 1 < self.beats_per_bar {
            Tick { tick: 0, beat: self.beat + 1, total_ticks, ..self }
        } else {
            Tick { tick: 0, beat: 0, bar: self.bar + 1, total_ticks, ..self }
        }
    }
}

} // verus!
