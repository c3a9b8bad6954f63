//! A linearly decaying control parameter with a ceiling that ratchets down.

use vstd::prelude::*;

verus! {

/// A schedule holds a value that drops by `step` from a ceiling to a floor.
/// The ceiling itself drops by `step` each time the schedule is reset to it,
/// and returns to the maximum only on a total reset. All values are
/// fixed-point fractions.
#[derive(Clone, Copy, Debug, PartialEq, Eq, Structural)]
pub struct Schedule {
    pub max: u64,
    pub ceiling: u64,
    pub current: u64,
    pub min: u64,
    pub step: u64,
}

/// The least `k` with `k * step >= span`, for a positive `step`.
pub open spec fn drops_needed(span: int, step: int) -> int
    recommends
        step > 0,
{
    if span <= 0 {
        0
    } else {
        (span + step - 1) / step
    }
}

impl Schedule {
    /// The floor is not above the current value, which is not above the
    /// ceiling, which is not above the maximum.
    pub open spec fn wf(self) -> bool {
        self.min <= self.current <= self.ceiling <= self.max
    }

    /// The schedule after one drop.
    pub open spec fn dropped(self) -> Schedule {
        Schedule {
            current: if self.current - self.step < self.min { self.min } else { (self.current - self.step) as u64 },
            ..self
        }
    }

    /// The schedule after `count` drops.
    pub open spec fn dropped_times(self, count: nat) -> Schedule
        decreases count,
    {
        if count == 0 {
            self
        } else {
            self.dropped().dropped_times((count - 1) as nat)
        }
    }

    /// The schedule after its ceiling was lowered and its value reset to it.
    pub open spec fn ratcheted(self) -> Schedule {
        let ceiling: u64 = if self.ceiling - self.step < self.min { self.min } else { (self.ceiling - self.step) as u64 };
        Schedule { ceiling, current: ceiling, ..self }
    }

    /// The schedule with ceiling and value back at the maximum.
    pub open spec fn restored(self) -> Schedule {
        Schedule { ceiling: self.max, current: self.max, ..self }
    }

    /// A schedule that starts at `max`, never goes below `min` and moves by `step`.
    pub fn new(max: u64, min: u64, step: u64) -> (schedule: Schedule)
        requires
            min <= max,
        ensures
            schedule == (Schedule { max, ceiling: max, current: max, min, step }),
            schedule.wf(),
    {
        Schedule { max, ceiling: max, current: max, min, step }
    }

    /// Lowers the current value by one step, but not below the floor.
    pub fn drop(&mut self)
        requires
            old(self).wf(),
        ensures
            *final(self) == old(self).dropped(),
            final(self).wf(),
    {
        if self.current - self.min < self.step {
            self.current = self.min;
        } else {
            self.current = self.current - self.step;
        }
    }

    /// Lowers the ceiling by one step, but not below the floor, and puts the
    /// current value at the new ceiling.
    pub fn reset_to_adjusted_max(&mut self)
        requires
            old(self).wf(),
        ensures
            *final(self) == old(self).ratcheted(),
            final(self).wf(),
    {
        if self.ceiling - self.min < self.step {
            self.ceiling = self.min;
        } else {
            self.ceiling = self.ceiling - self.step;
        }
        self.current = self.ceiling;
    }

    /// Whether the current value is at the floor.
    pub fn min_reached(&self) -> (reached: bool)
        ensures
            reached == (self.current <= self.min),
    {
        self.current <= self.min
    }

    /// Whether the ceiling is at the floor, so that a reset can no longer lift
    /// the current value above it.
    pub fn min_ceiling_reached(&self) -> (reached: bool)
        ensures
            reached == (self.ceiling <= self.min),
    {
        self.ceiling <= self.min
    }

    /// Puts ceiling and current value back at the maximum.
    pub fn total_reset(&mut self)
        requires
            old(self).wf(),
        ensures
            *final(self) == old(self).restored(),
            final(self).wf(),
    {
        self.ceiling = self.max;
        self.current = self.max;
    }

    /// Drops keep a schedule well formed, never raise its value, and after
    /// `count` of them the value is `count` steps lower or at the floor.
    pub proof fn lemma_dropped_times(self, count: nat)
        requires
            self.wf(),
        ensures
            self.dropped_times(count).wf(),
            self.dropped_times(count).current as int == if self.current - count * self.step < self.min {
                self.min as int
            } else {
                self.current - count * self.step
            },
            self.dropped_times(count).max == self.max,
            self.dropped_times(count).ceiling == self.ceiling,
            self.dropped_times(count).min == self.min,
            self.dropped_times(count).step == self.step,
        decreases count,
    {
        if count > 0 {
            let next = self.dropped();
            next.lemma_dropped_times((count - 1) as nat);
            assert(count * self.step == self.step + (count - 1) * self.step) by (nonlinear_arith);
            assert((count - 1) * self.step >= 0) by (nonlinear_arith)
                requires
                    count >= 1,
                    self.step >= 0,
            ;
        }
    }

    /// A schedule with a positive step is at its floor after
    /// `ceil((max - min) / step)` drops, wherever between floor and ceiling it
    /// started, and stays there under further drops.
    pub proof fn lemma_floor_reached_in_time(self, count: nat)
        requires
            self.wf(),
            self.step > 0,
            count >= drops_needed(self.max - self.min, self.step as int),
        ensures
            self.dropped_times(count).current <= self.min,
    {
        self.lemma_dropped_times(count);
        let span: int = self.max - self.min;
        let step: int = self.step as int;
        let needed = drops_needed(span, step);
        assert(needed * step >= span) by (nonlinear_arith)
            requires
                step > 0,
                needed == if span <= 0 { 0 } else { (span + step - 1) / step },
        ;
        assert(count * step >= needed * step) by (nonlinear_arith)
            requires
                count >= needed,
                step > 0,
        ;
    }
}

} // verus!
