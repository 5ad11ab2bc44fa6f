//! A counter that wraps around within `0..=max`.
use vstd::prelude::*;

verus! {

/// A value in `0..=max` that wraps when stepped past either end.
#[derive(Debug, Clone, Copy)]
pub struct CycleInt {
    pub value: usize,
    pub max: usize,
}

impl CycleInt {
    /// A counter at zero.
    pub fn new(max: usize) -> (r: CycleInt)
        ensures
            r.value == 0 && r.max == max,
    {
        CycleInt { value: 0, max }
    }

    /// Steps up when `increase`, else down.
    pub fn modify(&mut self, increase: bool)
        ensures
            final(self).max == old(self).max,
            increase ==> final(self).value == if old(self).value >= old(self).max {
                0
            } else {
                old(self).value + 1
            },
            !increase ==> final(self).value == if old(self).value == 0 {
                old(self).max as int
            } else {
                old(self).value - 1
            },
    {
        if increase {
            self.inc();
        } else {
            self.dec();
        }
    }

    /// Sets the value, capped at `max`; returns the new value.
    pub fn set(&mut self, value: usize) -> (r: usize)
        ensures
            final(self).max == old(self).max,
            final(self).value == if value > old(self).max {
                old(self).max
            } else {
                value
            },
            r == final(self).value,
    {
        if value > self.max {
            self.value = self.max;
        } else {
            self.value = value;
        }
        self.value
    }

    /// Steps up, wrapping past `max` to zero; returns the new value.
    pub fn inc(&mut self) -> (r: usize)
        ensures
            final(self).max == old(self).max,
            final(self).value == if old(self).value >= old(self).max {
                0
            } else {
                old(self).value + 1
            },
            r == final(self).value,
    {
        if self.value >= self.max {
            self.value = 0;
        } else {
            self.value = self.value + 1;
        }
        self.value
    }

    /// Steps down, wrapping below zero to `max`; returns the new value.
    pub fn dec(&mut self) -> (r: usize)
        ensures
            final(self).max == old(self).max,
            final(self).value == if old(self).value == 0 {
                old(self).max as int
            } else {
                old(self).value - 1
            },
            r == final(self).value,
    {
        if self.value == 0 {
            self.value = self.max;
        } else {
            self.value = self.value - 1;
        }
        self.value
    }
}

} // verus!
