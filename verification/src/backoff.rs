//! Exponential backoff for spin loops.
use vstd::prelude::*;

verus! {

/// From this step on, a backoff no longer spins longer, and advises to block
/// or yield instead.
pub const SPIN_LIMIT: u32 = 6;

/// How often the processor is told to wait at `step`: twice as often with
/// each step, up to the step [`SPIN_LIMIT`].
pub open spec fn spins_at(step: u32) -> nat {
    if step == 0 {
        1
    } else if step == 1 {
        2
    } else if step == 2 {
        4
    } else if step == 3 {
        8
    } else if step == 4 {
        16
    } else if step == 5 {
        32
    } else {
        64
    }
}

/// Counts the steps of a backoff and waits longer with each of them.
#[derive(Debug)]
pub struct Backoff {
    step: u32,
}

impl Backoff {
    /// The steps taken since the last reset.
    pub closed spec fn view(&self) -> u32 {
        self.step
    }

    /// A backoff that has taken no step.
    pub fn new() -> (b: Self)
        ensures
            b@ == 0,
    {
        Self { step: 0 }
    }

    /// The steps taken since the last reset.
    pub fn step(&self) -> (s: u32)
        ensures
            s == self@,
    {
        self.step
    }

    /// Starts over at step zero.
    pub fn reset(&mut self)
        ensures
            final(self)@ == 0,
    {
        self.step = 0;
    }

    /// How often one step at `step` tells the processor to wait.
    pub fn spins_for(step: u32) -> (n: u32)
        ensures
            n == spins_at(step),
    {
        let capped: u32 = if step < SPIN_LIMIT {
            step
        } else {
            SPIN_LIMIT
        };
        let n: u32 = 1u32 << capped;
        proof {
            assert(1u32 << 0u32 == 1) by (bit_vector);
            assert(1u32 << 1u32 == 2) by (bit_vector);
            assert(1u32 << 2u32 == 4) by (bit_vector);
            assert(1u32 << 3u32 == 8) by (bit_vector);
            assert(1u32 << 4u32 == 16) by (bit_vector);
            assert(1u32 << 5u32 == 32) by (bit_vector);
            assert(1u32 << 6u32 == 64) by (bit_vector);
        }
        n
    }

    /// Tells the processor to wait, as often as this step asks for.
    fn spin_now(&self) {
        let n = Self::spins_for(self.step);
        let mut i: u32 = 0;
        while i < n
            invariant
                i <= n,
            decreases n - i,
        {
            core::hint::spin_loop();
            i += 1;
        }
    }

    /// Waits for this step and goes on to the next.
    pub fn spin(&mut self)
        requires
            old(self)@ < u32::MAX,
        ensures
            final(self)@ == old(self)@ + 1,
    {
        self.spin_now();
        self.step = self.step + 1;
    }

    /// Waits for this step as [`spin`](Self::spin) does while the backoff is
    /// not completed; once it is, calls `f` instead. Either way goes on to
    /// the next step.
    pub fn spin_or<F: FnOnce()>(&mut self, f: F)
        requires
            old(self)@ < u32::MAX,
            old(self)@ >= SPIN_LIMIT ==> f.requires(()),
        ensures
            final(self)@ == old(self)@ + 1,
            old(self)@ >= SPIN_LIMIT ==> f.ensures((), ()),
    {
        if self.step < SPIN_LIMIT {
            self.spin_now();
        } else {
            f();
        }
        self.step = self.step + 1;
    }

    /// Whether the backoff has spun as long as it will, so that blocking or
    /// yielding is advised.
    pub fn is_completed(&self) -> (done: bool)
        ensures
            done == (self@ >= SPIN_LIMIT),
    {
        self.step >= SPIN_LIMIT
    }
}

impl Default for Backoff {
    fn default() -> (b: Self)
        ensures
            b@ == 0,
    {
        Self::new()
    }
}

} // verus!
