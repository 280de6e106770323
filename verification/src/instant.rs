//! A monotonic instant that is one `u64` of nanoseconds.
use core::ops::{Add, AddAssign, Sub, SubAssign};
use crate::std_specs::duration_nanos;
use std::time::Duration;
use vstd::prelude::*;
use vstd::std_specs::ops::{AddSpecImpl, SubSpecImpl};

verus! {

/// The nanoseconds of a second.
pub const NANOS_PER_SEC: u64 = 1_000_000_000;

/// A point of the monotonic clock, counted in nanoseconds.
#[derive(Clone, Copy, PartialEq, Eq, PartialOrd, Ord, Debug, Structural)]
pub struct OrengineInstant {
    instant: u64,
}

/// The instant `nanos` nanoseconds after `start`, where a `u64` can count
/// it.
pub open spec fn later_by(start: u64, nanos: nat) -> Option<u64> {
    if start + nanos <= u64::MAX {
        Some((start + nanos) as u64)
    } else {
        None
    }
}

/// The instant `nanos` nanoseconds before `start`, where there is one.
pub open spec fn earlier_by(start: u64, nanos: nat) -> Option<u64> {
    if nanos <= start {
        Some((start - nanos) as u64)
    } else {
        None
    }
}

/// The nanoseconds from `earlier` to `later`, none where `earlier` is the
/// later of the two.
pub open spec fn nanos_between(later: u64, earlier: u64) -> nat {
    if earlier <= later {
        (later - earlier) as nat
    } else {
        0
    }
}

impl OrengineInstant {
    /// The nanoseconds that the instant counts.
    pub closed spec fn view(&self) -> u64 {
        self.instant
    }

    /// The instant that counts `nanos` nanoseconds.
    pub closed spec fn at(nanos: u64) -> Self {
        OrengineInstant { instant: nanos }
    }

    /// An instant is the nanoseconds that it counts, and nothing more.
    pub broadcast proof fn lemma_at_view(self)
        ensures
            #[trigger] Self::at(self@) == self,
    {
    }

    /// The instant at `nanos` counts `nanos`.
    pub broadcast proof fn lemma_view_at(nanos: u64)
        ensures
            (#[trigger] Self::at(nanos))@ == nanos,
    {
    }

    /// The instant that counts `instant` nanoseconds.
    pub fn from_u64(instant: u64) -> (r: Self)
        ensures
            r == Self::at(instant),
            r@ == instant,
    {
        Self { instant }
    }

    /// The nanoseconds that the instant counts.
    pub fn into_u64(self) -> (r: u64)
        ensures
            r == self@,
    {
        self.instant
    }

    /// The instant that a clock gives as whole seconds and the nanoseconds
    /// on top of them, or `None` where a `u64` of nanoseconds cannot count
    /// that far.
    pub fn from_parts(secs: u64, subsec_nanos: u64) -> (r: Option<Self>)
        ensures
            match r {
                Some(t) => t@ == secs * NANOS_PER_SEC + subsec_nanos,
                None => secs * NANOS_PER_SEC + subsec_nanos > u64::MAX,
            },
    {
        match secs.checked_mul(NANOS_PER_SEC) {
            Some(whole) => match whole.checked_add(subsec_nanos) {
                Some(instant) => Some(Self { instant }),
                None => None,
            },
            None => None,
        }
    }

    /// The whole seconds that the instant counts, and the nanoseconds on
    /// top of them.
    pub fn into_parts(self) -> (r: (u64, u32))
        ensures
            r.0 == self@ / NANOS_PER_SEC,
            r.1 == self@ % NANOS_PER_SEC,
            r.0 * NANOS_PER_SEC + r.1 == self@,
    {
        let secs = self.instant / NANOS_PER_SEC;
        let rest = self.instant % NANOS_PER_SEC;
        (secs, rest as u32)
    }

    /// The time from `earlier` to this instant, or `None` where `earlier`
    /// is later than this instant.
    pub fn checked_duration_since(&self, earlier: OrengineInstant) -> (r: Option<Duration>)
        ensures
            match r {
                Some(d) => earlier@ <= self@ && duration_nanos(d) == self@ - earlier@,
                None => earlier@ > self@,
            },
    {
        match self.instant.checked_sub(earlier.instant) {
            Some(nanos) => Some(Duration::from_nanos(nanos)),
            None => None,
        }
    }

    /// The time from `earlier` to this instant, or no time where `earlier`
    /// is later than this instant.
    pub fn saturating_duration_since(&self, earlier: OrengineInstant) -> (r: Duration)
        ensures
            duration_nanos(r) == nanos_between(self@, earlier@),
    {
        match self.checked_duration_since(earlier) {
            Some(d) => d,
            None => Duration::from_nanos(0),
        }
    }

    /// The time from `earlier` to this instant, or no time where `earlier`
    /// is later than this instant.
    pub fn duration_since(&self, earlier: OrengineInstant) -> (r: Duration)
        ensures
            duration_nanos(r) == nanos_between(self@, earlier@),
    {
        self.saturating_duration_since(earlier)
    }

    /// The time that has gone by at `now` since this instant.
    pub fn elapsed(&self, now: OrengineInstant) -> (r: Duration)
        ensures
            duration_nanos(r) == nanos_between(now@, self@),
    {
        now.duration_since(*self)
    }

    /// This instant moved on by `duration`, or `None` where a `u64` of
    /// nanoseconds cannot count that far.
    pub fn checked_add(&self, duration: Duration) -> (r: Option<Self>)
        ensures
            match later_by(self@, duration_nanos(duration)) {
                Some(nanos) => r == Some(Self::at(nanos)),
                None => r is None,
            },
    {
        let wide: u128 = duration.as_nanos();
        if wide > u64::MAX as u128 {
            return None;
        }
        match self.instant.checked_add(wide as u64) {
            Some(instant) => Some(Self { instant }),
            None => None,
        }
    }

    /// This instant moved back by `duration`, or `None` where that is
    /// before the clock's start.
    pub fn checked_sub(&self, duration: Duration) -> (r: Option<Self>)
        ensures
            match earlier_by(self@, duration_nanos(duration)) {
                Some(nanos) => r == Some(Self::at(nanos)),
                None => r is None,
            },
    {
        let wide: u128 = duration.as_nanos();
        if wide > u64::MAX as u128 {
            return None;
        }
        match self.instant.checked_sub(wide as u64) {
            Some(instant) => Some(Self { instant }),
            None => None,
        }
    }
}

impl Add<Duration> for OrengineInstant {
    type Output = OrengineInstant;

    /// This instant moved on by `other`.
    fn add(self, other: Duration) -> (r: OrengineInstant) {
        match self.checked_add(other) {
            Some(r) => r,
            None => self,
        }
    }
}

impl AddSpecImpl<Duration> for OrengineInstant {
    open spec fn obeys_add_spec() -> bool {
        true
    }

    open spec fn add_req(self, other: Duration) -> bool {
        later_by(self@, duration_nanos(other)) is Some
    }

    open spec fn add_spec(self, other: Duration) -> OrengineInstant {
        OrengineInstant::at(later_by(self@, duration_nanos(other))->0)
    }
}

impl Sub<Duration> for OrengineInstant {
    type Output = OrengineInstant;

    /// This instant moved back by `other`.
    fn sub(self, other: Duration) -> (r: OrengineInstant) {
        match self.checked_sub(other) {
            Some(r) => r,
            None => self,
        }
    }
}

impl SubSpecImpl<Duration> for OrengineInstant {
    open spec fn obeys_sub_spec() -> bool {
        true
    }

    open spec fn sub_req(self, other: Duration) -> bool {
        earlier_by(self@, duration_nanos(other)) is Some
    }

    open spec fn sub_spec(self, other: Duration) -> OrengineInstant {
        OrengineInstant::at(earlier_by(self@, duration_nanos(other))->0)
    }
}

impl Sub<OrengineInstant> for OrengineInstant {
    type Output = Duration;

    /// The time from `other` to this instant, or no time where `other` is
    /// later than this instant.
    fn sub(self, other: OrengineInstant) -> (r: Duration)
        ensures
            duration_nanos(r) == nanos_between(self@, other@),
    {
        self.duration_since(other)
    }
}

impl SubSpecImpl<OrengineInstant> for OrengineInstant {
    /// What `-` gives between two instants is stated by the contract of
    /// `sub`, over the length of the duration.
    open spec fn obeys_sub_spec() -> bool {
        false
    }

    open spec fn sub_req(self, other: OrengineInstant) -> bool {
        true
    }

    open spec fn sub_spec(self, other: OrengineInstant) -> Duration {
        arbitrary()
    }
}

impl AddAssign<Duration> for OrengineInstant {
    /// Moves this instant on by `other`.
    fn add_assign(&mut self, other: Duration)
        requires
            later_by(old(self)@, duration_nanos(other)) is Some,
        ensures
            final(self)@ == later_by(old(self)@, duration_nanos(other))->0,
    {
        match self.checked_add(other) {
            Some(r) => {
                *self = r;
            },
            None => {},
        }
    }
}

impl SubAssign<Duration> for OrengineInstant {
    /// Moves this instant back by `other`.
    fn sub_assign(&mut self, other: Duration)
        requires
            earlier_by(old(self)@, duration_nanos(other)) is Some,
        ensures
            final(self)@ == earlier_by(old(self)@, duration_nanos(other))->0,
    {
        match self.checked_sub(other) {
            Some(r) => {
                *self = r;
            },
            None => {},
        }
    }
}

} // verus!
