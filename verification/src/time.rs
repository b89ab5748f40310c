//! Points in time and spans of time, counted in nanoseconds, and the clock
//! that they are read from.

use vstd::prelude::*;

verus! {

/// Nanoseconds in a second.
pub const NANOS_PER_SEC: u128 = 1_000_000_000;

/// The nanoseconds of the longest span that a [`Duration`] holds:
/// `u64::MAX` seconds and 999,999,999 nanoseconds.
pub const MAX_NANOS: u128 = 18_446_744_073_709_551_615_999_999_999;

#[verifier::external_type_specification]
#[verifier::external_body]
pub struct ExStdInstant(std::time::Instant);

/// A span of time.
#[derive(Clone, Copy, Debug, PartialEq, Eq, Structural)]
pub struct Duration {
    nanos: u128,
}

impl View for Duration {
    type V = nat;

    /// The length of the span in nanoseconds.
    closed spec fn view(&self) -> nat {
        self.nanos as nat
    }
}

impl Duration {
    #[verifier::type_invariant]
    spec fn within_range(self) -> bool {
        self.nanos <= MAX_NANOS
    }

    /// The span of `secs` seconds and `nanos` nanoseconds.
    pub fn new(secs: u64, nanos: u32) -> (d: Self)
        requires
            secs * NANOS_PER_SEC + nanos <= MAX_NANOS,
        ensures
            d@ == secs * NANOS_PER_SEC + nanos,
            d@ == secs * 1_000_000_000 + nanos,
    {
        Duration { nanos: secs as u128 * NANOS_PER_SEC + nanos as u128 }
    }

    /// The span in nanoseconds.
    pub fn as_nanos(&self) -> (nanos: u128)
        ensures
            nanos == self@,
            nanos <= MAX_NANOS,
    {
        proof {
            use_type_invariant(self);
        }
        self.nanos
    }
}

/// A point in time, as the nanoseconds since the start of the [`Clock`] that it
/// was read from.
#[derive(Clone, Copy, Debug, PartialEq, Eq, Structural)]
pub struct Instant {
    pub nanos: u128,
}

/// `due_time` lies `delay` after `now`.
pub open spec fn is_after(due_time: Instant, now: Instant, delay: Duration) -> bool {
    due_time.nanos == now.nanos + delay@
}

impl Instant {
    /// The point that lies `delay` after this one. After a reading of a clock there
    /// is room for every delay.
    pub fn plus(self, delay: Duration) -> (i: Self)
        requires
            self.nanos <= MAX_NANOS || self.nanos + delay@ <= u128::MAX,
        ensures
            is_after(i, self, delay),
            i.nanos == self.nanos + delay@,
    {
        proof {
            use_type_invariant(&delay);
        }
        Instant { nanos: self.nanos + delay.nanos }
    }

    /// The reading that follows this one, given the seconds and nanoseconds that
    /// have passed since the clock was started: theirs, unless it lies before this
    /// one.
    pub fn advanced_to(self, secs: u64, nanos: u32) -> (i: Self)
        ensures
            i.nanos == later_reading(self, secs, nanos),
            i.nanos >= self.nanos,
            i.nanos >= secs * 1_000_000_000 + nanos,
            i.nanos == self.nanos || i.nanos == secs * 1_000_000_000 + nanos,
    {
        let elapsed: u128 = secs as u128 * NANOS_PER_SEC + nanos as u128;
        if self.nanos < elapsed {
            Instant { nanos: elapsed }
        } else {
            self
        }
    }
}

/// The later of the point `last` and the one at which the given seconds and
/// nanoseconds have passed.
pub open spec fn later_reading(last: Instant, secs: u64, nanos: u32) -> int {
    let elapsed = secs * NANOS_PER_SEC + nanos;
    if last.nanos < elapsed {
        elapsed
    } else {
        last.nanos as int
    }
}

/// The moment is a reading of the system's monotonic clock.
pub closed spec fn is_start(origin: std::time::Instant) -> bool {
    call_ensures(monotonic_now, (), origin)
}

/// The instant has been read from a clock that counts from `origin`: so much time
/// had passed since.
pub closed spec fn was_shown(origin: std::time::Instant, i: Instant) -> bool {
    exists|secs: u64, nanos: u32|
        {
            &&& i.nanos == secs * NANOS_PER_SEC + nanos
            &&& #[trigger] call_ensures(elapsed_since, (&origin,), (secs, nanos))
        }
}

/// A clock that counts from the moment at which it was started and does not go
/// back.
#[derive(Debug)]
pub struct Clock {
    start: std::time::Instant,
    last: Instant,
}

impl Clock {
    #[verifier::type_invariant]
    spec fn has_been_read(self) -> bool {
        &&& self.last.nanos <= MAX_NANOS
        &&& self.last.nanos == 0 || was_shown(self.start, self.last)
    }

    /// What the clock counts from.
    pub closed spec fn origin(self) -> std::time::Instant {
        self.start
    }

    /// The last reading, or the start if there has been none.
    pub closed spec fn last(self) -> Instant {
        self.last
    }

    /// The clock counts from a reading of the system's monotonic clock.
    pub open spec fn is_started(self) -> bool {
        is_start(self.origin())
    }

    /// Starts a clock. Which moment it counts from depends on the time of the call.
    pub fn start() -> (clock: Self)
        ensures
            clock.is_started(),
            clock.last().nanos == 0,
    {
        Clock { start: monotonic_now(), last: Instant { nanos: 0 } }
    }

    /// Reads the clock. The reading fits in a [`Duration`] and is not before the
    /// last one; which reading it is depends on the time of the call.
    pub fn now(&mut self) -> (i: Instant)
        ensures
            was_shown(old(self).origin(), i),
            i.nanos <= MAX_NANOS,
            old(self).last().nanos <= i.nanos,
            final(self).last() == i,
            final(self).origin() == old(self).origin(),
    {
        proof {
            use_type_invariant(&*self);
        }
        let (secs, nanos) = elapsed_since(&self.start);
        let reading = self.last.advanced_to(secs, nanos);
        assert(was_shown(self.start, Instant { nanos: (secs * NANOS_PER_SEC + nanos) as u128 }));
        assert(was_shown(self.start, reading));
        self.last = reading;
        reading
    }
}

/// A second has a thousand million nanoseconds, and the longest span is as many
/// seconds as a `u64` counts and the nanoseconds that do not make another one.
pub proof fn units_of_time()
    ensures
        NANOS_PER_SEC == 1_000_000_000,
        MAX_NANOS == u64::MAX * 1_000_000_000 + 999_999_999,
{
}

/// What a clock has shown is the time that `elapsed_since` has told of its origin.
proof fn shown_times_have_elapsed(origin: std::time::Instant, i: Instant)
    requires
        was_shown(origin, i),
    ensures
        exists|secs: u64, nanos: u32|
            {
                &&& i.nanos == secs * 1_000_000_000 + nanos
                &&& nanos < 1_000_000_000
                &&& #[trigger] call_ensures(elapsed_since, (&origin,), (secs, nanos))
            },
{
}

/// What a clock counts from is what `monotonic_now` has told.
proof fn clocks_start_now(clock: Clock)
    requires
        clock.is_started(),
    ensures
        call_ensures(monotonic_now, (), clock.start),
        clock.origin() == clock.start,
{
}

/// `std::time::Instant::now`, the present reading of the system's monotonic
/// clock. Nothing is claimed of it.
#[verifier::external_body]
fn monotonic_now() -> std::time::Instant {
    std::time::Instant::now()
}

/// `std::time::Instant::elapsed`, the time that has passed since `start`, as
/// whole seconds and the nanoseconds beyond them. Claimed is only that the
/// nanoseconds make less than a second.
#[verifier::external_body]
fn elapsed_since(start: &std::time::Instant) -> (elapsed: (u64, u32))
    ensures
        elapsed.1 < NANOS_PER_SEC,
{
    let elapsed = start.elapsed();
    (elapsed.as_secs(), elapsed.subsec_nanos())
}

} // verus!
