//! When to look after the gaps again.

use std::task::Context;

use futures::future::FutureExt;
use futures_timer::Delay;
use vstd::prelude::*;

use crate::time::{Instant, MAX_NANOS, NANOS_PER_SEC};

verus! {

#[verifier::external_type_specification]
#[verifier::external_body]
pub struct ExDelay(futures_timer::Delay);

/// When to look after the gaps again.
#[derive(Clone, Copy, Debug, PartialEq, Eq, Structural)]
pub enum Wake {
    /// There is nothing to wait for.
    Idle,
    /// At once.
    Now,
    /// At the given time, which is still to come.
    At(Instant),
}

/// The earlier of two points in time, of which either may be missing.
pub open spec fn earlier(a: Option<Instant>, b: Option<Instant>) -> Option<Instant> {
    match (a, b) {
        (Some(x), Some(y)) => Some(if x.nanos <= y.nanos { x } else { y }),
        (Some(x), None) => Some(x),
        (None, _) => b,
    }
}

/// The wake-up for `wake_time`, at the time `now`.
pub open spec fn wake_for(wake_time: Option<Instant>, now: Instant) -> Wake {
    match wake_time {
        None => Wake::Idle,
        Some(at) => if at.nanos <= now.nanos {
            Wake::Now
        } else {
            Wake::At(at)
        },
    }
}

impl Wake {
    /// Picks the wake-up for the earlier of two points in time, of which either
    /// may be missing, at the time `now`.
    pub fn plan(time_a: Option<Instant>, time_b: Option<Instant>, now: Instant) -> (wake: Self)
        ensures
            wake == wake_for(earlier(time_a, time_b), now),
            wake == Wake::Idle <==> time_a is None && time_b is None,
            wake == Wake::Now <==> (time_a matches Some(a) && a.nanos <= now.nanos) || (
            time_b matches Some(b) && b.nanos <= now.nanos),
            wake matches Wake::At(at) ==> {
                &&& time_a == Some(at) || time_b == Some(at)
                &&& time_a matches Some(a) ==> at.nanos <= a.nanos
                &&& time_b matches Some(b) ==> at.nanos <= b.nanos
            },
    {
        let wake_time = match (time_a, time_b) {
            (Some(a), Some(b)) => if a.nanos <= b.nanos {
                Some(a)
            } else {
                Some(b)
            },
            (Some(a), None) => Some(a),
            (None, b) => b,
        };
        match wake_time {
            None => Wake::Idle,
            Some(at) => if at.nanos <= now.nanos {
                Wake::Now
            } else {
                Wake::At(at)
            },
        }
    }
}

/// The nanoseconds from `now` until `at`, cut to the longest duration.
pub open spec fn wait_nanos(at: Instant, now: Instant) -> int {
    if at.nanos - now.nanos <= MAX_NANOS {
        at.nanos - now.nanos
    } else {
        MAX_NANOS as int
    }
}

/// The timer was started to fire after the given nanoseconds.
pub closed spec fn is_timer(timer: Delay, wait: int) -> bool {
    exists|secs: u64, nanos: u32|
        {
            &&& secs * NANOS_PER_SEC + nanos == wait
            &&& #[trigger] call_ensures(start_timer, (secs, nanos), timer)
        }
}

/// The timer was polled with `cx` and has told whether it had fired.
pub closed spec fn has_told(timer: Delay, cx: Context<'_>, fired: bool) -> bool {
    exists|polled: &mut Delay, context: &mut Context<'_>|
        {
            &&& *polled == timer
            &&& *context == cx
            &&& #[trigger] call_ensures(has_fired, (polled, context), fired)
        }
}

/// `armed` is what arming a timer for `at`, at the time `now` and for the task of
/// `cx`, has given: the timer that was started for the wait and polled with `cx`,
/// unless it had fired.
pub closed spec fn is_armed(
    at: Instant,
    now: Instant,
    cx: Context<'_>,
    armed: Option<Delay>,
) -> bool {
    exists|context: &mut Context<'_>|
        {
            &&& *context == cx
            &&& #[trigger] call_ensures(arm, (at, now, context), armed)
        }
}

/// The task of `cx` has been woken.
pub closed spec fn task_woken(cx: Context<'_>) -> bool {
    call_ensures(wake_task, (&cx,), ())
}

/// What it takes for the next look after the gaps has been done, at the time
/// `now` and for the task of `cx`, and has led from one timer to another. A timer
/// that has been armed for the look is kept. One that fires as soon as it is
/// started is not: the task has been woken, and the timer is left as it was.
pub open spec fn is_arranged(
    wake: Wake,
    now: Instant,
    cx: Context<'_>,
    timer_before: Option<Delay>,
    timer_after: Option<Delay>,
) -> bool {
    match wake {
        Wake::Idle => timer_after is None,
        Wake::Now => timer_after is None && task_woken(cx),
        Wake::At(at) => exists|armed: Option<Delay>|
            {
                &&& #[trigger] is_armed(at, now, cx, armed)
                &&& match armed {
                    Some(timer) => timer_after == Some(timer),
                    None => timer_after == timer_before && task_woken(cx),
                }
            },
    }
}

/// The wait from `now` until `at`, as whole seconds and the nanoseconds beyond
/// them. A wait that is too long for a duration is cut to the longest one.
pub fn wait_until(at: Instant, now: Instant) -> (wait: (u64, u32))
    requires
        now.nanos <= at.nanos,
    ensures
        wait.0 * NANOS_PER_SEC + wait.1 == wait_nanos(at, now),
        wait.1 < NANOS_PER_SEC,
        wait.1 < 1_000_000_000,
        at.nanos - now.nanos <= 18_446_744_073_709_551_615_999_999_999 ==> wait.0 * 1_000_000_000
            + wait.1 == at.nanos - now.nanos,
        at.nanos - now.nanos > 18_446_744_073_709_551_615_999_999_999 ==> wait == (
            18_446_744_073_709_551_615u64,
            999_999_999u32,
        ),
{
    let wait: u128 = at.nanos - now.nanos;
    let nanos: u128 = if wait <= MAX_NANOS {
        wait
    } else {
        MAX_NANOS
    };
    ((nanos / NANOS_PER_SEC) as u64, (nanos % NANOS_PER_SEC) as u32)
}

/// Starts the timer for the wait from `now` until `at`.
fn timer_for(at: Instant, now: Instant) -> (timer: Delay)
    requires
        now.nanos <= at.nanos,
    ensures
        is_timer(timer, wait_nanos(at, now)),
{
    let (secs, nanos) = wait_until(at, now);
    start_timer(secs, nanos)
}

/// Starts the timer for the wait from `now` until `at` and has it wake the task of
/// `cx`. There is no timer to keep if it has already fired.
fn arm(at: Instant, now: Instant, cx: &mut Context<'_>) -> (armed: Option<Delay>)
    requires
        now.nanos <= at.nanos,
    ensures
        exists|timer: &mut Delay, context: &mut Context<'_>, fired: bool|
            {
                &&& is_timer(*timer, wait_nanos(at, now))
                &&& *context == *old(cx)
                &&& #[trigger] call_ensures(has_fired, (timer, context), fired)
                &&& fired == (armed is None)
                &&& armed matches Some(kept) ==> kept == *final(timer)
            },
        *final(cx) == *old(cx),
{
    let mut timer = timer_for(at, now);
    // register with reactor
    if has_fired(&mut timer, cx) {
        None
    } else {
        Some(timer)
    }
}

/// Does what it takes for the next look after the gaps.
pub(crate) fn arrange(
    wake: Wake,
    now: Instant,
    timer: &mut Option<Delay>,
    cx: &mut Context<'_>,
)
    requires
        wake matches Wake::At(at) ==> now.nanos <= at.nanos,
    ensures
        is_arranged(wake, now, *old(cx), *old(timer), *final(timer)),
        *final(cx) == *old(cx),
{
    match wake {
        Wake::Idle => {
            *timer = None;
        },
        Wake::Now => {
            *timer = None;
            wake_task(cx);
        },
        Wake::At(at) => {
            let armed = arm(at, now, cx);
            assert(is_armed(at, now, *old(cx), armed));
            match armed {
                Some(started) => {
                    *timer = Some(started);
                },
                None => {
                    wake_task(cx);
                },
            }
        },
    }
}

/// Arming starts a timer for the wait from `now` until `at` and polls it with `cx`.
/// The timer is kept, as polling has left it, unless it had fired.
pub proof fn armed_timers_are_for_the_wait(
    at: Instant,
    now: Instant,
    cx: Context<'_>,
    armed: Option<Delay>,
)
    requires
        is_armed(at, now, cx, armed),
    ensures
        exists|timer: &mut Delay|
            {
                &&& #[trigger] is_timer(*timer, wait_nanos(at, now))
                &&& has_told(*timer, cx, armed is None)
                &&& armed matches Some(kept) ==> kept == *final(timer)
            },
        at.nanos - now.nanos <= u64::MAX * 1_000_000_000 + 999_999_999 ==> exists|timer: &mut Delay|
            {
                &&& #[trigger] is_timer(*timer, at.nanos - now.nanos)
                &&& has_told(*timer, cx, armed is None)
                &&& armed matches Some(kept) ==> kept == *final(timer)
            },
{
}

/// A timer for a wait was started for its seconds and nanoseconds.
proof fn timers_are_started_for_the_wait(timer: Delay, wait: int)
    requires
        is_timer(timer, wait),
    ensures
        exists|secs: u64, nanos: u32|
            {
                &&& secs * 1_000_000_000 + nanos == wait
                &&& #[trigger] call_ensures(start_timer, (secs, nanos), timer)
            },
{
}

/// What a timer has told comes from polling it with the context.
proof fn timers_tell_when_polled(timer: Delay, cx: Context<'_>, fired: bool)
    requires
        has_told(timer, cx, fired),
    ensures
        exists|polled: &mut Delay, context: &mut Context<'_>|
            {
                &&& *polled == timer
                &&& *context == cx
                &&& #[trigger] call_ensures(has_fired, (polled, context), fired)
            },
{
}

/// A task that has been woken was woken through its context.
proof fn tasks_are_woken_through_their_context(cx: Context<'_>)
    requires
        task_woken(cx),
    ensures
        call_ensures(wake_task, (&cx,), ()),
{
}

/// `futures_timer::Delay::new`: a timer that fires after the given seconds and
/// nanoseconds. Nothing is claimed of the timer.
#[verifier::external_body]
fn start_timer(secs: u64, nanos: u32) -> Delay
    requires
        nanos < NANOS_PER_SEC,
{
    Delay::new(std::time::Duration::new(secs, nanos))
}

/// `FutureExt::poll_unpin` on `futures_timer::Delay`: whether the timer has fired.
/// If it has not, the task of `cx` is woken when it does. Nothing is claimed of
/// the answer, which depends on the time, but that `cx` stays as it is. Polling
/// panics where the thread that drives the timers could not be started.
#[verifier::external_body]
fn has_fired(timer: &mut Delay, cx: &mut Context<'_>) -> (fired: bool)
    ensures
        *final(cx) == *old(cx),
{
    timer.poll_unpin(cx).is_ready()
}

/// `std::task::Waker::wake_by_ref`: has the task of `cx` polled again.
#[verifier::external_body]
fn wake_task(cx: &Context<'_>) {
    cx.waker().wake_by_ref();
}

} // verus!
