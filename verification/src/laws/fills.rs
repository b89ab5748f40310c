//! What filling gaps does to the queue, to the appends and to the next look.

use std::task::Context;

use futures_timer::Delay;
use vstd::multiset::Multiset;
use vstd::prelude::*;

use crate::appends::{has_answered, has_joined, is_drained, is_handed_out, rounds_of, Outcome};
use crate::autofill::{is_filled_at, is_polled, is_polled_with, is_run_of, Autofill, Polled};
use crate::config::Config;
use crate::laws::{
    filling_does_not_spin, outcomes_are_handed_out, started_rounds_are_handed_over,
};
use crate::model::{room, unexpired, Fill, Filling};
use crate::node::{AppendArgs, AppendError, Event, Importance, Log, Peeryness, Poll};
use crate::queue::{QueuedGap, RoundNum};
use crate::run::{ends, is_run, starts, under_way, Step};
use crate::time::{was_shown, Duration, Instant};
use crate::wake::{
    armed_timers_are_for_the_wait, has_told, is_armed, is_arranged, is_timer, task_woken,
    wait_nanos, Wake,
};

verus! {

/// The more urgent of two gaps is the one that is due earlier, or, if both are due
/// at the same time, the one for the earlier round.
pub proof fn urgency_is_time_and_round(a: QueuedGap, b: QueuedGap)
    ensures
        a.precedes(b) <==> a.due_time.nanos < b.due_time.nanos || (a.due_time.nanos
            == b.due_time.nanos && a.round < b.round),
{
}

/// Of the blocked places, those at the front whose time has come are free again:
/// all up to the first whose time is still to come, and no others.
pub proof fn places_are_freed_when_their_time_has_come(corner: Seq<Instant>, now: Instant) -> (n:
    int)
    ensures
        0 <= n <= corner.len(),
        unexpired(corner, now) == corner.skip(n),
        forall|i: int| 0 <= i < n ==> (#[trigger] corner[i]).nanos <= now.nanos,
        n < corner.len() ==> corner[n].nanos > now.nanos,
    decreases corner.len(),
{
    if corner.len() > 0 && corner[0].nanos <= now.nanos {
        let rest = corner.skip(1);
        let n = places_are_freed_when_their_time_has_come(rest, now);
        assert(rest.skip(n) =~= corner.skip(n + 1));
        assert forall|i: int| 0 <= i < n + 1 implies (#[trigger] corner[i]).nanos <= now.nanos by {
            if i > 0 {
                assert(rest[i - 1] == corner[i]);
            }
        }
        if n + 1 < corner.len() {
            assert(rest[n] == corner[n + 1]);
        }
        n + 1
    } else {
        assert(corner.skip(0) =~= corner);
        0
    }
}

/// Every place of the batch is blocked or not.
pub proof fn places_are_blocked_or_not(batch_size: usize, corner: Seq<Instant>)
    ensures
        corner.len() <= batch_size ==> room(batch_size, corner) + corner.len() == batch_size,
        corner.len() > batch_size ==> room(batch_size, corner) == 0,
{
}

/// Filling leaves alone what is known of the gaps and whether the node is
/// disoriented. It starts appends for the gaps at the front of the queue, each of
/// which is due, and leaves the others in the queue as they stand.
pub proof fn due_gaps_leave_the_queue(
    before: Filling,
    after: Filling,
    fill: Fill,
    now: Instant,
    batch_size: usize,
)
    requires
        before.filled_to(after, fill, now, batch_size),
    ensures
        after.disoriented == before.disoriented,
        forall|round: RoundNum|
            #[trigger] after.known.contains(round) <==> before.known.contains(round),
        after.queued.len() + fill.started@.len() == before.queued.len(),
        forall|i: int|
            0 <= i < fill.started@.len() ==> #[trigger] fill.started@[i] == before.queued[i].round
                && before.queued[i].due_time.nanos <= now.nanos,
        forall|i: int|
            0 <= i < after.queued.len() ==> #[trigger] after.queued[i] == before.queued[i
                + fill.started@.len()],
        exists|n: int|
            {
                &&& 0 <= n <= before.corner.len()
                &&& after.corner == #[trigger] before.corner.skip(n)
                &&& forall|i: int| 0 <= i < n ==> (#[trigger] before.corner[i]).nanos <= now.nanos
                &&& n < before.corner.len() ==> before.corner[n].nanos > now.nanos
            },
{
    let n = places_are_freed_when_their_time_has_come(before.corner, now);
    assert(after.corner == before.corner.skip(n));
    assert forall|i: int| 0 <= i < fill.started@.len() implies #[trigger] fill.started@[i]
        == before.queued[i].round && before.queued[i].due_time.nanos <= now.nanos by {
        assert(before.queued.take(fill.started@.len() as int)[i] == before.queued[i]);
    }
}

/// For every round, the appends that are under way after gaps were filled and those
/// that have ended are the ones that were under way before and those that were
/// started.
pub proof fn appends_end_or_are_under_way(
    before: Filling,
    after: Filling,
    fill: Fill,
    now: Instant,
    batch_size: usize,
    round: RoundNum,
)
    requires
        before.filled_to(after, fill, now, batch_size),
    ensures
        after.in_flight.count(round) + fill.outcomes@.filter(
            |outcome: Outcome| outcome.round == round,
        ).len() == before.in_flight.count(round) + fill.started@.filter(
            |started: RoundNum| started == round,
        ).len(),
        after.in_flight.len() + fill.outcomes@.len() == before.in_flight.len()
            + fill.started@.len(),
{
    outcomes_are_counted_by_round(fill.outcomes@, round);
    rounds_are_counted(fill.started@, round);
    assert(after.in_flight.add(rounds_of(fill.outcomes@).to_multiset()).count(round)
        == before.in_flight.add(fill.started@.to_multiset()).count(round));
}

proof fn outcomes_are_counted_by_round(outcomes: Seq<Outcome>, round: RoundNum)
    ensures
        rounds_of(outcomes).to_multiset().count(round) == outcomes.filter(
            |outcome: Outcome| outcome.round == round,
        ).len(),
    decreases outcomes.len(),
{
    broadcast use vstd::seq_lib::group_to_multiset_ensures;

    reveal(Seq::filter);
    if outcomes.len() == 0 {
        assert(rounds_of(outcomes) =~= Seq::empty());
    } else {
        outcomes_are_counted_by_round(outcomes.drop_last(), round);
        assert(rounds_of(outcomes) =~= rounds_of(outcomes.drop_last()).push(
            outcomes.last().round,
        ));
    }
}

proof fn rounds_are_counted(rounds: Seq<RoundNum>, round: RoundNum)
    ensures
        rounds.to_multiset().count(round) == rounds.filter(|r: RoundNum| r == round).len(),
    decreases rounds.len(),
{
    broadcast use vstd::seq_lib::group_to_multiset_ensures;

    reveal(Seq::filter);
    if rounds.len() > 0 {
        rounds_are_counted(rounds.drop_last(), round);
        assert(rounds =~= rounds.drop_last().push(rounds.last()));
    }
}

/// Filling stops only where no append can be started: nothing waits, the most
/// urgent gap is not due, or as many appends are under way or places blocked as the
/// batch has places. It does not go beyond that number by what it starts.
pub proof fn batches_are_used_and_not_exceeded(
    before: Filling,
    after: Filling,
    fill: Fill,
    now: Instant,
    batch_size: usize,
)
    requires
        before.filled_to(after, fill, now, batch_size),
    ensures
        after.queued.len() == 0 || after.queued[0].due_time.nanos > now.nanos
            || after.in_flight.len() + after.corner.len() >= batch_size,
        after.in_flight.len() > before.in_flight.len() ==> after.in_flight.len()
            + after.corner.len() <= batch_size,
{
}

/// No look is planned only where no place is blocked and, besides, nothing waits or
/// the batch is full. A look that is planned lies ahead, at the time when the first
/// place is free again or, if the batch is not full, when the most urgent gap is due,
/// whichever is earlier.
pub proof fn looks_are_planned_for_what_comes_first(
    before: Filling,
    after: Filling,
    fill: Fill,
    now: Instant,
    batch_size: usize,
)
    requires
        before.filled_to(after, fill, now, batch_size),
    ensures
        match fill.wake {
            Wake::Idle => {
                &&& after.corner.len() == 0
                &&& after.queued.len() == 0 || after.in_flight.len() >= batch_size
            },
            Wake::Now => false,
            Wake::At(at) => {
                &&& now.nanos < at.nanos
                &&& after.corner.len() > 0 ==> at.nanos <= after.corner[0].nanos
                &&& after.queued.len() > 0 && after.in_flight.len() + after.corner.len()
                    < batch_size ==> at.nanos <= after.queued[0].due_time.nanos
                &&& (after.corner.len() > 0 && at == after.corner[0]) || (after.queued.len() > 0
                    && after.in_flight.len() + after.corner.len() < batch_size && at
                    == after.queued[0].due_time)
            },
        },
{
    filling_does_not_spin(before, after, fill, now, batch_size);
}

/// What is planned is done: without a look to wait for, no timer is left. For a look
/// that lies ahead, a timer was started for exactly the time until then and polled
/// with the context. It is the timer that is set now, unless it had fired: then the
/// task was woken, and the timer is the one that was set before.
pub proof fn looks_are_timed<N: Log<C::Applicable, C::RetryPolicy>, C: Config<Node = N>>(
    node: N,
    config: C,
    cx: Context<'_>,
    before: Filling,
    after: Filling,
    fill: Fill,
    now: Instant,
    batch_size: usize,
)
    requires
        is_filled_at(node, config, cx, before, after, fill, now, batch_size),
    ensures
        fill.wake == Wake::Idle ==> after.timer is None,
        fill.wake matches Wake::At(at) ==> {
            &&& now.nanos < at.nanos
            &&& at.nanos - now.nanos <= u64::MAX * 1_000_000_000 + 999_999_999 ==> exists|
                timer: &mut Delay,
                fired: bool,
            |
                {
                    &&& is_timer(*timer, at.nanos - now.nanos)
                    &&& #[trigger] has_told(*timer, cx, fired)
                    &&& !fired ==> after.timer == Some(*final(timer))
                    &&& fired ==> after.timer == before.timer && task_woken(cx)
                }
        },
{
    filling_does_not_spin(before, after, fill, now, batch_size);
    if let Wake::At(at) = fill.wake {
        let armed = choose|armed: Option<Delay>|
            {
                &&& #[trigger] is_armed(at, now, cx, armed)
                &&& match armed {
                    Some(timer) => after.timer == Some(timer),
                    None => after.timer == before.timer && task_woken(cx),
                }
            };
        armed_timers_are_for_the_wait(at, now, cx, armed);
    }
}

/// What it takes for a look is done at once where it is due at once: the task is
/// woken and no timer is left.
pub proof fn looks_that_are_due_wake_the_task(
    now: Instant,
    cx: Context<'_>,
    timer_before: Option<Delay>,
    timer_after: Option<Delay>,
)
    ensures
        is_arranged(Wake::Now, now, cx, timer_before, timer_after) <==> timer_after is None
            && task_woken(cx),
        is_arranged(Wake::Idle, now, cx, timer_before, timer_after) <==> timer_after is None,
{
}

/// A wait is the time until then, up to the longest one that a timer takes.
pub proof fn waits_are_exact(at: Instant, now: Instant)
    ensures
        at.nanos - now.nanos <= u64::MAX * 1_000_000_000 + 999_999_999 ==> wait_nanos(at, now)
            == at.nanos - now.nanos,
        at.nanos - now.nanos > u64::MAX * 1_000_000_000 + 999_999_999 ==> wait_nanos(at, now)
            == u64::MAX * 1_000_000_000 + 999_999_999,
{
}

/// The step after a run adds its round to what is under way, or takes it out, and
/// is counted among the starts or among the ends.
pub proof fn steps_count(in_flight: Multiset<RoundNum>, steps: Seq<Step>, round: RoundNum)
    ensures
        starts(Seq::empty()).len() == 0,
        ends(Seq::empty()).len() == 0,
        under_way(in_flight, Seq::empty()) == in_flight,
        starts(steps.push(Step::Start(round))) == starts(steps).push(round),
        ends(steps.push(Step::Start(round))) == ends(steps),
        under_way(in_flight, steps.push(Step::Start(round))) == under_way(in_flight, steps).insert(
            round,
        ),
        starts(steps.push(Step::End(round))) == starts(steps),
        ends(steps.push(Step::End(round))) == ends(steps).push(round),
        under_way(in_flight, steps.push(Step::End(round))) == under_way(in_flight, steps).remove(
            round,
        ),
{
    assert(steps.push(Step::Start(round)).drop_last() =~= steps);
    assert(steps.push(Step::End(round)).drop_last() =~= steps);
}

/// In a run, an append starts only while fewer are under way than there are places,
/// and one ends only while it is under way.
pub proof fn runs_keep_to_the_places(
    in_flight: Multiset<RoundNum>,
    steps: Seq<Step>,
    places: nat,
    i: int,
)
    requires
        is_run(in_flight, steps, places),
        0 <= i < steps.len(),
    ensures
        match steps[i] {
            Step::Start(_) => under_way(in_flight, steps.take(i)).len() < places,
            Step::End(round) => under_way(in_flight, steps.take(i)).count(round) > 0,
        },
    decreases steps.len(),
{
    let fewer = steps.drop_last();
    assert(steps.take(i) =~= fewer.take(i));
    if i < fewer.len() {
        runs_keep_to_the_places(in_flight, fewer, places, i);
        assert(fewer[i] == steps[i]);
    } else {
        assert(steps.take(i) =~= fewer);
    }
}

/// Gaps are filled by a run in which at no time an append starts while as many are
/// under way, or places blocked, as the batch has places. Its starts and ends, in
/// their order, are the ones that filling tells of.
pub proof fn filling_keeps_to_the_batch<
    N: Log<C::Applicable, C::RetryPolicy>,
    C: Config<Node = N>,
>(
    node: N,
    config: C,
    cx: Context<'_>,
    before: Filling,
    after: Filling,
    fill: Fill,
    now: Instant,
    batch_size: usize,
) -> (steps: Seq<Step>)
    requires
        is_filled_at(node, config, cx, before, after, fill, now, batch_size),
    ensures
        starts(steps) == fill.started@,
        ends(steps).len() == fill.outcomes@.len(),
        forall|i: int|
            0 <= i < fill.outcomes@.len() ==> #[trigger] ends(steps)[i] == fill.outcomes@[i].round,
        under_way(before.in_flight, steps) == after.in_flight,
        forall|j: int|
            0 <= j < steps.len() && (#[trigger] steps[j]) is Start ==> under_way(
                before.in_flight,
                steps.take(j),
            ).len() + after.corner.len() < batch_size,
        forall|j: int|
            0 <= j < steps.len() ==> ((#[trigger] steps[j]) matches Step::End(round) ==> under_way(
                before.in_flight,
                steps.take(j),
            ).count(round) > 0),
{
    let steps = choose|steps: Seq<Step>| #[trigger]
        is_run_of(steps, node, config, cx, before, after, fill, batch_size);
    let places = room(batch_size, after.corner);
    assert forall|j: int| 0 <= j < steps.len() && (#[trigger] steps[j]) is Start implies under_way(
        before.in_flight,
        steps.take(j),
    ).len() + after.corner.len() < batch_size by {
        runs_keep_to_the_places(before.in_flight, steps, places, j);
    }
    assert forall|j: int| 0 <= j < steps.len() implies ((#[trigger] steps[j]) matches Step::End(
        round,
    ) ==> under_way(before.in_flight, steps.take(j)).count(round) > 0) by {
        runs_keep_to_the_places(before.in_flight, steps, places, j);
    }
    steps
}

/// For every round that was started, the node was handed a filler and a retry policy
/// of the configuration, in that round alone and without contending. What it made of
/// them joined the appends that are under way.
pub proof fn started_rounds_are_filled_without_contending<
    N: Log<C::Applicable, C::RetryPolicy>,
    C: Config<Node = N>,
>(
    node: N,
    config: C,
    cx: Context<'_>,
    before: Filling,
    after: Filling,
    fill: Fill,
    now: Instant,
    batch_size: usize,
    i: int,
)
    requires
        is_filled_at(node, config, cx, before, after, fill, now, batch_size),
        0 <= i < fill.started@.len(),
    ensures
        exists|
            rounds: Multiset<RoundNum>,
            filler: C::Applicable,
            args: AppendArgs<C::RetryPolicy>,
            append: N::StaticAppend,
        |
            {
                &&& call_ensures(C::new_filler, (&config,), filler)
                &&& call_ensures(C::retry_policy, (&config,), args.retry_policy)
                &&& args.round@.start == fill.started@[i]
                &&& args.round@.end == fill.started@[i]
                &&& !args.round@.exhausted
                &&& args.importance == Importance::MaintainLeadership(Peeryness::Peery)
                &&& #[trigger] call_ensures(
                    <N as Log<C::Applicable, C::RetryPolicy>>::append_static,
                    (&node, filler, args),
                    append,
                )
                &&& #[trigger] has_joined::<N::Commit, N::StaticAppend>(
                    rounds,
                    fill.started@[i],
                    append,
                )
            },
{
    started_rounds_are_handed_over(node, config, cx, before, after, fill, now, batch_size, i);
}

/// Every outcome is an answer of the appends when they were polled with the context,
/// and on return they have been polled once more and had none.
pub proof fn appends_are_polled_until_none_ends<
    N: Log<C::Applicable, C::RetryPolicy>,
    C: Config<Node = N>,
>(
    node: N,
    config: C,
    cx: Context<'_>,
    before: Filling,
    after: Filling,
    fill: Fill,
    now: Instant,
    batch_size: usize,
    i: int,
)
    requires
        is_filled_at(node, config, cx, before, after, fill, now, batch_size),
    ensures
        0 <= i < fill.outcomes@.len() ==> exists|rounds: Multiset<RoundNum>| #[trigger]
            has_answered(rounds, cx, Poll::Ready(Some(fill.outcomes@[i]))),
        exists|next: Poll<Option<Outcome>>|
            {
                &&& !(next matches Poll::Ready(Some(_)))
                &&& #[trigger] has_answered(after.in_flight, cx, next)
            },
{
    if 0 <= i < fill.outcomes@.len() {
        outcomes_are_handed_out(node, config, cx, before, after, fill, now, batch_size, i);
        let rounds = choose|rounds: Multiset<RoundNum>| #[trigger]
            is_handed_out(rounds, cx, fill.outcomes@[i]);
        assert(has_answered(rounds, cx, Poll::Ready(Some(fill.outcomes@[i]))));
    }
}

/// Whenever a node, after the event of a poll, is oriented and knows of a gap, and
/// only then, the poll fills gaps, whether or not any waits. The appends that are
/// under way have then been polled until none had an outcome.
pub proof fn known_gaps_are_looked_after<
    N: Log<C::Applicable, C::RetryPolicy>,
    C: Config<Node = N>,
>(
    before: Autofill<N, C>,
    after: Autofill<N, C>,
    polled: Polled<N::EventDetails>,
    cx: Context<'_>,
)
    requires
        is_polled(before, after, polled, cx),
    ensures
        polled.fill is Some <==> !after@.disoriented && exists|round: RoundNum|
            after@.known.contains(round),
        polled.fill is Some ==> is_drained(after@.in_flight, cx),
        polled.fill is Some ==> exists|next: Poll<Option<Outcome>>|
            {
                &&& !(next matches Poll::Ready(Some(_)))
                &&& #[trigger] has_answered(after@.in_flight, cx, next)
            },
        polled.fill is None ==> {
            &&& after@.in_flight == before@.in_flight
            &&& after@.corner == before@.corner
            &&& after@.timer == before@.timer
        },
{
    if after@.known.is_empty() {
    } else {
        assert(after@.known.contains(after@.known.choose()));
    }
}

/// An applied round does not keep an oriented node from filling the gaps that are
/// left: where it knows of another round, the poll that hears of the applied one
/// fills gaps.
pub proof fn other_gaps_are_filled_after_one_is_applied<
    N: Log<C::Applicable, C::RetryPolicy>,
    C: Config<Node = N>,
>(
    before: Autofill<N, C>,
    after: Autofill<N, C>,
    polled: Polled<N::EventDetails>,
    cx: Context<'_>,
    applied: RoundNum,
    other: RoundNum,
)
    requires
        is_polled(before, after, polled, cx),
        polled.event matches Poll::Ready(Event::Apply { round, .. }) && round == applied,
        before@.known.contains(other),
        other != applied,
        !before@.disoriented,
    ensures
        polled.fill is Some,
        !after@.known.contains(applied),
        after@.known.contains(other),
{
    assert(after@.known.contains(other));
    known_gaps_are_looked_after(before, after, polled, cx);
}

/// A poll takes note of the event and then fills gaps. New gaps are due exactly a
/// delay that the updated configuration gives after a reading of the clock that is
/// not before the last one. Gaps are filled by a later reading, in batches of the
/// size that the updated configuration gives.
pub proof fn polls_note_and_fill<N: Log<C::Applicable, C::RetryPolicy>, C: Config<Node = N>>(
    before: Autofill<N, C>,
    after: Autofill<N, C>,
    polled: Polled<N::EventDetails>,
    cx: Context<'_>,
) -> (times: (Instant, Instant))
    requires
        is_polled(before, after, polled, cx),
    ensures
        polled.event matches Poll::Ready(Event::Gaps { .. }) ==> {
            &&& was_shown(before.origin(), times.1)
            &&& exists|delay: Duration|
                {
                    &&& #[trigger] call_ensures(C::delay, (&after.config(),), delay)
                    &&& times.0.nanos == times.1.nanos + delay@
                }
        },
        before.last_reading().nanos <= times.1.nanos <= after.last_reading().nanos,
        after.origin() == before.origin(),
        polled.fill is None ==> after@ == before@.with_polled(polled.event, times.0),
        polled.fill matches Some(fill) ==> {
            &&& was_shown(before.origin(), after.last_reading())
            &&& exists|batch_size: usize|
                {
                    &&& call_ensures(C::batch_size, (&after.config(),), batch_size)
                    &&& #[trigger] is_filled_at(
                        after.decorated(),
                        after.config(),
                        cx,
                        before@.with_polled(polled.event, times.0),
                        after@,
                        fill,
                        after.last_reading(),
                        batch_size,
                    )
                    &&& before@.with_polled(polled.event, times.0).filled_to(
                        after@,
                        fill,
                        after.last_reading(),
                        batch_size,
                    )
                }
        },
{
    choose|due_time: Instant, report_time: Instant|
        is_polled_with(before, after, polled, cx, due_time, report_time)
}

/// Nodes that are set up alike have the same node within, the same configuration and
/// clocks that count from the same moment and were last read at the same time.
pub proof fn nodes_that_are_set_up_alike<
    N: Log<C::Applicable, C::RetryPolicy>,
    C: Config<Node = N>,
>(a: Autofill<N, C>, b: Autofill<N, C>)
    ensures
        a.has_parts_of(b) <==> a.decorated() == b.decorated() && a.config() == b.config()
            && a.origin() == b.origin(),
        a.is_set_up_like(b) <==> a.decorated() == b.decorated() && a.config() == b.config()
            && a.origin() == b.origin() && a.last_reading() == b.last_reading(),
{
}

/// A gap is left open by every error but the one that says that the round was
/// decided elsewhere and that its entry has been learned.
pub proof fn gaps_are_left_open_by_errors(outcome: Outcome)
    ensures
        outcome.spec_is_failure() <==> outcome.error is Some && !(outcome.error matches Some(
            AppendError::Converged { caught_up: true },
        )),
{
}

} // verus!
