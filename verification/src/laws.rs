//! What holds of gap filling as a whole.

use std::cmp::Ordering;
use std::task::Context;

use vstd::multiset::Multiset;
use vstd::prelude::*;

use crate::appends::{has_answered, is_handed_out, Outcome};
use crate::autofill::{
    append_initiated, is_delayed, is_filled_at, is_polled, is_polled_with, is_run_of,
    is_step_carried_out, Autofill, Polled,
};
use crate::config::{Config, StaticConfig};
use crate::model::{gap_rounds, queued_rounds, room, unexpired, unknown, Fill, Filling};
use crate::node::{ApplicableTo, DoNotRetry, Event, Gap, Log, NodeStatus, Poll};
use crate::queue::{enqueue_all, enqueue_keeps_order, in_due_order, QueuedGap, RoundNum};
use crate::run::{ends, is_run, starts, under_way, Step};
use crate::time::{is_after, was_shown, Duration, Instant};
use crate::wake::Wake;

pub mod events;
pub mod fills;
pub mod histories;

verus! {

/// The queued gaps for the given rounds, all due at `due_time`.
pub open spec fn due_at(rounds: Seq<RoundNum>, due_time: Instant) -> Seq<QueuedGap> {
    rounds.map_values(|round: RoundNum| QueuedGap { round, due_time })
}

/// Of two queued gaps, one precedes the other unless they are the same.
pub proof fn urgency_is_total(a: QueuedGap, b: QueuedGap)
    ensures
        a.precedes(b) || b.precedes(a) || a == b,
        !(a.precedes(b) && b.precedes(a)),
        !a.precedes(a),
{
}

/// A gap that precedes another one precedes all that the other one precedes.
pub proof fn urgency_is_transitive(a: QueuedGap, b: QueuedGap, c: QueuedGap)
    requires
        a.precedes(b),
        b.precedes(c),
    ensures
        a.precedes(c),
{
}

/// The ranking of gaps is that of urgency: the more urgent gap is the greater
/// one, whichever way round the two are compared.
pub proof fn rank_is_urgency(a: QueuedGap, b: QueuedGap)
    ensures
        a.rank(b) == Ordering::Greater <==> a.precedes(b),
        a.rank(b) == Ordering::Less <==> b.rank(a) == Ordering::Greater,
        a.rank(b) == Ordering::Equal <==> a == b,
{
}

/// In a queue that is in order, no gap is more urgent than the first one.
pub proof fn first_is_most_urgent(gaps: Seq<QueuedGap>, i: int)
    requires
        in_due_order(gaps),
        0 <= i < gaps.len(),
    ensures
        gaps[0] == gaps[i] || gaps[0].precedes(gaps[i]),
{
    if i > 0 {
        urgency_is_total(gaps[0], gaps[i]);
    }
}

/// Queueing rounds keeps the queue in order and adds a gap for each of them and
/// no other.
pub proof fn rounds_join_the_queue(gaps: Seq<QueuedGap>, rounds: Seq<RoundNum>, due_time: Instant)
    requires
        in_due_order(gaps),
    ensures
        in_due_order(enqueue_all(gaps, rounds, due_time)),
        enqueue_all(gaps, rounds, due_time).to_multiset() == gaps.to_multiset().add(
            due_at(rounds, due_time).to_multiset(),
        ),
    decreases rounds.len(),
{
    broadcast use vstd::seq_lib::group_to_multiset_ensures;

    if rounds.len() == 0 {
        assert(due_at(rounds, due_time) =~= Seq::empty());
        assert(gaps.to_multiset().add(due_at(rounds, due_time).to_multiset())
            =~= gaps.to_multiset());
    } else {
        let fewer = rounds.drop_last();
        let gap = QueuedGap { round: rounds.last(), due_time };
        rounds_join_the_queue(gaps, fewer, due_time);
        enqueue_keeps_order(enqueue_all(gaps, fewer, due_time), gap);
        assert(due_at(rounds, due_time) =~= due_at(fewer, due_time).push(gap));
        assert(enqueue_all(gaps, rounds, due_time).to_multiset() =~= gaps.to_multiset().add(
            due_at(rounds, due_time).to_multiset(),
        ));
    }
}

/// After gaps have been reported, all their rounds are known, and so is all that
/// was known before, and nothing else.
pub proof fn reported_gaps_are_known(before: Filling, gaps: Seq<Gap>, due_time: Instant)
    ensures
        forall|round: RoundNum|
            before.with_gaps(gaps, due_time).known.contains(round) <==> before.known.contains(round)
                || gap_rounds(gaps).contains(round),
{
    let known = before.known;
    let rounds = gap_rounds(gaps);
    let is_new = |round: RoundNum| !known.contains(round);
    broadcast use vstd::seq_lib::group_filter_ensures;

    assert forall|round: RoundNum|
        before.with_gaps(gaps, due_time).known.contains(round) <==> before.known.contains(round)
            || gap_rounds(gaps).contains(round) by {
        if rounds.contains(round) && !known.contains(round) {
            let i = choose|i: int| 0 <= i < rounds.len() && rounds[i] == round;
            assert(unknown(rounds, known).contains(rounds[i]));
        }
        if unknown(rounds, known).contains(round) {
            filtered_is_within(rounds, is_new, round);
        }
    }
}

proof fn filtered_is_within(
    rounds: Seq<RoundNum>,
    keep: spec_fn(RoundNum) -> bool,
    round: RoundNum,
)
    requires
        rounds.filter(keep).contains(round),
    ensures
        rounds.contains(round),
        keep(round),
    decreases rounds.len(),
{
    reveal(Seq::filter);
    if rounds.len() > 0 {
        let rest = rounds.drop_last();
        if rest.filter(keep).contains(round) {
            filtered_is_within(rest, keep, round);
            let i = choose|i: int| 0 <= i < rest.len() && rest[i] == round;
            assert(rounds[i] == round);
        } else {
            assert(rounds.last() == round);
        }
    }
}

/// Gaps that are reported again are not queued again: a second report of gaps
/// changes nothing, whenever it comes.
pub proof fn gaps_are_queued_once(
    before: Filling,
    gaps: Seq<Gap>,
    due_time: Instant,
    later_due_time: Instant,
)
    ensures
        before.with_gaps(gaps, due_time).with_gaps(gaps, later_due_time) == before.with_gaps(
            gaps,
            due_time,
        ),
{
    let once = before.with_gaps(gaps, due_time);
    reported_gaps_are_known(before, gaps, due_time);
    known_gaps_are_not_queued(once, gaps, later_due_time);
}

/// A report of rounds that are all known changes nothing.
pub proof fn known_gaps_are_not_queued(before: Filling, gaps: Seq<Gap>, due_time: Instant)
    requires
        forall|round: RoundNum|
            gap_rounds(gaps).contains(round) ==> #[trigger] before.known.contains(round),
    ensures
        before.with_gaps(gaps, due_time) == before,
{
    let new = unknown(gap_rounds(gaps), before.known);
    if new.len() > 0 {
        assert(new.contains(new[0]));
        filtered_is_within(
            gap_rounds(gaps),
            |round: RoundNum| !before.known.contains(round),
            new[0],
        );
    }
    assert(new =~= Seq::empty());
    assert(before.with_gaps(gaps, due_time) =~= before);
}

/// A round that is reported and was not known is queued for the due time.
pub proof fn new_gaps_are_queued(
    before: Filling,
    gaps: Seq<Gap>,
    due_time: Instant,
    round: RoundNum,
)
    requires
        in_due_order(before.queued),
        gap_rounds(gaps).contains(round),
        !before.known.contains(round),
    ensures
        before.with_gaps(gaps, due_time).queued.contains(QueuedGap { round, due_time }),
{
    broadcast use vstd::seq_lib::group_to_multiset_ensures;

    let rounds = gap_rounds(gaps);
    let is_new = |round: RoundNum| !before.known.contains(round);
    let new = unknown(rounds, before.known);
    let i = choose|i: int| 0 <= i < rounds.len() && rounds[i] == round;
    rounds.lemma_filter_contains(is_new, i);
    let k = choose|k: int| 0 <= k < new.len() && new[k] == round;
    let gap = QueuedGap { round, due_time };
    assert(due_at(new, due_time)[k] == gap);
    assert(due_at(new, due_time).contains(gap));
    rounds_join_the_queue(before.queued, new, due_time);
    assert(before.with_gaps(gaps, due_time).queued.to_multiset().count(gap) > 0);
}

/// Once the entry of a round has been applied, the round is not known any more:
/// should it be reported again, it is queued again.
pub proof fn applied_gaps_can_come_back(
    before: Filling,
    round: RoundNum,
    gaps: Seq<Gap>,
    due_time: Instant,
)
    requires
        in_due_order(before.queued),
        gap_rounds(gaps).contains(round),
    ensures
        !before.with_applied(round).known.contains(round),
        before.with_applied(round).with_gaps(gaps, due_time).queued.contains(
            QueuedGap { round, due_time },
        ),
{
    new_gaps_are_queued(before.with_applied(round), gaps, due_time, round);
}

/// A node that is disoriented, or that has just installed a snapshot, has no gaps
/// to fill.
pub proof fn a_fresh_start_forgets_gaps<D>(before: Filling, event: Event<D>, due_time: Instant)
    requires
        match event {
            Event::Init { status, .. } => status == NodeStatus::Disoriented,
            Event::StatusChange { new_status, .. } => new_status == NodeStatus::Disoriented,
            Event::Install { .. } => true,
            _ => false,
        },
    ensures
        !before.with_event(event, due_time).wants_filling(),
        before.with_event(event, due_time).known.is_empty(),
        before.with_event(event, due_time).queued.len() == 0,
{
}

/// A known gap stays known until its round is applied, the node is disoriented or
/// a snapshot is installed.
pub proof fn known_gaps_stay_known<D>(
    before: Filling,
    event: Event<D>,
    due_time: Instant,
    round: RoundNum,
)
    requires
        before.known.contains(round),
        !before.with_event(event, due_time).known.contains(round),
    ensures
        match event {
            Event::Init { status, .. } => status == NodeStatus::Disoriented,
            Event::StatusChange { new_status, .. } => new_status == NodeStatus::Disoriented,
            Event::Install { .. } => true,
            Event::Apply { round: applied, .. } => applied == round,
            _ => false,
        },
{
}

/// Events leave alone what is under way, the places that are blocked and the
/// timer.
pub proof fn events_start_nothing<D>(before: Filling, event: Event<D>, due_time: Instant)
    ensures
        before.with_event(event, due_time).in_flight == before.in_flight,
        before.with_event(event, due_time).corner == before.corner,
        before.with_event(event, due_time).timer == before.timer,
{
}

/// No gap is lost by filling: each has been started or waits still, and what has
/// been started was not less urgent than what waits.
pub proof fn gaps_are_started_or_wait(
    before: Filling,
    after: Filling,
    fill: Fill,
    now: Instant,
    batch_size: usize,
)
    requires
        before.filled_to(after, fill, now, batch_size),
        in_due_order(before.queued),
    ensures
        queued_rounds(before.queued) == fill.started@ + queued_rounds(after.queued),
        forall|i: int, j: int|
            #![trigger before.queued[i], after.queued[j]]
            0 <= i < fill.started@.len() && 0 <= j < after.queued.len()
                ==> !after.queued[j].precedes(before.queued[i]),
{
    let n = fill.started@.len() as int;
    assert(queued_rounds(before.queued) =~= fill.started@ + queued_rounds(after.queued));
    assert forall|i: int, j: int|
        #![trigger before.queued[i], after.queued[j]]
        0 <= i < n && 0 <= j < after.queued.len() implies !after.queued[j].precedes(
        before.queued[i],
    ) by {
        assert(after.queued[j] == before.queued[n + j]);
    }
}

/// A gap that is not due stays in the queue.
pub proof fn gaps_wait_until_they_are_due(
    before: Filling,
    after: Filling,
    fill: Fill,
    now: Instant,
    batch_size: usize,
    gap: QueuedGap,
)
    requires
        before.filled_to(after, fill, now, batch_size),
        before.queued.contains(gap),
        now.nanos < gap.due_time.nanos,
    ensures
        after.queued.contains(gap),
{
    let n = fill.started@.len() as int;
    let i = choose|i: int| 0 <= i < before.queued.len() && before.queued[i] == gap;
    assert(after.queued[i - n] == gap);
}

/// A gap that is due is left waiting only where the batch has no place for it.
pub proof fn due_gaps_wait_for_a_place(
    before: Filling,
    after: Filling,
    fill: Fill,
    now: Instant,
    batch_size: usize,
    i: int,
)
    requires
        before.filled_to(after, fill, now, batch_size),
        in_due_order(before.queued),
        0 <= i < after.queued.len(),
        after.queued[i].due_time.nanos <= now.nanos,
    ensures
        after.in_flight.len() >= room(batch_size, after.corner),
{
    let n = fill.started@.len() as int;
    if i > 0 {
        assert(!before.queued[n + i].precedes(before.queued[n]));
    }
}

/// Filling gaps does not end by asking for another look at once, so that a node
/// with gaps does not spin. A look that it asks for lies ahead.
pub proof fn filling_does_not_spin(
    before: Filling,
    after: Filling,
    fill: Fill,
    now: Instant,
    batch_size: usize,
)
    requires
        before.filled_to(after, fill, now, batch_size),
    ensures
        fill.wake != Wake::Now,
        fill.wake matches Wake::At(at) ==> now.nanos < at.nanos,
{
    unexpired_is_ahead(before.corner, now);
}

proof fn unexpired_is_ahead(corner: Seq<Instant>, now: Instant)
    ensures
        unexpired(corner, now).len() > 0 ==> unexpired(corner, now)[0].nanos > now.nanos,
        unexpired(corner, now).len() <= corner.len(),
    decreases corner.len(),
{
    if corner.len() > 0 && corner[0].nanos <= now.nanos {
        unexpired_is_ahead(corner.skip(1), now);
    }
}

/// As long as the batch has a place, the next look comes no later than the most
/// urgent gap is due.
pub proof fn the_next_gap_is_not_missed(
    before: Filling,
    after: Filling,
    fill: Fill,
    now: Instant,
    batch_size: usize,
)
    requires
        before.filled_to(after, fill, now, batch_size),
        after.queued.len() > 0,
        after.in_flight.len() < room(batch_size, after.corner),
    ensures
        fill.wake matches Wake::At(at) && at.nanos <= after.queued[0].due_time.nanos,
{
    filling_does_not_spin(before, after, fill, now, batch_size);
}

/// Only where nothing is queued, or every place of the batch is taken and none is
/// blocked, is no further look planned.
pub proof fn idling_has_a_reason(
    before: Filling,
    after: Filling,
    fill: Fill,
    now: Instant,
    batch_size: usize,
)
    requires
        before.filled_to(after, fill, now, batch_size),
        fill.wake == Wake::Idle,
    ensures
        after.queued.len() == 0 || after.in_flight.len() >= batch_size,
{
}

/// What holds at all times of a node whose batches are of `batch_size`: its queue
/// is in order, no place of the batch is blocked, and no more appends are under
/// way than the batch has places.
pub open spec fn is_sound(model: Filling, batch_size: usize) -> bool {
    &&& in_due_order(model.queued)
    &&& model.corner.len() == 0
    &&& model.in_flight.len() <= batch_size
}

/// A newly decorated node is sound.
pub proof fn sound_at_first(batch_size: usize)
    ensures
        is_sound(Filling::initial(), batch_size),
{
}

/// Events keep a node sound.
pub proof fn sound_after_events<D>(
    before: Filling,
    batch_size: usize,
    event: Event<D>,
    due_time: Instant,
)
    requires
        is_sound(before, batch_size),
    ensures
        is_sound(before.with_event(event, due_time), batch_size),
{
    match event {
        Event::Gaps { gaps, .. } => {
            rounds_join_the_queue(
                before.queued,
                unknown(gap_rounds(gaps@), before.known),
                due_time,
            );
        },
        _ => {},
    }
}

/// Filling gaps keeps a node sound: the number of gap rounds that are filled
/// concurrently does not exceed the batch size.
pub proof fn sound_after_filling(
    before: Filling,
    after: Filling,
    fill: Fill,
    now: Instant,
    batch_size: usize,
)
    requires
        is_sound(before, batch_size),
        before.filled_to(after, fill, now, batch_size),
    ensures
        is_sound(after, batch_size),
{
    let n = fill.started@.len() as int;
    unexpired_is_ahead(before.corner, now);
    assert forall|i: int, j: int| 0 <= i < j < after.queued.len() implies !(
    #[trigger] after.queued[j]).precedes(#[trigger] after.queued[i]) by {
        assert(!before.queued[n + j].precedes(before.queued[n + i]));
    }
}

/// Polling keeps a node sound whose configuration asks for batches of
/// `batch_size`, whatever the node within reports and however appends end.
pub proof fn sound_after_polling<N: Log<C::Applicable, C::RetryPolicy>, C: Config<Node = N>>(
    before: Autofill<N, C>,
    after: Autofill<N, C>,
    polled: Polled<N::EventDetails>,
    cx: Context<'_>,
    batch_size: usize,
)
    requires
        is_polled(before, after, polled, cx),
        is_sound(before@, batch_size),
        forall|size: usize|
            #[trigger] call_ensures(C::batch_size, (&after.config(),), size) ==> size == batch_size,
    ensures
        is_sound(after@, batch_size),
{
    let (due_time, report_time) = choose|due_time: Instant, report_time: Instant|
        is_polled_with(before, after, polled, cx, due_time, report_time);
    let reported = before@.with_polled(polled.event, due_time);
    if let Poll::Ready(event) = polled.event {
        sound_after_events(before@, batch_size, event, due_time);
    }
    if let Some(fill) = polled.fill {
        let now = after.last_reading();
        let size = choose|size: usize|
            {
                &&& call_ensures(C::batch_size, (&after.config(),), size)
                &&& #[trigger] is_filled_at(
                    after.decorated(),
                    after.config(),
                    cx,
                    reported,
                    after@,
                    fill,
                    now,
                    size,
                )
            };
        sound_after_filling(reported, after@, fill, now, size);
    }
}

/// Polling keeps a node sound that has a static configuration, by that
/// configuration's batch size.
pub proof fn sound_under_a_static_configuration<
    N: Log<A, DoNotRetry>,
    A: ApplicableTo<N::State> + Default + 'static,
>(
    before: Autofill<N, StaticConfig<N, A>>,
    after: Autofill<N, StaticConfig<N, A>>,
    polled: Polled<N::EventDetails>,
    cx: Context<'_>,
)
    requires
        is_polled(before, after, polled, cx),
        after.config() == before.config(),
        is_sound(before@, before.config().spec_batch_size()),
    ensures
        is_sound(after@, after.config().spec_batch_size()),
{
    sound_after_polling(before, after, polled, cx, before.config().spec_batch_size());
}

/// A disoriented node that hears nothing new leaves everything as it is.
pub proof fn disoriented_nodes_do_nothing<
    N: Log<C::Applicable, C::RetryPolicy>,
    C: Config<Node = N>,
>(
    before: Autofill<N, C>,
    after: Autofill<N, C>,
    polled: Polled<N::EventDetails>,
    cx: Context<'_>,
)
    requires
        is_polled(before, after, polled, cx),
        before@.disoriented,
        polled.event is Pending,
    ensures
        polled.fill is None,
        after@ == before@,
{
}

/// Without known gaps, polling starts nothing and takes no outcome.
pub proof fn without_gaps_nothing_is_started<
    N: Log<C::Applicable, C::RetryPolicy>,
    C: Config<Node = N>,
>(
    before: Autofill<N, C>,
    after: Autofill<N, C>,
    polled: Polled<N::EventDetails>,
    cx: Context<'_>,
)
    requires
        is_polled(before, after, polled, cx),
        after@.known.is_empty(),
    ensures
        polled.fill is None,
        after@.in_flight == before@.in_flight,
{
}

/// A gap that is reported to a node is not attempted before the configured delay
/// has passed: until then it stays in the queue.
pub proof fn reported_gaps_are_delayed(
    reported: Filling,
    after: Filling,
    fill: Fill,
    round: RoundNum,
    due_time: Instant,
    report_time: Instant,
    delay: Duration,
    now: Instant,
    batch_size: usize,
)
    requires
        reported.queued.contains(QueuedGap { round, due_time }),
        is_after(due_time, report_time, delay),
        reported.filled_to(after, fill, now, batch_size),
        now.nanos < report_time.nanos + delay@,
    ensures
        after.queued.contains(QueuedGap { round, due_time }),
{
    gaps_wait_until_they_are_due(
        reported,
        after,
        fill,
        now,
        batch_size,
        QueuedGap { round, due_time },
    );
}

/// At no time during a run that begins within the places are more appends under
/// way than there are places.
pub proof fn the_batch_is_never_exceeded(
    in_flight: Multiset<RoundNum>,
    steps: Seq<Step>,
    places: nat,
    i: int,
)
    requires
        is_run(in_flight, steps, places),
        in_flight.len() <= places,
        0 <= i <= steps.len(),
    ensures
        under_way(in_flight, steps.take(i)).len() <= places,
    decreases steps.len(),
{
    if i < steps.len() {
        assert(steps.drop_last().take(i) =~= steps.take(i));
        the_batch_is_never_exceeded(in_flight, steps.drop_last(), places, i);
    } else if steps.len() > 0 {
        assert(steps.take(i) =~= steps);
        let before = steps.drop_last();
        the_batch_is_never_exceeded(in_flight, before, places, before.len() as int);
        assert(before.take(before.len() as int) =~= before);
    } else {
        assert(steps.take(i) =~= steps);
    }
}

/// Every round that was started has been handed to the node, while the appends for
/// some rounds were under way.
pub proof fn started_rounds_are_handed_over<
    N: Log<C::Applicable, C::RetryPolicy>,
    C: Config<Node = N>,
>(
    node: N,
    config: C,
    cx: Context<'_>,
    before: Filling,
    after: Filling,
    fill: Fill,
    now: Instant,
    batch_size: usize,
    i: int,
)
    requires
        is_filled_at(node, config, cx, before, after, fill, now, batch_size),
        0 <= i < fill.started@.len(),
    ensures
        exists|rounds: Multiset<RoundNum>| #[trigger]
            append_initiated(node, config, rounds, fill.started@[i]),
{
    let steps = choose|steps: Seq<Step>| #[trigger]
        is_run_of(steps, node, config, cx, before, after, fill, batch_size);
    let j = step_of_start(steps, i);
    assert(is_step_carried_out(node, config, cx, before.in_flight, steps, fill.outcomes@, j));
}

proof fn step_of_start(steps: Seq<Step>, i: int) -> (j: int)
    requires
        0 <= i < starts(steps).len(),
    ensures
        0 <= j < steps.len(),
        steps[j] == Step::Start(starts(steps)[i]),
    decreases steps.len(),
{
    let fewer = steps.drop_last();
    if i < starts(fewer).len() {
        step_of_start(fewer, i)
    } else {
        steps.len() - 1
    }
}

/// Every outcome was handed out when the appends were polled with the context,
/// while those for some rounds were under way.
pub proof fn outcomes_are_handed_out<
    N: Log<C::Applicable, C::RetryPolicy>,
    C: Config<Node = N>,
>(
    node: N,
    config: C,
    cx: Context<'_>,
    before: Filling,
    after: Filling,
    fill: Fill,
    now: Instant,
    batch_size: usize,
    i: int,
)
    requires
        is_filled_at(node, config, cx, before, after, fill, now, batch_size),
        0 <= i < fill.outcomes@.len(),
    ensures
        exists|rounds: Multiset<RoundNum>| #[trigger]
            is_handed_out(rounds, cx, fill.outcomes@[i]),
{
    let steps = choose|steps: Seq<Step>| #[trigger]
        is_run_of(steps, node, config, cx, before, after, fill, batch_size);
    let j = step_of_end(steps, i);
    assert(is_step_carried_out(node, config, cx, before.in_flight, steps, fill.outcomes@, j));
}

proof fn step_of_end(steps: Seq<Step>, i: int) -> (j: int)
    requires
        0 <= i < ends(steps).len(),
    ensures
        0 <= j < steps.len(),
        steps[j] is End,
        ends(steps.take(j)).len() == i,
    decreases steps.len(),
{
    let fewer = steps.drop_last();
    if i < ends(fewer).len() {
        let j = step_of_end(fewer, i);
        assert(steps.take(j) =~= fewer.take(j));
        j
    } else {
        assert(steps.take(steps.len() - 1) =~= fewer);
        steps.len() - 1
    }
}

/// Polled with `cx`, the appends for `rounds` always have an outcome to hand out.
pub open spec fn are_ready(rounds: Multiset<RoundNum>, cx: Context<'_>) -> bool {
    forall|next: Poll<Option<Outcome>>|
        #[trigger] has_answered(rounds, cx, next) ==> next matches Poll::Ready(Some(_))
}

/// Where appends that are under way always have an outcome to hand out, none stays
/// under way, and no due gap waits unless all places are blocked: a place that
/// comes free is used in the same call.
pub proof fn ready_appends_do_not_stay<
    N: Log<C::Applicable, C::RetryPolicy>,
    C: Config<Node = N>,
>(
    node: N,
    config: C,
    cx: Context<'_>,
    before: Filling,
    after: Filling,
    fill: Fill,
    now: Instant,
    batch_size: usize,
)
    requires
        is_filled_at(node, config, cx, before, after, fill, now, batch_size),
        in_due_order(before.queued),
        forall|rounds: Multiset<RoundNum>| rounds.len() > 0 ==> #[trigger] are_ready(rounds, cx),
    ensures
        after.in_flight.len() == 0,
        room(batch_size, after.corner) > 0 ==> forall|i: int|
            0 <= i < after.queued.len() ==> (#[trigger] after.queued[i]).due_time.nanos > now.nanos,
{
    if after.in_flight.len() > 0 {
        assert(are_ready(after.in_flight, cx));
    }
    if room(batch_size, after.corner) > 0 {
        assert forall|i: int| 0 <= i < after.queued.len() implies (
        #[trigger] after.queued[i]).due_time.nanos > now.nanos by {
            if after.queued[i].due_time.nanos <= now.nanos {
                due_gaps_wait_for_a_place(before, after, fill, now, batch_size, i);
            }
        }
    }
}

/// The event has the node start afresh: it is disoriented, or a snapshot has been
/// installed.
pub open spec fn starts_afresh<D>(event: Poll<Event<D>>) -> bool {
    match event {
        Poll::Ready(Event::Init { status, .. }) => status == NodeStatus::Disoriented,
        Poll::Ready(Event::StatusChange { new_status, .. }) => new_status
            == NodeStatus::Disoriented,
        Poll::Ready(Event::Install { .. }) => true,
        _ => false,
    }
}

/// A newly decorated node, `nodes[0]`, has been polled over and over. The poll `i`
/// was made with `contexts[i]` and has led from `nodes[i]` to `nodes[i + 1]` and to
/// `polls[i]`.
pub open spec fn is_history<N: Log<C::Applicable, C::RetryPolicy>, C: Config<Node = N>>(
    nodes: Seq<Autofill<N, C>>,
    polls: Seq<Polled<N::EventDetails>>,
    contexts: Seq<Context<'_>>,
) -> bool {
    &&& nodes.len() == polls.len() + 1
    &&& contexts.len() == polls.len()
    &&& nodes[0]@ == Filling::initial()
    &&& forall|i: int|
        0 <= i < polls.len() ==> is_polled(nodes[i], nodes[i + 1], #[trigger] polls[i], contexts[i])
}

/// The poll `j`, one of the first `n`, has reported the round of the gap at
/// `report_time`. The gap is due a delay after it that the configuration gave then,
/// and since then the node has not started afresh.
pub open spec fn was_reported<N: Log<C::Applicable, C::RetryPolicy>, C: Config<Node = N>>(
    nodes: Seq<Autofill<N, C>>,
    polls: Seq<Polled<N::EventDetails>>,
    gap: QueuedGap,
    report_time: Instant,
    j: int,
    n: int,
) -> bool {
    &&& 0 <= j < n
    &&& polls[j].event matches Poll::Ready(Event::Gaps { gaps, .. }) && gap_rounds(gaps@).contains(
        gap.round,
    )
    &&& was_shown(nodes[0].origin(), report_time)
    &&& nodes[j].last_reading().nanos <= report_time.nanos <= nodes[j + 1].last_reading().nanos
    &&& is_delayed(nodes[j + 1].config(), gap.due_time, report_time)
    &&& forall|k: int| j < k < n ==> !starts_afresh((#[trigger] polls[k]).event)
}

/// Only reported gaps are filled, and none before its delay is over: a round that
/// the poll `i` has started has been reported by this poll or an earlier one, the
/// delay of that time has passed since, and the node has not started afresh in
/// between.
pub proof fn only_reported_gaps_are_filled<
    N: Log<C::Applicable, C::RetryPolicy>,
    C: Config<Node = N>,
>(
    nodes: Seq<Autofill<N, C>>,
    polls: Seq<Polled<N::EventDetails>>,
    contexts: Seq<Context<'_>>,
    i: int,
    fill: Fill,
    p: int,
)
    requires
        is_history(nodes, polls, contexts),
        0 <= i < polls.len(),
        polls[i].fill == Some(fill),
        0 <= p < fill.started@.len(),
    ensures
        was_shown(nodes[0].origin(), nodes[i + 1].last_reading()),
        exists|gap: QueuedGap, report_time: Instant, j: int|
            {
                &&& #[trigger] was_reported(nodes, polls, gap, report_time, j, i + 1)
                &&& gap.round == fill.started@[p]
                &&& gap.due_time.nanos <= nodes[i + 1].last_reading().nanos
            },
{
    let before = nodes[i];
    let after = nodes[i + 1];
    let polled = polls[i];
    let cx = contexts[i];
    assert(is_polled(before, after, polled, cx));
    let (due_time, report_time) = choose|due_time: Instant, report_time: Instant|
        is_polled_with(before, after, polled, cx, due_time, report_time);
    let reported = before@.with_polled(polled.event, due_time);
    let gap = reported.queued[p];
    assert(reported.queued.take(fill.started@.len() as int)[p] == gap);
    assert(reported.queued.contains(gap));
    clocks_run_on(nodes, polls, contexts, 0, i);
    let (report_time, j) = report_of_event(
        nodes,
        polls,
        contexts,
        i,
        due_time,
        report_time,
        gap,
    );
    assert(was_reported(nodes, polls, gap, report_time, j, i + 1));
}

/// Every gap that is queued before the poll `i` has been reported by an earlier
/// one.
pub proof fn queued_gaps_were_reported<
    N: Log<C::Applicable, C::RetryPolicy>,
    C: Config<Node = N>,
>(
    nodes: Seq<Autofill<N, C>>,
    polls: Seq<Polled<N::EventDetails>>,
    contexts: Seq<Context<'_>>,
    i: int,
    gap: QueuedGap,
) -> (report: (Instant, int))
    requires
        is_history(nodes, polls, contexts),
        0 <= i <= polls.len(),
        nodes[i]@.queued.contains(gap),
    ensures
        was_reported(nodes, polls, gap, report.0, report.1, i),
    decreases i, 0int,
{
    if i == 0 {
        (Instant { nanos: 0 }, 0)
    } else {
        let before = nodes[i - 1];
        let after = nodes[i];
        let polled = polls[i - 1];
        let cx = contexts[i - 1];
        assert(is_polled(before, after, polled, cx));
        let (due_time, report_time) = choose|due_time: Instant, report_time: Instant|
            is_polled_with(before, after, polled, cx, due_time, report_time);
        let reported = before@.with_polled(polled.event, due_time);
        let k = choose|k: int| 0 <= k < after@.queued.len() && after@.queued[k] == gap;
        if let Some(fill) = polled.fill {
            assert(reported.queued[k + fill.started@.len()] == gap);
        }
        assert(reported.queued.contains(gap));
        report_of_event(nodes, polls, contexts, i - 1, due_time, report_time, gap)
    }
}

proof fn report_of_event<N: Log<C::Applicable, C::RetryPolicy>, C: Config<Node = N>>(
    nodes: Seq<Autofill<N, C>>,
    polls: Seq<Polled<N::EventDetails>>,
    contexts: Seq<Context<'_>>,
    i: int,
    due_time: Instant,
    report_time: Instant,
    gap: QueuedGap,
) -> (report: (Instant, int))
    requires
        is_history(nodes, polls, contexts),
        0 <= i < polls.len(),
        is_polled_with(nodes[i], nodes[i + 1], polls[i], contexts[i], due_time, report_time),
        nodes[i]@.with_polled(polls[i].event, due_time).queued.contains(gap),
    ensures
        was_reported(nodes, polls, gap, report.0, report.1, i + 1),
    decreases i, 1int,
{
    broadcast use vstd::seq_lib::group_to_multiset_ensures;

    let before = nodes[i]@;
    let event = polls[i].event;
    let reported = before.with_polled(event, due_time);
    assert(is_polled(nodes[i], nodes[i + 1], polls[i], contexts[i]));
    assert(!starts_afresh(event));
    if before.queued.contains(gap) {
        queued_gaps_were_reported(nodes, polls, contexts, i, gap)
    } else {
        if let Poll::Ready(Event::Gaps { gaps, .. }) = event {
            let rounds = gap_rounds(gaps@);
            let new = unknown(rounds, before.known);
            rounds_join_the_queue(before.queued, new, due_time);
            assert(reported.queued.to_multiset().count(gap) > 0);
            assert(due_at(new, due_time).to_multiset().count(gap) > 0);
            assert(due_at(new, due_time).contains(gap));
            let k = choose|k: int| 0 <= k < new.len() && due_at(new, due_time)[k] == gap;
            assert(new.contains(gap.round)) by {
                assert(new[k] == gap.round);
            }
            filtered_is_within(
                rounds,
                |round: RoundNum| !before.known.contains(round),
                gap.round,
            );
            clocks_run_on(nodes, polls, contexts, 0, i);
        }
        (report_time, i)
    }
}

/// The poll `j`, one of the first `n`, has reported the round while it was not
/// known, and the round has been known ever since.
pub open spec fn was_found<N: Log<C::Applicable, C::RetryPolicy>, C: Config<Node = N>>(
    nodes: Seq<Autofill<N, C>>,
    polls: Seq<Polled<N::EventDetails>>,
    round: RoundNum,
    j: int,
    n: int,
) -> bool {
    &&& 0 <= j < n
    &&& polls[j].event matches Poll::Ready(Event::Gaps { gaps, .. }) && gap_rounds(gaps@).contains(
        round,
    )
    &&& !nodes[j]@.known.contains(round)
    &&& forall|k: int| j < k <= n ==> (#[trigger] nodes[k])@.known.contains(round)
}

/// An append for the round has been started by the poll `j`, or by a later one of
/// the first `n`.
pub open spec fn was_started<D>(
    polls: Seq<Polled<D>>,
    round: RoundNum,
    j: int,
    n: int,
) -> bool {
    exists|k: int|
        {
            &&& j <= k < n
            &&& (#[trigger] polls[k]).fill matches Some(fill) && fill.started@.contains(round)
        }
}

/// No reported gap is lost: a round that is known before the poll `i` has been
/// reported by the poll `j` and been known ever since, and it waits in the queue or
/// an append for it has been started since then.
pub proof fn known_gaps_are_queued_or_started<
    N: Log<C::Applicable, C::RetryPolicy>,
    C: Config<Node = N>,
>(
    nodes: Seq<Autofill<N, C>>,
    polls: Seq<Polled<N::EventDetails>>,
    contexts: Seq<Context<'_>>,
    i: int,
    round: RoundNum,
) -> (j: int)
    requires
        is_history(nodes, polls, contexts),
        0 <= i <= polls.len(),
        nodes[i]@.known.contains(round),
    ensures
        was_found(nodes, polls, round, j, i),
        queued_rounds(nodes[i]@.queued).contains(round) || was_started(polls, round, j, i),
    decreases i,
{
    if i == 0 {
        0
    } else {
        let before = nodes[i - 1];
        let after = nodes[i];
        let polled = polls[i - 1];
        let cx = contexts[i - 1];
        assert(is_polled(before, after, polled, cx));
        let (due_time, report_time) = choose|due_time: Instant, report_time: Instant|
            is_polled_with(before, after, polled, cx, due_time, report_time);
        let reported = before@.with_polled(polled.event, due_time);
        assert(reported.known.contains(round));
        if before@.known.contains(round) {
            let j = known_gaps_are_queued_or_started(nodes, polls, contexts, i - 1, round);
            if was_started(polls, round, j, i - 1) {
                assert(was_started(polls, round, j, i));
            } else {
                known_gaps_stay_queued(before@, polled.event, due_time, round);
                queued_rounds_are_started_or_wait(
                    before,
                    after,
                    polled,
                    cx,
                    due_time,
                    report_time,
                    round,
                );
            }
            j
        } else {
            if let Poll::Ready(Event::Gaps { gaps, .. }) = polled.event {
                let gap = QueuedGap { round, due_time };
                reported_gaps_are_known(before@, gaps@, due_time);
                new_gaps_are_queued(before@, gaps@, due_time, round);
                let k = choose|k: int| 0 <= k < reported.queued.len() && reported.queued[k] == gap;
                assert(queued_rounds(reported.queued)[k] == round);
                queued_rounds_are_started_or_wait(
                    before,
                    after,
                    polled,
                    cx,
                    due_time,
                    report_time,
                    round,
                );
            }
            i - 1
        }
    }
}

/// An event that leaves a round known leaves it in the queue.
proof fn known_gaps_stay_queued<D>(
    before: Filling,
    event: Poll<Event<D>>,
    due_time: Instant,
    round: RoundNum,
)
    requires
        in_due_order(before.queued),
        queued_rounds(before.queued).contains(round),
        before.with_polled(event, due_time).known.contains(round),
    ensures
        queued_rounds(before.with_polled(event, due_time).queued).contains(round),
{
    broadcast use vstd::seq_lib::group_to_multiset_ensures;

    if let Poll::Ready(Event::Gaps { gaps, .. }) = event {
        let queued = before.with_polled(event, due_time).queued;
        let i = choose|i: int|
            0 <= i < before.queued.len() && queued_rounds(before.queued)[i] == round;
        let gap = before.queued[i];
        rounds_join_the_queue(
            before.queued,
            unknown(gap_rounds(gaps@), before.known),
            due_time,
        );
        assert(before.queued.contains(gap));
        assert(queued.to_multiset().count(gap) > 0);
        let k = choose|k: int| 0 <= k < queued.len() && queued[k] == gap;
        assert(queued_rounds(queued)[k] == round);
    }
}

/// A round that is queued once a poll has taken note of the event waits still, or
/// the poll has started an append for it.
proof fn queued_rounds_are_started_or_wait<
    N: Log<C::Applicable, C::RetryPolicy>,
    C: Config<Node = N>,
>(
    before: Autofill<N, C>,
    after: Autofill<N, C>,
    polled: Polled<N::EventDetails>,
    cx: Context<'_>,
    due_time: Instant,
    report_time: Instant,
    round: RoundNum,
)
    requires
        is_polled_with(before, after, polled, cx, due_time, report_time),
        queued_rounds(before@.with_polled(polled.event, due_time).queued).contains(round),
    ensures
        queued_rounds(after@.queued).contains(round) || (polled.fill matches Some(fill)
            && fill.started@.contains(round)),
{
    let reported = before@.with_polled(polled.event, due_time);
    if let Some(fill) = polled.fill {
        let n = fill.started@.len() as int;
        let rounds = queued_rounds(reported.queued);
        let k = choose|k: int| 0 <= k < rounds.len() && rounds[k] == round;
        if k < n {
            assert(fill.started@[k] == round);
        } else {
            assert(queued_rounds(after@.queued)[k - n] == round);
        }
    }
}

/// The clock of a node stays the same from poll to poll and does not go back.
pub proof fn clocks_run_on<N: Log<C::Applicable, C::RetryPolicy>, C: Config<Node = N>>(
    nodes: Seq<Autofill<N, C>>,
    polls: Seq<Polled<N::EventDetails>>,
    contexts: Seq<Context<'_>>,
    i: int,
    k: int,
)
    requires
        is_history(nodes, polls, contexts),
        0 <= i <= k <= polls.len(),
    ensures
        nodes[k].origin() == nodes[i].origin(),
        nodes[i].last_reading().nanos <= nodes[k].last_reading().nanos,
    decreases k,
{
    if i < k {
        clocks_run_on(nodes, polls, contexts, i, k - 1);
        assert(is_polled(nodes[k - 1], nodes[k], polls[k - 1], contexts[k - 1]));
    }
}

/// Without a delay, a gap that is reported to an oriented node and was not known is
/// started in the same poll, unless every place of the batch is taken.
pub proof fn undelayed_gaps_are_due_at_once<
    N: Log<C::Applicable, C::RetryPolicy>,
    C: Config<Node = N>,
>(
    before: Autofill<N, C>,
    after: Autofill<N, C>,
    polled: Polled<N::EventDetails>,
    cx: Context<'_>,
    gaps: Seq<Gap>,
    round: RoundNum,
    batch_size: usize,
)
    requires
        is_polled(before, after, polled, cx),
        polled.event matches Poll::Ready(Event::Gaps { gaps: reported, .. }) && reported@ == gaps,
        gap_rounds(gaps).contains(round),
        !before@.known.contains(round),
        !before@.disoriented,
        forall|delay: Duration|
            #[trigger] call_ensures(C::delay, (&after.config(),), delay) ==> delay@ == 0,
        forall|size: usize|
            #[trigger] call_ensures(C::batch_size, (&after.config(),), size) ==> size == batch_size,
    ensures
        polled.fill is Some,
        polled.fill->0.started@.contains(round) || after@.in_flight.len() >= room(
            batch_size,
            after@.corner,
        ),
{
    let (due_time, report_time) = choose|due_time: Instant, report_time: Instant|
        is_polled_with(before, after, polled, cx, due_time, report_time);
    let reported = before@.with_polled(polled.event, due_time);
    let gap = QueuedGap { round, due_time };
    let now = after.last_reading();
    reported_gaps_are_known(before@, gaps, due_time);
    assert(reported.known.contains(round));
    new_gaps_are_queued(before@, gaps, due_time, round);
    rounds_join_the_queue(before@.queued, unknown(gap_rounds(gaps), before@.known), due_time);
    let fill = polled.fill->0;
    let n = fill.started@.len() as int;
    let i = choose|i: int| 0 <= i < reported.queued.len() && reported.queued[i] == gap;
    let size = choose|size: usize|
        {
            &&& call_ensures(C::batch_size, (&after.config(),), size)
            &&& #[trigger] is_filled_at(
                after.decorated(),
                after.config(),
                cx,
                reported,
                after@,
                fill,
                now,
                size,
            )
        };
    if i < n {
        assert(reported.queued.take(n)[i] == gap);
        assert(fill.started@[i] == round);
    } else {
        assert(after@.queued[i - n] == gap);
        due_gaps_wait_for_a_place(reported, after@, fill, now, size, i - n);
    }
}

} // verus!
