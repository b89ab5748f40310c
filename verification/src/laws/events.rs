//! What a node makes of the events that it hears of.

use vstd::prelude::*;

use crate::laws::{due_at, reported_gaps_are_known, rounds_join_the_queue};
use crate::model::{gap_rounds, range_rounds, unknown, Filling};
use crate::node::{Event, Gap, NodeStatus, Poll};
use crate::queue::{in_due_order, QueuedGap, RoundNum};
use crate::time::Instant;

verus! {

/// A range holds the rounds from its start up to, and not including, its end, in
/// order and each once.
pub proof fn ranges_hold_their_rounds(range: std::ops::Range<RoundNum>, round: RoundNum)
    ensures
        range_rounds(range).contains(round) <==> range.start <= round < range.end,
        range_rounds(range).no_duplicates(),
        range_rounds(range).len() == (if range.start < range.end {
            range.end - range.start
        } else {
            0
        }),
        forall|i: int|
            0 <= i < range_rounds(range).len() ==> #[trigger] range_rounds(range)[i] == range.start
                + i,
{
    if range.start <= round < range.end {
        assert(range_rounds(range)[round - range.start] == round);
    }
}

/// A report holds exactly the rounds that lie in one of its ranges.
pub proof fn reports_hold_the_rounds_of_their_ranges(gaps: Seq<Gap>, round: RoundNum)
    ensures
        gap_rounds(gaps).contains(round) <==> exists|i: int|
            0 <= i < gaps.len() && (#[trigger] gaps[i]).rounds.start <= round
                < gaps[i].rounds.end,
    decreases gaps.len(),
{
    if gaps.len() > 0 {
        let fewer = gaps.drop_last();
        let front = gap_rounds(fewer);
        let back = range_rounds(gaps.last().rounds);
        reports_hold_the_rounds_of_their_ranges(fewer, round);
        ranges_hold_their_rounds(gaps.last().rounds, round);
        if front.contains(round) {
            let k = choose|k: int| 0 <= k < front.len() && front[k] == round;
            assert((front + back)[k] == round);
            let i = choose|i: int|
                0 <= i < fewer.len() && (#[trigger] fewer[i]).rounds.start <= round
                    < fewer[i].rounds.end;
            assert(gaps[i] == fewer[i]);
        }
        if back.contains(round) {
            let k = choose|k: int| 0 <= k < back.len() && back[k] == round;
            assert((front + back)[front.len() + k] == round);
            assert(gaps[gaps.len() - 1] == gaps.last());
        }
        if gap_rounds(gaps).contains(round) {
            let k = choose|k: int| 0 <= k < (front + back).len() && (front + back)[k] == round;
            if k < front.len() {
                assert(front[k] == round);
            } else {
                assert(back[k - front.len()] == round);
            }
        }
        if exists|i: int|
            0 <= i < gaps.len() && (#[trigger] gaps[i]).rounds.start <= round
                < gaps[i].rounds.end {
            let i = choose|i: int|
                0 <= i < gaps.len() && (#[trigger] gaps[i]).rounds.start <= round
                    < gaps[i].rounds.end;
            if i < fewer.len() {
                assert(fewer[i] == gaps[i]);
            }
        }
    }
}

/// A report holds a round as often as there are ranges in which it lies.
pub proof fn reports_hold_rounds_once_for_each_range(gaps: Seq<Gap>, round: RoundNum)
    ensures
        gap_rounds(gaps).to_multiset().count(round) == gaps.filter(
            |gap: Gap| gap.rounds.start <= round < gap.rounds.end,
        ).len(),
    decreases gaps.len(),
{
    broadcast use vstd::seq_lib::group_to_multiset_ensures;

    reveal(Seq::filter);
    if gaps.len() > 0 {
        let back = range_rounds(gaps.last().rounds);
        reports_hold_rounds_once_for_each_range(gaps.drop_last(), round);
        ranges_hold_their_rounds(gaps.last().rounds, round);
        vstd::seq_lib::lemma_multiset_commutative(gap_rounds(gaps.drop_last()), back);
        back.lemma_multiset_has_no_duplicates();
        assert(back.contains(round) <==> back.to_multiset().contains(round));
    }
}

/// The rounds of two reports, one behind the other, are those of the first and
/// then those of the second.
pub proof fn reports_are_read_in_order(first: Seq<Gap>, second: Seq<Gap>)
    ensures
        gap_rounds(first + second) == gap_rounds(first) + gap_rounds(second),
    decreases second.len(),
{
    if second.len() == 0 {
        assert(first + second =~= first);
        assert(gap_rounds(first) + gap_rounds(second) =~= gap_rounds(first));
    } else {
        reports_are_read_in_order(first, second.drop_last());
        assert((first + second).drop_last() =~= first + second.drop_last());
        assert(gap_rounds(first + second) =~= gap_rounds(first) + gap_rounds(second));
    }
}

/// Of the rounds of a report, those that are known are skipped and all others kept,
/// each as often as the report holds it.
pub proof fn only_known_rounds_are_skipped(
    rounds: Seq<RoundNum>,
    known: Set<RoundNum>,
    round: RoundNum,
)
    ensures
        unknown(rounds, known).to_multiset().count(round) == (if known.contains(round) {
            0
        } else {
            rounds.to_multiset().count(round)
        }),
    decreases rounds.len(),
{
    broadcast use vstd::seq_lib::group_to_multiset_ensures;

    reveal(Seq::filter);
    if rounds.len() > 0 {
        only_known_rounds_are_skipped(rounds.drop_last(), known, round);
        assert(rounds =~= rounds.drop_last().push(rounds.last()));
    }
}

/// A queue is in order exactly if every gap in it is due before those behind it, or
/// at the same time and for a round that is not later.
pub proof fn queues_are_in_order_of_time_and_round(gaps: Seq<QueuedGap>)
    ensures
        in_due_order(gaps) <==> forall|i: int, j: int|
            #![trigger gaps[i], gaps[j]]
            0 <= i < j < gaps.len() ==> gaps[i].due_time.nanos < gaps[j].due_time.nanos || (
            gaps[i].due_time.nanos == gaps[j].due_time.nanos && gaps[i].round <= gaps[j].round),
{
    if in_due_order(gaps) {
        assert forall|i: int, j: int|
            #![trigger gaps[i], gaps[j]]
            0 <= i < j < gaps.len() implies gaps[i].due_time.nanos < gaps[j].due_time.nanos || (
        gaps[i].due_time.nanos == gaps[j].due_time.nanos && gaps[i].round <= gaps[j].round) by {
            assert(!gaps[j].precedes(gaps[i]));
        }
    }
}

/// Which gaps a node knows of after it has taken note of gaps: those that it knew
/// of, and those that lie in one of the reported ranges.
pub proof fn reports_add_to_what_is_known(
    before: Filling,
    gaps: Seq<Gap>,
    due_time: Instant,
    round: RoundNum,
)
    ensures
        before.with_gaps(gaps, due_time).known.contains(round) <==> before.known.contains(round) || (
        exists|i: int|
            0 <= i < gaps.len() && (#[trigger] gaps[i]).rounds.start <= round
                < gaps[i].rounds.end),
        before.with_gaps(gaps, due_time).disoriented == before.disoriented,
        before.with_gaps(gaps, due_time).corner == before.corner,
        before.with_gaps(gaps, due_time).in_flight == before.in_flight,
        before.with_gaps(gaps, due_time).timer == before.timer,
{
    reported_gaps_are_known(before, gaps, due_time);
    reports_hold_the_rounds_of_their_ranges(gaps, round);
}

/// What a report of gaps adds to the queue: a round that was not known, for the due
/// time, as often as there are ranges in which it lies. All that waited waits still,
/// and the queue is in order.
pub proof fn reports_add_to_the_queue(
    before: Filling,
    gaps: Seq<Gap>,
    due_time: Instant,
    gap: QueuedGap,
)
    requires
        in_due_order(before.queued),
    ensures
        before.with_gaps(gaps, due_time).queued.to_multiset().count(gap)
            == before.queued.to_multiset().count(gap) + (if gap.due_time == due_time
            && !before.known.contains(gap.round) {
            gaps.filter(|g: Gap| g.rounds.start <= gap.round < g.rounds.end).len()
        } else {
            0
        }),
        in_due_order(before.with_gaps(gaps, due_time).queued),
{
    let rounds = unknown(gap_rounds(gaps), before.known);
    rounds_join_the_queue(before.queued, rounds, due_time);
    reports_hold_rounds_once_for_each_range(gaps, gap.round);
    only_known_rounds_are_skipped(gap_rounds(gaps), before.known, gap.round);
    rounds_are_due_at_the_time(rounds, due_time, gap);
}

proof fn rounds_are_due_at_the_time(rounds: Seq<RoundNum>, due_time: Instant, gap: QueuedGap)
    ensures
        due_at(rounds, due_time).to_multiset().count(gap) == (if gap.due_time == due_time {
            rounds.to_multiset().count(gap.round)
        } else {
            0
        }),
    decreases rounds.len(),
{
    broadcast use vstd::seq_lib::group_to_multiset_ensures;

    if rounds.len() == 0 {
        assert(due_at(rounds, due_time) =~= Seq::empty());
    } else {
        let fewer = rounds.drop_last();
        rounds_are_due_at_the_time(fewer, due_time, gap);
        assert(rounds =~= fewer.push(rounds.last()));
        assert(due_at(rounds, due_time) =~= due_at(fewer, due_time).push(
            QueuedGap { round: rounds.last(), due_time },
        ));
    }
}

/// Which gaps a node knows of after an event. A report adds the rounds of its
/// ranges, and an applied round is forgotten. All are forgotten when the node is
/// reported to be disoriented or a snapshot is installed. Nothing else changes what
/// is known.
pub proof fn events_change_what_is_known<D>(
    before: Filling,
    event: Event<D>,
    due_time: Instant,
    round: RoundNum,
)
    ensures
        before.with_event(event, due_time).known.contains(round) <==> match event {
            Event::Init { status, .. } => before.known.contains(round) && status
                != NodeStatus::Disoriented,
            Event::StatusChange { new_status, .. } => before.known.contains(round) && new_status
                != NodeStatus::Disoriented,
            Event::Install { .. } => false,
            Event::Gaps { gaps, .. } => before.known.contains(round) || exists|i: int|
                0 <= i < gaps@.len() && (#[trigger] gaps@[i]).rounds.start <= round
                    < gaps@[i].rounds.end,
            Event::Apply { round: applied, .. } => before.known.contains(round) && applied != round,
            Event::Other(_) => before.known.contains(round),
        },
{
    if let Event::Gaps { gaps, .. } = event {
        reports_add_to_what_is_known(before, gaps@, due_time, round);
    }
}

/// Only a report of its status changes whether a node counts as disoriented: it
/// does exactly if that is the status. Of five statuses, four have it fill gaps.
pub proof fn only_a_status_disorients<D>(before: Filling, event: Event<D>, due_time: Instant)
    ensures
        before.with_event(event, due_time).disoriented <==> match event {
            Event::Init { status, .. } => status == NodeStatus::Disoriented,
            Event::StatusChange { new_status, .. } => new_status == NodeStatus::Disoriented,
            Event::Install { .. } => before.disoriented,
            Event::Gaps { .. } => before.disoriented,
            Event::Apply { .. } => before.disoriented,
            Event::Other(_) => before.disoriented,
        },
        before.with_status(NodeStatus::Disoriented).disoriented,
        !before.with_status(NodeStatus::Stalled).disoriented,
        !before.with_status(NodeStatus::Lagging).disoriented,
        !before.with_status(NodeStatus::Following).disoriented,
        !before.with_status(NodeStatus::Leading).disoriented,
{
}

/// Which gaps wait after an event. A report adds each round that was not known, for
/// the due time, as often as there are ranges in which it lies. None waits any more
/// when the node is reported to be disoriented or a snapshot is installed. All other
/// events leave the queue as it is, also the one that a round has been applied.
pub proof fn events_change_what_waits<D>(
    before: Filling,
    event: Event<D>,
    due_time: Instant,
    gap: QueuedGap,
)
    requires
        in_due_order(before.queued),
    ensures
        match event {
            Event::Init { status, .. } => before.with_event(event, due_time).queued == (if status
                == NodeStatus::Disoriented {
                Seq::empty()
            } else {
                before.queued
            }),
            Event::StatusChange { new_status, .. } => before.with_event(event, due_time).queued == (
            if new_status == NodeStatus::Disoriented {
                Seq::empty()
            } else {
                before.queued
            }),
            Event::Install { .. } => before.with_event(event, due_time).queued.len() == 0,
            Event::Gaps { gaps, .. } => before.with_event(
                event,
                due_time,
            ).queued.to_multiset().count(gap) == before.queued.to_multiset().count(gap) + (
            if gap.due_time == due_time && !before.known.contains(gap.round) {
                gaps@.filter(|g: Gap| g.rounds.start <= gap.round < g.rounds.end).len()
            } else {
                0
            }),
            Event::Apply { .. } => before.with_event(event, due_time).queued == before.queued,
            Event::Other(_) => before.with_event(event, due_time).queued == before.queued,
        },
        in_due_order(before.with_event(event, due_time).queued),
{
    if let Event::Gaps { gaps, .. } = event {
        reports_add_to_the_queue(before, gaps@, due_time, gap);
    }
}

/// Polling a node takes note of the event that it is ready with, and of nothing if
/// it is ready with none. Either way the appends that are under way, the places that
/// are blocked and the timer are left as they are.
pub proof fn polls_take_note_of_events<D>(before: Filling, event: Event<D>, due_time: Instant)
    ensures
        before.with_polled(Poll::Ready(event), due_time) == before.with_event(event, due_time),
        before.with_polled(Poll::<Event<D>>::Pending, due_time) == before,
        before.with_event(event, due_time).in_flight == before.in_flight,
        before.with_event(event, due_time).corner == before.corner,
        before.with_event(event, due_time).timer == before.timer,
{
}

/// A node that has just been decorated is oriented, knows of no gaps and has none
/// waiting, and nothing is under way, blocked or timed.
pub proof fn nodes_begin_with_nothing()
    ensures
        !Filling::initial().disoriented,
        forall|round: RoundNum| !(#[trigger] Filling::initial().known.contains(round)),
        Filling::initial().queued.len() == 0,
        Filling::initial().corner.len() == 0,
        Filling::initial().in_flight.len() == 0,
        Filling::initial().timer is None,
{
}

} // verus!
