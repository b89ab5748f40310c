//! What follows, over many polls, from the events that a node has heard of.

use std::task::Context;

use vstd::prelude::*;

use crate::appends::is_drained;
use crate::autofill::{is_filled_at, is_polled, Autofill, Polled};
use crate::config::Config;
use crate::laws::events::{
    events_change_what_is_known, nodes_begin_with_nothing, only_a_status_disorients,
};
use crate::laws::fills::{
    batches_are_used_and_not_exceeded, due_gaps_leave_the_queue, known_gaps_are_looked_after,
    polls_note_and_fill,
};
use crate::laws::is_history;
use crate::node::{Event, Log, NodeStatus, Poll};
use crate::queue::RoundNum;

verus! {

/// A node knows of a gap exactly if a poll has reported it, in one of the reported
/// ranges, and since then neither its round has been applied nor the node been
/// reported to be disoriented nor a snapshot been installed.
pub proof fn gaps_are_known_from_their_report_on<
    N: Log<C::Applicable, C::RetryPolicy>,
    C: Config<Node = N>,
>(
    nodes: Seq<Autofill<N, C>>,
    polls: Seq<Polled<N::EventDetails>>,
    contexts: Seq<Context<'_>>,
    n: int,
    round: RoundNum,
)
    requires
        is_history(nodes, polls, contexts),
        0 <= n <= polls.len(),
    ensures
        nodes[n]@.known.contains(round) <==> exists|j: int|
            {
                &&& 0 <= j < n
                &&& (#[trigger] polls[j]).event matches Poll::Ready(Event::Gaps { gaps, .. })
                    && exists|g: int|
                    0 <= g < gaps@.len() && (#[trigger] gaps@[g]).rounds.start <= round
                        < gaps@[g].rounds.end
                &&& forall|k: int|
                    j < k < n ==> match (#[trigger] polls[k]).event {
                        Poll::Ready(Event::Init { status, .. }) => status
                            != NodeStatus::Disoriented,
                        Poll::Ready(Event::StatusChange { new_status, .. }) => new_status
                            != NodeStatus::Disoriented,
                        Poll::Ready(Event::Install { .. }) => false,
                        Poll::Ready(Event::Apply { round: applied, .. }) => applied != round,
                        _ => true,
                    }
            },
{
    known_from_a_report_on(nodes, polls, contexts, n, round);
    if nodes[n]@.known.contains(round) {
        let j = choose|j: int| is_known_since(polls, round, j, n);
        assert(polls[j].event is Ready);
        assert forall|k: int| j < k < n implies match (#[trigger] polls[k]).event {
            Poll::Ready(Event::Init { status, .. }) => status != NodeStatus::Disoriented,
            Poll::Ready(Event::StatusChange { new_status, .. }) => new_status
                != NodeStatus::Disoriented,
            Poll::Ready(Event::Install { .. }) => false,
            Poll::Ready(Event::Apply { round: applied, .. }) => applied != round,
            _ => true,
        } by {
            assert(keeps(polls[k].event, round));
        }
    }
    assert forall|j: int|
        {
            &&& 0 <= j < n
            &&& (#[trigger] polls[j]).event matches Poll::Ready(Event::Gaps { gaps, .. })
                && exists|g: int|
                0 <= g < gaps@.len() && (#[trigger] gaps@[g]).rounds.start <= round
                    < gaps@[g].rounds.end
            &&& forall|k: int|
                j < k < n ==> match (#[trigger] polls[k]).event {
                    Poll::Ready(Event::Init { status, .. }) => status != NodeStatus::Disoriented,
                    Poll::Ready(Event::StatusChange { new_status, .. }) => new_status
                        != NodeStatus::Disoriented,
                    Poll::Ready(Event::Install { .. }) => false,
                    Poll::Ready(Event::Apply { round: applied, .. }) => applied != round,
                    _ => true,
                }
        } implies nodes[n]@.known.contains(round) by {
        assert(reports(polls[j].event, round));
        assert(is_known_since(polls, round, j, n));
    }
}

/// The event reports the round.
spec fn reports<D>(event: Poll<Event<D>>, round: RoundNum) -> bool {
    event matches Poll::Ready(Event::Gaps { gaps, .. }) && exists|g: int|
        0 <= g < gaps@.len() && (#[trigger] gaps@[g]).rounds.start <= round < gaps@[g].rounds.end
}

/// The event leaves the round known.
spec fn keeps<D>(event: Poll<Event<D>>, round: RoundNum) -> bool {
    match event {
        Poll::Ready(Event::Init { status, .. }) => status != NodeStatus::Disoriented,
        Poll::Ready(Event::StatusChange { new_status, .. }) => new_status
            != NodeStatus::Disoriented,
        Poll::Ready(Event::Install { .. }) => false,
        Poll::Ready(Event::Apply { round: applied, .. }) => applied != round,
        _ => true,
    }
}

/// The poll `j` has reported the round, and the others of the first `n` have left it
/// known.
spec fn is_known_since<D>(polls: Seq<Polled<D>>, round: RoundNum, j: int, n: int) -> bool {
    &&& 0 <= j < n
    &&& reports(polls[j].event, round)
    &&& forall|k: int| j < k < n ==> keeps((#[trigger] polls[k]).event, round)
}

proof fn known_from_a_report_on<N: Log<C::Applicable, C::RetryPolicy>, C: Config<Node = N>>(
    nodes: Seq<Autofill<N, C>>,
    polls: Seq<Polled<N::EventDetails>>,
    contexts: Seq<Context<'_>>,
    n: int,
    round: RoundNum,
)
    requires
        is_history(nodes, polls, contexts),
        0 <= n <= polls.len(),
    ensures
        nodes[n]@.known.contains(round) <==> exists|j: int| is_known_since(polls, round, j, n),
    decreases n,
{
    if n == 0 {
        nodes_begin_with_nothing();
    } else {
        let m = n - 1;
        let polled = polls[m];
        assert(is_polled(nodes[m], nodes[n], polled, contexts[m]));
        known_from_a_report_on(nodes, polls, contexts, m, round);
        known_after_a_poll(nodes[m], nodes[n], polled, contexts[m], round);
        assert(nodes[n]@.known.contains(round) <==> reports(polled.event, round) || (
        nodes[m]@.known.contains(round) && keeps(polled.event, round)));
        if nodes[n]@.known.contains(round) {
            if reports(polled.event, round) {
                assert(is_known_since(polls, round, m, n));
            } else {
                let j = choose|j: int| is_known_since(polls, round, j, m);
                assert(is_known_since(polls, round, j, n));
            }
        }
        if exists|j: int| is_known_since(polls, round, j, n) {
            let j = choose|j: int| is_known_since(polls, round, j, n);
            if j < m {
                assert(keeps(polls[m].event, round));
                assert(is_known_since(polls, round, j, m));
            }
        }
    }
}

/// What one poll does to what is known.
proof fn known_after_a_poll<N: Log<C::Applicable, C::RetryPolicy>, C: Config<Node = N>>(
    before: Autofill<N, C>,
    after: Autofill<N, C>,
    polled: Polled<N::EventDetails>,
    cx: Context<'_>,
    round: RoundNum,
)
    requires
        is_polled(before, after, polled, cx),
    ensures
        after@.known.contains(round) <==> match polled.event {
            Poll::Ready(Event::Init { status, .. }) => before@.known.contains(round) && status
                != NodeStatus::Disoriented,
            Poll::Ready(Event::StatusChange { new_status, .. }) => before@.known.contains(round)
                && new_status != NodeStatus::Disoriented,
            Poll::Ready(Event::Install { .. }) => false,
            Poll::Ready(Event::Gaps { gaps, .. }) => before@.known.contains(round) || exists|g: int|
                0 <= g < gaps@.len() && (#[trigger] gaps@[g]).rounds.start <= round
                    < gaps@[g].rounds.end,
            Poll::Ready(Event::Apply { round: applied, .. }) => before@.known.contains(round)
                && applied != round,
            _ => before@.known.contains(round),
        },
        after@.disoriented <==> match polled.event {
            Poll::Ready(Event::Init { status, .. }) => status == NodeStatus::Disoriented,
            Poll::Ready(Event::StatusChange { new_status, .. }) => new_status
                == NodeStatus::Disoriented,
            _ => before@.disoriented,
        },
{
    let (due_time, _) = polls_note_and_fill(before, after, polled, cx);
    if let Poll::Ready(event) = polled.event {
        events_change_what_is_known(before@, event, due_time, round);
        only_a_status_disorients(before@, event, due_time);
    }
    if let Some(fill) = polled.fill {
        let reported = before@.with_polled(polled.event, due_time);
        let size = choose|size: usize|
            {
                &&& call_ensures(C::batch_size, (&after.config(),), size)
                &&& #[trigger] is_filled_at(
                    after.decorated(),
                    after.config(),
                    cx,
                    reported,
                    after@,
                    fill,
                    after.last_reading(),
                    size,
                )
            };
        due_gaps_leave_the_queue(reported, after@, fill, after.last_reading(), size);
    }
}

/// A node counts as disoriented exactly if that is the last status that a poll has
/// reported of it.
pub proof fn nodes_are_disoriented_by_their_last_status<
    N: Log<C::Applicable, C::RetryPolicy>,
    C: Config<Node = N>,
>(
    nodes: Seq<Autofill<N, C>>,
    polls: Seq<Polled<N::EventDetails>>,
    contexts: Seq<Context<'_>>,
    n: int,
)
    requires
        is_history(nodes, polls, contexts),
        0 <= n <= polls.len(),
    ensures
        nodes[n]@.disoriented <==> exists|j: int|
            {
                &&& 0 <= j < n
                &&& match (#[trigger] polls[j]).event {
                    Poll::Ready(Event::Init { status, .. }) => status == NodeStatus::Disoriented,
                    Poll::Ready(Event::StatusChange { new_status, .. }) => new_status
                        == NodeStatus::Disoriented,
                    _ => false,
                }
                &&& forall|k: int|
                    j < k < n ==> !((#[trigger] polls[k]).event matches Poll::Ready(Event::Init {
                        ..
                    })) && !(polls[k].event matches Poll::Ready(Event::StatusChange { .. }))
            },
    decreases n,
{
    if n == 0 {
        nodes_begin_with_nothing();
    } else {
        let before = nodes[n - 1];
        let after = nodes[n];
        let polled = polls[n - 1];
        assert(is_polled(before, after, polled, contexts[n - 1]));
        nodes_are_disoriented_by_their_last_status(nodes, polls, contexts, n - 1);
        known_after_a_poll(before, after, polled, contexts[n - 1], 0);
        if after@.disoriented {
            match polled.event {
                Poll::Ready(Event::Init { .. }) => {},
                Poll::Ready(Event::StatusChange { .. }) => {},
                _ => {
                    let j = choose|j: int|
                        {
                            &&& 0 <= j < n - 1
                            &&& match (#[trigger] polls[j]).event {
                                Poll::Ready(Event::Init { status, .. }) => status
                                    == NodeStatus::Disoriented,
                                Poll::Ready(Event::StatusChange { new_status, .. }) => new_status
                                    == NodeStatus::Disoriented,
                                _ => false,
                            }
                            &&& forall|k: int|
                                j < k < n - 1 ==> !((#[trigger] polls[k]).event matches Poll::Ready(
                                    Event::Init { .. },
                                )) && !(polls[k].event matches Poll::Ready(
                                    Event::StatusChange { .. },
                                ))
                        };
                    assert(polls[j].event is Ready);
                },
            }
        }
    }
}

/// Appends are looked after until their gaps are closed: as long as a gap that the
/// poll `j` has reported is not applied and nothing has the node start afresh, every
/// poll `i` from then on fills gaps, and so polls the appends that are under way,
/// unless the node was disoriented when the gap was reported and no other status
/// has been reported since.
pub proof fn reported_gaps_are_looked_after<
    N: Log<C::Applicable, C::RetryPolicy>,
    C: Config<Node = N>,
>(
    nodes: Seq<Autofill<N, C>>,
    polls: Seq<Polled<N::EventDetails>>,
    contexts: Seq<Context<'_>>,
    j: int,
    i: int,
    round: RoundNum,
)
    requires
        is_history(nodes, polls, contexts),
        0 <= j <= i < polls.len(),
        polls[j].event matches Poll::Ready(Event::Gaps { gaps, .. }) && exists|g: int|
            0 <= g < gaps@.len() && (#[trigger] gaps@[g]).rounds.start <= round
                < gaps@[g].rounds.end,
        forall|k: int|
            j < k <= i ==> match (#[trigger] polls[k]).event {
                Poll::Ready(Event::Init { status, .. }) => status != NodeStatus::Disoriented,
                Poll::Ready(Event::StatusChange { new_status, .. }) => new_status
                    != NodeStatus::Disoriented,
                Poll::Ready(Event::Install { .. }) => false,
                Poll::Ready(Event::Apply { round: applied, .. }) => applied != round,
                _ => true,
            },
        !nodes[j]@.disoriented || exists|k: int|
            j < k <= i && ((#[trigger] polls[k]).event matches Poll::Ready(Event::Init { .. })
                || polls[k].event matches Poll::Ready(Event::StatusChange { .. })),
    ensures
        polls[i].fill is Some,
        is_drained(nodes[i + 1]@.in_flight, contexts[i]),
{
    gaps_are_known_from_their_report_on(nodes, polls, contexts, i + 1, round);
    assert(polls[j].event is Ready);
    assert(nodes[i + 1]@.known.contains(round));
    nodes_are_disoriented_by_their_last_status(nodes, polls, contexts, i + 1);
    nodes_are_disoriented_by_their_last_status(nodes, polls, contexts, j);
    assert(is_polled(nodes[i], nodes[i + 1], polls[i], contexts[i]));
    known_gaps_are_looked_after(nodes[i], nodes[i + 1], polls[i], contexts[i]);
    if nodes[i + 1]@.disoriented {
        let d = choose|d: int|
            {
                &&& 0 <= d < i + 1
                &&& match (#[trigger] polls[d]).event {
                    Poll::Ready(Event::Init { status, .. }) => status == NodeStatus::Disoriented,
                    Poll::Ready(Event::StatusChange { new_status, .. }) => new_status
                        == NodeStatus::Disoriented,
                    _ => false,
                }
                &&& forall|k: int|
                    d < k < i + 1 ==> !((#[trigger] polls[k]).event matches Poll::Ready(
                        Event::Init { .. },
                    )) && !(polls[k].event matches Poll::Ready(Event::StatusChange { .. }))
            };
        assert(polls[d].event is Ready);
        assert(d < j);
    }
}

/// Under a configuration that asks for batches of `batch_size`, no more appends than
/// that are ever under way and no place is blocked. After a poll that has filled
/// gaps, every gap that waits is due later than that, unless the batch is full.
pub proof fn batches_are_kept_full<N: Log<C::Applicable, C::RetryPolicy>, C: Config<Node = N>>(
    nodes: Seq<Autofill<N, C>>,
    polls: Seq<Polled<N::EventDetails>>,
    contexts: Seq<Context<'_>>,
    n: int,
    batch_size: usize,
)
    requires
        is_history(nodes, polls, contexts),
        0 <= n <= polls.len(),
        forall|i: int, size: usize|
            0 <= i < polls.len() && #[trigger] call_ensures(
                C::batch_size,
                (&nodes[i].config(),),
                size,
            ) ==> size == batch_size,
        forall|size: usize|
            #[trigger] call_ensures(C::batch_size, (&nodes[n].config(),), size) ==> size
                == batch_size,
    ensures
        nodes[n]@.in_flight.len() <= batch_size,
        nodes[n]@.corner.len() == 0,
        n > 0 && polls[n - 1].fill is Some ==> nodes[n]@.in_flight.len() == batch_size || forall|
            i: int,
        |
            0 <= i < nodes[n]@.queued.len() ==> (#[trigger] nodes[n]@.queued[i]).due_time.nanos
                > nodes[n].last_reading().nanos,
    decreases n,
{
    if n == 0 {
        nodes_begin_with_nothing();
    } else {
        let before = nodes[n - 1];
        let after = nodes[n];
        let polled = polls[n - 1];
        let cx = contexts[n - 1];
        assert(is_polled(before, after, polled, cx));
        batches_are_kept_full(nodes, polls, contexts, n - 1, batch_size);
        let (due_time, _) = polls_note_and_fill(before, after, polled, cx);
        if let Some(fill) = polled.fill {
            let reported = before@.with_polled(polled.event, due_time);
            let now = after.last_reading();
            let size = choose|size: usize|
                {
                    &&& call_ensures(C::batch_size, (&after.config(),), size)
                    &&& #[trigger] is_filled_at(
                        after.decorated(),
                        after.config(),
                        cx,
                        reported,
                        after@,
                        fill,
                        now,
                        size,
                    )
                };
            due_gaps_leave_the_queue(reported, after@, fill, now, size);
            batches_are_used_and_not_exceeded(reported, after@, fill, now, size);
            let queued = after@.queued;
            if after@.in_flight.len() < batch_size {
                assert forall|i: int| 0 <= i < queued.len() implies (
                #[trigger] queued[i]).due_time.nanos > now.nanos by {
                    if i > 0 {
                        assert(!queued[i].precedes(queued[0]));
                    }
                }
            }
        }
    }
}

} // verus!
