//! The decoration that fills gaps.

use std::collections::HashSet;
use std::collections::VecDeque;
use std::ops::RangeInclusive;
use std::task::Context;

use futures_timer::Delay;
use vstd::multiset::Multiset;
use vstd::prelude::*;

use crate::appends::{
    has_joined, in_flight, is_drained, is_handed_out, rounds_of, Appends, Outcome,
};
use crate::config::Config;
use crate::model::{gap_rounds, queued_rounds, range_rounds, room, unexpired, unknown, Fill, Filling};
use crate::node::{
    AppendArgs, ApplicableTo, Decoration, Event, Gap, Importance, Log, LogImpl, Node, NodeImpl,
    NodeStatus, Peeryness, Poll, RetryPolicy, SpawnError,
};
use crate::queue::{enqueue_all, in_due_order, GapQueue, QueuedGap, RoundNum};
use crate::run::{
    continue_with_ends, continue_with_starts, end_steps, ends, leads_to, runs_balance, start_steps,
    under_way, Step,
};
use crate::time::{is_after, is_start, was_shown, Clock, Duration, Instant};
use crate::wake::{arrange, is_arranged, Wake};

verus! {

broadcast use vstd::std_specs::hash::group_hash_axioms;

/// Autofill decoration.
#[derive(Debug)]
pub struct Autofill<N: Node, C> {
    decorated: N,
    config: C,
    disoriented: bool,
    known_gaps: HashSet<RoundNum>,
    queued_gaps: GapQueue,
    timer: Option<Delay>,
    time_out_corner: VecDeque<Instant>,
    appends: Appends,
    clock: Clock,
}

impl<N: Node, C> View for Autofill<N, C> {
    type V = Filling;

    closed spec fn view(&self) -> Filling {
        Filling {
            disoriented: self.disoriented,
            known: self.known_gaps@,
            queued: self.queued_gaps@,
            corner: self.time_out_corner@,
            in_flight: in_flight(self.appends),
            timer: self.timer,
        }
    }
}

impl<N: Node, C> Autofill<N, C> {
    /// The node that is decorated.
    pub closed spec fn decorated(self) -> N {
        self.decorated
    }

    /// The configuration.
    pub closed spec fn config(self) -> C {
        self.config
    }

    /// What the clock counts from by which gaps are due.
    pub closed spec fn origin(self) -> std::time::Instant {
        self.clock.origin()
    }

    /// The last reading of the clock by which gaps are due.
    pub closed spec fn last_reading(self) -> Instant {
        self.clock.last()
    }

    /// The clock by which gaps are due counts from a reading of the system's
    /// monotonic clock.
    pub open spec fn is_clock_started(self) -> bool {
        is_start(self.origin())
    }

    /// The node within, the configuration and the clock are the same.
    pub open spec fn has_parts_of(self, other: Self) -> bool {
        &&& self.decorated() == other.decorated()
        &&& self.config() == other.config()
        &&& self.origin() == other.origin()
    }

    /// The node within, the configuration and the clock are the same, and the clock
    /// has not been read.
    pub open spec fn is_set_up_like(self, other: Self) -> bool {
        &&& self.has_parts_of(other)
        &&& self.last_reading() == other.last_reading()
    }
}

/// The arguments by which a gap is filled: in its round alone, and without
/// contending with other nodes.
pub open spec fn is_filling<R>(args: AppendArgs<R>, round: RoundNum) -> bool {
    &&& args.round@.start == round
    &&& args.round@.end == round
    &&& !args.round@.exhausted
    &&& args.importance == Importance::MaintainLeadership(Peeryness::Peery)
}

/// An append for the round has been handed to the node: a filler and a retry
/// policy of the configuration, in the round alone, without contending. What the
/// node has made of it has joined the appends that are under way, which were those
/// for `rounds`.
pub open spec fn append_initiated<N: Log<C::Applicable, C::RetryPolicy>, C: Config<Node = N>>(
    node: N,
    config: C,
    rounds: Multiset<RoundNum>,
    round: RoundNum,
) -> bool {
    exists|filler: C::Applicable, args: AppendArgs<C::RetryPolicy>, append: N::StaticAppend|
        {
            &&& call_ensures(C::new_filler, (&config,), filler)
            &&& call_ensures(C::retry_policy, (&config,), args.retry_policy)
            &&& is_filling(args, round)
            &&& #[trigger] call_ensures(
                <N as Log<C::Applicable, C::RetryPolicy>>::append_static,
                (&node, filler, args),
                append,
            )
            &&& has_joined::<N::Commit, N::StaticAppend>(rounds, round, append)
        }
}

/// `due_time` lies a delay of the configuration after `report_time`.
pub open spec fn is_delayed<C: Config>(
    config: C,
    due_time: Instant,
    report_time: Instant,
) -> bool {
    exists|delay: Duration|
        {
            &&& call_ensures(C::delay, (&config,), delay)
            &&& #[trigger] is_after(due_time, report_time, delay)
        }
}

/// The step `j` of a run that began with `in_flight` has been carried out. For a
/// start, an append has been handed to the node. For an end, the appends that were
/// under way have been polled with `cx` and have handed out the outcome.
pub open spec fn is_step_carried_out<N: Log<C::Applicable, C::RetryPolicy>, C: Config<Node = N>>(
    node: N,
    config: C,
    cx: Context<'_>,
    in_flight: Multiset<RoundNum>,
    steps: Seq<Step>,
    outcomes: Seq<Outcome>,
    j: int,
) -> bool {
    let rounds = under_way(in_flight, steps.take(j));
    match steps[j] {
        Step::Start(round) => append_initiated(node, config, rounds, round),
        Step::End(round) => {
            let i = ends(steps.take(j)).len() as int;
            &&& i < outcomes.len()
            &&& outcomes[i].round == round
            &&& is_handed_out(rounds, cx, outcomes[i])
        },
    }
}

/// All steps of a run that began with `in_flight` have been carried out.
pub open spec fn is_carried_out<N: Log<C::Applicable, C::RetryPolicy>, C: Config<Node = N>>(
    node: N,
    config: C,
    cx: Context<'_>,
    in_flight: Multiset<RoundNum>,
    steps: Seq<Step>,
    outcomes: Seq<Outcome>,
) -> bool {
    forall|j: int|
        0 <= j < steps.len() ==> #[trigger] is_step_carried_out(
            node,
            config,
            cx,
            in_flight,
            steps,
            outcomes,
            j,
        )
}

/// The steps are those by which gaps were filled, and have been carried out.
pub open spec fn is_run_of<N: Log<C::Applicable, C::RetryPolicy>, C: Config<Node = N>>(
    steps: Seq<Step>,
    node: N,
    config: C,
    cx: Context<'_>,
    before: Filling,
    after: Filling,
    fill: Fill,
    batch_size: usize,
) -> bool {
    &&& leads_to(
        steps,
        before.in_flight,
        after.in_flight,
        room(batch_size, after.corner),
        fill.started@,
        rounds_of(fill.outcomes@),
    )
    &&& is_carried_out(node, config, cx, before.in_flight, steps, fill.outcomes@)
}

/// Gaps were filled at the time `now` in batches of `batch_size`, which led from
/// `before` to `after` and to `fill`. Every append was handed to the node and every
/// outcome comes from polling the appends with `cx`. On return, they have no
/// further outcome, and the task of `cx` is woken when to look after the gaps
/// again.
pub open spec fn is_filled_at<N: Log<C::Applicable, C::RetryPolicy>, C: Config<Node = N>>(
    node: N,
    config: C,
    cx: Context<'_>,
    before: Filling,
    after: Filling,
    fill: Fill,
    now: Instant,
    batch_size: usize,
) -> bool {
    &&& before.filled_to(after, fill, now, batch_size)
    &&& exists|steps: Seq<Step>| #[trigger]
        is_run_of(steps, node, config, cx, before, after, fill, batch_size)
    &&& is_drained(after.in_flight, cx)
    &&& is_arranged(fill.wake, now, cx, before.timer, after.timer)
}

/// Gaps were filled at the time `now`, in batches of a size of the configuration.
pub open spec fn is_filled<N: Log<C::Applicable, C::RetryPolicy>, C: Config<Node = N>>(
    node: N,
    config: C,
    cx: Context<'_>,
    before: Filling,
    after: Filling,
    fill: Fill,
    now: Instant,
) -> bool {
    exists|batch_size: usize|
        {
            &&& call_ensures(C::batch_size, (&config,), batch_size)
            &&& #[trigger] is_filled_at(
                node,
                config,
                cx,
                before,
                after,
                fill,
                now,
                batch_size,
            )
        }
}

/// What polling a decorated node has led to.
#[derive(Debug)]
pub struct Polled<D> {
    /// The event of the node within.
    pub event: Poll<Event<D>>,
    /// What filling gaps has led to, if there was reason to fill any.
    pub fill: Option<Fill>,
}

/// An event of the node within and the filling of gaps after it have led from
/// `before` to `after` and to `polled`. The event was taken note of at
/// `report_time`; the gaps that it reports are due at `due_time`.
pub open spec fn is_polled_with<N: Log<C::Applicable, C::RetryPolicy>, C: Config<Node = N>>(
    before: Autofill<N, C>,
    after: Autofill<N, C>,
    polled: Polled<N::EventDetails>,
    cx: Context<'_>,
    due_time: Instant,
    report_time: Instant,
) -> bool {
    let reported = before@.with_polled(polled.event, due_time);
    // Gaps are due a configured delay after the clock is read.
    &&& match polled.event {
        Poll::Ready(Event::Gaps { .. }) => {
            &&& is_delayed(after.config(), due_time, report_time)
            &&& was_shown(before.origin(), report_time)
            &&& before.last_reading().nanos <= report_time.nanos
        },
        _ => report_time == before.last_reading(),
    }
    // Gaps are filled if there is reason to, at what the clock then reads.
    &&& match polled.fill {
        None => {
            &&& !reported.wants_filling()
            &&& after@ == reported
            &&& after.last_reading() == report_time
        },
        Some(fill) => {
            &&& reported.wants_filling()
            &&& was_shown(before.origin(), after.last_reading())
            &&& report_time.nanos <= after.last_reading().nanos
            &&& is_filled(
                after.decorated(),
                after.config(),
                cx,
                reported,
                after@,
                fill,
                after.last_reading(),
            )
        },
    }
}

/// An event of the node within and the filling of gaps after it have led from
/// `before` to `after` and to `polled`.
pub open spec fn is_polled<N: Log<C::Applicable, C::RetryPolicy>, C: Config<Node = N>>(
    before: Autofill<N, C>,
    after: Autofill<N, C>,
    polled: Polled<N::EventDetails>,
    cx: Context<'_>,
) -> bool {
    &&& exists|due_time: Instant, report_time: Instant|
        is_polled_with(before, after, polled, cx, due_time, report_time)
    // The queue is in order throughout, and the clock stays the same.
    &&& in_due_order(before@.queued)
    &&& in_due_order(after@.queued)
    &&& after.origin() == before.origin()
}

/// The arguments by which the gap in `round` is filled.
pub fn append_args<R>(round: RoundNum, retry_policy: R) -> (args: AppendArgs<R>)
    ensures
        is_filling(args, round),
        args.round@.start == round && args.round@.end == round && !args.round@.exhausted,
        args.importance == Importance::MaintainLeadership(Peeryness::Peery),
        args.retry_policy == retry_policy,
{
    AppendArgs {
        round: RangeInclusive::new(round, round),
        importance: Importance::MaintainLeadership(Peeryness::Peery),
        retry_policy,
    }
}

/// Drops the points in time up to the first one that is still to come.
pub fn expire(corner: &mut VecDeque<Instant>, now: Instant)
    ensures
        final(corner)@ == unexpired(old(corner)@, now),
{
    let ghost before = corner@;
    while corner.len() > 0 && corner[0].nanos <= now.nanos
        invariant
            unexpired(corner@, now) == unexpired(before, now),
        decreases corner@.len(),
    {
        let ghost front = corner@;
        corner.pop_front();
        assert(corner@ =~= front.skip(1));
    }
}

/// A run that has been carried out can be continued by starts that have been.
proof fn carry_out_starts<N: Log<C::Applicable, C::RetryPolicy>, C: Config<Node = N>>(
    node: N,
    config: C,
    cx: Context<'_>,
    in_flight: Multiset<RoundNum>,
    steps: Seq<Step>,
    outcomes: Seq<Outcome>,
    after: Multiset<RoundNum>,
    places: nat,
    started: Seq<RoundNum>,
    rounds: Seq<RoundNum>,
)
    requires
        is_carried_out(node, config, cx, in_flight, steps, outcomes),
        leads_to(steps, in_flight, after, places, started, rounds_of(outcomes)),
        rounds.len() > 0 ==> after.len() + rounds.len() <= places,
        forall|i: int|
            0 <= i < rounds.len() ==> append_initiated(
                node,
                config,
                after.add(rounds.take(i).to_multiset()),
                #[trigger] rounds[i],
            ),
    ensures
        is_carried_out(node, config, cx, in_flight, steps + start_steps(rounds), outcomes),
        leads_to(
            steps + start_steps(rounds),
            in_flight,
            after.add(rounds.to_multiset()),
            places,
            started + rounds,
            rounds_of(outcomes),
        ),
{
    let ended = rounds_of(outcomes);
    let longer = steps + start_steps(rounds);
    continue_with_starts(steps, in_flight, after, places, started, ended, rounds);
    assert forall|j: int| 0 <= j < longer.len() implies #[trigger] is_step_carried_out(
        node,
        config,
        cx,
        in_flight,
        longer,
        outcomes,
        j,
    ) by {
        if j < steps.len() {
            assert(is_step_carried_out(node, config, cx, in_flight, steps, outcomes, j));
            assert(longer.take(j) =~= steps.take(j));
        } else {
            let i = j - steps.len();
            continue_with_starts(steps, in_flight, after, places, started, ended, rounds.take(i));
            assert(longer.take(j) =~= steps + start_steps(rounds.take(i)));
            assert(longer[j] == Step::Start(rounds[i]));
        }
    }
}

/// A run that has been carried out can be continued by ends whose outcomes have
/// been handed out.
proof fn carry_out_ends<N: Log<C::Applicable, C::RetryPolicy>, C: Config<Node = N>>(
    node: N,
    config: C,
    cx: Context<'_>,
    in_flight: Multiset<RoundNum>,
    steps: Seq<Step>,
    outcomes: Seq<Outcome>,
    after: Multiset<RoundNum>,
    places: nat,
    started: Seq<RoundNum>,
    ended: Seq<Outcome>,
)
    requires
        is_carried_out(node, config, cx, in_flight, steps, outcomes),
        leads_to(steps, in_flight, after, places, started, rounds_of(outcomes)),
        rounds_of(ended).to_multiset().subset_of(after),
        forall|i: int|
            0 <= i < ended.len() ==> is_handed_out(
                after.sub(rounds_of(ended.take(i)).to_multiset()),
                cx,
                #[trigger] ended[i],
            ),
    ensures
        is_carried_out(
            node,
            config,
            cx,
            in_flight,
            steps + end_steps(rounds_of(ended)),
            outcomes + ended,
        ),
        leads_to(
            steps + end_steps(rounds_of(ended)),
            in_flight,
            after.sub(rounds_of(ended).to_multiset()),
            places,
            started,
            rounds_of(outcomes + ended),
        ),
{
    let rounds = rounds_of(ended);
    let earlier = rounds_of(outcomes);
    let longer = steps + end_steps(rounds);
    let all = outcomes + ended;
    assert(rounds_of(all) =~= earlier + rounds);
    continue_with_ends(steps, in_flight, after, places, started, earlier, rounds);
    assert forall|j: int| 0 <= j < longer.len() implies #[trigger] is_step_carried_out(
        node,
        config,
        cx,
        in_flight,
        longer,
        all,
        j,
    ) by {
        if j < steps.len() {
            assert(is_step_carried_out(node, config, cx, in_flight, steps, outcomes, j));
            assert(longer.take(j) =~= steps.take(j));
        } else {
            let i = j - steps.len();
            let some = rounds.take(i);
            assert(some =~= rounds_of(ended.take(i)));
            assert forall|r: RoundNum| some.to_multiset().count(r) <= after.count(r) by {
                assert(rounds =~= some + rounds.skip(i));
                vstd::seq_lib::lemma_multiset_commutative(some, rounds.skip(i));
                assert(rounds.to_multiset().count(r) <= after.count(r));
            }
            continue_with_ends(steps, in_flight, after, places, started, earlier, some);
            assert(longer.take(j) =~= steps + end_steps(some));
            assert(longer[j] == Step::End(rounds[i]));
            assert(all[(earlier + some).len() as int] == ended[i]);
        }
    }
}

impl<N: Log<C::Applicable, C::RetryPolicy>, C: Config<Node = N>> Autofill<N, C> {
    /// Hands an append for the round to the node within.
    fn initiate_append(&mut self, round_num: RoundNum)
        ensures
            final(self)@ == (Filling {
                in_flight: old(self)@.in_flight.insert(round_num),
                ..old(self)@
            }),
            final(self).is_set_up_like(*old(self)),
            append_initiated(
                old(self).decorated(),
                old(self).config(),
                old(self)@.in_flight,
                round_num,
            ),
    {
        let log_entry = self.config.new_filler();
        let args = append_args(round_num, self.config.retry_policy());
        let append = self.decorated.append_static(log_entry, args);
        self.appends.join(round_num, append);
    }

    /// Starts an append for the most urgent gap, over and over, as long as it is
    /// due and the batch has a place for it.
    fn start_due(&mut self, now: Instant, batch_size: usize, started: &mut Vec<RoundNum>)
        ensures
            ({
                let n = final(started)@.len() - old(started)@.len();
                let gaps = old(self)@.queued.take(n);
                &&& 0 <= n <= old(self)@.queued.len()
                &&& final(started)@ == old(started)@ + queued_rounds(gaps)
                &&& final(self)@ == Filling {
                    queued: old(self)@.queued.skip(n),
                    in_flight: old(self)@.in_flight.add(queued_rounds(gaps).to_multiset()),
                    ..old(self)@
                }
                &&& forall|i: int| 0 <= i < n ==> (#[trigger] gaps[i]).due_time.nanos <= now.nanos
                &&& forall|i: int|
                    0 <= i < n ==> append_initiated(
                        old(self).decorated(),
                        old(self).config(),
                        old(self)@.in_flight.add(queued_rounds(gaps.take(i)).to_multiset()),
                        (#[trigger] gaps[i]).round,
                    )
            }),
            final(self)@.in_flight.len() <= old(self)@.in_flight.len()
                || final(self)@.in_flight.len() <= room(batch_size, final(self)@.corner),
            !final(self)@.can_start(now, batch_size),
            final(self).is_set_up_like(*old(self)),
    {
        broadcast use vstd::seq_lib::group_to_multiset_ensures;

        let ghost before = *self;
        let ghost n: int = 0;
        let places: usize = batch_size.saturating_sub(self.time_out_corner.len());
        proof {
            assert(before@.queued.take(0) =~= Seq::empty());
            assert(queued_rounds(before@.queued.take(0)) =~= Seq::empty());
            assert(before@.queued.skip(0) =~= before@.queued);
            assert(before@.in_flight.add(Seq::<RoundNum>::empty().to_multiset()) =~= before@.in_flight);
        }
        loop
            invariant
                0 <= n <= before@.queued.len(),
                places == room(batch_size, before@.corner),
                started@ == old(started)@ + queued_rounds(before@.queued.take(n)),
                self@ == (Filling {
                    queued: before@.queued.skip(n),
                    in_flight: before@.in_flight.add(
                        queued_rounds(before@.queued.take(n)).to_multiset(),
                    ),
                    ..before@
                }),
                forall|i: int|
                    0 <= i < n ==> (#[trigger] before@.queued[i]).due_time.nanos <= now.nanos,
                forall|i: int|
                    0 <= i < n ==> append_initiated(
                        before.decorated(),
                        before.config(),
                        before@.in_flight.add(
                            queued_rounds(before@.queued.take(i)).to_multiset(),
                        ),
                        (#[trigger] before@.queued[i]).round,
                    ),
                self@.in_flight.len() <= before@.in_flight.len() || self@.in_flight.len() <= places,
                self.is_set_up_like(before),
            ensures
                !self@.can_start(now, batch_size),
            decreases self@.queued.len(),
        {
            let gap = match self.queued_gaps.peek() {
                Some(gap) => gap,
                None => break,
            };
            if gap.due_time.nanos > now.nanos {
                break;
            }
            if self.appends.len() >= places {
                break;
            }
            self.queued_gaps.pop();
            self.initiate_append(gap.round);
            started.push(gap.round);
            proof {
                broadcast use vstd::seq_lib::group_to_multiset_ensures;

                let longer = before@.queued.take(n + 1);
                assert(longer =~= before@.queued.take(n).push(gap));
                assert(queued_rounds(longer) =~= queued_rounds(before@.queued.take(n)).push(
                    gap.round,
                ));
                assert(before@.queued.skip(n).skip(1) =~= before@.queued.skip(n + 1));
                assert(started@ =~= old(started)@ + queued_rounds(longer));
                assert(self@.in_flight =~= before@.in_flight.add(
                    queued_rounds(longer).to_multiset(),
                ));
                n = n + 1;
            }
        }
        assert forall|i: int| 0 <= i < n implies before@.queued.take(n).take(i)
            == #[trigger] before@.queued.take(i) by {
            assert(before@.queued.take(n).take(i) =~= before@.queued.take(i));
        }
    }

    /// Polls the appends and takes the outcomes of those that have ended, until they
    /// have none to hand out, and tells whether there were any.
    fn take_outcomes(&mut self, cx: &mut Context<'_>, outcomes: &mut Vec<Outcome>) -> (any: bool)
        ensures
            ({
                let n = final(outcomes)@.len() - old(outcomes)@.len();
                let ended = final(outcomes)@.skip(old(outcomes)@.len() as int);
                let rounds = rounds_of(ended).to_multiset();
                &&& n >= 0
                &&& any == (n > 0)
                &&& final(outcomes)@ == old(outcomes)@ + ended
                &&& rounds.subset_of(old(self)@.in_flight)
                &&& final(self)@ == Filling {
                    in_flight: old(self)@.in_flight.sub(rounds),
                    ..old(self)@
                }
                &&& forall|i: int|
                    0 <= i < n ==> is_handed_out(
                        old(self)@.in_flight.sub(rounds_of(ended.take(i)).to_multiset()),
                        *old(cx),
                        #[trigger] ended[i],
                    )
            }),
            is_drained(final(self)@.in_flight, *old(cx)),
            *final(cx) == *old(cx),
            final(self).is_set_up_like(*old(self)),
    {
        let ghost before = *self;
        let ghost earlier = outcomes@;
        let ghost ended: Seq<Outcome> = Seq::empty();
        let mut any: bool = false;
        proof {
            broadcast use vstd::seq_lib::group_to_multiset_ensures;

            assert(outcomes@.skip(earlier.len() as int) =~= ended);
            assert(rounds_of(ended) =~= Seq::empty());
            assert(before@.in_flight.sub(rounds_of(ended).to_multiset()) =~= before@.in_flight);
            assert(outcomes@ =~= earlier + ended);
        }
        loop
            invariant
                any == (ended.len() > 0),
                ended == outcomes@.skip(earlier.len() as int),
                outcomes@ == earlier + ended,
                rounds_of(ended).to_multiset().subset_of(before@.in_flight),
                self@ == (Filling {
                    in_flight: before@.in_flight.sub(rounds_of(ended).to_multiset()),
                    ..before@
                }),
                forall|i: int|
                    0 <= i < ended.len() ==> is_handed_out(
                        before@.in_flight.sub(rounds_of(ended.take(i)).to_multiset()),
                        *old(cx),
                        #[trigger] ended[i],
                    ),
                self.is_set_up_like(before),
                *cx == *old(cx),
            ensures
                is_drained(self@.in_flight, *old(cx)),
            decreases self@.in_flight.len(),
        {
            match self.appends.next(cx) {
                Some(outcome) => {
                    any = true;
                    outcomes.push(outcome);
                    proof {
                        broadcast use vstd::seq_lib::group_to_multiset_ensures;

                        let more = ended.push(outcome);
                        let rounds = rounds_of(more).to_multiset();
                        assert(outcomes@.skip(earlier.len() as int) =~= more);
                        assert(outcomes@ =~= earlier + more);
                        assert(rounds_of(more) =~= rounds_of(ended).push(outcome.round));
                        assert(rounds =~= rounds_of(ended).to_multiset().insert(outcome.round));
                        assert(self@.in_flight =~= before@.in_flight.sub(rounds));
                        assert forall|i: int| 0 <= i < more.len() implies is_handed_out(
                            before@.in_flight.sub(rounds_of(more.take(i)).to_multiset()),
                            *old(cx),
                            #[trigger] more[i],
                        ) by {
                            assert(more.take(i) =~= ended.take(i));
                            assert(ended.take(ended.len() as int) =~= ended);
                            if i < ended.len() {
                                assert(more[i] == ended[i]);
                            }
                        }
                        ended = more;
                    }
                },
                None => break,
            }
        }
        any
    }

    /// Starts appends for the gaps that are due at the time `now`, as many as the
    /// batch has places for, and takes the outcomes of those that have ended,
    /// until none ends any more. Then plans the next look after the gaps.
    pub fn fill_gaps_at(&mut self, cx: &mut Context<'_>, now: Instant, batch_size: usize) -> (fill:
        Fill)
        ensures
            is_filled_at(
                old(self).decorated(),
                old(self).config(),
                *old(cx),
                old(self)@,
                final(self)@,
                fill,
                now,
                batch_size,
            ),
            in_due_order(old(self)@.queued),
            in_due_order(final(self)@.queued),
            *final(cx) == *old(cx),
            final(self).is_set_up_like(*old(self)),
    {
        proof {
            use_type_invariant(&self.queued_gaps);
        }
        let ghost before = *self;
        expire(&mut self.time_out_corner, now);
        let mut started: Vec<RoundNum> = Vec::new();
        let mut outcomes: Vec<Outcome> = Vec::new();
        let ghost places = room(batch_size, self@.corner);
        let ghost steps: Seq<Step> = Seq::empty();
        proof {
            assert(before@.queued.take(0) =~= Seq::empty());
            assert(started@ =~= queued_rounds(before@.queued.take(0)));
            assert(before@.queued.skip(0) =~= before@.queued);
            assert(rounds_of(outcomes@) =~= Seq::empty());
        }
        loop
            invariant
                self@ == (Filling {
                    corner: unexpired(before@.corner, now),
                    queued: self@.queued,
                    in_flight: self@.in_flight,
                    ..before@
                }),
                places == room(batch_size, self@.corner),
                leads_to(
                    steps,
                    before@.in_flight,
                    self@.in_flight,
                    places,
                    started@,
                    rounds_of(outcomes@),
                ),
                is_carried_out(
                    before.decorated(),
                    before.config(),
                    *old(cx),
                    before@.in_flight,
                    steps,
                    outcomes@,
                ),
                started@.len() <= before@.queued.len(),
                started@ == queued_rounds(before@.queued.take(started@.len() as int)),
                self@.queued == before@.queued.skip(started@.len() as int),
                forall|i: int|
                    0 <= i < started@.len() ==> (#[trigger] before@.queued[i]).due_time.nanos
                        <= now.nanos,
                self.is_set_up_like(before),
                *cx == *old(cx),
            ensures
                !self@.can_start(now, batch_size),
                is_drained(self@.in_flight, *old(cx)),
            decreases self@.queued.len() + self@.in_flight.len(),
        {
            let ghost m0 = self@;
            let ghost started0 = started@;
            let ghost outcomes0 = outcomes@;
            self.start_due(now, batch_size, &mut started);
            let ghost m1 = self@;
            let any = self.take_outcomes(cx, &mut outcomes);
            proof {
                let k = started0.len() as int;
                let n = started@.len() as int;
                let new = m0.queued.take(n - k);
                let rounds = queued_rounds(new);
                assert(before@.queued.take(n) =~= before@.queued.take(k) + new);
                assert(queued_rounds(before@.queued.take(n)) =~= queued_rounds(
                    before@.queued.take(k),
                ) + rounds);
                assert(before@.queued.skip(n) =~= m0.queued.skip(n - k));
                assert forall|i: int| 0 <= i < n implies (#[trigger] before@.queued[i]).due_time.nanos
                    <= now.nanos by {
                    if i >= k {
                        assert(new[i - k] == before@.queued[i]);
                    }
                }
                assert(rounds.to_multiset().len() == n - k) by {
                    broadcast use vstd::seq_lib::group_to_multiset_ensures;

                }
                assert forall|i: int| 0 <= i < rounds.len() implies append_initiated(
                    before.decorated(),
                    before.config(),
                    m0.in_flight.add(rounds.take(i).to_multiset()),
                    #[trigger] rounds[i],
                ) by {
                    assert(queued_rounds(new.take(i)) =~= rounds.take(i));
                    assert(new[i].round == rounds[i]);
                }
                carry_out_starts(
                    before.decorated(),
                    before.config(),
                    *old(cx),
                    before@.in_flight,
                    steps,
                    outcomes0,
                    m0.in_flight,
                    places,
                    started0,
                    rounds,
                );
                steps = steps + start_steps(rounds);
                let ended = outcomes@.skip(outcomes0.len() as int);
                carry_out_ends(
                    before.decorated(),
                    before.config(),
                    *old(cx),
                    before@.in_flight,
                    steps,
                    outcomes0,
                    m1.in_flight,
                    places,
                    started@,
                    ended,
                );
                steps = steps + end_steps(rounds_of(ended));
                assert(rounds_of(ended).to_multiset().len() == ended.len()) by {
                    broadcast use vstd::seq_lib::group_to_multiset_ensures;

                }
            }
            if !any {
                assert(self@ =~= m1) by {
                    broadcast use vstd::seq_lib::group_to_multiset_ensures;

                    assert(rounds_of(outcomes@.skip(outcomes0.len() as int)) =~= Seq::empty());
                }
                break;
            }
        }
        let next_place = if self.time_out_corner.len() > 0 {
            Some(self.time_out_corner[0])
        } else {
            None
        };
        let places: usize = batch_size.saturating_sub(self.time_out_corner.len());
        let next_gap = match self.queued_gaps.peek() {
            Some(gap) => if self.appends.len() < places {
                Some(gap.due_time)
            } else {
                None
            },
            None => None,
        };
        let wake = Wake::plan(next_place, next_gap, now);
        let ghost filled = self@;
        arrange(wake, now, &mut self.timer, cx);
        let fill = Fill { started, outcomes, wake };
        proof {
            use_type_invariant(&self.queued_gaps);
            assert(self@ =~= Filling { timer: self@.timer, ..filled });
            runs_balance(steps, before@.in_flight, filled.in_flight, places as nat);
            assert(is_run_of(
                steps,
                before.decorated(),
                before.config(),
                *old(cx),
                before@,
                self@,
                fill,
                batch_size,
            ));
            assert(before@.filled_to(self@, fill, now, batch_size));
        }
        fill
    }

    /// The rounds of the gaps that are not known yet.
    fn unknown_rounds(&self, gaps: &Vec<Gap>) -> (rounds: Vec<RoundNum>)
        ensures
            rounds@ == unknown(gap_rounds(gaps@), self@.known),
    {
        let mut rounds: Vec<RoundNum> = Vec::new();
        let ghost known = self.known_gaps@;
        let ghost seen: Seq<RoundNum> = Seq::empty();
        proof {
            reveal(Seq::filter);
            assert(rounds@ =~= unknown(seen, known));
            assert(gaps@.take(0) =~= Seq::empty());
        }
        for i in 0..gaps.len()
            invariant
                known == self.known_gaps@,
                seen == gap_rounds(gaps@.take(i as int)),
                rounds@ == unknown(seen, known),
        {
            let first = gaps[i].rounds.start;
            let end = gaps[i].rounds.end;
            let mut round = first;
            let ghost earlier = seen;
            proof {
                assert(seen =~= earlier + range_rounds(first..first));
            }
            while round < end
                invariant
                    known == self.known_gaps@,
                    first <= end ==> first <= round <= end,
                    first > end ==> round == first,
                    seen == earlier + range_rounds(first..round),
                    rounds@ == unknown(seen, known),
                decreases end - round,
            {
                if !self.known_gaps.contains(&round) {
                    rounds.push(round);
                }
                proof {
                    reveal(Seq::filter);
                    let more = seen.push(round);
                    assert(more.drop_last() =~= seen);
                    assert(more =~= earlier + range_rounds(first..(round + 1) as RoundNum));
                    seen = more;
                }
                round = round + 1;
            }
            proof {
                let longer = gaps@.take(i + 1);
                assert(longer.drop_last() =~= gaps@.take(i as int));
                assert(range_rounds(first..round) =~= range_rounds(gaps@[i as int].rounds));
                assert(seen =~= gap_rounds(longer));
            }
        }
        assert(gaps@.take(gaps@.len() as int) =~= gaps@);
        rounds
    }

    /// Queues those of the gaps' rounds that are not known yet for `due_time`.
    pub fn queue_gaps(&mut self, gaps: &Vec<Gap>, due_time: Instant)
        ensures
            final(self)@ == old(self)@.with_gaps(gaps@, due_time),
            final(self).is_set_up_like(*old(self)),
    {
        let ghost before = *self;
        let new_gaps = self.unknown_rounds(gaps);
        assert(new_gaps@.take(0) =~= Seq::empty());
        for i in 0..new_gaps.len()
            invariant
                self@ == (Filling {
                    queued: enqueue_all(before@.queued, new_gaps@.take(i as int), due_time),
                    ..before@
                }),
                self.is_set_up_like(before),
        {
            self.queued_gaps.push(QueuedGap { round: new_gaps[i], due_time });
            assert(new_gaps@.take(i + 1).drop_last() =~= new_gaps@.take(i as int));
        }
        assert(new_gaps@.take(new_gaps@.len() as int) =~= new_gaps@);
        assert(before@.known.union(new_gaps@.take(0).to_set()) =~= before@.known);
        for i in 0..new_gaps.len()
            invariant
                self@ == (Filling {
                    queued: enqueue_all(before@.queued, new_gaps@, due_time),
                    known: before@.known.union(new_gaps@.take(i as int).to_set()),
                    ..before@
                }),
                self.is_set_up_like(before),
        {
            self.known_gaps.insert(new_gaps[i]);
            proof {
                let shorter = new_gaps@.take(i as int);
                let longer = new_gaps@.take(i + 1);
                assert(longer =~= shorter.push(new_gaps@[i as int]));
                assert forall|r: RoundNum|
                    shorter.contains(r) || r == new_gaps@[i as int] implies longer.contains(r) by {
                    if r == new_gaps@[i as int] {
                        assert(longer[i as int] == r);
                    } else {
                        let k = choose|k: int| 0 <= k < shorter.len() && shorter[k] == r;
                        assert(longer[k] == r);
                    }
                }
                assert(longer.to_set() =~= shorter.to_set().insert(new_gaps@[i as int]));
                assert(self@.known =~= before@.known.union(longer.to_set()));
            }
        }
    }

    /// Takes note of the node's status.
    pub fn handle_new_status(&mut self, new_status: NodeStatus)
        ensures
            final(self)@ == old(self)@.with_status(new_status),
            final(self)@.disoriented <==> new_status == NodeStatus::Disoriented,
            final(self)@.known == (if new_status == NodeStatus::Disoriented {
                Set::empty()
            } else {
                old(self)@.known
            }),
            final(self)@.queued == (if new_status == NodeStatus::Disoriented {
                Seq::empty()
            } else {
                old(self)@.queued
            }),
            final(self).is_set_up_like(*old(self)),
    {
        self.disoriented = new_status == NodeStatus::Disoriented;
        if self.disoriented {
            self.queued_gaps.clear();
            self.known_gaps.clear();
        }
    }

    /// Takes note of an event. Gaps that it reports are due after the configured
    /// delay. An [`Instant`] has room for every delay, also for one that leads
    /// beyond what `std::time::Instant` can hold: such a gap is queued for a time
    /// that does not come.
    pub fn handle_event(&mut self, event: &Event<N::EventDetails>)
        ensures
            exists|due_time: Instant|
                {
                    &&& event is Gaps ==> is_delayed(
                        old(self).config(),
                        due_time,
                        final(self).last_reading(),
                    )
                    &&& final(self)@ == #[trigger] old(self)@.with_event(*event, due_time)
                },
            if event is Gaps {
                &&& was_shown(old(self).origin(), final(self).last_reading())
                &&& old(self).last_reading().nanos <= final(self).last_reading().nanos
            } else {
                final(self).last_reading() == old(self).last_reading()
            },
            final(self).has_parts_of(*old(self)),
    {
        let ghost any_time = Instant { nanos: 0 };
        match event {
            Event::Init { status, .. } => {
                self.handle_new_status(*status);
                assert(self@ == old(self)@.with_event(*event, any_time));
            },
            Event::StatusChange { new_status, .. } => {
                self.handle_new_status(*new_status);
                assert(self@ == old(self)@.with_event(*event, any_time));
            },
            Event::Install { .. } => {
                self.queued_gaps.clear();
                self.known_gaps.clear();
                assert(self@ == old(self)@.with_event(*event, any_time));
            },
            Event::Gaps { gaps, .. } => {
                let now = self.clock.now();
                let delay = self.config.delay();
                let due_time = now.plus(delay);
                self.queue_gaps(gaps, due_time);
                assert(self@ == old(self)@.with_event(*event, due_time));
            },
            Event::Apply { round, .. } => {
                self.known_gaps.remove(round);
                assert(self@ == old(self)@.with_event(*event, any_time));
            },
            Event::Other(_) => {
                assert(self@ == old(self)@.with_event(*event, any_time));
            },
        }
    }

    /// Fills gaps as they stand now, in batches of the configured size.
    pub fn fill_gaps(&mut self, cx: &mut Context<'_>) -> (fill: Fill)
        ensures
            is_filled(
                old(self).decorated(),
                old(self).config(),
                *old(cx),
                old(self)@,
                final(self)@,
                fill,
                final(self).last_reading(),
            ),
            was_shown(old(self).origin(), final(self).last_reading()),
            old(self).last_reading().nanos <= final(self).last_reading().nanos,
            in_due_order(old(self)@.queued),
            in_due_order(final(self)@.queued),
            *final(cx) == *old(cx),
            final(self).has_parts_of(*old(self)),
    {
        let now = self.clock.now();
        let batch_size = self.config.batch_size();
        self.fill_gaps_at(cx, now, batch_size)
    }

    /// Asks the decorated node for its next event, takes note of it, and fills
    /// gaps if there are any and the node is not disoriented.
    pub fn poll(&mut self, cx: &mut Context<'_>) -> (polled: Polled<N::EventDetails>)
        ensures
            // The event is what the node within has reported.
            exists|node: &mut N, context: &mut Context<'_>|
                {
                    &&& *node == old(self).decorated()
                    &&& *final(node) == final(self).decorated()
                    &&& *context == *old(cx)
                    &&& *final(context) == *final(cx)
                    &&& #[trigger] call_ensures(N::poll_events, (node, context), polled.event)
                },
            // The configuration has been updated with it.
            match polled.event {
                Poll::Ready(event) => exists|config: &mut C|
                    {
                        &&& *config == old(self).config()
                        &&& *final(config) == final(self).config()
                        &&& #[trigger] call_ensures(C::update, (config, &event), ())
                    },
                Poll::Pending => final(self).config() == old(self).config(),
            },
            is_polled(*old(self), *final(self), polled, *final(cx)),
            // Gaps are filled whenever some are known to a node that is oriented.
            polled.fill is Some <==> !final(self)@.disoriented && exists|round: RoundNum|
                final(self)@.known.contains(round),
            polled.fill is Some ==> is_drained(final(self)@.in_flight, *final(cx)),
    {
        proof {
            use_type_invariant(&self.queued_gaps);
        }
        let event = self.decorated.poll_events(cx);
        let ghost due_time = Instant { nanos: 0 };
        if let Poll::Ready(event) = &event {
            self.config.update(event);
            self.handle_event(event);
            proof {
                due_time = choose|due_time: Instant|
                    {
                        &&& event is Gaps ==> is_delayed(
                            self.config(),
                            due_time,
                            self.last_reading(),
                        )
                        &&& self@ == #[trigger] old(self)@.with_event(*event, due_time)
                    };
            }
        }
        let ghost report_time = self.last_reading();
        assert(self@ == old(self)@.with_polled(event, due_time));
        let fill = if !self.disoriented && !self.known_gaps.is_empty() {
            Some(self.fill_gaps(cx))
        } else {
            None
        };
        let polled = Polled { event, fill };
        proof {
            use_type_invariant(&self.queued_gaps);
        }
        assert(is_polled_with(*old(self), *self, polled, *cx, due_time, report_time));
        polled
    }
}

impl<N: NodeImpl, C: Config<Node = N> + 'static> Decoration for Autofill<N, C> {
    type Arguments = C;

    type Decorated = N;

    fn wrap(decorated: N, arguments: C) -> (wrapped: Result<Self, SpawnError>)
        ensures
            wrapped is Ok,
            wrapped->Ok_0@ == Filling::initial(),
            wrapped->Ok_0.decorated() == decorated,
            wrapped->Ok_0.is_clock_started(),
            wrapped->Ok_0.last_reading().nanos == 0,
            exists|config: &mut C|
                {
                    &&& *config == arguments
                    &&& *final(config) == wrapped->Ok_0.config()
                    &&& #[trigger] call_ensures(C::init, (config, &decorated), ())
                },
    {
        let mut arguments = arguments;
        arguments.init(&decorated);
        Ok(
            Autofill {
                decorated,
                config: arguments,
                disoriented: false,
                known_gaps: HashSet::new(),
                queued_gaps: GapQueue::new(),
                timer: None,
                time_out_corner: VecDeque::new(),
                appends: Appends::new(),
                clock: Clock::start(),
            },
        )
    }

    fn peek_into(decorated: &Self) -> (node: &N)
        ensures
            *node == decorated.decorated(),
    {
        &decorated.decorated
    }

    fn unwrap(decorated: Self) -> (node: N)
        ensures
            node == decorated.decorated(),
    {
        decorated.decorated
    }
}

impl<N: Log<C::Applicable, C::RetryPolicy>, C: Config<Node = N>> Node for Autofill<N, C> {
    type State = N::State;

    type Id = N::Id;

    type Participation = N::Participation;

    type EventDetails = N::EventDetails;

    type Handle = N::Handle;

    type Snapshot = N::Snapshot;

    type Preparation = N::Preparation;

    type Affirmation = N::Affirmation;

    type Installation = N::Installation;

    type StaleRead = N::StaleRead;

    type Commit = N::Commit;

    type Append = N::Append;

    type StaticAppend = N::StaticAppend;

    type Shutdown = N::Shutdown;

    fn id(&self) -> (id: N::Id)
        ensures
            call_ensures(N::id, (&self.decorated(),), id),
    {
        self.decorated.id()
    }

    fn status(&self) -> (status: NodeStatus)
        ensures
            call_ensures(N::status, (&self.decorated(),), status),
    {
        self.decorated.status()
    }

    fn participation(&self) -> (participation: N::Participation)
        ensures
            call_ensures(N::participation, (&self.decorated(),), participation),
    {
        self.decorated.participation()
    }

    fn poll_events(&mut self, cx: &mut Context<'_>) -> (event: Poll<Event<N::EventDetails>>)
        ensures
            // The event is what the node within has reported.
            exists|node: &mut N, context: &mut Context<'_>|
                {
                    &&& *node == old(self).decorated()
                    &&& *final(node) == final(self).decorated()
                    &&& *context == *old(cx)
                    &&& *final(context) == *final(cx)
                    &&& #[trigger] call_ensures(N::poll_events, (node, context), event)
                },
            // The configuration has been updated with it.
            match event {
                Poll::Ready(event) => exists|config: &mut C|
                    {
                        &&& *config == old(self).config()
                        &&& *final(config) == final(self).config()
                        &&& #[trigger] call_ensures(C::update, (config, &event), ())
                    },
                Poll::Pending => final(self).config() == old(self).config(),
            },
            exists|polled: Polled<N::EventDetails>|
                polled.event == event && #[trigger] is_polled(
                    *old(self),
                    *final(self),
                    polled,
                    *final(cx),
                ),
    {
        self.poll(cx).event
    }

    fn handle(&self) -> (handle: N::Handle)
        ensures
            call_ensures(N::handle, (&self.decorated(),), handle),
    {
        self.decorated.handle()
    }

    fn prepare_snapshot(&self) -> (preparation: N::Preparation)
        ensures
            call_ensures(N::prepare_snapshot, (&self.decorated(),), preparation),
    {
        self.decorated.prepare_snapshot()
    }

    fn affirm_snapshot(&self, snapshot: N::Snapshot) -> (affirmation: N::Affirmation)
        ensures
            call_ensures(N::affirm_snapshot, (&self.decorated(), snapshot), affirmation),
    {
        self.decorated.affirm_snapshot(snapshot)
    }

    fn install_snapshot(&self, snapshot: N::Snapshot) -> (installation: N::Installation)
        ensures
            call_ensures(N::install_snapshot, (&self.decorated(), snapshot), installation),
    {
        self.decorated.install_snapshot(snapshot)
    }

    fn read_stale(&self) -> (read: N::StaleRead)
        ensures
            call_ensures(N::read_stale, (&self.decorated(),), read),
    {
        self.decorated.read_stale()
    }

    fn shut_down(self) -> (shutdown: N::Shutdown)
        ensures
            call_ensures(N::shut_down, (self.decorated(),), shutdown),
    {
        self.decorated.shut_down()
    }
}

impl<N: NodeImpl + Log<C::Applicable, C::RetryPolicy>, C: Config<Node = N>> NodeImpl for Autofill<N, C> {
    type ImplAppend = N::ImplAppend;

    type LogEntryId = N::LogEntryId;

    type CommitWait = N::CommitWait;

    fn await_commit_of(&self, log_entry_id: N::LogEntryId) -> (wait: N::CommitWait)
        ensures
            call_ensures(N::await_commit_of, (&self.decorated(), log_entry_id), wait),
    {
        self.decorated.await_commit_of(log_entry_id)
    }
}

impl<
    A: ApplicableTo<N::State> + 'static,
    R: RetryPolicy,
    N: Log<A, R> + Log<C::Applicable, C::RetryPolicy>,
    C: Config<Node = N>,
> Log<A, R> for Autofill<N, C> {
    fn append(&self, applicable: A, args: AppendArgs<R>) -> (append: N::Append)
        ensures
            call_ensures(<N as Log<A, R>>::append, (&self.decorated(), applicable, args), append),
    {
        <N as Log<A, R>>::append(&self.decorated, applicable, args)
    }

    fn append_static(&self, applicable: A, args: AppendArgs<R>) -> (append: N::StaticAppend)
        ensures
            call_ensures(
                <N as Log<A, R>>::append_static,
                (&self.decorated(), applicable, args),
                append,
            ),
    {
        <N as Log<A, R>>::append_static(&self.decorated, applicable, args)
    }
}

impl<
    A: ApplicableTo<N::State> + 'static,
    R: RetryPolicy,
    N: LogImpl<A, R> + Log<C::Applicable, C::RetryPolicy>,
    C: Config<Node = N>,
> LogImpl<A, R> for Autofill<N, C> {
    fn append_impl(&self, applicable: A, args: AppendArgs<R>) -> (append: N::ImplAppend)
        ensures
            call_ensures(
                <N as LogImpl<A, R>>::append_impl,
                (&self.decorated(), applicable, args),
                append,
            ),
    {
        self.decorated.append_impl(applicable, args)
    }
}

} // verus!
