//! Runs: how appends start and end, one after the other.

use vstd::multiset::Multiset;
use vstd::prelude::*;

use crate::queue::RoundNum;

verus! {

/// A step of a run.
pub enum Step {
    /// An append for the round starts.
    Start(RoundNum),
    /// An append for the round ends.
    End(RoundNum),
}

/// The rounds for which appends are under way after a run that began with
/// `in_flight`.
pub open spec fn under_way(in_flight: Multiset<RoundNum>, steps: Seq<Step>) -> Multiset<RoundNum>
    decreases steps.len(),
{
    if steps.len() == 0 {
        in_flight
    } else {
        let before = under_way(in_flight, steps.drop_last());
        match steps.last() {
            Step::Start(round) => before.insert(round),
            Step::End(round) => before.remove(round),
        }
    }
}

/// The rounds for which appends start in a run, in that order.
pub open spec fn starts(steps: Seq<Step>) -> Seq<RoundNum>
    decreases steps.len(),
{
    if steps.len() == 0 {
        Seq::empty()
    } else {
        match steps.last() {
            Step::Start(round) => starts(steps.drop_last()).push(round),
            Step::End(_) => starts(steps.drop_last()),
        }
    }
}

/// The rounds for which appends end in a run, in that order.
pub open spec fn ends(steps: Seq<Step>) -> Seq<RoundNum>
    decreases steps.len(),
{
    if steps.len() == 0 {
        Seq::empty()
    } else {
        match steps.last() {
            Step::Start(_) => ends(steps.drop_last()),
            Step::End(round) => ends(steps.drop_last()).push(round),
        }
    }
}

/// In a run that begins with `in_flight`, appends start only where fewer than
/// `places` are under way, and end only where they are under way.
pub open spec fn is_run(in_flight: Multiset<RoundNum>, steps: Seq<Step>, places: nat) -> bool
    decreases steps.len(),
{
    steps.len() > 0 ==> {
        let before = under_way(in_flight, steps.drop_last());
        &&& is_run(in_flight, steps.drop_last(), places)
        &&& match steps.last() {
            Step::Start(_) => before.len() < places,
            Step::End(round) => before.count(round) > 0,
        }
    }
}

/// A run with `places` leads from `before` to `after`. In it, appends start for
/// `started` and end for `ended`.
pub open spec fn leads_to(
    steps: Seq<Step>,
    before: Multiset<RoundNum>,
    after: Multiset<RoundNum>,
    places: nat,
    started: Seq<RoundNum>,
    ended: Seq<RoundNum>,
) -> bool {
    &&& is_run(before, steps, places)
    &&& under_way(before, steps) == after
    &&& starts(steps) == started
    &&& ends(steps) == ended
}

/// Starts for the given rounds, one after the other.
pub open spec fn start_steps(rounds: Seq<RoundNum>) -> Seq<Step> {
    rounds.map_values(|round: RoundNum| Step::Start(round))
}

/// Ends for the given rounds, one after the other.
pub open spec fn end_steps(rounds: Seq<RoundNum>) -> Seq<Step> {
    rounds.map_values(|round: RoundNum| Step::End(round))
}

/// A run can be continued by starts for which there are places.
pub proof fn continue_with_starts(
    steps: Seq<Step>,
    before: Multiset<RoundNum>,
    after: Multiset<RoundNum>,
    places: nat,
    started: Seq<RoundNum>,
    ended: Seq<RoundNum>,
    rounds: Seq<RoundNum>,
)
    requires
        leads_to(steps, before, after, places, started, ended),
        rounds.len() > 0 ==> after.len() + rounds.len() <= places,
    ensures
        leads_to(
            steps + start_steps(rounds),
            before,
            after.add(rounds.to_multiset()),
            places,
            started + rounds,
            ended,
        ),
    decreases rounds.len(),
{
    broadcast use vstd::seq_lib::group_to_multiset_ensures;

    let longer = steps + start_steps(rounds);
    if rounds.len() == 0 {
        assert(longer =~= steps);
        assert(after.add(rounds.to_multiset()) =~= after);
        assert(started + rounds =~= started);
    } else {
        let fewer = rounds.drop_last();
        let round = rounds.last();
        continue_with_starts(steps, before, after, places, started, ended, fewer);
        assert(longer.drop_last() =~= steps + start_steps(fewer));
        assert(rounds =~= fewer.push(round));
        assert(after.add(fewer.to_multiset()).insert(round) =~= after.add(rounds.to_multiset()));
        assert((started + fewer).push(round) =~= started + rounds);
    }
}

/// A run can be continued by ends of what is under way.
pub proof fn continue_with_ends(
    steps: Seq<Step>,
    before: Multiset<RoundNum>,
    after: Multiset<RoundNum>,
    places: nat,
    started: Seq<RoundNum>,
    ended: Seq<RoundNum>,
    rounds: Seq<RoundNum>,
)
    requires
        leads_to(steps, before, after, places, started, ended),
        rounds.to_multiset().subset_of(after),
    ensures
        leads_to(
            steps + end_steps(rounds),
            before,
            after.sub(rounds.to_multiset()),
            places,
            started,
            ended + rounds,
        ),
    decreases rounds.len(),
{
    broadcast use vstd::seq_lib::group_to_multiset_ensures;

    let longer = steps + end_steps(rounds);
    if rounds.len() == 0 {
        assert(longer =~= steps);
        assert(after.sub(rounds.to_multiset()) =~= after);
        assert(ended + rounds =~= ended);
    } else {
        let fewer = rounds.drop_last();
        let round = rounds.last();
        assert(rounds =~= fewer.push(round));
        assert(fewer.to_multiset().insert(round) =~= rounds.to_multiset());
        assert forall|r: RoundNum| fewer.to_multiset().count(r) <= after.count(r) by {
            assert(fewer.to_multiset().count(r) <= rounds.to_multiset().count(r));
        }
        continue_with_ends(steps, before, after, places, started, ended, fewer);
        assert(rounds.to_multiset().count(round) <= after.count(round));
        assert(longer.drop_last() =~= steps + end_steps(fewer));
        assert(after.sub(fewer.to_multiset()).remove(round) =~= after.sub(rounds.to_multiset()));
        assert((ended + fewer).push(round) =~= ended + rounds);
    }
}

/// What starts in a run ends in it or is under way after it. A run that ends with
/// more under way than it began with stays within the places.
pub proof fn runs_balance(
    steps: Seq<Step>,
    before: Multiset<RoundNum>,
    after: Multiset<RoundNum>,
    places: nat,
)
    requires
        is_run(before, steps, places),
        under_way(before, steps) == after,
    ensures
        after.add(ends(steps).to_multiset()) == before.add(starts(steps).to_multiset()),
        after.len() + ends(steps).len() == before.len() + starts(steps).len(),
        after.len() <= before.len() || after.len() <= places,
    decreases steps.len(),
{
    broadcast use vstd::seq_lib::group_to_multiset_ensures;

    if steps.len() == 0 {
        assert(after.add(ends(steps).to_multiset()) =~= before.add(starts(steps).to_multiset()));
    } else {
        let fewer = steps.drop_last();
        let middle = under_way(before, fewer);
        runs_balance(fewer, before, middle, places);
        match steps.last() {
            Step::Start(round) => {
                assert(after.add(ends(steps).to_multiset()) =~= middle.add(
                    ends(fewer).to_multiset(),
                ).insert(round));
                assert(before.add(starts(steps).to_multiset()) =~= before.add(
                    starts(fewer).to_multiset(),
                ).insert(round));
            },
            Step::End(round) => {
                assert(after.add(ends(steps).to_multiset()) =~= middle.add(
                    ends(fewer).to_multiset(),
                ));
            },
        }
    }
}

} // verus!
