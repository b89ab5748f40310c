//! The queue of gaps that wait to be filled.

use std::cmp::Ordering;
use std::collections::VecDeque;

use vstd::prelude::*;

use crate::time::Instant;

verus! {

/// The number of a round.
pub type RoundNum = u128;

/// A round that is missing from the log, and the time from which on it may be
/// filled.
#[derive(Clone, Copy, Debug, PartialEq, Eq, Structural)]
pub struct QueuedGap {
    pub round: RoundNum,
    pub due_time: Instant,
}

impl QueuedGap {
    /// This gap is due earlier than `other`, or at the same time and for an
    /// earlier round.
    pub open spec fn precedes(self, other: QueuedGap) -> bool {
        ||| self.due_time.nanos < other.due_time.nanos
        ||| self.due_time.nanos == other.due_time.nanos && self.round < other.round
    }

    /// How this gap ranks against `other`: the gap that precedes is the greater
    /// one.
    pub open spec fn rank(self, other: QueuedGap) -> Ordering {
        if self.precedes(other) {
            Ordering::Greater
        } else if other.precedes(self) {
            Ordering::Less
        } else {
            Ordering::Equal
        }
    }

    /// Compares by urgency: what is due earlier is greater, and of two gaps that
    /// are due together the one for the earlier round.
    pub fn cmp(&self, other: &Self) -> (ordering: Ordering)
        ensures
            ordering == self.rank(*other),
            ordering == Ordering::Greater <==> self.due_time.nanos < other.due_time.nanos || (
            self.due_time.nanos == other.due_time.nanos && self.round < other.round),
            ordering == Ordering::Less <==> other.due_time.nanos < self.due_time.nanos || (
            other.due_time.nanos == self.due_time.nanos && other.round < self.round),
    {
        if self.due_time.nanos < other.due_time.nanos {
            Ordering::Greater
        } else if other.due_time.nanos < self.due_time.nanos {
            Ordering::Less
        } else if self.round < other.round {
            Ordering::Greater
        } else if other.round < self.round {
            Ordering::Less
        } else {
            Ordering::Equal
        }
    }
}

impl PartialOrd for QueuedGap {
    fn partial_cmp(&self, other: &Self) -> (ordering: Option<Ordering>) {
        Some(QueuedGap::cmp(self, other))
    }
}

impl vstd::std_specs::cmp::PartialOrdSpecImpl for QueuedGap {
    open spec fn obeys_partial_cmp_spec() -> bool {
        true
    }

    open spec fn partial_cmp_spec(&self, other: &Self) -> Option<Ordering> {
        Some(self.rank(*other))
    }
}

/// Comparing two gaps always gives an answer. The greater one is due earlier, or at
/// the same time and for an earlier round.
pub proof fn comparisons_go_by_time_and_round(a: QueuedGap, b: QueuedGap)
    ensures
        vstd::std_specs::cmp::PartialOrdSpec::partial_cmp_spec(&a, &b) is Some,
        vstd::std_specs::cmp::PartialOrdSpec::partial_cmp_spec(&a, &b) == Some(Ordering::Greater)
            <==> a.due_time.nanos < b.due_time.nanos || (a.due_time.nanos == b.due_time.nanos
            && a.round < b.round),
        vstd::std_specs::cmp::PartialOrdSpec::partial_cmp_spec(&a, &b) == Some(Ordering::Less)
            <==> b.due_time.nanos < a.due_time.nanos || (b.due_time.nanos == a.due_time.nanos
            && b.round < a.round),
{
}

/// No gap in the sequence precedes one that stands before it.
pub open spec fn in_due_order(gaps: Seq<QueuedGap>) -> bool {
    forall|i: int, j: int| 0 <= i < j < gaps.len() ==> !(#[trigger] gaps[j]).precedes(#[trigger] gaps[i])
}

/// `gaps` with `gap` behind every gap that `gap` does not precede.
pub open spec fn enqueue(gaps: Seq<QueuedGap>, gap: QueuedGap) -> Seq<QueuedGap>
    decreases gaps.len(),
{
    if gaps.len() > 0 && gap.precedes(gaps.last()) {
        enqueue(gaps.drop_last(), gap).push(gaps.last())
    } else {
        gaps.push(gap)
    }
}

/// `gaps` with one gap for each of `rounds`, all due at `due_time`.
pub open spec fn enqueue_all(
    gaps: Seq<QueuedGap>,
    rounds: Seq<RoundNum>,
    due_time: Instant,
) -> Seq<QueuedGap>
    decreases rounds.len(),
{
    if rounds.len() == 0 {
        gaps
    } else {
        enqueue(
            enqueue_all(gaps, rounds.drop_last(), due_time),
            QueuedGap { round: rounds.last(), due_time },
        )
    }
}

/// Enqueueing keeps the order and adds the one gap.
pub proof fn enqueue_keeps_order(gaps: Seq<QueuedGap>, gap: QueuedGap)
    requires
        in_due_order(gaps),
    ensures
        in_due_order(enqueue(gaps, gap)),
        enqueue(gaps, gap).to_multiset() == gaps.to_multiset().insert(gap),
        enqueue(gaps, gap).len() == gaps.len() + 1,
    decreases gaps.len(),
{
    broadcast use vstd::seq_lib::group_to_multiset_ensures;

    if gaps.len() > 0 && gap.precedes(gaps.last()) {
        let front = gaps.drop_last();
        let last = gaps.last();
        assert(in_due_order(front));
        enqueue_keeps_order(front, gap);
        let inner = enqueue(front, gap);
        assert(gaps =~= front.push(last));
        assert forall|i: int| 0 <= i < inner.len() implies !last.precedes(#[trigger] inner[i]) by {
            assert(inner.to_multiset().count(inner[i]) > 0);
            if inner[i] != gap {
                assert(front.to_multiset().count(inner[i]) > 0);
                assert(front.contains(inner[i]));
                let k = choose|k: int| 0 <= k < front.len() && front[k] == inner[i];
                assert(gaps[k] == inner[i]);
                assert(gaps[gaps.len() - 1] == last);
            }
        }
        assert(gaps.to_multiset().insert(gap) =~= front.to_multiset().insert(gap).insert(last));
    } else {
        let s = gaps.push(gap);
        assert forall|i: int, j: int| 0 <= i < j < s.len() implies !(#[trigger] s[j]).precedes(#[trigger] s[i]) by {
            if j == gaps.len() && i < gaps.len() - 1 {
                assert(!gaps[gaps.len() - 1].precedes(gaps[i]));
            }
        }
    }
}

/// The gaps that wait to be filled, most urgent first.
#[derive(Debug)]
pub struct GapQueue {
    gaps: VecDeque<QueuedGap>,
}

impl View for GapQueue {
    type V = Seq<QueuedGap>;

    /// The waiting gaps in the order in which they leave the queue.
    closed spec fn view(&self) -> Seq<QueuedGap> {
        self.gaps@
    }
}

impl GapQueue {
    /// The queue is in order.
    #[verifier::type_invariant]
    pub open spec fn ordered(self) -> bool {
        in_due_order(self@)
    }

    /// An empty queue.
    pub fn new() -> (queue: Self)
        ensures
            queue@ == Seq::<QueuedGap>::empty(),
    {
        GapQueue { gaps: VecDeque::new() }
    }

    /// The most urgent gap.
    pub fn peek(&self) -> (gap: Option<QueuedGap>)
        ensures
            gap == (if self@.len() > 0 { Some(self@[0]) } else { None }),
            in_due_order(self@),
    {
        proof {
            use_type_invariant(self);
        }
        if self.gaps.len() > 0 {
            Some(self.gaps[0])
        } else {
            None
        }
    }

    /// Takes the most urgent gap out of the queue.
    pub fn pop(&mut self) -> (gap: Option<QueuedGap>)
        ensures
            gap == (if old(self)@.len() > 0 { Some(old(self)@[0]) } else { None }),
            final(self)@ == (if old(self)@.len() > 0 { old(self)@.skip(1) } else { old(self)@ }),
            in_due_order(old(self)@),
            in_due_order(final(self)@),
    {
        proof {
            use_type_invariant(&*self);
        }
        let mut gaps = VecDeque::new();
        std::mem::swap(&mut gaps, &mut self.gaps);
        let gap = gaps.pop_front();
        self.gaps = gaps;
        gap
    }

    /// Puts a gap into the queue.
    pub fn push(&mut self, gap: QueuedGap)
        ensures
            final(self)@ == enqueue(old(self)@, gap),
            final(self)@.to_multiset() == old(self)@.to_multiset().insert(gap),
            in_due_order(old(self)@),
            in_due_order(final(self)@),
    {
        proof {
            use_type_invariant(&*self);
        }
        let mut gaps = VecDeque::new();
        std::mem::swap(&mut gaps, &mut self.gaps);
        let ghost before = gaps@;
        let mut at: usize = gaps.len();
        assert(before.take(at as int) =~= before && before.skip(at as int) =~= Seq::empty());
        while at > 0 && gap > gaps[at - 1]
            invariant
                at <= gaps@.len(),
                gaps@ == before,
                enqueue(before, gap) == enqueue(before.take(at as int), gap) + before.skip(at as int),
            decreases at,
        {
            at = at - 1;
            proof {
                let longer = before.take(at + 1);
                assert(longer.drop_last() =~= before.take(at as int));
                assert(enqueue(longer, gap) + before.skip(at + 1) =~= enqueue(
                    before.take(at as int),
                    gap,
                ) + before.skip(at as int));
            }
        }
        gaps.insert(at, gap);
        proof {
            assert(gaps@ =~= before.take(at as int).push(gap) + before.skip(at as int));
            enqueue_keeps_order(before, gap);
        }
        self.gaps = gaps;
    }

    /// Empties the queue.
    pub fn clear(&mut self)
        ensures
            final(self)@ == Seq::<QueuedGap>::empty(),
    {
        self.gaps = VecDeque::new();
    }
}

} // verus!
