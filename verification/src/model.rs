//! The mathematical model of gap filling: what is known of the gaps, and how it
//! changes with events and with what filling them leads to.

use futures_timer::Delay;
use vstd::multiset::Multiset;
use vstd::prelude::*;

use crate::appends::{rounds_of, Outcome};
use crate::node::{Event, Gap, NodeStatus, Poll};
use crate::queue::{enqueue_all, QueuedGap, RoundNum};
use crate::run::{leads_to, Step};
use crate::time::Instant;
use crate::wake::{earlier, wake_for, Wake};

verus! {

/// What is known of the gaps and done about them.
#[verifier::ext_equal]
pub struct Filling {
    /// The node has no state to apply entries to.
    pub disoriented: bool,
    /// The gaps that have been reported and not been closed since.
    pub known: Set<RoundNum>,
    /// The gaps that wait to be filled, most urgent first.
    pub queued: Seq<QueuedGap>,
    /// Until when places of the batch are blocked.
    pub corner: Seq<Instant>,
    /// The rounds for which appends are under way.
    pub in_flight: Multiset<RoundNum>,
    /// The timer that has been set.
    pub timer: Option<Delay>,
}

/// What filling gaps has led to.
#[derive(Debug)]
pub struct Fill {
    /// The rounds for which appends were started, in that order.
    pub started: Vec<RoundNum>,
    /// The outcomes of the appends that have ended, in that order.
    pub outcomes: Vec<Outcome>,
    /// When to look after the gaps again.
    pub wake: Wake,
}

/// The rounds of a range, in order.
pub open spec fn range_rounds(range: std::ops::Range<RoundNum>) -> Seq<RoundNum> {
    if range.start < range.end {
        Seq::new((range.end - range.start) as nat, |i: int| (range.start + i) as RoundNum)
    } else {
        Seq::empty()
    }
}

/// The rounds of a run of gaps, in order.
pub open spec fn gap_rounds(gaps: Seq<Gap>) -> Seq<RoundNum>
    decreases gaps.len(),
{
    if gaps.len() == 0 {
        Seq::empty()
    } else {
        gap_rounds(gaps.drop_last()) + range_rounds(gaps.last().rounds)
    }
}

/// The rounds that are not known yet.
pub open spec fn unknown(rounds: Seq<RoundNum>, known: Set<RoundNum>) -> Seq<RoundNum> {
    rounds.filter(|round: RoundNum| !known.contains(round))
}

/// The points in time from the first one on that is still to come.
pub open spec fn unexpired(corner: Seq<Instant>, now: Instant) -> Seq<Instant>
    decreases corner.len(),
{
    if corner.len() > 0 && corner[0].nanos <= now.nanos {
        unexpired(corner.skip(1), now)
    } else {
        corner
    }
}

/// The places of the batch that are not blocked.
pub open spec fn room(batch_size: usize, corner: Seq<Instant>) -> nat {
    if corner.len() <= batch_size {
        (batch_size - corner.len()) as nat
    } else {
        0
    }
}

/// The rounds of a run of queued gaps.
pub open spec fn queued_rounds(gaps: Seq<QueuedGap>) -> Seq<RoundNum> {
    gaps.map_values(|gap: QueuedGap| gap.round)
}

impl Filling {
    /// Before anything has been reported.
    pub open spec fn initial() -> Filling {
        Filling {
            disoriented: false,
            known: Set::empty(),
            queued: Seq::empty(),
            corner: Seq::empty(),
            in_flight: Multiset::empty(),
            timer: None,
        }
    }

    /// All reported gaps are forgotten. Appends that are under way go on.
    pub open spec fn forgotten(self) -> Filling {
        Filling { known: Set::empty(), queued: Seq::empty(), ..self }
    }

    /// The node's status is `status`. A disoriented node forgets its gaps.
    pub open spec fn with_status(self, status: NodeStatus) -> Filling {
        if status == NodeStatus::Disoriented {
            Filling { disoriented: true, ..self.forgotten() }
        } else {
            Filling { disoriented: false, ..self }
        }
    }

    /// The given gaps have been reported. The rounds that were not known are
    /// queued for `due_time`.
    pub open spec fn with_gaps(self, gaps: Seq<Gap>, due_time: Instant) -> Filling {
        let rounds = unknown(gap_rounds(gaps), self.known);
        Filling {
            known: self.known.union(rounds.to_set()),
            queued: enqueue_all(self.queued, rounds, due_time),
            ..self
        }
    }

    /// The entry of the round has been applied.
    pub open spec fn with_applied(self, round: RoundNum) -> Filling {
        Filling { known: self.known.remove(round), ..self }
    }

    /// The event has been reported. The gaps that it reports are queued for
    /// `due_time`.
    pub open spec fn with_event<D>(self, event: Event<D>, due_time: Instant) -> Filling {
        match event {
            Event::Init { status, .. } => self.with_status(status),
            Event::StatusChange { new_status, .. } => self.with_status(new_status),
            Event::Install { .. } => self.forgotten(),
            Event::Gaps { gaps, .. } => self.with_gaps(gaps@, due_time),
            Event::Apply { round, .. } => self.with_applied(round),
            Event::Other(_) => self,
        }
    }

    /// The node has been polled for an event.
    pub open spec fn with_polled<D>(self, event: Poll<Event<D>>, due_time: Instant) -> Filling {
        match event {
            Poll::Ready(event) => self.with_event(event, due_time),
            Poll::Pending => self,
        }
    }

    /// There are gaps to fill, and a state that they keep back.
    pub open spec fn wants_filling(self) -> bool {
        !self.disoriented && !self.known.is_empty()
    }

    /// The most urgent gap is due and the batch has a place for it.
    pub open spec fn can_start(self, now: Instant, batch_size: usize) -> bool {
        &&& self.queued.len() > 0
        &&& self.queued[0].due_time.nanos <= now.nanos
        &&& self.in_flight.len() < room(batch_size, self.corner)
    }

    /// When a place of the batch ceases to be blocked.
    pub open spec fn next_place(self) -> Option<Instant> {
        if self.corner.len() > 0 {
            Some(self.corner[0])
        } else {
            None
        }
    }

    /// When the most urgent gap is due, if the batch has a place for it.
    pub open spec fn next_gap(self, batch_size: usize) -> Option<Instant> {
        if self.queued.len() > 0 && self.in_flight.len() < room(batch_size, self.corner) {
            Some(self.queued[0].due_time)
        } else {
            None
        }
    }

    /// When to look after the gaps again.
    pub open spec fn wake(self, now: Instant, batch_size: usize) -> Wake {
        wake_for(earlier(self.next_place(), self.next_gap(batch_size)), now)
    }

    /// Gaps were filled at the time `now` in batches of `batch_size`, which led
    /// from this model to `after` and to `fill`.
    pub open spec fn filled_to(
        self,
        after: Filling,
        fill: Fill,
        now: Instant,
        batch_size: usize,
    ) -> bool {
        let n = fill.started@.len() as int;
        // What is known of the gaps stays.
        &&& after.disoriented == self.disoriented
        &&& after.known == self.known
        // Places whose time has come are free again.
        &&& after.corner == unexpired(self.corner, now)
        // The most urgent gaps were started, in order, none before it was due.
        &&& n <= self.queued.len()
        &&& fill.started@ == queued_rounds(self.queued.take(n))
        &&& after.queued == self.queued.skip(n)
        &&& forall|i: int| 0 <= i < n ==> (#[trigger] self.queued[i]).due_time.nanos <= now.nanos
        // Appends were started only where the batch had places.
        &&& exists|steps: Seq<Step>| #[trigger]
            leads_to(
                steps,
                self.in_flight,
                after.in_flight,
                room(batch_size, after.corner),
                fill.started@,
                rounds_of(fill.outcomes@),
            )
        // What was started and has not ended is under way.
        &&& after.in_flight.add(rounds_of(fill.outcomes@).to_multiset()) == self.in_flight.add(
            fill.started@.to_multiset(),
        )
        &&& after.in_flight.len() + fill.outcomes@.len() == self.in_flight.len() + n
        // The batch has not been filled beyond its places.
        &&& after.in_flight.len() <= self.in_flight.len() || after.in_flight.len() <= room(
            batch_size,
            after.corner,
        )
        // No gap waits that could have been started.
        &&& !after.can_start(now, batch_size)
        // The next look is planned.
        &&& fill.wake == after.wake(now, batch_size)
    }
}

} // verus!
