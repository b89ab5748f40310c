//! The appends that are under way.

use std::future::Future;
use std::task::Context;

use futures::future::FutureExt;
use futures::future::LocalBoxFuture;
use futures::stream::FuturesUnordered;
use futures::stream::StreamExt;
use vstd::multiset::Multiset;
use vstd::prelude::*;

use crate::node::{AppendError, Poll};
use crate::queue::RoundNum;

verus! {

/// How the attempt to fill a round has ended.
#[derive(Debug)]
pub struct Outcome {
    /// The round that was to be filled.
    pub round: RoundNum,
    /// Why it was not filled, if it was not.
    pub error: Option<AppendError>,
}

impl Outcome {
    /// The outcome of an append in the given round.
    pub fn new<T>(round: RoundNum, result: Result<T, AppendError>) -> (outcome: Self)
        ensures
            outcome.round == round,
            outcome.error == (match result {
                Ok(_) => None,
                Err(error) => Some(error),
            }),
    {
        Outcome { round, error: result.err() }
    }

    /// The gap is still open. Of the errors, only the one that says that the
    /// round was decided elsewhere and that its entry has been learned is none:
    /// it is what a follower hopes for.
    pub open spec fn spec_is_failure(self) -> bool {
        match self.error {
            None => false,
            Some(AppendError::Converged { caught_up }) => !caught_up,
            Some(AppendError::Other(_)) => true,
        }
    }

    /// Tells whether the gap is still open.
    pub fn is_failure(&self) -> (failure: bool)
        ensures
            failure == self.spec_is_failure(),
            failure <==> self.error is Some && !(self.error matches Some(
                AppendError::Converged { caught_up: true },
            )),
    {
        match &self.error {
            None => false,
            Some(AppendError::Converged { caught_up: true }) => false,
            Some(_) => true,
        }
    }
}

/// The rounds of a run of outcomes.
pub open spec fn rounds_of(outcomes: Seq<Outcome>) -> Seq<RoundNum> {
    outcomes.map_values(|outcome: Outcome| outcome.round)
}

/// The appends that are under way, in no order: a
/// `futures::stream::FuturesUnordered` of boxed futures, each of which resolves
/// to the outcome for the round that it was started for.
#[verifier::external_body]
#[derive(Debug)]
pub struct Appends {
    inner: FuturesUnordered<LocalBoxFuture<'static, Outcome>>,
}

/// The rounds for which appends are under way, each as often as there are appends
/// for it.
pub uninterp spec fn in_flight(appends: Appends) -> Multiset<RoundNum>;

/// The append has joined those that are under way, for the given round. Before,
/// appends for `rounds` were under way.
pub closed spec fn has_joined<T, F: Future<Output = Result<T, AppendError>> + 'static>(
    rounds: Multiset<RoundNum>,
    round: RoundNum,
    append: F,
) -> bool {
    exists|appends: &mut Appends|
        {
            &&& in_flight(*appends) == rounds
            &&& #[trigger] call_ensures(Appends::push::<T, F>, (appends, round, append), ())
        }
}

/// Polled with `cx` while appends for `rounds` were under way, the appends have
/// answered `next`.
pub closed spec fn has_answered(
    rounds: Multiset<RoundNum>,
    cx: Context<'_>,
    next: Poll<Option<Outcome>>,
) -> bool {
    exists|appends: &mut Appends, context: &mut Context<'_>|
        {
            &&& in_flight(*appends) == rounds
            &&& *context == cx
            &&& #[trigger] call_ensures(Appends::poll_next, (appends, context), next)
        }
}

/// The outcome was handed out when the appends were polled with `cx` while those
/// for `rounds` were under way.
pub open spec fn is_handed_out(
    rounds: Multiset<RoundNum>,
    cx: Context<'_>,
    outcome: Outcome,
) -> bool {
    has_answered(rounds, cx, Poll::Ready(Some(outcome)))
}

/// Polled with `cx` while appends for `rounds` were under way, the appends had no
/// outcome to hand out.
pub open spec fn is_drained(rounds: Multiset<RoundNum>, cx: Context<'_>) -> bool {
    exists|next: Poll<Option<Outcome>>|
        {
            &&& !(next matches Poll::Ready(Some(_)))
            &&& #[trigger] has_answered(rounds, cx, next)
        }
}

impl Appends {
    /// Adds an append for the given round to those that are under way.
    pub(crate) fn join<T, F: Future<Output = Result<T, AppendError>> + 'static>(
        &mut self,
        round: RoundNum,
        append: F,
    )
        ensures
            in_flight(*final(self)) == in_flight(*old(self)).insert(round),
            has_joined::<T, F>(in_flight(*old(self)), round, append),
    {
        self.push(round, append);
    }

    /// Polls the appends that are under way and hands out the outcome of one that
    /// has ended, which then is not under way any more.
    pub(crate) fn next(&mut self, cx: &mut Context<'_>) -> (outcome: Option<Outcome>)
        ensures
            match outcome {
                Some(outcome) => {
                    &&& is_handed_out(in_flight(*old(self)), *old(cx), outcome)
                    &&& in_flight(*old(self)).count(outcome.round) > 0
                    &&& in_flight(*final(self)) == in_flight(*old(self)).remove(outcome.round)
                },
                None => {
                    &&& is_drained(in_flight(*old(self)), *old(cx))
                    &&& in_flight(*final(self)) == in_flight(*old(self))
                },
            },
            *final(cx) == *old(cx),
    {
        let next = self.poll_next(cx);
        assert(has_answered(in_flight(*old(self)), *old(cx), next));
        match next {
            Poll::Ready(Some(outcome)) => Some(outcome),
            _ => None,
        }
    }

    /// An append that has joined was pushed to a set that held those for `rounds`.
    proof fn joined_appends_were_pushed<T, F: Future<Output = Result<T, AppendError>> + 'static>(
        rounds: Multiset<RoundNum>,
        round: RoundNum,
        append: F,
    )
        requires
            has_joined::<T, F>(rounds, round, append),
        ensures
            exists|appends: &mut Appends|
                {
                    &&& in_flight(*appends) == rounds
                    &&& #[trigger] call_ensures(
                        Appends::push::<T, F>,
                        (appends, round, append),
                        (),
                    )
                },
    {
    }

    /// An answer of the appends comes from polling a set that held those for
    /// `rounds`, with the context.
    proof fn answers_come_from_polling(
        rounds: Multiset<RoundNum>,
        cx: Context<'_>,
        next: Poll<Option<Outcome>>,
    )
        requires
            has_answered(rounds, cx, next),
        ensures
            exists|appends: &mut Appends, context: &mut Context<'_>|
                {
                    &&& in_flight(*appends) == rounds
                    &&& *context == cx
                    &&& #[trigger] call_ensures(Appends::poll_next, (appends, context), next)
                },
    {
    }

    /// `FuturesUnordered::new`: the set that is returned holds no futures.
    #[verifier::external_body]
    pub(crate) fn new() -> (appends: Self)
        ensures
            in_flight(appends) == Multiset::<RoundNum>::empty(),
    {
        Appends { inner: FuturesUnordered::new() }
    }

    /// `FuturesUnordered::len`: the number of futures in the set.
    #[verifier::external_body]
    pub(crate) fn len(&self) -> (len: usize)
        ensures
            len == in_flight(*self).len(),
    {
        self.inner.len()
    }

    /// `FuturesUnordered::push`: the future joins those in the set and is not
    /// polled yet. `FutureExt::map` has it resolve to the outcome for `round`. Of
    /// the future itself nothing is recorded but its round: how it will resolve is
    /// up to the node that carries out the append.
    #[verifier::external_body]
    fn push<T, F: Future<Output = Result<T, AppendError>> + 'static>(
        &mut self,
        round: RoundNum,
        append: F,
    )
        ensures
            in_flight(*final(self)) == in_flight(*old(self)).insert(round),
    {
        let outcome = append.map(move |result| Outcome::new(round, result));
        self.inner.push(outcome.boxed_local());
    }

    /// `StreamExt::poll_next_unpin` on `FuturesUnordered`: polls futures of the
    /// set until one resolves, which then leaves the set and hands out its
    /// outcome. That the set is exhausted is said only where it is empty. In
    /// every other case all futures stay: none that was polled has resolved, or
    /// some asked to be polled again later, of which the task is then told through
    /// `cx`. `cx` stays as it is. Which future resolves first, and how, is up to
    /// the futures, and so is whether polling one panics.
    #[verifier::external_body]
    fn poll_next(&mut self, cx: &mut Context<'_>) -> (next: Poll<Option<Outcome>>)
        ensures
            match next {
                Poll::Ready(Some(outcome)) => {
                    &&& in_flight(*old(self)).count(outcome.round) > 0
                    &&& in_flight(*final(self)) == in_flight(*old(self)).remove(outcome.round)
                },
                Poll::Ready(None) => {
                    &&& in_flight(*old(self)).len() == 0
                    &&& in_flight(*final(self)) == in_flight(*old(self))
                },
                Poll::Pending => in_flight(*final(self)) == in_flight(*old(self)),
            },
            *final(cx) == *old(cx),
    {
        match self.inner.poll_next_unpin(cx) {
            std::task::Poll::Ready(next) => Poll::Ready(next),
            std::task::Poll::Pending => Poll::Pending,
        }
    }
}

} // verus!
