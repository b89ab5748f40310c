//! How gaps are to be filled.

use std::marker::PhantomData;

use vstd::prelude::*;

use crate::node::{ApplicableTo, DoNotRetry, Event, Node, RetryPolicy};
use crate::time::Duration;

verus! {

/// Autofill configuration.
pub trait Config: Sized {
    /// The node type that is decorated.
    type Node: Node;

    /// The applicable that is used to fill gaps, usually a no-op.
    type Applicable: ApplicableTo<<Self::Node as Node>::State> + 'static;

    /// Type of retry policy to be used.
    ///
    /// See [`retry_policy`][Config::retry_policy].
    type RetryPolicy: RetryPolicy;

    /// Initializes this configuration.
    fn init(&mut self, node: &Self::Node)
        default_ensures
            *final(self) == *old(self),
    {
    }

    /// Updates the configuration with the given event.
    fn update(&mut self, event: &Event<<Self::Node as Node>::EventDetails>)
        default_ensures
            *final(self) == *old(self),
    {
    }

    /// The number of gap rounds that may be filled concurrently.
    fn batch_size(&self) -> usize;

    /// The amount of time to wait before attempting to fill a gap.
    fn delay(&self) -> Duration;

    /// Creates a new filler value.
    fn new_filler(&self) -> Self::Applicable;

    /// Creates a retry policy.
    ///
    /// Please note that a node that's fallen too far behind may fail to catch up
    /// using the gap filling approach. This is because other nodes may respond
    /// that a round has converged without providing a log entry. In these cases,
    /// the node must ask another node for a recent snapshot and install it. To
    /// detect such cases, one may use a retry policy that checks for
    /// [`AppendError::Converged`][crate::node::AppendError::Converged] and
    /// whether the node could be `caught_up`.
    fn retry_policy(&self) -> Self::RetryPolicy;
}

/// A static configuration.
pub struct StaticConfig<N, A> {
    batch_size: usize,
    delay: Duration,
    _p: PhantomData<(N, A)>,
}

impl<N, A> StaticConfig<N, A> {
    /// The number of gap rounds that may be filled concurrently.
    pub closed spec fn spec_batch_size(self) -> usize {
        self.batch_size
    }

    /// The amount of time to wait before attempting to fill a gap.
    pub closed spec fn spec_delay(self) -> Duration {
        self.delay
    }
}

impl<N, A> StaticConfig<N, A> where
    N: Node,
    A: ApplicableTo<N::State> + Default + 'static,
 {
    /// Creates a new static configuration.
    pub fn new(batch_size: usize, delay: Duration) -> (config: Self)
        ensures
            config.spec_batch_size() == batch_size,
            config.spec_delay() == delay,
    {
        Self { batch_size, delay, _p: PhantomData }
    }
}

impl<N, A> Config for StaticConfig<N, A> where
    N: Node,
    A: ApplicableTo<N::State> + Default + 'static,
 {
    type Node = N;

    type Applicable = A;

    type RetryPolicy = DoNotRetry;

    /// Leaves the configuration as it is.
    fn init(&mut self, node: &N)
        ensures
            *final(self) == *old(self),
    {
    }

    /// Leaves the configuration as it is.
    fn update(&mut self, event: &Event<N::EventDetails>)
        ensures
            *final(self) == *old(self),
    {
    }

    fn batch_size(&self) -> (batch_size: usize)
        ensures
            batch_size == self.spec_batch_size(),
    {
        self.batch_size
    }

    fn delay(&self) -> (delay: Duration)
        ensures
            delay == self.spec_delay(),
    {
        self.delay
    }

    fn new_filler(&self) -> (filler: A)
        ensures
            call_ensures(A::default, (), filler),
    {
        A::default()
    }

    fn retry_policy(&self) -> (policy: DoNotRetry)
        ensures
            policy == DoNotRetry,
    {
        DoNotRetry::new()
    }
}

} // verus!
