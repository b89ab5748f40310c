//! Nodes, the events that they report and the appends that they carry out.

use std::future::Future;
use std::ops::{Range, RangeInclusive};
use std::task::Context;

use vstd::prelude::*;

use crate::queue::RoundNum;

verus! {

#[verifier::external_type_specification]
#[verifier::external_body]
pub struct ExContext<'a>(std::task::Context<'a>);

/// Whether a value is available yet.
#[derive(Debug)]
pub enum Poll<T> {
    /// The value is available.
    Ready(T),
    /// The value is not available yet; the task is woken when it may be.
    Pending,
}

/// The status of a node.
#[derive(Clone, Copy, Debug, PartialEq, Eq, Structural)]
pub enum NodeStatus {
    /// The node has no state and waits for a snapshot.
    Disoriented,
    /// The node makes no progress.
    Stalled,
    /// The node has fallen behind.
    Lagging,
    /// The node follows a leader.
    Following,
    /// The node leads.
    Leading,
}

/// A run of consecutive rounds that are missing from the log.
#[derive(Debug)]
pub struct Gap {
    pub rounds: Range<RoundNum>,
}

/// What a node reports. The details of an event are passed on and not read.
#[derive(Debug)]
pub enum Event<D> {
    /// The node has been initialized.
    Init { status: NodeStatus, details: D },
    /// The node's status has changed.
    StatusChange { new_status: NodeStatus, details: D },
    /// A snapshot has been installed.
    Install { details: D },
    /// These are the gaps in the node's copy of the log.
    Gaps { gaps: Vec<Gap>, details: D },
    /// The entry of a round has been applied to the node's state.
    Apply { round: RoundNum, details: D },
    /// Anything else.
    Other(D),
}

/// Whether an append defers to other nodes' appends.
#[derive(Clone, Copy, Debug, PartialEq, Eq, Structural)]
pub enum Peeryness {
    /// The nodes are peers and the append does not insist.
    Peery,
    /// The append insists.
    Pushy,
}

/// How hard a node tries to append an entry.
#[derive(Clone, Copy, Debug, PartialEq, Eq, Structural)]
pub enum Importance {
    /// The node seeks leadership if it has to.
    GainLeadership,
    /// The node appends without contending for leadership.
    MaintainLeadership(Peeryness),
}

/// Where and how an entry is to be appended.
#[derive(Debug)]
pub struct AppendArgs<R> {
    /// The rounds that the entry may be appended in.
    pub round: RangeInclusive<RoundNum>,
    /// How hard to try.
    pub importance: Importance,
    /// What to do about failures.
    pub retry_policy: R,
}

/// Why an append failed.
#[derive(Debug)]
pub enum AppendError {
    /// The round has already been decided.
    Converged {
        /// Whether the node has learned the round's entry.
        caught_up: bool,
    },
    /// Anything else, described.
    Other(String),
}

/// Why a decorated node could not be set up, described.
#[derive(Debug)]
pub struct SpawnError(pub String);

/// The state that a node's log entries are applied to.
pub trait State {
    /// The type of the log's entries.
    type LogEntry;
}

/// A value that can be applied to a state of type `S`.
pub trait ApplicableTo<S: State> {
    /// The log entry that stands for the value.
    fn into_log_entry(self) -> S::LogEntry;
}

/// Decides what becomes of an append that has failed.
pub trait RetryPolicy {
    /// `Ok` to try again, or the error to fail with.
    fn eval(&mut self, error: AppendError) -> Result<(), AppendError>;
}

/// The policy under which every failure is final.
#[derive(Clone, Copy, Debug)]
pub struct DoNotRetry;

impl DoNotRetry {
    /// Creates the policy.
    pub fn new() -> (policy: Self)
        ensures
            policy == DoNotRetry,
    {
        DoNotRetry
    }
}

impl RetryPolicy for DoNotRetry {
    fn eval(&mut self, error: AppendError) -> (decision: Result<(), AppendError>)
        ensures
            decision == Err::<(), AppendError>(error),
    {
        Err(error)
    }
}

/// A node of the replicated log.
pub trait Node: Sized {
    /// The state that entries are applied to.
    type State: State;

    /// What identifies the node.
    type Id;

    /// How far the node takes part in decisions.
    type Participation;

    /// What events carry beside what [`Event`] names.
    type EventDetails;

    /// A handle by which the node is reached from elsewhere.
    type Handle;

    /// A copy of the node's state.
    type Snapshot;

    /// The preparation of a snapshot.
    type Preparation;

    /// The affirmation of a snapshot.
    type Affirmation;

    /// The installation of a snapshot.
    type Installation;

    /// A read of a state that may be out of date.
    type StaleRead;

    /// What is known of an entry once it has been committed.
    type Commit;

    /// An append that runs while the node is borrowed.
    type Append;

    /// An append that runs by itself.
    type StaticAppend: Future<Output = Result<Self::Commit, AppendError>> + 'static;

    /// The shutdown of the node.
    type Shutdown;

    /// What identifies the node.
    fn id(&self) -> Self::Id;

    /// The node's status.
    fn status(&self) -> NodeStatus;

    /// How far the node takes part in decisions.
    fn participation(&self) -> Self::Participation;

    /// Asks for the next event.
    fn poll_events(&mut self, cx: &mut Context<'_>) -> Poll<Event<Self::EventDetails>>;

    /// A handle to the node.
    fn handle(&self) -> Self::Handle;

    /// Prepares a snapshot of the node's state.
    fn prepare_snapshot(&self) -> Self::Preparation;

    /// Affirms that a snapshot has been stored.
    fn affirm_snapshot(&self, snapshot: Self::Snapshot) -> Self::Affirmation;

    /// Installs a snapshot as the node's state.
    fn install_snapshot(&self, snapshot: Self::Snapshot) -> Self::Installation;

    /// Reads the node's state, which may be out of date.
    fn read_stale(&self) -> Self::StaleRead;

    /// Shuts the node down.
    fn shut_down(self) -> Self::Shutdown;
}

/// A node whose log takes values of type `A`, appended under policies of type `R`.
pub trait Log<A: ApplicableTo<Self::State> + 'static, R: RetryPolicy>: Node {
    /// Appends a value to the log.
    fn append(&self, applicable: A, args: AppendArgs<R>) -> Self::Append;

    /// Appends a value to the log, by itself.
    fn append_static(&self, applicable: A, args: AppendArgs<R>) -> Self::StaticAppend;
}

/// What decorations need of a node beside [`Node`].
pub trait NodeImpl: Node {
    /// An append in terms of the node's implementation.
    type ImplAppend;

    /// What identifies a log entry.
    type LogEntryId;

    /// The wait for a commit.
    type CommitWait;

    /// Waits for the commit of an entry.
    fn await_commit_of(&self, log_entry_id: Self::LogEntryId) -> Self::CommitWait;
}

/// What decorations need of a node beside [`Log`].
pub trait LogImpl<A: ApplicableTo<Self::State> + 'static, R: RetryPolicy>: NodeImpl {
    /// Appends a value to the log.
    fn append_impl(&self, applicable: A, args: AppendArgs<R>) -> Self::ImplAppend;
}

/// A node that wraps another one and adds to what it does.
pub trait Decoration: Sized {
    /// What the decoration is set up with.
    type Arguments;

    /// The node that is wrapped.
    type Decorated;

    /// Wraps a node.
    fn wrap(decorated: Self::Decorated, arguments: Self::Arguments) -> Result<Self, SpawnError>;

    /// The node within.
    fn peek_into(decorated: &Self) -> &Self::Decorated;

    /// Takes the decoration off.
    fn unwrap(decorated: Self) -> Self::Decorated;
}

} // verus!
