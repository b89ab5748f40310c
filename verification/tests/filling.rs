use std::cell::{Cell, RefCell};
use std::collections::VecDeque;
use std::rc::Rc;
use std::sync::atomic::{AtomicUsize, Ordering};
use std::sync::Arc;
use std::task::{Context, Waker};

use futures::channel::oneshot;
use futures::future::{FutureExt, LocalBoxFuture};
use futures::task::{waker, ArcWake};

use autofill::appends::Outcome;
use autofill::autofill::Autofill;
use autofill::builder::{AutofillBuilderExt, NodeBuilder};
use autofill::config::{Config, StaticConfig};
use autofill::model::Fill;
use autofill::node::{
    AppendArgs, AppendError, ApplicableTo, Decoration, DoNotRetry, Event, Gap, Importance, Log,
    LogImpl, Node, NodeImpl, NodeStatus, Peeryness, Poll, RetryPolicy, SpawnError, State,
};
use autofill::time::{Duration, Instant};
use autofill::wake::Wake;

struct Counting(AtomicUsize);

impl ArcWake for Counting {
    fn wake_by_ref(this: &Arc<Self>) {
        this.0.fetch_add(1, Ordering::SeqCst);
    }
}

fn counting() -> (Arc<Counting>, Waker) {
    let count = Arc::new(Counting(AtomicUsize::new(0)));
    (count.clone(), waker(count))
}

struct Ledger;

impl State for Ledger {
    type LogEntry = &'static str;
}

#[derive(Default)]
struct Noop;

impl ApplicableTo<Ledger> for Noop {
    fn into_log_entry(self) -> &'static str {
        "noop"
    }
}

struct Deposit;

impl ApplicableTo<Ledger> for Deposit {
    fn into_log_entry(self) -> &'static str {
        "deposit"
    }
}

type Reply = Result<u32, AppendError>;

#[derive(Clone, Debug, PartialEq)]
struct Asked {
    entry: &'static str,
    rounds: std::ops::RangeInclusive<u128>,
    importance: Importance,
}

/// Counts an append as running for as long as it exists.
struct Running(Rc<Cell<usize>>);

impl Running {
    fn new(count: &Rc<Cell<usize>>) -> Self {
        count.set(count.get() + 1);
        Running(count.clone())
    }
}

impl Drop for Running {
    fn drop(&mut self) {
        self.0.set(self.0.get() - 1);
    }
}

#[derive(Default)]
struct Inner {
    running: Rc<Cell<usize>>,
    most_running: usize,
    events: VecDeque<Event<u32>>,
    asked: Vec<Asked>,
    replies: Vec<Option<oneshot::Sender<Reply>>>,
    immediate: VecDeque<Reply>,
}

#[derive(Clone, Default)]
struct Stub(Rc<RefCell<Inner>>);

impl Stub {
    fn report(&self, event: Event<u32>) {
        self.0.borrow_mut().events.push_back(event);
    }

    fn rounds(&self) -> Vec<u128> {
        self.0
            .borrow()
            .asked
            .iter()
            .map(|a| *a.rounds.start())
            .collect()
    }

    fn reply(&self, index: usize, reply: Reply) {
        let sender = self.0.borrow_mut().replies[index].take().unwrap();
        assert!(sender.send(reply).is_ok());
    }
}

impl Node for Stub {
    type State = Ledger;
    type Id = u8;
    type Participation = &'static str;
    type EventDetails = u32;
    type Handle = &'static str;
    type Snapshot = u64;
    type Preparation = &'static str;
    type Affirmation = u64;
    type Installation = u64;
    type StaleRead = &'static str;
    type Commit = u32;
    type Append = (&'static str, u128);
    type StaticAppend = LocalBoxFuture<'static, Reply>;
    type Shutdown = &'static str;

    fn id(&self) -> u8 {
        7
    }

    fn status(&self) -> NodeStatus {
        NodeStatus::Lagging
    }

    fn participation(&self) -> &'static str {
        "active"
    }

    fn poll_events(&mut self, _cx: &mut Context<'_>) -> Poll<Event<u32>> {
        match self.0.borrow_mut().events.pop_front() {
            Some(event) => Poll::Ready(event),
            None => Poll::Pending,
        }
    }

    fn handle(&self) -> &'static str {
        "handle"
    }

    fn prepare_snapshot(&self) -> &'static str {
        "prepared"
    }

    fn affirm_snapshot(&self, snapshot: u64) -> u64 {
        snapshot + 1
    }

    fn install_snapshot(&self, snapshot: u64) -> u64 {
        snapshot + 2
    }

    fn read_stale(&self) -> &'static str {
        "stale"
    }

    fn shut_down(self) -> &'static str {
        "down"
    }
}

impl<A: ApplicableTo<Ledger> + 'static, R: RetryPolicy> Log<A, R> for Stub {
    fn append(&self, applicable: A, args: AppendArgs<R>) -> (&'static str, u128) {
        (applicable.into_log_entry(), *args.round.end())
    }

    fn append_static(&self, applicable: A, args: AppendArgs<R>) -> LocalBoxFuture<'static, Reply> {
        let mut inner = self.0.borrow_mut();
        inner.asked.push(Asked {
            entry: applicable.into_log_entry(),
            rounds: args.round,
            importance: args.importance,
        });
        let running = Running::new(&inner.running);
        inner.most_running = inner.most_running.max(inner.running.get());
        if let Some(reply) = inner.immediate.pop_front() {
            inner.replies.push(None);
            let done = futures::future::ready(reply);
            return done.inspect(move |_| drop(running)).boxed_local();
        }
        let (sender, receiver) = oneshot::channel();
        inner.replies.push(Some(sender));
        let reply = receiver.map(|reply| reply.unwrap());
        reply.inspect(move |_| drop(running)).boxed_local()
    }
}

impl NodeImpl for Stub {
    type ImplAppend = (&'static str, u128);
    type LogEntryId = u16;
    type CommitWait = u16;

    fn await_commit_of(&self, log_entry_id: u16) -> u16 {
        log_entry_id + 3
    }
}

impl<A: ApplicableTo<Ledger> + 'static, R: RetryPolicy> LogImpl<A, R> for Stub {
    fn append_impl(&self, applicable: A, args: AppendArgs<R>) -> (&'static str, u128) {
        (applicable.into_log_entry(), *args.round.start())
    }
}

type Static = StaticConfig<Stub, Noop>;

fn autofill(batch_size: usize, delay: Duration) -> (Stub, Autofill<Stub, Static>) {
    let stub = Stub::default();
    let node = Autofill::wrap(stub.clone(), Static::new(batch_size, delay)).unwrap();
    (stub, node)
}

fn no_delay() -> Duration {
    Duration::new(0, 0)
}

fn at(nanos: u128) -> Instant {
    Instant { nanos }
}

fn gaps(ranges: &[std::ops::Range<u128>]) -> Vec<Gap> {
    ranges
        .iter()
        .map(|rounds| Gap {
            rounds: rounds.clone(),
        })
        .collect()
}

fn found(ranges: &[std::ops::Range<u128>]) -> Event<u32> {
    Event::Gaps {
        gaps: gaps(ranges),
        details: 3,
    }
}

fn ended(fill: &Fill) -> Vec<u128> {
    let mut rounds: Vec<u128> = fill.outcomes.iter().map(|o| o.round).collect();
    rounds.sort();
    rounds
}

#[test]
fn static_configuration_is_static() {
    let mut config = Static::new(3, Duration::new(2, 0));
    config.init(&Stub::default());
    config.update(&Event::Other(1));
    assert_eq!(config.batch_size(), 3);
    assert_eq!(config.delay(), Duration::new(2, 0));
    assert_eq!(config.new_filler().into_log_entry(), "noop");
    let DoNotRetry = config.retry_policy();
}

#[test]
fn failures_are_final_under_do_not_retry() {
    let decision = DoNotRetry::new().eval(AppendError::Converged { caught_up: false });
    assert!(matches!(
        decision,
        Err(AppendError::Converged { caught_up: false })
    ));
}

#[test]
fn outcomes_are_failures_unless_the_entry_is_known() {
    let ok: Reply = Ok(1);
    let outcome = Outcome::new(5, ok);
    assert_eq!(outcome.round, 5);
    assert!(outcome.error.is_none());
    assert!(!outcome.is_failure());

    let learned: Reply = Err(AppendError::Converged { caught_up: true });
    assert!(!Outcome::new(6, learned).is_failure());

    let behind: Reply = Err(AppendError::Converged { caught_up: false });
    assert!(Outcome::new(6, behind).is_failure());

    let lost: Reply = Err(AppendError::Other("no quorum".to_string()));
    let outcome = Outcome::new(8, lost);
    assert_eq!(outcome.round, 8);
    assert!(outcome.is_failure());
}

#[test]
fn gaps_wait_for_their_time() {
    let (stub, mut node) = autofill(9, no_delay());
    let (_, waker) = counting();
    let cx = &mut Context::from_waker(&waker);

    node.queue_gaps(&gaps(&[3..5]), at(10_000_000_000));
    let fill = node.fill_gaps_at(cx, at(9_999_999_999), 9);
    assert!(fill.started.is_empty());
    assert_eq!(fill.wake, Wake::At(at(10_000_000_000)));
    assert!(stub.rounds().is_empty());

    let fill = node.fill_gaps_at(cx, at(10_000_000_000), 9);
    assert_eq!(fill.started, vec![3, 4]);
    assert_eq!(fill.wake, Wake::Idle);
    assert_eq!(stub.rounds(), vec![3, 4]);
}

#[test]
fn appends_carry_the_filler_for_one_round() {
    let (stub, mut node) = autofill(1, no_delay());
    let (_, waker) = counting();
    let cx = &mut Context::from_waker(&waker);

    node.queue_gaps(&gaps(&[6..7]), at(0));
    node.fill_gaps_at(cx, at(0), 1);
    assert_eq!(
        stub.0.borrow().asked,
        vec![Asked {
            entry: "noop",
            rounds: 6..=6,
            importance: Importance::MaintainLeadership(Peeryness::Peery),
        }]
    );
}

#[test]
fn batches_are_not_exceeded() {
    let (stub, mut node) = autofill(2, no_delay());
    let (_, waker) = counting();
    let cx = &mut Context::from_waker(&waker);

    node.queue_gaps(&gaps(&[1..6]), at(0));
    let fill = node.fill_gaps_at(cx, at(0), 2);
    assert_eq!(fill.started, vec![1, 2]);
    assert!(fill.outcomes.is_empty());
    assert_eq!(fill.wake, Wake::Idle);

    let fill = node.fill_gaps_at(cx, at(1), 2);
    assert!(fill.started.is_empty());

    stub.reply(1, Ok(0));
    let fill = node.fill_gaps_at(cx, at(2), 2);
    assert_eq!(fill.started, vec![3]);
    assert_eq!(ended(&fill), vec![2]);

    stub.reply(0, Err(AppendError::Converged { caught_up: true }));
    stub.reply(2, Err(AppendError::Other("no quorum".to_string())));
    let fill = node.fill_gaps_at(cx, at(3), 2);
    assert_eq!(fill.started, vec![4, 5]);
    assert_eq!(ended(&fill), vec![1, 3]);
    let failed: Vec<u128> = fill
        .outcomes
        .iter()
        .filter(|o| o.is_failure())
        .map(|o| o.round)
        .collect();
    assert_eq!(failed, vec![3]);
    assert_eq!(stub.rounds(), vec![1, 2, 3, 4, 5]);
}

#[test]
fn places_that_come_free_at_once_are_used_at_once() {
    let (stub, mut node) = autofill(1, no_delay());
    let (_, waker) = counting();
    let cx = &mut Context::from_waker(&waker);

    stub.0.borrow_mut().immediate = vec![Ok(1), Ok(2), Ok(3)].into();
    node.queue_gaps(&gaps(&[1..5]), at(0));
    let fill = node.fill_gaps_at(cx, at(0), 1);
    assert_eq!(fill.started, vec![1, 2, 3, 4]);
    assert_eq!(ended(&fill), vec![1, 2, 3]);
    assert_eq!(fill.wake, Wake::Idle);
}

#[test]
fn batches_are_not_exceeded_while_filling() {
    let (stub, mut node) = autofill(3, no_delay());
    let (_, waker) = counting();
    let cx = &mut Context::from_waker(&waker);

    stub.0.borrow_mut().immediate = (0..20).map(Ok).collect();
    node.queue_gaps(&gaps(&[0..25]), at(0));
    let fill = node.fill_gaps_at(cx, at(0), 3);
    assert_eq!(fill.started, (0..23).collect::<Vec<u128>>());
    assert_eq!(ended(&fill), (0..20).collect::<Vec<u128>>());
    assert_eq!(stub.0.borrow().most_running, 3);
}

#[test]
fn without_places_nothing_is_started() {
    let (stub, mut node) = autofill(0, no_delay());
    let (_, waker) = counting();
    let cx = &mut Context::from_waker(&waker);

    node.queue_gaps(&gaps(&[1..3]), at(0));
    let fill = node.fill_gaps_at(cx, at(5), 0);
    assert!(fill.started.is_empty());
    assert_eq!(fill.wake, Wake::Idle);
    assert!(stub.rounds().is_empty());
}

#[test]
fn urgent_gaps_are_filled_first() {
    let (_, mut node) = autofill(2, no_delay());
    let (_, waker) = counting();
    let cx = &mut Context::from_waker(&waker);

    node.queue_gaps(&gaps(&[1..2]), at(30));
    node.queue_gaps(&gaps(&[9..10, 5..6]), at(20));
    let fill = node.fill_gaps_at(cx, at(40), 2);
    assert_eq!(fill.started, vec![5, 9]);
    let fill = node.fill_gaps_at(cx, at(40), 3);
    assert_eq!(fill.started, vec![1]);
}

#[test]
fn known_gaps_are_not_queued_again() {
    let (_, mut node) = autofill(9, no_delay());
    let (_, waker) = counting();
    let cx = &mut Context::from_waker(&waker);

    node.queue_gaps(&gaps(&[1..4]), at(0));
    node.queue_gaps(&gaps(&[2..6]), at(0));
    let fill = node.fill_gaps_at(cx, at(0), 9);
    assert_eq!(fill.started, vec![1, 2, 3, 4, 5]);

    node.queue_gaps(&gaps(&[1..6]), at(0));
    let fill = node.fill_gaps_at(cx, at(0), 9);
    assert!(fill.started.is_empty());
}

#[test]
fn overlapping_gaps_of_one_report_are_each_queued() {
    let (_, mut node) = autofill(9, no_delay());
    let (_, waker) = counting();
    let cx = &mut Context::from_waker(&waker);

    node.queue_gaps(&gaps(&[1..3, 2..4, 8..8]), at(0));
    let fill = node.fill_gaps_at(cx, at(0), 9);
    assert_eq!(fill.started, vec![1, 2, 2, 3]);
}

#[test]
fn applied_gaps_can_be_reported_again() {
    let (_, mut node) = autofill(9, no_delay());
    let (_, waker) = counting();
    let cx = &mut Context::from_waker(&waker);

    node.queue_gaps(&gaps(&[1..3]), at(0));
    assert_eq!(node.fill_gaps_at(cx, at(0), 9).started, vec![1, 2]);
    node.handle_event(&Event::Apply {
        round: 2,
        details: 0,
    });
    node.queue_gaps(&gaps(&[1..3]), at(0));
    assert_eq!(node.fill_gaps_at(cx, at(0), 9).started, vec![2]);
}

#[test]
fn applied_gaps_stay_queued() {
    let (_, mut node) = autofill(9, no_delay());
    let (_, waker) = counting();
    let cx = &mut Context::from_waker(&waker);

    node.queue_gaps(&gaps(&[1..3]), at(0));
    node.handle_event(&Event::Apply {
        round: 1,
        details: 0,
    });
    assert_eq!(node.fill_gaps_at(cx, at(0), 9).started, vec![1, 2]);
}

#[test]
fn disoriented_nodes_forget_gaps() {
    let (_, mut node) = autofill(9, no_delay());
    let (_, waker) = counting();
    let cx = &mut Context::from_waker(&waker);

    for event in [
        Event::Init {
            status: NodeStatus::Disoriented,
            details: 0,
        },
        Event::StatusChange {
            new_status: NodeStatus::Disoriented,
            details: 0,
        },
        Event::Install { details: 0 },
    ] {
        node.queue_gaps(&gaps(&[1..3]), at(0));
        node.handle_event(&event);
        assert!(node.fill_gaps_at(cx, at(0), 9).started.is_empty());
    }
    node.queue_gaps(&gaps(&[1..3]), at(0));
    node.handle_new_status(NodeStatus::Following);
    assert_eq!(node.fill_gaps_at(cx, at(0), 9).started, vec![1, 2]);
}

#[test]
fn due_gaps_are_filled_through_one_place_and_the_next_is_waited_for() {
    let (stub, mut node) = autofill(1, no_delay());
    let (_, waker) = counting();
    let cx = &mut Context::from_waker(&waker);

    stub.0.borrow_mut().immediate = (0..2)
        .map(|_| Err(AppendError::Converged { caught_up: true }))
        .collect();
    node.queue_gaps(&gaps(&[5..6]), at(12));
    node.queue_gaps(&gaps(&[4..5, 3..4]), at(10));
    let fill = node.fill_gaps_at(cx, at(11), 1);
    assert_eq!(fill.started, vec![3, 4]);
    assert_eq!(ended(&fill), vec![3, 4]);
    assert!(fill.outcomes.iter().all(|o| !o.is_failure()));
    assert_eq!(fill.wake, Wake::At(at(12)));
    assert_eq!(stub.0.borrow().running.get(), 0);

    let fill = node.fill_gaps_at(cx, at(12), 1);
    assert_eq!(fill.started, vec![5]);
    assert!(fill.outcomes.is_empty());
    assert_eq!(fill.wake, Wake::Idle);
    assert_eq!(stub.0.borrow().running.get(), 1);
}

#[test]
fn every_append_is_polled_with_the_context() {
    let (stub, mut node) = autofill(3, no_delay());
    let (count, waker) = counting();
    let cx = &mut Context::from_waker(&waker);

    node.queue_gaps(&gaps(&[1..4]), at(0));
    assert_eq!(node.fill_gaps_at(cx, at(0), 3).started, vec![1, 2, 3]);
    let woken = count.0.load(Ordering::SeqCst);
    stub.reply(2, Ok(1));
    assert_eq!(count.0.load(Ordering::SeqCst), woken + 1);
    assert_eq!(ended(&node.fill_gaps_at(cx, at(0), 3)), vec![3]);
    let woken = count.0.load(Ordering::SeqCst);
    stub.reply(0, Ok(1));
    stub.reply(1, Ok(1));
    assert!(count.0.load(Ordering::SeqCst) > woken);
    assert_eq!(ended(&node.fill_gaps_at(cx, at(0), 3)), vec![1, 2]);
}

#[test]
fn outcomes_tell_why_appends_failed() {
    let (stub, mut node) = autofill(1, no_delay());
    let (_, waker) = counting();
    let cx = &mut Context::from_waker(&waker);

    stub.0.borrow_mut().immediate = vec![
        Err(AppendError::Other("no quorum".to_string())),
        Ok(1),
        Err(AppendError::Converged { caught_up: false }),
    ]
    .into();
    node.queue_gaps(&gaps(&[1..4]), at(0));
    let fill = node.fill_gaps_at(cx, at(0), 1);
    assert_eq!(fill.outcomes.len(), 3);
    for outcome in &fill.outcomes {
        match (outcome.round, &outcome.error) {
            (1, Some(AppendError::Other(reason))) => assert_eq!(reason, "no quorum"),
            (2, None) => assert!(!outcome.is_failure()),
            (3, Some(AppendError::Converged { caught_up: false })) => {
                assert!(outcome.is_failure())
            }
            _ => panic!("another outcome"),
        }
    }
}

#[test]
fn timers_are_kept_while_nothing_is_filled() {
    let (stub, mut node) = autofill(1, Duration::new(0, 60_000_000));
    let (count, waker) = counting();
    let cx = &mut Context::from_waker(&waker);

    stub.report(found(&[1..2]));
    assert!(matches!(node.poll(cx).fill.unwrap().wake, Wake::At(_)));
    stub.report(Event::Install { details: 0 });
    assert!(node.poll(cx).fill.is_none());
    node.handle_new_status(NodeStatus::Following);
    node.handle_event(&Event::Apply {
        round: 1,
        details: 0,
    });
    let before = std::time::Instant::now();
    while count.0.load(Ordering::SeqCst) == 0 {
        assert!(before.elapsed() < std::time::Duration::from_secs(10));
        std::hint::spin_loop();
    }
}

#[test]
fn reported_gaps_are_filled_once_the_delay_has_passed() {
    let (stub, mut node) = autofill(1, Duration::new(0, 50_000_000));
    let (_, waker) = counting();
    let cx = &mut Context::from_waker(&waker);

    let before = std::time::Instant::now();
    stub.report(found(&[4..5]));
    assert!(node.poll(cx).fill.unwrap().started.is_empty());
    loop {
        let fill = node.poll(cx).fill.unwrap();
        if !fill.started.is_empty() {
            assert_eq!(fill.started, vec![4]);
            break;
        }
        assert!(before.elapsed() < std::time::Duration::from_secs(10));
    }
    assert!(before.elapsed() >= std::time::Duration::from_millis(50));
}

#[test]
fn no_reported_gap_is_lost() {
    let (stub, mut node) = autofill(2, no_delay());
    let (_, waker) = counting();
    let cx = &mut Context::from_waker(&waker);

    stub.report(found(&[8..10, 2..4]));
    node.poll(cx);
    stub.report(found(&[3..6]));
    node.poll(cx);
    stub.report(Event::Other(1));
    node.poll(cx);
    assert_eq!(stub.rounds(), vec![2, 3]);
    for index in 0..6 {
        stub.reply(index, Ok(1));
        node.poll(cx);
    }
    let mut rounds = stub.rounds();
    rounds.sort();
    assert_eq!(rounds, vec![2, 3, 4, 5, 8, 9]);
}

#[test]
fn gaps_from_before_a_fresh_start_are_not_filled() {
    let (stub, mut node) = autofill(2, Duration::new(0, 20_000_000));
    let (_, waker) = counting();
    let cx = &mut Context::from_waker(&waker);

    stub.report(found(&[4..5]));
    assert!(node.poll(cx).fill.unwrap().started.is_empty());
    stub.report(Event::Install { details: 0 });
    assert!(node.poll(cx).fill.is_none());
    stub.report(found(&[6..7]));
    node.poll(cx);
    let before = std::time::Instant::now();
    while stub.rounds().is_empty() {
        node.poll(cx);
        assert!(before.elapsed() < std::time::Duration::from_secs(10));
    }
    assert_eq!(stub.rounds(), vec![6]);
}

#[test]
fn timers_wake_the_task() {
    let (_, mut node) = autofill(1, no_delay());
    let (count, waker) = counting();
    let cx = &mut Context::from_waker(&waker);

    node.queue_gaps(&gaps(&[1..2]), at(30_000_000));
    let fill = node.fill_gaps_at(cx, at(0), 1);
    assert_eq!(fill.wake, Wake::At(at(30_000_000)));
    let before = std::time::Instant::now();
    while count.0.load(Ordering::SeqCst) == 0 {
        assert!(before.elapsed() < std::time::Duration::from_secs(10));
        std::hint::spin_loop();
    }
    assert!(before.elapsed() >= std::time::Duration::from_millis(10));
}

#[test]
fn timers_are_dropped_when_there_is_nothing_to_wait_for() {
    let (_, mut node) = autofill(1, no_delay());
    let (count, waker) = counting();
    let cx = &mut Context::from_waker(&waker);

    node.queue_gaps(&gaps(&[1..2]), at(100_000_000));
    node.fill_gaps_at(cx, at(0), 1);
    node.handle_event(&Event::Install { details: 0 });
    assert_eq!(node.fill_gaps_at(cx, at(0), 1).wake, Wake::Idle);
    let before = std::time::Instant::now();
    while before.elapsed() < std::time::Duration::from_millis(300) {
        assert_eq!(count.0.load(Ordering::SeqCst), 0);
    }
}

#[test]
fn polling_passes_events_on() {
    let (stub, mut node) = autofill(1, no_delay());
    let (_, waker) = counting();
    let cx = &mut Context::from_waker(&waker);

    stub.report(Event::Other(17));
    assert!(matches!(
        node.poll_events(cx),
        Poll::Ready(Event::Other(17))
    ));
    stub.report(Event::Apply {
        round: 4,
        details: 8,
    });
    assert!(matches!(
        node.poll_events(cx),
        Poll::Ready(Event::Apply {
            round: 4,
            details: 8
        })
    ));
    assert!(matches!(node.poll_events(cx), Poll::Pending));
}

#[test]
fn polling_fills_reported_gaps() {
    let (stub, mut node) = autofill(2, no_delay());
    let (_, waker) = counting();
    let cx = &mut Context::from_waker(&waker);

    let polled = node.poll(cx);
    assert!(matches!(polled.event, Poll::Pending));
    assert!(polled.fill.is_none());

    stub.report(found(&[4..7]));
    let polled = node.poll(cx);
    assert!(matches!(polled.event, Poll::Ready(Event::Gaps { details: 3, .. })));
    assert_eq!(polled.fill.unwrap().started, vec![4, 5]);

    stub.reply(0, Ok(1));
    let polled = node.poll(cx);
    assert_eq!(polled.fill.unwrap().started, vec![6]);

    for round in 4..7 {
        stub.report(Event::Apply { round, details: 0 });
        node.poll(cx);
    }
    assert!(node.poll(cx).fill.is_none());
}

#[test]
fn polling_observes_the_delay() {
    let (stub, mut node) = autofill(2, Duration::new(3600, 0));
    let (_, waker) = counting();
    let cx = &mut Context::from_waker(&waker);

    stub.report(found(&[4..5]));
    let fill = node.poll(cx).fill.unwrap();
    assert!(fill.started.is_empty());
    match fill.wake {
        Wake::At(at) => assert!(at.nanos >= 3_600_000_000_000 && at.nanos < 3_620_000_000_000),
        _ => panic!("no wake-up is planned"),
    }
    assert!(stub.rounds().is_empty());
}

#[test]
fn the_longest_delay_can_be_observed() {
    let (stub, mut node) = autofill(2, Duration::new(u64::MAX, 999_999_999));
    let (_, waker) = counting();
    let cx = &mut Context::from_waker(&waker);

    stub.report(found(&[4..5]));
    let fill = node.poll(cx).fill.unwrap();
    assert!(fill.started.is_empty());
    assert!(matches!(fill.wake, Wake::At(_)));
}

#[test]
fn disoriented_nodes_do_not_fill() {
    let (stub, mut node) = autofill(2, no_delay());
    let (_, waker) = counting();
    let cx = &mut Context::from_waker(&waker);

    stub.report(Event::Init {
        status: NodeStatus::Disoriented,
        details: 0,
    });
    assert!(node.poll(cx).fill.is_none());
    stub.report(found(&[4..5]));
    assert!(node.poll(cx).fill.is_none());
    assert!(stub.rounds().is_empty());

    stub.report(Event::StatusChange {
        new_status: NodeStatus::Following,
        details: 0,
    });
    assert_eq!(node.poll(cx).fill.unwrap().started, vec![4]);
}

#[test]
fn appends_survive_a_fresh_start() {
    let (stub, mut node) = autofill(1, no_delay());
    let (_, waker) = counting();
    let cx = &mut Context::from_waker(&waker);

    stub.report(found(&[1..2]));
    assert_eq!(node.poll(cx).fill.unwrap().started, vec![1]);
    stub.report(Event::Install { details: 0 });
    assert!(node.poll(cx).fill.is_none());
    stub.report(found(&[5..6]));
    assert!(node.poll(cx).fill.unwrap().started.is_empty());
    stub.reply(0, Ok(1));
    let fill = node.poll(cx).fill.unwrap();
    assert_eq!(ended(&fill), vec![1]);
    assert_eq!(fill.started, vec![5]);
}

struct Growing {
    batch_size: usize,
    inits: usize,
}

impl Config for Growing {
    type Node = Stub;
    type Applicable = Deposit;
    type RetryPolicy = DoNotRetry;

    fn init(&mut self, _node: &Stub) {
        self.inits += 1;
    }

    fn update(&mut self, event: &Event<u32>) {
        if let Event::Other(by) = event {
            self.batch_size += *by as usize;
        }
    }

    fn batch_size(&self) -> usize {
        self.batch_size * self.inits
    }

    fn delay(&self) -> Duration {
        no_delay()
    }

    fn new_filler(&self) -> Deposit {
        Deposit
    }

    fn retry_policy(&self) -> DoNotRetry {
        DoNotRetry
    }
}

#[test]
fn configurations_are_initialized_and_updated() {
    let stub = Stub::default();
    let config = Growing {
        batch_size: 1,
        inits: 0,
    };
    let mut node = Autofill::wrap(stub.clone(), config).unwrap();
    let (_, waker) = counting();
    let cx = &mut Context::from_waker(&waker);

    stub.report(found(&[1..9]));
    assert_eq!(node.poll(cx).fill.unwrap().started, vec![1]);
    stub.report(Event::Other(2));
    assert_eq!(node.poll(cx).fill.unwrap().started, vec![2, 3]);
    assert_eq!(stub.0.borrow().asked[0].entry, "deposit");
}

#[test]
fn builders_decorate() {
    let builder = NodeBuilder {
        node: Ok(Stub::default()),
        voter: "voter",
        buffer: 12,
    };
    let built = builder.fill_gaps(Static::new(1, no_delay()));
    assert_eq!((built.voter, built.buffer), ("voter", 12));
    let node = built.node.unwrap();
    assert_eq!(Autofill::peek_into(&node).id(), 7);
    assert_eq!(<Autofill<Stub, Static> as Decoration>::unwrap(node).id(), 7);

    let builder: NodeBuilder<Stub, u8, u8> = NodeBuilder {
        node: Err(SpawnError("no state".to_string())),
        voter: 1,
        buffer: 2,
    };
    match builder.fill_gaps(Static::new(1, no_delay())).node {
        Err(SpawnError(reason)) => assert_eq!(reason, "no state"),
        Ok(_) => panic!("the node was set up"),
    }
}

#[test]
fn everything_else_is_left_to_the_node_within() {
    let (_, node) = autofill(1, no_delay());
    assert_eq!(node.id(), 7);
    assert_eq!(node.status(), NodeStatus::Lagging);
    assert_eq!(node.participation(), "active");
    assert_eq!(node.handle(), "handle");
    assert_eq!(node.prepare_snapshot(), "prepared");
    assert_eq!(node.affirm_snapshot(10), 11);
    assert_eq!(node.install_snapshot(10), 12);
    assert_eq!(node.read_stale(), "stale");
    assert_eq!(node.await_commit_of(4), 7);
    let args = |round: u128| AppendArgs {
        round: round..=round + 1,
        importance: Importance::GainLeadership,
        retry_policy: DoNotRetry,
    };
    assert_eq!(node.append(Deposit, args(4)), ("deposit", 5));
    assert_eq!(node.append_impl(Deposit, args(4)), ("deposit", 4));
    drop(node.append_static(Deposit, args(9)));
    assert_eq!(Autofill::peek_into(&node).rounds(), vec![9]);
    assert_eq!(node.shut_down(), "down");
}

#[test]
fn decorations_can_be_stacked() {
    let (stub, inner) = autofill(1, no_delay());
    let config: StaticConfig<Autofill<Stub, Static>, Noop> = StaticConfig::new(1, no_delay());
    let mut outer = Autofill::wrap(inner, config).unwrap();
    let (_, waker) = counting();
    let cx = &mut Context::from_waker(&waker);

    stub.report(found(&[3..4]));
    let polled = outer.poll(cx);
    assert_eq!(polled.fill.unwrap().started, vec![3]);
    assert_eq!(stub.rounds(), vec![3, 3]);
}
