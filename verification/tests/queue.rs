use std::cmp::Ordering;
use std::collections::VecDeque;

use autofill::autofill::{append_args, expire};
use autofill::node::{DoNotRetry, Importance, Peeryness};
use autofill::queue::{GapQueue, QueuedGap};
use autofill::time::{Clock, Duration, Instant, MAX_NANOS, NANOS_PER_SEC};
use autofill::wake::{wait_until, Wake};

fn at(nanos: u128) -> Instant {
    Instant { nanos }
}

fn gap(round: u128, due: u128) -> QueuedGap {
    QueuedGap {
        round,
        due_time: at(due),
    }
}

fn drain(queue: &mut GapQueue) -> Vec<(u128, u128)> {
    let mut out = Vec::new();
    while let Some(gap) = queue.pop() {
        out.push((gap.due_time.nanos, gap.round));
    }
    out
}

#[test]
fn earlier_gaps_rank_higher() {
    assert_eq!(gap(9, 1).cmp(&gap(1, 2)), Ordering::Greater);
    assert_eq!(gap(1, 2).cmp(&gap(9, 1)), Ordering::Less);
    assert_eq!(gap(1, 2).partial_cmp(&gap(9, 1)), Some(Ordering::Less));
    assert!(gap(9, 1) > gap(1, 2));
}

#[test]
fn earlier_rounds_rank_higher_when_due_together() {
    assert_eq!(gap(3, 7).cmp(&gap(4, 7)), Ordering::Greater);
    assert_eq!(gap(4, 7).cmp(&gap(3, 7)), Ordering::Less);
    assert_eq!(gap(4, 7).cmp(&gap(4, 7)), Ordering::Equal);
    assert!(gap(4, 7) == gap(4, 7));
}

#[test]
fn ranking_is_transitive() {
    let (a, b, c) = (gap(8, 1), gap(2, 5), gap(3, 5));
    assert!(a > b && b > c && a > c);
}

#[test]
fn queue_hands_out_the_most_urgent_gap() {
    let mut queue = GapQueue::new();
    for g in [gap(5, 30), gap(2, 10), gap(9, 20), gap(1, 10), gap(7, 20)] {
        queue.push(g);
    }
    assert_eq!(queue.peek(), Some(gap(1, 10)));
    assert_eq!(
        drain(&mut queue),
        vec![(10, 1), (10, 2), (20, 7), (20, 9), (30, 5)]
    );
    assert_eq!(queue.peek(), None);
    assert_eq!(queue.pop(), None);
}

#[test]
fn queue_keeps_equal_gaps() {
    let mut queue = GapQueue::new();
    queue.push(gap(4, 1));
    queue.push(gap(4, 1));
    assert_eq!(drain(&mut queue), vec![(1, 4), (1, 4)]);
}

#[test]
fn queue_can_be_cleared() {
    let mut queue = GapQueue::new();
    queue.push(gap(4, 1));
    queue.clear();
    assert_eq!(queue.peek(), None);
    assert_eq!(queue.pop(), None);
}

#[test]
fn expired_places_are_dropped_up_to_the_first_that_is_not() {
    let mut corner: VecDeque<Instant> = vec![at(1), at(5), at(9), at(2)].into();
    expire(&mut corner, at(5));
    assert_eq!(corner, vec![at(9), at(2)]);
    expire(&mut corner, at(8));
    assert_eq!(corner, vec![at(9), at(2)]);
    expire(&mut corner, at(9));
    assert!(corner.is_empty());
}

#[test]
fn wake_is_planned_for_the_earlier_time() {
    let now = at(100);
    assert_eq!(Wake::plan(None, None, now), Wake::Idle);
    assert_eq!(Wake::plan(Some(at(150)), None, now), Wake::At(at(150)));
    assert_eq!(Wake::plan(None, Some(at(140)), now), Wake::At(at(140)));
    assert_eq!(
        Wake::plan(Some(at(150)), Some(at(140)), now),
        Wake::At(at(140))
    );
    assert_eq!(
        Wake::plan(Some(at(130)), Some(at(140)), now),
        Wake::At(at(130))
    );
    assert_eq!(Wake::plan(Some(at(100)), Some(at(140)), now), Wake::Now);
    assert_eq!(Wake::plan(Some(at(150)), Some(at(99)), now), Wake::Now);
}

#[test]
fn waits_are_split_into_seconds_and_nanoseconds() {
    assert_eq!(wait_until(at(3_500_000_007), at(1_000_000_000)), (2, 500_000_007));
    assert_eq!(wait_until(at(5), at(5)), (0, 0));
    assert_eq!(wait_until(at(MAX_NANOS), at(0)), (u64::MAX, 999_999_999));
    assert_eq!(wait_until(at(u128::MAX), at(0)), (u64::MAX, 999_999_999));
}

#[test]
fn durations_count_nanoseconds() {
    assert_eq!(Duration::new(1, 5).as_nanos(), 1_000_000_005);
    assert_eq!(Duration::new(1, 1_500_000_000).as_nanos(), 2_500_000_000);
    assert_eq!(Duration::new(u64::MAX, 999_999_999).as_nanos(), MAX_NANOS);
    assert_eq!(NANOS_PER_SEC, 1_000_000_000);
}

#[test]
fn instants_move_by_durations() {
    assert_eq!(at(7).plus(Duration::new(2, 1)), at(2_000_000_008));
    assert_eq!(
        at(MAX_NANOS).plus(Duration::new(u64::MAX, 999_999_999)),
        at(2 * MAX_NANOS)
    );
}

#[test]
fn readings_do_not_go_back() {
    assert_eq!(at(0).advanced_to(0, 0), at(0));
    assert_eq!(at(7).advanced_to(2, 1), at(2_000_000_001));
    assert_eq!(at(2_000_000_001).advanced_to(2, 1), at(2_000_000_001));
    assert_eq!(at(2_000_000_001).advanced_to(1, 999_999_999), at(2_000_000_001));
    assert_eq!(at(0).advanced_to(u64::MAX, 999_999_999), at(MAX_NANOS));
}

#[test]
fn clocks_count_from_their_start() {
    let mut clock = Clock::start();
    let first = clock.now();
    let second = clock.now();
    assert!(first.nanos <= second.nanos);
    assert!(second.nanos < 15 * NANOS_PER_SEC);
    while clock.now() == second {}
    assert!(clock.now().nanos > second.nanos);
}

#[test]
fn gaps_are_filled_in_their_round_without_contending() {
    let args = append_args(41, DoNotRetry::new());
    assert_eq!(args.round, 41..=41);
    assert_eq!(
        args.importance,
        Importance::MaintainLeadership(Peeryness::Peery)
    );
}
