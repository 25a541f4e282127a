use async_select_all::SelectAll;
use async_select_all::SelectFuture;
use std::cell::Cell;
use std::future::Future;
use std::pin::Pin;
use std::rc::Rc;
use std::sync::atomic::AtomicUsize;
use std::sync::atomic::Ordering;
use std::sync::Arc;
use std::task::Context;
use std::task::Poll;
use std::task::Wake;
use std::task::Waker;

/// Resolves to `value` once it has been found pending `waits` times, and
/// counts in `polls` how often it was asked.
struct Probe {
    waits: u32,
    value: i32,
    polls: Rc<Cell<u32>>,
}

impl Probe {
    fn new(waits: u32, value: i32) -> Probe {
        Probe { waits, value, polls: Rc::new(Cell::new(0)) }
    }

    fn counted(waits: u32, value: i32, polls: &Rc<Cell<u32>>) -> Probe {
        Probe { waits, value, polls: Rc::clone(polls) }
    }
}

impl Future for Probe {
    type Output = i32;

    fn poll(mut self: Pin<&mut Self>, cx: &mut Context<'_>) -> Poll<i32> {
        self.polls.set(self.polls.get() + 1);
        if self.waits == 0 {
            Poll::Ready(self.value)
        } else {
            self.waits -= 1;
            cx.waker().wake_by_ref();
            Poll::Pending
        }
    }
}

/// Counts how often it is woken.
struct WakeCount {
    wakes: AtomicUsize,
}

impl Wake for WakeCount {
    fn wake(self: Arc<Self>) {
        self.wakes.fetch_add(1, Ordering::SeqCst);
    }
}

/// Polls the select over `set` until it resolves.
fn run_select<F: Future>(set: &mut SelectAll<F>) -> F::Output {
    assert!(!set.is_empty());
    let mut cx = Context::from_waker(Waker::noop());
    let mut select = set.select();
    loop {
        if let Poll::Ready(value) = select.poll(&mut cx) {
            return value;
        }
    }
}

/// Makes one attempt at a select over `set`.
fn attempt<F: Future>(set: &mut SelectAll<F>) -> Poll<F::Output> {
    assert!(!set.is_empty());
    let mut cx = Context::from_waker(Waker::noop());
    set.select().poll(&mut cx)
}

#[test]
fn a_new_set_is_empty() {
    let set: SelectAll<Probe> = SelectAll::new();
    assert_eq!(set.len(), 0);
    assert!(set.is_empty());
}

#[test]
fn from_an_empty_batch_gives_an_empty_set() {
    let set: SelectAll<Probe> = SelectAll::from(Vec::new());
    assert_eq!(set.len(), 0);
    assert!(set.is_empty());
}

#[test]
fn from_keeps_the_order_of_the_batch() {
    // All three are ready; the slots are emptied in the order that
    // swap-removal gives: first, then the last, which took its slot.
    let mut set = SelectAll::from(vec![Probe::new(0, 1), Probe::new(0, 2), Probe::new(0, 3)]);
    assert_eq!(set.len(), 3);
    assert_eq!(attempt(&mut set), Poll::Ready(1));
    assert_eq!(attempt(&mut set), Poll::Ready(3));
    assert_eq!(attempt(&mut set), Poll::Ready(2));
    assert!(set.is_empty());
}

#[test]
fn push_does_not_poll() {
    let polls = Rc::new(Cell::new(0));
    let mut set = SelectAll::new();
    set.push(Probe::counted(0, 7, &polls));
    assert_eq!(set.len(), 1);
    assert_eq!(polls.get(), 0);
    assert_eq!(attempt(&mut set), Poll::Ready(7));
    assert_eq!(polls.get(), 1);
}

#[test]
fn from_does_not_poll() {
    let polls = Rc::new(Cell::new(0));
    let set = SelectAll::from(vec![Probe::counted(0, 7, &polls), Probe::counted(0, 8, &polls)]);
    assert_eq!(set.len(), 2);
    assert_eq!(polls.get(), 0);
}

#[test]
fn n_selects_drain_n_tasks() {
    let values = vec![17, -4, 23, 8, 15, 16, 42];
    let mut set = SelectAll::from(vec![
        Probe::new(3, 17),
        Probe::new(0, -4),
        Probe::new(6, 23),
        Probe::new(1, 8),
        Probe::new(1, 15),
        Probe::new(9, 16),
        Probe::new(2, 42),
    ]);
    let mut outputs = Vec::new();
    for remaining in (0..values.len()).rev() {
        assert!(!set.is_empty());
        outputs.push(run_select(&mut set));
        assert_eq!(set.len(), remaining);
    }
    assert!(set.is_empty());
    let mut expected = values;
    expected.sort();
    outputs.sort();
    assert_eq!(outputs, expected);
}

#[test]
fn equal_outputs_each_come_out_once() {
    let mut set = SelectAll::from(vec![Probe::new(2, 5), Probe::new(0, 5), Probe::new(1, 9)]);
    let mut outputs = Vec::new();
    while !set.is_empty() {
        outputs.push(run_select(&mut set));
    }
    outputs.sort();
    assert_eq!(outputs, vec![5, 5, 9]);
}

#[test]
fn selects_are_as_many_as_tasks_at_the_start_and_pushed() {
    let mut set = SelectAll::from(vec![Probe::new(1, 10), Probe::new(4, 20)]);
    let mut outputs = Vec::new();
    outputs.push(run_select(&mut set));
    set.push(Probe::new(0, 30));
    set.push(Probe::new(2, 40));
    outputs.push(run_select(&mut set));
    set.push(Probe::new(7, 50));
    let mut selects = 2;
    while !set.is_empty() {
        outputs.push(run_select(&mut set));
        selects += 1;
    }
    assert_eq!(selects, 2 + 3);
    outputs.sort();
    assert_eq!(outputs, vec![10, 20, 30, 40, 50]);
}

#[test]
fn the_earlier_of_two_ready_tasks_comes_first() {
    for _ in 0..20 {
        let mut set = SelectAll::from(vec![Probe::new(9, 1), Probe::new(0, 2), Probe::new(0, 3)]);
        assert_eq!(attempt(&mut set), Poll::Ready(2));
        assert_eq!(set.len(), 2);
    }
}

#[test]
fn all_ready_tasks_come_out_in_slot_order_after_swaps() {
    for _ in 0..20 {
        let mut set = SelectAll::from(vec![
            Probe::new(0, 1),
            Probe::new(0, 2),
            Probe::new(0, 3),
            Probe::new(0, 4),
        ]);
        // [1, 2, 3, 4] -> [4, 2, 3] -> [3, 2] -> [2]
        assert_eq!(attempt(&mut set), Poll::Ready(1));
        assert_eq!(attempt(&mut set), Poll::Ready(4));
        assert_eq!(attempt(&mut set), Poll::Ready(3));
        assert_eq!(attempt(&mut set), Poll::Ready(2));
        assert!(set.is_empty());
    }
}

#[test]
fn each_attempt_starts_at_the_first_slot() {
    // Both are pending at the first attempt and ready at the second: the
    // second attempt asks the first slot first.
    let mut set = SelectAll::from(vec![Probe::new(1, 1), Probe::new(1, 2)]);
    assert_eq!(attempt(&mut set), Poll::Pending);
    assert_eq!(attempt(&mut set), Poll::Ready(1));
    assert_eq!(attempt(&mut set), Poll::Ready(2));
}

#[test]
fn tasks_behind_the_ready_one_are_not_asked() {
    let before = Rc::new(Cell::new(0));
    let behind = Rc::new(Cell::new(0));
    let mut set = SelectAll::from(vec![
        Probe::counted(5, 1, &before),
        Probe::counted(0, 2, &before),
        Probe::counted(0, 3, &behind),
        Probe::counted(0, 4, &behind),
    ]);
    assert_eq!(attempt(&mut set), Poll::Ready(2));
    assert_eq!(before.get(), 2);
    assert_eq!(behind.get(), 0);
}

#[test]
fn an_attempt_that_finds_nothing_asks_every_task_once() {
    let polls = Rc::new(Cell::new(0));
    let mut set = SelectAll::from(vec![
        Probe::counted(2, 1, &polls),
        Probe::counted(2, 2, &polls),
        Probe::counted(2, 3, &polls),
    ]);
    assert_eq!(attempt(&mut set), Poll::Pending);
    assert_eq!(polls.get(), 3);
    assert_eq!(set.len(), 3);
    assert_eq!(attempt(&mut set), Poll::Pending);
    assert_eq!(polls.get(), 6);
    assert_eq!(set.len(), 3);
}

#[test]
fn push_is_seen_by_the_next_select() {
    let mut set = SelectAll::from(vec![Probe::new(0, 1), Probe::new(50, 2)]);
    assert_eq!(run_select(&mut set), 1);
    assert_eq!(set.len(), 1);
    set.push(Probe::new(0, 3));
    assert_eq!(set.len(), 2);
    assert_eq!(attempt(&mut set), Poll::Ready(3));
    assert_eq!(set.len(), 1);
    assert_eq!(run_select(&mut set), 2);
    assert_eq!(set.len(), 0);
}

#[test]
fn an_abandoned_select_removes_nothing() {
    let mut set = SelectAll::from(vec![Probe::new(3, 1), Probe::new(4, 2)]);
    let mut cx = Context::from_waker(Waker::noop());
    {
        let mut select = set.select();
        assert_eq!(select.poll(&mut cx), Poll::Pending);
        assert_eq!(select.poll(&mut cx), Poll::Pending);
    }
    assert_eq!(set.len(), 2);
    let mut outputs = vec![run_select(&mut set), run_select(&mut set)];
    outputs.sort();
    assert_eq!(outputs, vec![1, 2]);
}

#[test]
fn every_pending_task_gets_the_waker() {
    let count = Arc::new(WakeCount { wakes: AtomicUsize::new(0) });
    let waker = Waker::from(Arc::clone(&count));
    let mut cx = Context::from_waker(&waker);
    let mut set = SelectAll::from(vec![Probe::new(1, 1), Probe::new(2, 2), Probe::new(3, 3)]);
    assert_eq!(set.select().poll(&mut cx), Poll::Pending);
    assert_eq!(count.wakes.load(Ordering::SeqCst), 3);
    assert_eq!(set.select().poll(&mut cx), Poll::Ready(1));
    assert_eq!(count.wakes.load(Ordering::SeqCst), 3);
}

#[test]
fn the_select_is_a_future() {
    let mut set = SelectAll::from(vec![Probe::new(1, 11), Probe::new(9, 12)]);
    let mut cx = Context::from_waker(Waker::noop());
    let mut select = SelectFuture::new(&mut set);
    assert_eq!(Pin::new(&mut select).poll(&mut cx), Poll::Pending);
    assert_eq!(Pin::new(&mut select).poll(&mut cx), Poll::Ready(11));
    assert_eq!(set.len(), 1);
}

#[test]
fn a_select_over_an_emptied_set_stays_pending() {
    let mut set = SelectAll::from(vec![Probe::new(0, 5)]);
    let mut cx = Context::from_waker(Waker::noop());
    let mut select = SelectFuture::new(&mut set);
    assert_eq!(Pin::new(&mut select).poll(&mut cx), Poll::Ready(5));
    assert_eq!(Pin::new(&mut select).poll(&mut cx), Poll::Pending);
    assert_eq!(Pin::new(&mut select).poll(&mut cx), Poll::Pending);
    assert!(set.is_empty());
}

#[test]
fn a_failure_of_a_task_passes_through() {
    let good = std::future::ready(Ok::<i32, String>(3));
    let bad = std::future::ready(Err::<i32, String>(String::from("broken")));
    let mut set = SelectAll::from(vec![bad, good]);
    assert_eq!(attempt(&mut set), Poll::Ready(Err(String::from("broken"))));
    assert_eq!(attempt(&mut set), Poll::Ready(Ok(3)));
    assert!(set.is_empty());
}

/// Yields to the caller `times` times.
async fn pause(times: u32) {
    Probe::new(times, 0).await;
}

/// Keeps a reference to its own data across its pauses.
async fn sum_after(waits: u32, data: [i32; 4]) -> i32 {
    let mut total = 0;
    for item in &data {
        pause(waits).await;
        total += *item;
    }
    total
}

#[test]
fn tasks_that_point_into_themselves_survive_the_moves() {
    let mut set = SelectAll::new();
    let mut outputs = Vec::new();
    set.push(sum_after(3, [1, 2, 3, 4]));
    assert_eq!(attempt(&mut set), Poll::Pending);
    // Pushing makes the set grow and move its slots; selecting swaps them.
    for round in 0..64 {
        set.push(sum_after(1 + round % 5, [round as i32, 0, 0, 1]));
        if let Poll::Ready(value) = attempt(&mut set) {
            outputs.push(value);
        }
    }
    assert!(!outputs.is_empty());
    assert_eq!(set.len() + outputs.len(), 65);
    while !set.is_empty() {
        outputs.push(run_select(&mut set));
    }
    outputs.sort();
    let mut expected: Vec<i32> = (0..64).map(|round| round + 1).collect();
    expected.push(10);
    expected.sort();
    assert_eq!(outputs, expected);
}
