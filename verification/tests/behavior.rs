use split_by_buffered::ring::RingBuf;
use split_by_buffered::split::FalseSplitByBuffered;
use split_by_buffered::split::PollOutcome;
use split_by_buffered::split::SplitByBuffered;
use split_by_buffered::split::TrueSplitByBuffered;
use split_by_buffered::split::Upstream;
use split_by_buffered::split::UpstreamPoll;
use split_by_buffered::split::VecUpstream;
use std::cell::Cell;
use std::rc::Rc;
use std::sync::atomic::AtomicUsize;
use std::sync::atomic::Ordering;
use std::sync::Arc;
use std::sync::Mutex;
use std::task::Context;
use std::task::Wake;
use std::task::Waker;

/// An upstream source that yields the items of a vector and counts how often
/// it has been polled.
struct CountingUpstream {
    items: Vec<u64>,
    next: usize,
    polls: Rc<Cell<usize>>,
}

impl CountingUpstream {
    fn new(items: Vec<u64>) -> (Self, Rc<Cell<usize>>) {
        let polls = Rc::new(Cell::new(0));
        (CountingUpstream { items, next: 0, polls: polls.clone() }, polls)
    }
}

impl Upstream<u64> for CountingUpstream {
    fn poll_upstream(&mut self, _cx: &mut Context<'_>) -> UpstreamPoll<u64> {
        self.polls.set(self.polls.get() + 1);
        if self.next < self.items.len() {
            let item = self.items[self.next];
            self.next += 1;
            UpstreamPoll::Item(item)
        } else {
            UpstreamPoll::Exhausted
        }
    }
}

/// A waker that counts how often it has been woken.
struct CountingWake(AtomicUsize);

impl Wake for CountingWake {
    fn wake(self: Arc<Self>) {
        self.0.fetch_add(1, Ordering::SeqCst);
    }

    fn wake_by_ref(self: &Arc<Self>) {
        self.0.fetch_add(1, Ordering::SeqCst);
    }
}

fn ready_value(r: PollOutcome<u64>) -> u64 {
    match r {
        PollOutcome::Ready(v) => v,
        PollOutcome::Exhausted => panic!("expected a ready item, got exhaustion"),
        PollOutcome::Pending => panic!("expected a ready item, got pending"),
    }
}

#[test]
fn ring_rejects_when_full() {
    let mut buf: RingBuf<u64> = RingBuf::new(2);
    assert!(buf.is_empty());
    assert_eq!(buf.remaining(), 2);
    assert_eq!(buf.push_back(10), None);
    assert_eq!(buf.push_back(20), None);
    assert_eq!(buf.len(), 2);
    assert_eq!(buf.remaining(), 0);
    assert_eq!(buf.push_back(30), Some(30));
    assert_eq!(buf.len(), 2);
    assert_eq!(buf.pop_front(), Some(10));
    assert_eq!(buf.push_back(30), None);
    assert_eq!(buf.pop_front(), Some(20));
    assert_eq!(buf.pop_front(), Some(30));
    assert_eq!(buf.pop_front(), None);
    assert!(buf.is_empty());
}

#[test]
fn ring_is_first_in_first_out() {
    let mut buf: RingBuf<u64> = RingBuf::new(3);
    assert_eq!(buf.push_back(1), None);
    assert_eq!(buf.push_back(2), None);
    assert_eq!(buf.pop_front(), Some(1));
    assert_eq!(buf.push_back(3), None);
    assert_eq!(buf.push_back(4), None);
    assert_eq!(buf.pop_front(), Some(2));
    assert_eq!(buf.pop_front(), Some(3));
    assert_eq!(buf.pop_front(), Some(4));
    assert_eq!(buf.pop_front(), None);
}

#[test]
fn alternating_polls_with_capacity_one() {
    let waker = futures::task::noop_waker();
    let mut cx = Context::from_waker(&waker);
    let upstream = VecUpstream::new(vec![1u64, 2, 3]);
    let mut c = SplitByBuffered::new(upstream, |x: &u64| *x == 2, 1);

    // The first "match" poll pulls item 1, routes it to the other side, and
    // reports pending; the sibling then finds it buffered.
    assert!(matches!(c.poll_next_true(&mut cx), PollOutcome::Pending));
    assert_eq!(ready_value(c.poll_next_false(&mut cx)), 1);
    assert_eq!(ready_value(c.poll_next_true(&mut cx)), 2);
    assert_eq!(ready_value(c.poll_next_false(&mut cx)), 3);
    assert!(matches!(c.poll_next_true(&mut cx), PollOutcome::Exhausted));
    assert!(matches!(c.poll_next_false(&mut cx), PollOutcome::Exhausted));
    // Terminal answers stay terminal.
    assert!(matches!(c.poll_next_true(&mut cx), PollOutcome::Exhausted));
    assert!(matches!(c.poll_next_false(&mut cx), PollOutcome::Exhausted));
}

#[test]
fn backpressure_stops_upstream_pulls() {
    let waker = futures::task::noop_waker();
    let mut cx = Context::from_waker(&waker);
    let (upstream, polls) = CountingUpstream::new(vec![10, 20, 30]);
    // Nothing matches, and only the "match" side is ever polled.
    let mut c = SplitByBuffered::new(upstream, |x: &u64| *x == 100, 1);

    for _ in 0..5 {
        assert!(matches!(c.poll_next_true(&mut cx), PollOutcome::Pending));
    }
    // Item 10 filled the sibling's single slot on the first poll; after that
    // no further upstream pull may happen until the sibling drains.
    assert_eq!(polls.get(), 1);

    assert_eq!(ready_value(c.poll_next_false(&mut cx)), 10);
    assert!(matches!(c.poll_next_true(&mut cx), PollOutcome::Pending));
    assert_eq!(polls.get(), 2);
}

#[test]
fn construction_pulls_nothing() {
    let (upstream, polls) = CountingUpstream::new(vec![1, 2, 3]);
    let c = SplitByBuffered::new(upstream, |x: &u64| *x > 1, 4);
    let shared = Arc::new(Mutex::new(c));
    let true_handle = TrueSplitByBuffered::new(shared.clone());
    let false_handle = FalseSplitByBuffered::new(shared.clone());
    drop(true_handle);
    drop(false_handle);
    drop(shared);
    assert_eq!(polls.get(), 0);
}

#[test]
fn items_split_completely_and_in_order() {
    let waker = futures::task::noop_waker();
    let mut cx = Context::from_waker(&waker);
    let items: Vec<u64> = (1..=10).collect();
    let upstream = VecUpstream::new(items);
    let mut c = SplitByBuffered::new(upstream, |x: &u64| *x % 2 == 0, 2);

    let mut evens: Vec<u64> = Vec::new();
    let mut odds: Vec<u64> = Vec::new();
    let mut evens_done = false;
    let mut odds_done = false;
    let mut rounds = 0;
    while !(evens_done && odds_done) {
        rounds += 1;
        assert!(rounds < 100, "the partitions did not both reach terminal");
        if !evens_done {
            match c.poll_next_true(&mut cx) {
                PollOutcome::Ready(v) => evens.push(v),
                PollOutcome::Exhausted => evens_done = true,
                PollOutcome::Pending => {}
            }
        }
        if !odds_done {
            match c.poll_next_false(&mut cx) {
                PollOutcome::Ready(v) => odds.push(v),
                PollOutcome::Exhausted => odds_done = true,
                PollOutcome::Pending => {}
            }
        }
    }
    assert_eq!(evens, vec![2, 4, 6, 8, 10]);
    assert_eq!(odds, vec![1, 3, 5, 7, 9]);
}

#[test]
fn no_terminal_while_buffer_holds_items() {
    let waker = futures::task::noop_waker();
    let mut cx = Context::from_waker(&waker);
    let upstream = VecUpstream::new(vec![1u64, 3]);
    let mut c = SplitByBuffered::new(upstream, |x: &u64| *x % 2 == 0, 2);

    // The "match" side pulls both items and buffers them for the sibling;
    // with the sibling's buffer now full it declines to pull further, so it
    // cannot yet observe exhaustion.
    assert!(matches!(c.poll_next_true(&mut cx), PollOutcome::Pending));
    assert!(matches!(c.poll_next_true(&mut cx), PollOutcome::Pending));
    assert!(matches!(c.poll_next_true(&mut cx), PollOutcome::Pending));
    // One slot drains, the match side pulls again and hits the end.
    assert_eq!(ready_value(c.poll_next_false(&mut cx)), 1);
    assert!(matches!(c.poll_next_true(&mut cx), PollOutcome::Exhausted));
    // Upstream is exhausted, yet the sibling must first drain its buffer
    // before reporting terminal.
    assert_eq!(ready_value(c.poll_next_false(&mut cx)), 3);
    assert!(matches!(c.poll_next_false(&mut cx), PollOutcome::Exhausted));
    assert!(matches!(c.poll_next_true(&mut cx), PollOutcome::Exhausted));
}

#[test]
fn sibling_waker_is_woken_when_its_buffer_fills() {
    let counting = Arc::new(CountingWake(AtomicUsize::new(0)));
    let true_waker = Waker::from(counting.clone());
    let mut true_cx = Context::from_waker(&true_waker);
    let noop = futures::task::noop_waker();
    let mut noop_cx = Context::from_waker(&noop);

    let upstream = VecUpstream::new(vec![10u64, 20, 30]);
    // Everything matches, so items pulled by the "non-match" side pile up in
    // the "match" side's buffer.
    let mut c = SplitByBuffered::new(upstream, |_x: &u64| true, 1);

    // Records the "match" side's waker and delivers item 10 directly.
    assert_eq!(ready_value(c.poll_next_true(&mut true_cx)), 10);
    assert_eq!(counting.0.load(Ordering::SeqCst), 0);
    // The "non-match" side pulls 20 into the match buffer and must wake the
    // recorded match waker.
    assert!(matches!(c.poll_next_false(&mut noop_cx), PollOutcome::Pending));
    assert_eq!(counting.0.load(Ordering::SeqCst), 1);
    // Now the match buffer is full: the non-match side declines to pull and
    // wakes the match side again.
    assert!(matches!(c.poll_next_false(&mut noop_cx), PollOutcome::Pending));
    assert_eq!(counting.0.load(Ordering::SeqCst), 2);
    // The match side drains its buffer; nothing more was pulled meanwhile.
    assert_eq!(ready_value(c.poll_next_true(&mut true_cx)), 20);
}

#[test]
fn routing_single_events() {
    let upstream = VecUpstream::new(Vec::new());
    let mut c = SplitByBuffered::new(upstream, |x: &u64| *x == 2, 1);

    // A non-matching item routed on the "true" side lands in the sibling's
    // buffer and the answer is pending.
    assert!(matches!(c.route_true(UpstreamPoll::Item(1)), PollOutcome::Pending));
    let waker = futures::task::noop_waker();
    let mut cx = Context::from_waker(&waker);
    assert_eq!(ready_value(c.poll_next_false(&mut cx)), 1);
    // A matching item is delivered directly.
    assert_eq!(ready_value(c.route_true(UpstreamPoll::Item(2))), 2);
    // A pending upstream stays pending; an exhaustion answer is terminal for
    // both sides.
    assert!(matches!(c.route_false(UpstreamPoll::Pending), PollOutcome::Pending));
    assert!(matches!(c.route_false(UpstreamPoll::Exhausted), PollOutcome::Exhausted));
    assert!(matches!(c.poll_next_true(&mut cx), PollOutcome::Exhausted));
    assert!(matches!(c.poll_next_false(&mut cx), PollOutcome::Exhausted));
}

#[test]
fn handles_poll_through_shared_coordinator() {
    let waker = futures::task::noop_waker();
    let mut cx = Context::from_waker(&waker);
    let upstream = VecUpstream::new(vec![7u64, 8]);
    let c = SplitByBuffered::new(upstream, |x: &u64| *x == 8, 1);
    let shared = Arc::new(Mutex::new(c));
    let true_handle = TrueSplitByBuffered::new(shared.clone());
    let false_handle = FalseSplitByBuffered::new(shared);

    let r1 = {
        let mut guard = true_handle.coordinator().try_lock().unwrap();
        guard.poll_next_true(&mut cx)
    };
    assert!(matches!(r1, PollOutcome::Pending));
    let r2 = {
        let mut guard = false_handle.coordinator().try_lock().unwrap();
        guard.poll_next_false(&mut cx)
    };
    assert_eq!(ready_value(r2), 7);
    let r3 = {
        let mut guard = true_handle.coordinator().try_lock().unwrap();
        guard.poll_next_true(&mut cx)
    };
    assert_eq!(ready_value(r3), 8);
}
