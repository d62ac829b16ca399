use std::future::Future;
use std::pin::Pin;
use std::sync::{Arc, Mutex};
use std::task::{Context, Poll, Waker};

use rex::queue::{RawDeque, StreamReceiver, StreamableDeque};

type Shared = Arc<Mutex<StreamableDeque<i32, Waker>>>;

fn wake(handle: Option<Waker>) {
    if let Some(handle) = handle {
        handle.wake();
    }
}

struct Next<'a> {
    queue: &'a Shared,
    receiver: &'a mut StreamReceiver,
}

impl Future for Next<'_> {
    type Output = i32;

    fn poll(self: Pin<&mut Self>, ctx: &mut Context<'_>) -> Poll<i32> {
        let this = self.get_mut();
        let mut queue = this.queue.lock().unwrap();
        match queue.poll_next(this.receiver, ctx.waker().clone()) {
            Some(value) => Poll::Ready(value),
            None => Poll::Pending,
        }
    }
}

#[test]
fn streamable_deque() {
    let runtime = tokio::runtime::Builder::new_current_thread().build().unwrap();
    let rx_vec: Vec<i32> = runtime.block_on(async {
        let queue: Shared = Arc::new(Mutex::new(StreamableDeque::new()));

        let pos_queue = queue.clone();
        tokio::spawn(async move {
            for i in 0..=10 {
                wake(pos_queue.lock().unwrap().push_back(i));
            }
        });

        let neg_queue = queue.clone();
        tokio::spawn(async move {
            for i in -10..=-1 {
                wake(neg_queue.lock().unwrap().push_front(i));
            }
        });

        let mut rx_vec = vec![];
        let mut receiver = queue.lock().unwrap().stream();
        for _ in 0..=20 {
            let next = Next {
                queue: &queue,
                receiver: &mut receiver,
            };
            rx_vec.push(next.await);
        }
        rx_vec
    });

    // we should guarantee that positive and negative numbers have been pushed out of order
    // but push_front and push_back should guarantee that they are sorted
    let expected_vec: Vec<i32> = (-10..=10).collect();
    assert_eq!(expected_vec, rx_vec);
}

#[test]
fn alternating_pushes_come_out_sorted() {
    let mut queue: StreamableDeque<i32, u8> = StreamableDeque::new();
    queue.push_back(0);
    for i in 1..=10 {
        queue.push_front(i - 11);
        queue.push_back(i);
    }
    let mut taken = vec![];
    while let Some(value) = queue.pop_front() {
        taken.push(value);
    }
    let expected: Vec<i32> = (-10..=10).collect();
    assert_eq!(expected, taken);
    assert_eq!(queue.pop_front(), None);
}

#[test]
fn pop_back_takes_from_the_other_end() {
    let mut queue: StreamableDeque<i32, u8> = StreamableDeque::default();
    queue.push_front(1);
    queue.push_front(2);
    queue.push_back(3);
    assert_eq!(queue.pop_back(), Some(3));
    assert_eq!(queue.pop_back(), Some(2));
    assert_eq!(queue.pop_back(), Some(1));
    assert_eq!(queue.pop_back(), None);
}

#[test]
fn pushes_notify_in_the_order_of_waiting() {
    let mut queue: StreamableDeque<i32, &str> = StreamableDeque::new();
    let mut first = queue.stream();
    let mut second = queue.stream();
    assert_eq!(queue.poll_next(&mut first, "first"), None);
    assert_eq!(queue.poll_next(&mut second, "second"), None);
    assert_eq!(queue.push_back(1), Some("first"));
    assert_eq!(queue.push_front(2), Some("second"));
    assert_eq!(queue.push_front(3), None);
    assert_eq!(queue.poll_next(&mut second, "second"), Some(2));
    assert_eq!(queue.poll_next(&mut first, "first"), Some(3));
    assert_eq!(queue.poll_next(&mut first, "first"), Some(1));
    assert_eq!(queue.poll_next(&mut first, "first"), None);
}

#[test]
fn released_receivers_pass_their_notification_on() {
    let mut queue: StreamableDeque<i32, &str> = StreamableDeque::new();
    let mut first = queue.stream();
    let mut second = queue.stream();
    assert_eq!(queue.poll_next(&mut first, "first"), None);
    assert_eq!(queue.poll_next(&mut second, "second"), None);
    assert_eq!(queue.push_back(1), Some("first"));
    // first was notified and goes away without taking the value
    assert_eq!(queue.release(first), Some("second"));
    assert_eq!(queue.poll_next(&mut second, "second"), Some(1));
    // second took its value, so that it has nothing to pass on
    assert_eq!(queue.release(second), None);
}

#[test]
fn receivers_that_were_not_notified_pass_nothing_on() {
    let mut queue: StreamableDeque<i32, &str> = StreamableDeque::new();
    let mut first = queue.stream();
    let mut second = queue.stream();
    let idle = queue.stream();
    assert_eq!(queue.release(idle), None);
    assert_eq!(queue.poll_next(&mut first, "first"), None);
    assert_eq!(queue.poll_next(&mut second, "second"), None);
    assert_eq!(queue.release(second), None);
    // the handle stays in line
    assert_eq!(queue.push_back(1), Some("first"));
    assert_eq!(queue.push_back(2), Some("second"));
}

#[test]
fn no_value_is_left_while_receivers_wait() {
    let mut queue: StreamableDeque<i32, usize> = StreamableDeque::new();
    let mut receivers = vec![queue.stream(), queue.stream(), queue.stream()];
    for (i, receiver) in receivers.iter_mut().enumerate() {
        assert_eq!(queue.poll_next(receiver, i), None);
    }
    let mut notified = vec![];
    notified.extend(queue.push_back(10));
    notified.extend(queue.push_back(11));
    assert_eq!(notified, vec![0, 1]);
    // the first one goes away, and the third one comes in its place
    let first = receivers.remove(0);
    notified[0] = queue.release(first).unwrap();
    assert_eq!(notified, vec![2, 1]);
    // each one on its way finds a value
    assert_eq!(queue.poll_next(&mut receivers[1], 2), Some(10));
    assert_eq!(queue.poll_next(&mut receivers[0], 1), Some(11));
    assert_eq!(queue.pop_front(), None);
}

#[test]
fn a_ready_value_is_taken_as_from_the_front() {
    let mut queue: StreamableDeque<i32, &str> = StreamableDeque::new();
    let mut waiting = queue.stream();
    assert_eq!(queue.poll_next(&mut waiting, "waiting"), None);
    assert_eq!(queue.push_back(1), Some("waiting"));
    assert_eq!(queue.poll_next(&mut waiting, "waiting"), Some(1));
    assert_eq!(queue.poll_next(&mut waiting, "waiting"), None);
    queue.push_back(2);
    queue.push_back(3);
    queue.push_front(4);
    let mut receiver = queue.stream();
    assert_eq!(queue.poll_next(&mut receiver, "receiver"), Some(4));
    // it does not wait, and going away it notifies nobody
    assert_eq!(queue.release(receiver), None);
    assert_eq!(queue.pop_front(), Some(2));
    assert_eq!(queue.pop_front(), Some(3));
    assert_eq!(queue.pop_front(), None);
}

#[test]
fn new_queues_have_tickets() {
    let mut queue: StreamableDeque<i32, u8> = StreamableDeque::new();
    assert!(queue.can_poll());
    let mut receiver = queue.stream();
    queue.poll_next(&mut receiver, 1);
    assert!(queue.can_poll());
}

#[test]
fn raw_queue_notifies_nobody_when_nobody_waits() {
    let mut queue: RawDeque<i32, u8> = RawDeque::new();
    assert_eq!(queue.notify_rx(), None);
}
