//! Laws of queues and the receivers that wait for their values.

use vstd::prelude::*;

use crate::queue::{Contents, StreamReceiver, StreamableDeque};

verus! {

/// What happens to a queue.
pub enum Event<T, W> {
    PushFront(T),
    PushBack(T),
    /// A value is taken by somebody who does not wait.
    Take,
    /// A receiver that does not wait polls.
    Poll(W),
    /// A receiver polls that was notified and did not poll since.
    PollNotified(W),
    /// A receiver goes away that was notified and did not poll since.
    Release,
}

impl<T, W> Contents<T, W> {
    /// With what happened.
    pub open spec fn happened(self, event: Event<T, W>) -> Self {
        match event {
            Event::PushFront(item) => self.pushed_front(item),
            Event::PushBack(item) => self.pushed_back(item),
            Event::Take => self.popped_front(),
            Event::Poll(handle) => self.polled(handle),
            Event::PollNotified(handle) => self.polled(handle),
            Event::Release => self.notified(),
        }
    }

    /// Of `pending` receivers that were notified and did not poll since, those
    /// that are left with what happened, and those that came by it.
    pub open spec fn pending(self, pending: int, event: Event<T, W>) -> int {
        let notified: int = if self.waiting.len() > 0 {
            1
        } else {
            0
        };
        match event {
            Event::PushFront(_) => pending + notified,
            Event::PushBack(_) => pending + notified,
            Event::Take => pending,
            Event::Poll(_) => pending,
            Event::PollNotified(_) => pending - 1,
            Event::Release => pending - 1 + notified,
        }
    }

    /// With all that happened, in order.
    pub open spec fn after_events(self, events: Seq<Event<T, W>>) -> Self
        decreases events.len(),
    {
        if events.len() == 0 {
            self
        } else {
            self.after_events(events.drop_last()).happened(events.last())
        }
    }

    /// The receivers that were notified and did not poll since, with all that
    /// happened.
    pub open spec fn pending_after(self, pending: int, events: Seq<Event<T, W>>) -> int
        decreases events.len(),
    {
        if events.len() == 0 {
            pending
        } else {
            self.after_events(events.drop_last()).pending(
                self.pending_after(pending, events.drop_last()),
                events.last(),
            )
        }
    }

    /// While receivers wait, there are as many that were notified and have yet
    /// to poll as there are values to be taken.
    pub open spec fn attended(self, pending: int) -> bool {
        &&& pending >= 0
        &&& self.waiting.len() > 0 ==> pending >= self.values().len()
    }
}

/// Only receivers that were notified poll or go away as such.
pub open spec fn can_happen<T, W>(pending: int, event: Event<T, W>) -> bool {
    match event {
        Event::PollNotified(_) => pending > 0,
        Event::Release => pending > 0,
        _ => true,
    }
}

/// Whatever happens to a queue keeps its values attended: each value that lies
/// in it while receivers wait has a receiver on its way. A receiver that polls
/// again while it waits is left out: it stands in line twice, and its first
/// place is notified for nothing.
pub proof fn values_stay_attended<T, W>(
    queue: Contents<T, W>,
    pending: int,
    event: Event<T, W>,
)
    requires
        queue.attended(pending),
        can_happen(pending, event),
    ensures
        queue.happened(event).attended(queue.pending(pending, event)),
{
}

/// The values of a queue that started empty are attended whatever happened to it.
pub proof fn values_are_attended<T, W>(events: Seq<Event<T, W>>)
    requires
        forall|i: int|
            0 <= i < events.len() ==> can_happen(
                Contents::<T, W>::empty().pending_after(0, events.take(i)),
                #[trigger] events[i],
            ),
    ensures
        Contents::<T, W>::empty().after_events(events).attended(
            Contents::<T, W>::empty().pending_after(0, events),
        ),
    decreases events.len(),
{
    let start = Contents::<T, W>::empty();
    if events.len() > 0 {
        let earlier = events.drop_last();
        assert forall|i: int| 0 <= i < earlier.len() implies can_happen(
            start.pending_after(0, earlier.take(i)),
            #[trigger] earlier[i],
        ) by {
            assert(earlier.take(i) =~= events.take(i));
            assert(events[i] == earlier[i]);
        }
        values_are_attended(earlier);
        assert(events.take(events.len() - 1) =~= earlier);
        assert(can_happen(start.pending_after(0, earlier), events[events.len() - 1]));
        values_stay_attended(
            start.after_events(earlier),
            start.pending_after(0, earlier),
            events.last(),
        );
    }
}

/// A receiver that polls a queue with a value takes the value that a take from
/// the front returns, and nothing else changes: nobody is notified, the receiver
/// does not wait, and it has no notification to pass on when it goes away.
pub proof fn ready_value_is_taken<T, W>(
    queue: StreamableDeque<T, W>,
    handle: W,
    value: Option<T>,
    after: StreamableDeque<T, W>,
    receiver: StreamReceiver,
    later: StreamableDeque<T, W>,
)
    requires
        queue.polled(handle, value, after, receiver),
        queue@.values().len() > 0,
    ensures
        value == queue@.first(),
        value == Some(queue@.values()[0]),
        after@ == queue@.popped_front(),
        after@.values() == queue@.values().drop_first(),
        after@.waiting == queue@.waiting,
        after@.woken == queue@.woken,
        !later.was_woken(receiver),
{
    assert(after@.values() =~= queue@.values().drop_first());
}

} // verus!
