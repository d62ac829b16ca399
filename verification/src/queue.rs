//! A queue with two priorities, and the receivers that wait for its values.
//!
//! The queue holds no lock and wakes nobody itself. Every operation that makes
//! a waiting receiver ready returns the handle of that receiver, for the
//! caller to wake.

use vstd::prelude::*;

use std::collections::VecDeque;

verus! {

/// What a queue holds.
#[verifier::ext_equal]
pub struct Contents<T, W> {
    /// The values pushed to the front and not taken yet, oldest first.
    pub front: Seq<T>,
    /// The values pushed to the back and not taken yet, oldest first.
    pub back: Seq<T>,
    /// The handles of the receivers that wait, longest waiting first.
    pub waiting: Seq<W>,
    /// How many waiting receivers were notified.
    pub woken: nat,
}

impl<T, W> Contents<T, W> {
    pub open spec fn empty() -> Self {
        Contents { front: Seq::empty(), back: Seq::empty(), waiting: Seq::empty(), woken: 0 }
    }

    /// The values in the order in which they are taken from the front.
    pub open spec fn values(self) -> Seq<T> {
        self.front + self.back
    }

    /// With the receiver that waits longest notified, if there is one.
    pub open spec fn notified(self) -> Self {
        if self.waiting.len() == 0 {
            self
        } else {
            Contents { waiting: self.waiting.drop_first(), woken: self.woken + 1, ..self }
        }
    }

    /// The handle of the receiver to be notified next.
    pub open spec fn next_waiting(self) -> Option<W> {
        if self.waiting.len() == 0 {
            None
        } else {
            Some(self.waiting[0])
        }
    }

    pub open spec fn pushed_front(self, item: T) -> Self {
        (Contents { front: self.front.push(item), ..self }).notified()
    }

    pub open spec fn pushed_back(self, item: T) -> Self {
        (Contents { back: self.back.push(item), ..self }).notified()
    }

    /// The value that is taken from the front next.
    pub open spec fn first(self) -> Option<T> {
        if self.front.len() > 0 {
            Some(self.front[0])
        } else if self.back.len() > 0 {
            Some(self.back[0])
        } else {
            None
        }
    }

    /// With that value taken.
    pub open spec fn popped_front(self) -> Self {
        if self.front.len() > 0 {
            Contents { front: self.front.drop_first(), ..self }
        } else if self.back.len() > 0 {
            Contents { back: self.back.drop_first(), ..self }
        } else {
            self
        }
    }

    /// With a receiver polling: it takes the next value, or else begins to
    /// wait, behind those that wait already.
    pub open spec fn polled(self, handle: W) -> Self {
        if self.first() is Some {
            self.popped_front()
        } else {
            Contents { waiting: self.waiting.push(handle), ..self }
        }
    }

    /// The value that is taken from the back next.
    pub open spec fn last(self) -> Option<T> {
        if self.back.len() > 0 {
            Some(self.back.last())
        } else if self.front.len() > 0 {
            Some(self.front.last())
        } else {
            None
        }
    }

    /// With that value taken.
    pub open spec fn popped_back(self) -> Self {
        if self.back.len() > 0 {
            Contents { back: self.back.drop_last(), ..self }
        } else if self.front.len() > 0 {
            Contents { front: self.front.drop_last(), ..self }
        } else {
            self
        }
    }

    /// The ticket of the next receiver that starts to wait.
    pub open spec fn next_ticket(self) -> nat {
        self.woken + self.waiting.len()
    }
}

// holds inner VecDeque as well as the notification buffer
// letting streams know when polling is ready
// To avoid a "bowtie" effect when consuming
// objects inserted with .push_front and .push_back
// front and back values are separated into their own queue
// so that values are popped in chronological order
// irrespective of priority
// ┌ timestamp value (bigger is younger)
// ^
// │|         |
// │|||     |||
// -|||||||||||
// │|||     |||
// │|         |
// └─────|─────>
//  queue position
pub struct RawDeque<T, W> {
    front_values: VecDeque<T>,
    back_values: VecDeque<T>,
    rx_notifiers: VecDeque<W>,
    // receivers wait in the order of their tickets, so that the tickets below
    // this number are the ones that were notified
    woken: u64,
}

impl<T, W> View for RawDeque<T, W> {
    type V = Contents<T, W>;

    closed spec fn view(&self) -> Contents<T, W> {
        Contents {
            front: self.front_values@,
            back: self.back_values@,
            waiting: self.rx_notifiers@,
            woken: self.woken as nat,
        }
    }
}

impl<T, W> RawDeque<T, W> {
    /// The tickets handed out so far fit their type.
    pub open spec fn wf(self) -> bool {
        self@.next_ticket() <= u64::MAX
    }

    pub fn new() -> (queue: Self)
        ensures
            queue.wf(),
            queue@ == Contents::<T, W>::empty(),
    {
        Self {
            front_values: VecDeque::new(),
            back_values: VecDeque::new(),
            rx_notifiers: VecDeque::new(),
            woken: 0,
        }
    }

    /// Takes the receiver that waits longest out of the queue, and returns its
    /// handle to be woken.
    pub fn notify_rx(&mut self) -> (handle: Option<W>)
        requires
            old(self).wf(),
        ensures
            final(self).wf(),
            handle == old(self)@.next_waiting(),
            final(self)@ == old(self)@.notified(),
    {
        let handle = self.rx_notifiers.pop_front();
        if handle.is_some() {
            self.woken = self.woken + 1;
        }
        assert(self@.waiting =~= old(self)@.notified().waiting);
        handle
    }

    /// Takes the next value from the front.
    fn pop_front(&mut self) -> (value: Option<T>)
        requires
            old(self).wf(),
        ensures
            final(self).wf(),
            value == old(self)@.first(),
            final(self)@ == old(self)@.popped_front(),
    {
        let value = match self.front_values.pop_front() {
            Some(v) => Some(v),
            None => self.back_values.pop_front(),
        };
        assert(self@ =~= old(self)@.popped_front());
        value
    }
}

/// This type acts similarly to `std::collections::VecDeque`, with two
/// priorities and receivers that wait for values.
pub struct StreamableDeque<T, W> {
    inner: RawDeque<T, W>,
}

impl<T, W> View for StreamableDeque<T, W> {
    type V = Contents<T, W>;

    closed spec fn view(&self) -> Contents<T, W> {
        self.inner@
    }
}

impl<T, W> Default for StreamableDeque<T, W> {
    fn default() -> (queue: Self)
        ensures
            queue.wf(),
            queue@ == Contents::<T, W>::empty(),
    {
        Self { inner: RawDeque::new() }
    }
}

impl<T, W> StreamableDeque<T, W> {
    /// The tickets handed out so far fit their type.
    pub open spec fn wf(self) -> bool {
        self@.next_ticket() <= u64::MAX
    }

    #[must_use]
    pub fn new() -> (queue: Self)
        ensures
            queue.wf(),
            queue@ == Contents::<T, W>::empty(),
    {
        Self::default()
    }

    /// Push an item into the queue and notify first receiver
    pub fn push_front(&mut self, item: T) -> (handle: Option<W>)
        requires
            old(self).wf(),
        ensures
            final(self).wf(),
            final(self)@ == old(self)@.pushed_front(item),
            handle == old(self)@.next_waiting(),
    {
        self.inner.front_values.push_back(item);
        // Notify first receiver in queue
        self.inner.notify_rx()
    }

    /// Push an item into the back of the queue and notify first receiver
    pub fn push_back(&mut self, item: T) -> (handle: Option<W>)
        requires
            old(self).wf(),
        ensures
            final(self).wf(),
            final(self)@ == old(self)@.pushed_back(item),
            handle == old(self)@.next_waiting(),
    {
        self.inner.back_values.push_back(item);
        // Notify first receiver in queue
        self.inner.notify_rx()
    }

    /// Returns a stream of items using `pop_front()`
    /// This opens us up to handle a `back_stream()` as well
    pub fn stream(&self) -> (receiver: StreamReceiver)
        ensures
            receiver.awake is None,
    {
        StreamReceiver { awake: None }
    }

    pub fn pop_front(&mut self) -> (value: Option<T>)
        requires
            old(self).wf(),
        ensures
            final(self).wf(),
            value == old(self)@.first(),
            final(self)@ == old(self)@.popped_front(),
    {
        self.inner.pop_front()
    }

    pub fn pop_back(&mut self) -> (value: Option<T>)
        requires
            old(self).wf(),
        ensures
            final(self).wf(),
            value == old(self)@.last(),
            final(self)@ == old(self)@.popped_back(),
    {
        let value = match self.inner.back_values.pop_back() {
            Some(v) => Some(v),
            None => self.inner.front_values.pop_back(),
        };
        assert(self@ =~= old(self)@.popped_back());
        value
    }

    /// Returns whether a receiver can poll: there is a value for it, or a
    /// ticket to wait with. There are as many tickets as there are numbers of
    /// their type.
    pub fn can_poll(&self) -> (can: bool)
        requires
            self.wf(),
        ensures
            can == (self@.first() is None ==> self@.next_ticket() < u64::MAX),
    {
        proof {
            self.lemma_waiting_len();
        }
        self.inner.front_values.len() > 0 || self.inner.back_values.len() > 0 || self.inner.woken
            + (self.inner.rx_notifiers.len() as u64) < u64::MAX
    }

    /// The receiver took the next value, or else waits with the next ticket.
    pub open spec fn polled(
        self,
        handle: W,
        value: Option<T>,
        after: Self,
        receiver: StreamReceiver,
    ) -> bool {
        &&& value == self@.first()
        &&& after@ == self@.polled(handle)
        &&& receiver.awake == (match value {
            Some(_) => None,
            None => Some(self@.next_ticket() as u64),
        })
    }

    /// Takes the next value for `receiver`, or else lets the receiver wait with
    /// `handle` to be woken by.
    pub fn poll_next(&mut self, receiver: &mut StreamReceiver, handle: W) -> (value: Option<T>)
        requires
            old(self).wf(),
            old(self)@.first() is None ==> old(self)@.next_ticket() < u64::MAX,
        ensures
            final(self).wf(),
            old(self).polled(handle, value, *final(self), *final(receiver)),
    {
        let value = self.inner.pop_front();
        if value.is_some() {
            receiver.awake = None;
        } else {
            // push stream's waker onto buffer
            proof {
                self.lemma_waiting_len();
            }
            let ticket: u64 = self.inner.woken + self.inner.rx_notifiers.len() as u64;
            self.inner.rx_notifiers.push_back(handle);
            receiver.awake = Some(ticket);
            assert(self@ =~= (Contents {
                waiting: old(self)@.waiting.push(handle),
                ..old(self)@
            }));
        }
        value
    }

    proof fn lemma_waiting_len(&self)
        requires
            self.wf(),
        ensures
            self.inner.woken + self.inner.rx_notifiers@.len() <= u64::MAX,
    {
    }

    /// The receiver was notified since it began to wait.
    pub open spec fn was_woken(self, receiver: StreamReceiver) -> bool {
        receiver.awake matches Some(ticket) && ticket < self@.woken
    }

    /// if a stream gets dropped, notify next receiver in queue
    pub fn release(&mut self, receiver: StreamReceiver) -> (handle: Option<W>)
        requires
            old(self).wf(),
        ensures
            final(self).wf(),
            old(self).was_woken(receiver) ==> final(self)@ == old(self)@.notified() && handle
                == old(self)@.next_waiting(),
            !old(self).was_woken(receiver) ==> final(self)@ == old(self)@ && handle is None,
    {
        let awake = match receiver.awake {
            Some(ticket) => ticket < self.inner.woken,
            None => false,
        };
        if awake {
            // StreamReceiver was woken by a None, notify another
            self.inner.notify_rx()
        } else {
            None
        }
    }
}

/// A receiver of items removed from the priority queue.
pub struct StreamReceiver {
    /// The ticket with which the receiver waits, or waited before it was notified.
    pub awake: Option<u64>,
}

/// One push to a queue.
pub enum Push<T> {
    Front(T),
    Back(T),
}

/// The values of the pushes to one side, in order.
pub open spec fn pushed_values<T>(pushes: Seq<Push<T>>, front: bool) -> Seq<T>
    decreases pushes.len(),
{
    if pushes.len() == 0 {
        Seq::empty()
    } else {
        let before = pushed_values(pushes.drop_last(), front);
        match pushes.last() {
            Push::Front(v) => if front {
                before.push(v)
            } else {
                before
            },
            Push::Back(v) => if front {
                before
            } else {
                before.push(v)
            },
        }
    }
}

impl<T, W> Contents<T, W> {
    /// What is held after the pushes, in order.
    pub open spec fn after(self, pushes: Seq<Push<T>>) -> Self
        decreases pushes.len(),
    {
        if pushes.len() == 0 {
            self
        } else {
            let before = self.after(pushes.drop_last());
            match pushes.last() {
                Push::Front(v) => before.pushed_front(v),
                Push::Back(v) => before.pushed_back(v),
            }
        }
    }

    /// The handles of the receivers that `n` pushes notify.
    pub open spec fn readied(self, n: nat) -> Seq<W> {
        if n < self.waiting.len() {
            self.waiting.take(n as int)
        } else {
            self.waiting
        }
    }

    /// What `n` takes from the front return, in order.
    pub open spec fn drained(self, n: nat) -> Seq<Option<T>>
        decreases n,
    {
        if n == 0 {
            Seq::empty()
        } else {
            seq![self.first()] + self.popped_front().drained((n - 1) as nat)
        }
    }
}

/// However pushes of both priorities alternate, the values pushed to the front
/// come out first, in the order in which they were pushed, and then the values
/// pushed to the back, in theirs.
pub proof fn pushes_keep_order<T, W>(queue: Contents<T, W>, pushes: Seq<Push<T>>)
    ensures
        queue.after(pushes).values() == queue.front + pushed_values(pushes, true) + queue.back
            + pushed_values(pushes, false),
{
    lemma_sides(queue, pushes);
    assert(queue.after(pushes).values() =~= queue.front + pushed_values(pushes, true) + queue.back
        + pushed_values(pushes, false));
}

pub(crate) proof fn lemma_sides<T, W>(queue: Contents<T, W>, pushes: Seq<Push<T>>)
    ensures
        queue.after(pushes).front == queue.front + pushed_values(pushes, true),
        queue.after(pushes).back == queue.back + pushed_values(pushes, false),
    decreases pushes.len(),
{
    if pushes.len() > 0 {
        lemma_sides(queue, pushes.drop_last());
    }
    assert(queue.after(pushes).front =~= queue.front + pushed_values(pushes, true));
    assert(queue.after(pushes).back =~= queue.back + pushed_values(pushes, false));
}

/// Taking from the front returns the values in order, each once, and then nothing.
pub proof fn takes_return_values<T, W>(queue: Contents<T, W>, n: nat)
    ensures
        queue.drained(n).len() == n,
        forall|i: int|
            0 <= i < n ==> #[trigger] queue.drained(n)[i] == (if i < queue.values().len() {
                Some(queue.values()[i])
            } else {
                None
            }),
    decreases n,
{
    if n > 0 {
        let rest = queue.popped_front();
        takes_return_values(rest, (n - 1) as nat);
        if queue.values().len() > 0 {
            assert(rest.values() =~= queue.values().drop_first());
            assert(queue.first() == Some(queue.values()[0]));
        }
        assert forall|i: int| 0 <= i < n implies #[trigger] queue.drained(n)[i] == (if i
            < queue.values().len() {
            Some(queue.values()[i])
        } else {
            None
        }) by {
            if i > 0 {
                assert(queue.drained(n)[i] == rest.drained((n - 1) as nat)[i - 1]);
            }
        }
    }
}

/// Pushes notify the receivers in the order in which they began to wait, one each.
pub proof fn pushes_notify_in_order<T, W>(queue: Contents<T, W>, pushes: Seq<Push<T>>)
    ensures
        ({
            let n = if pushes.len() < queue.waiting.len() {
                pushes.len()
            } else {
                queue.waiting.len()
            };
            &&& queue.after(pushes).waiting == queue.waiting.skip(n as int)
            &&& queue.after(pushes).woken == queue.woken + n
        }),
    decreases pushes.len(),
{
    if pushes.len() > 0 {
        pushes_notify_in_order(queue, pushes.drop_last());
    }
    let n = if pushes.len() < queue.waiting.len() {
        pushes.len()
    } else {
        queue.waiting.len()
    };
    assert(queue.after(pushes).waiting =~= queue.waiting.skip(n as int));
}

/// One push more notifies the receiver that waits longest by then.
pub(crate) proof fn lemma_push_readies<T, W>(
    queue: Contents<T, W>,
    pushes: Seq<Push<T>>,
    push: Push<T>,
)
    ensures
        queue.after(pushes.push(push)) == (match push {
            Push::Front(v) => queue.after(pushes).pushed_front(v),
            Push::Back(v) => queue.after(pushes).pushed_back(v),
        }),
        queue.readied(pushes.len() + 1) == (match queue.after(pushes).next_waiting() {
            Some(handle) => queue.readied(pushes.len()).push(handle),
            None => queue.readied(pushes.len()),
        }),
{
    assert(pushes.push(push).drop_last() =~= pushes);
    pushes_notify_in_order(queue, pushes);
    let n = pushes.len();
    if n < queue.waiting.len() {
        assert(queue.waiting.skip(n as int)[0] == queue.waiting[n as int]);
        assert(queue.readied(n + 1) =~= queue.readied(n).push(queue.waiting[n as int]));
    }
}

} // verus!
