//! What calls on queues hand in and hand out.

use vstd::prelude::*;

use crate::kind::Rex;
use crate::queue::{RawDeque, StreamReceiver, StreamableDeque};
use crate::signal::{Signal, SignalExt, SignalQueue};
use crate::state_id::StateId;

verus! {

/// A new queue has no values, and nobody waits for them.
pub proof fn new_queues_are_empty<T, W>(
    queue: StreamableDeque<T, W>,
    raw: RawDeque<T, W>,
    receiver: StreamReceiver,
)
    requires
        call_ensures(StreamableDeque::<T, W>::new, (), queue),
        call_ensures(RawDeque::<T, W>::new, (), raw),
        call_ensures(StreamableDeque::<T, W>::stream, (&queue,), receiver),
    ensures
        queue@.front.len() == 0 && queue@.back.len() == 0,
        queue@.waiting.len() == 0 && queue@.woken == 0,
        raw@.front.len() == 0 && raw@.back.len() == 0,
        raw@.waiting.len() == 0 && raw@.woken == 0,
        receiver.awake is None,
{
}

/// A value pushed to the front is taken behind those pushed there before, and
/// before all those pushed to the back. One pushed to the back is taken last.
/// Either notifies the receiver that waits longest, and no other.
pub proof fn pushed_values_line_up<T, W>(
    queue: &mut StreamableDeque<T, W>,
    item: T,
    handle: Option<W>,
    front: bool,
)
    requires
        old(queue).wf(),
        front ==> call_ensures(StreamableDeque::<T, W>::push_front, (queue, item), handle),
        !front ==> call_ensures(StreamableDeque::<T, W>::push_back, (queue, item), handle),
    ensures
        front ==> final(queue)@.front == old(queue)@.front.push(item) && final(queue)@.back == old(
            queue,
        )@.back,
        !front ==> final(queue)@.back == old(queue)@.back.push(item) && final(queue)@.front == old(
            queue,
        )@.front,
        old(queue)@.waiting.len() == 0 ==> {
            &&& handle is None
            &&& final(queue)@.waiting == old(queue)@.waiting
            &&& final(queue)@.woken == old(queue)@.woken
        },
        old(queue)@.waiting.len() > 0 ==> {
            &&& handle == Some(old(queue)@.waiting[0])
            &&& seq![old(queue)@.waiting[0]] + final(queue)@.waiting == old(queue)@.waiting
            &&& final(queue)@.woken == old(queue)@.woken + 1
        },
{
    if old(queue)@.waiting.len() > 0 {
        assert(seq![old(queue)@.waiting[0]] + old(queue)@.waiting.drop_first() =~= old(
            queue,
        )@.waiting);
    }
}

/// Taking from the front takes the first of the values in line, those pushed to
/// the front before those pushed to the back. The others stay in line, and
/// nobody is notified.
pub proof fn pop_front_takes_the_first<T, W>(queue: &mut StreamableDeque<T, W>, value: Option<T>)
    requires
        old(queue).wf(),
        call_ensures(StreamableDeque::<T, W>::pop_front, (queue,), value),
    ensures
        match value {
            Some(v) => {
                ||| seq![v] + final(queue)@.front == old(queue)@.front && final(queue)@.back == old(
                    queue,
                )@.back
                ||| old(queue)@.front.len() == 0 && final(queue)@.front.len() == 0 && seq![v]
                    + final(queue)@.back == old(queue)@.back
            },
            None => {
                &&& old(queue)@.front.len() == 0 && old(queue)@.back.len() == 0
                &&& final(queue)@.front.len() == 0 && final(queue)@.back.len() == 0
            },
        },
        final(queue)@.waiting == old(queue)@.waiting,
        final(queue)@.woken == old(queue)@.woken,
{
    let before = old(queue)@;
    if before.front.len() > 0 {
        assert(seq![before.front[0]] + before.front.drop_first() =~= before.front);
    } else if before.back.len() > 0 {
        assert(seq![before.back[0]] + before.back.drop_first() =~= before.back);
    }
}

/// Taking from the back takes the last of the values in line. The others stay
/// in line, and nobody is notified.
pub proof fn pop_back_takes_the_last<T, W>(queue: &mut StreamableDeque<T, W>, value: Option<T>)
    requires
        old(queue).wf(),
        call_ensures(StreamableDeque::<T, W>::pop_back, (queue,), value),
    ensures
        match value {
            Some(v) => {
                ||| final(queue)@.back.push(v) == old(queue)@.back && final(queue)@.front == old(
                    queue,
                )@.front
                ||| old(queue)@.back.len() == 0 && final(queue)@.back.len() == 0 && final(queue)@.front.push(v) == old(queue)@.front
            },
            None => {
                &&& old(queue)@.front.len() == 0 && old(queue)@.back.len() == 0
                &&& final(queue)@.front.len() == 0 && final(queue)@.back.len() == 0
            },
        },
        final(queue)@.waiting == old(queue)@.waiting,
        final(queue)@.woken == old(queue)@.woken,
{
    let before = old(queue)@;
    if before.back.len() > 0 {
        assert(before.back.drop_last().push(before.back.last()) =~= before.back);
    } else if before.front.len() > 0 {
        assert(before.front.drop_last().push(before.front.last()) =~= before.front);
    }
}

/// A receiver that polls takes what a take from the front gives, if there is a
/// value, and then does not wait. Else it begins to wait, behind those that wait
/// already, with the ticket that follows theirs.
pub proof fn polls_take_or_wait<T, W>(
    queue: &mut StreamableDeque<T, W>,
    receiver: &mut StreamReceiver,
    handle: W,
    value: Option<T>,
    other: &mut StreamableDeque<T, W>,
    popped: Option<T>,
)
    requires
        old(queue).wf(),
        *old(other) == *old(queue),
        old(queue)@.woken + old(queue)@.waiting.len() < u64::MAX,
        call_ensures(StreamableDeque::<T, W>::poll_next, (queue, receiver, handle), value),
        call_ensures(StreamableDeque::<T, W>::pop_front, (other,), popped),
    ensures
        value == popped,
        final(queue)@.front == final(other)@.front,
        final(queue)@.back == final(other)@.back,
        final(queue)@.woken == old(queue)@.woken,
        value is Some ==> final(receiver).awake is None && final(queue)@.waiting == old(
            queue,
        )@.waiting,
        value is None ==> {
            &&& final(queue)@.waiting == old(queue)@.waiting.push(handle)
            &&& final(receiver).awake matches Some(ticket) && ticket == old(queue)@.woken + old(
                queue,
            )@.waiting.len()
        },
{
}

/// A receiver that goes away passes a notification on, to the one that waits
/// longest, exactly if it was notified since it began to wait: the tickets of
/// those that were are the ones below the number of all notified so far. No
/// value is touched.
pub proof fn released_receivers_pass_notifications_on<T, W>(
    queue: &mut StreamableDeque<T, W>,
    receiver: StreamReceiver,
    handle: Option<W>,
)
    requires
        old(queue).wf(),
        call_ensures(StreamableDeque::<T, W>::release, (queue, receiver), handle),
    ensures
        final(queue)@.front == old(queue)@.front,
        final(queue)@.back == old(queue)@.back,
        ({
            let notified = match receiver.awake {
                Some(ticket) => ticket < old(queue)@.woken,
                None => false,
            };
            if notified && old(queue)@.waiting.len() > 0 {
                &&& handle == Some(old(queue)@.waiting[0])
                &&& seq![old(queue)@.waiting[0]] + final(queue)@.waiting == old(queue)@.waiting
                &&& final(queue)@.woken == old(queue)@.woken + 1
            } else {
                &&& handle is None
                &&& final(queue)@.waiting == old(queue)@.waiting
                &&& final(queue)@.woken == old(queue)@.woken
            }
        }),
{
    if old(queue)@.waiting.len() > 0 {
        assert(seq![old(queue)@.waiting[0]] + old(queue)@.waiting.drop_first() =~= old(
            queue,
        )@.waiting);
    }
}

/// A notification goes to the receiver that waits longest, and touches no value.
pub proof fn notifications_go_to_the_longest_waiting<T, W>(
    queue: &mut RawDeque<T, W>,
    handle: Option<W>,
)
    requires
        old(queue).wf(),
        call_ensures(RawDeque::<T, W>::notify_rx, (queue,), handle),
    ensures
        final(queue)@.front == old(queue)@.front,
        final(queue)@.back == old(queue)@.back,
        old(queue)@.waiting.len() == 0 ==> {
            &&& handle is None
            &&& final(queue)@.waiting == old(queue)@.waiting
            &&& final(queue)@.woken == old(queue)@.woken
        },
        old(queue)@.waiting.len() > 0 ==> {
            &&& handle == Some(old(queue)@.waiting[0])
            &&& seq![old(queue)@.waiting[0]] + final(queue)@.waiting == old(queue)@.waiting
            &&& final(queue)@.woken == old(queue)@.woken + 1
        },
{
    if old(queue)@.waiting.len() > 0 {
        assert(seq![old(queue)@.waiting[0]] + old(queue)@.waiting.drop_first() =~= old(
            queue,
        )@.waiting);
    }
}

/// A receiver can poll while there is a value for it or a ticket to wait with.
pub proof fn polls_are_possible_with_values_or_tickets<T, W>(
    queue: &StreamableDeque<T, W>,
    can: bool,
)
    requires
        queue.wf(),
        call_ensures(StreamableDeque::<T, W>::can_poll, (queue,), can),
    ensures
        can <==> queue@.front.len() > 0 || queue@.back.len() > 0 || queue@.woken
            + queue@.waiting.len() < u64::MAX,
{
}

/// The signal of a state is for the id that it is made for, with the input that
/// the kind of the id has for the state. Where there is no such input there is
/// no signal.
pub proof fn state_signals_carry_the_input<K: Rex>(
    id: StateId<K>,
    state: K::State,
    signal: Option<Signal<K>>,
)
    requires
        call_ensures(Signal::<K>::state_change, (id, state), signal),
    ensures
        signal is Some <==> id.kind.input_of_state(state) is Some,
        signal matches Some(s) ==> s.id == id && id.kind.input_of_state(state) == Some(s.input),
{
}

/// Signalling a state queues its signal behind all that wait, and nothing where
/// there is no signal for it.
pub proof fn state_changes_are_queued_last<K: Rex, W>(
    queue: &mut SignalQueue<K, W>,
    id: StateId<K>,
    state: K::State,
    handle: Option<W>,
)
    requires
        old(queue).wf(),
        call_ensures(
            <SignalQueue<K, W> as SignalExt<K, W>>::signal_state_change,
            (queue, id, state),
            handle,
        ),
    ensures
        final(queue)@.front == old(queue)@.front,
        match id.kind.input_of_state(state) {
            Some(input) => {
                &&& final(queue)@.back == old(queue)@.back.push(Signal { id, input })
                &&& handle == (if old(queue)@.waiting.len() > 0 {
                    Some(old(queue)@.waiting[0])
                } else {
                    None
                })
            },
            None => final(queue)@.back == old(queue)@.back && handle is None && final(queue)@.waiting == old(queue)@.waiting,
        },
{
}

/// A default queue is a new one.
pub proof fn default_queues_are_empty<T, W>(queue: StreamableDeque<T, W>)
    requires
        call_ensures(<StreamableDeque<T, W> as Default>::default, (), queue),
    ensures
        queue@.front.len() == 0 && queue@.back.len() == 0,
        queue@.waiting.len() == 0 && queue@.woken == 0,
{
}

} // verus!
