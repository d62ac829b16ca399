//! Which state machine a signal comes to.

use vstd::prelude::*;

use crate::kind::Rex;
use crate::manager::{ProcessorContext, StateMachine, StateMachineManager, Step};
use crate::notification::NotificationQueue;
use crate::queue::StreamReceiver;
use crate::signal::{Signal, SignalQueue};

verus! {

/// A manager knows, for each kind, the last of the state machines it was made
/// with that has that kind, and none for a kind that no machine has. It starts
/// with the queues that it was given, and with no trees.
pub proof fn managers_know_their_machines<K: Rex, W, SM: StateMachine<K>>(
    machines: &[SM],
    signal_queue: SignalQueue<K, W>,
    notification_queue: NotificationQueue<K::Message>,
    manager: StateMachineManager<K, W>,
    kind: K,
)
    requires
        signal_queue.wf(),
        call_ensures(
            StateMachineManager::<K, W>::new::<SM>,
            (machines, signal_queue, notification_queue),
            manager,
        ),
    ensures
        match manager.machine(kind) {
            Some(place) => {
                &&& place < machines@.len()
                &&& machines@[place as int].kind() == kind
                &&& forall|later: int|
                    place < later < machines@.len() ==> (#[trigger] machines@[later]).kind() != kind
            },
            None => forall|i: int|
                0 <= i < machines@.len() ==> (#[trigger] machines@[i]).kind() != kind,
        },
        manager.ctx().signal_queue == signal_queue,
        manager.ctx().notification_queue == notification_queue,
        manager.ctx().state_store@.entries.dom().is_empty(),
        manager.ctx().state_store@.trees.dom().is_empty(),
{
    let kinds = crate::manager::kinds_of::<K, SM>(machines@);
    assert(kinds.len() == machines@.len());
    assert(machines@.len() == machines.len());
    crate::manager_laws::last_machine_of_kind(kinds, kind);
    assert forall|i: int| 0 <= i < machines@.len() implies (#[trigger] machines@[i]).kind()
        == kinds[i] by {
    }
    if manager.machine(kind) is None {
        assert forall|i: int| 0 <= i < machines@.len() implies (#[trigger] machines@[i]).kind()
            != kind by {
            assert(kinds[i] == machines@[i].kind());
            assert(kinds.contains(kinds[i]));
        }
    }
}

/// A step hands the signal that is first in line to the last of the state
/// machines that has the kind of its id. It refuses the signal only if no
/// machine has that kind, and waits only if there is no signal. All other
/// signals stay in line, and the machines stay known.
pub proof fn steps_hand_signals_to_their_machines<K: Rex, W, SM: StateMachine<K>>(
    machines: &[SM],
    signal_queue: SignalQueue<K, W>,
    notification_queue: NotificationQueue<K::Message>,
    made: StateMachineManager<K, W>,
    manager: &mut StateMachineManager<K, W>,
    receiver: &mut StreamReceiver,
    handle: W,
    step: Step<K>,
)
    requires
        signal_queue.wf(),
        call_ensures(
            StateMachineManager::<K, W>::new::<SM>,
            (machines, signal_queue, notification_queue),
            made,
        ),
        forall|kind: K| #[trigger] old(manager).machine(kind) == made.machine(kind),
        old(manager).ctx().wf(),
        old(manager).ctx().signal_queue@.woken + old(
            manager,
        ).ctx().signal_queue@.waiting.len() < u64::MAX,
        call_ensures(StateMachineManager::<K, W>::step, (manager, receiver, handle), step),
    ensures
        forall|kind: K| #[trigger] final(manager).machine(kind) == made.machine(kind),
        final(manager).ctx().notification_queue == old(manager).ctx().notification_queue,
        final(manager).ctx().state_store == old(manager).ctx().state_store,
        ({
            let before = old(manager).ctx().signal_queue@;
            let after = final(manager).ctx().signal_queue@;
            &&& after.woken == before.woken
            &&& !(step is Wait) ==> after.waiting == before.waiting && final(receiver).awake is None
            &&& match step {
                Step::Wait => {
                    &&& final(receiver).awake matches Some(ticket) && ticket == before.woken
                        + before.waiting.len()
                    &&& before.front.len() == 0 && before.back.len() == 0
                    &&& after.front.len() == 0 && after.back.len() == 0
                    &&& after.waiting == before.waiting.push(handle)
                },
                Step::NotFound(id) => {
                    &&& exists|signal: Signal<K>| #[trigger]
                        is_first_in_line(before, signal, after) && signal.id == id
                    &&& forall|i: int|
                        0 <= i < machines@.len() ==> (#[trigger] machines@[i]).kind() != id.kind
                },
                Step::Process(place, signal) => {
                    &&& is_first_in_line(before, signal, after)
                    &&& place < machines@.len()
                    &&& machines@[place as int].kind() == signal.id.kind
                    &&& forall|later: int|
                        place < later < machines@.len() ==> (#[trigger] machines@[later]).kind()
                            != signal.id.kind
                },
            }
        }),
{
    let before = old(manager).ctx().signal_queue@;
    let after = final(manager).ctx().signal_queue@;
    if before.front.len() > 0 {
        assert(seq![before.front[0]] + before.front.drop_first() =~= before.front);
        assert(is_first_in_line(before, before.front[0], after));
    } else if before.back.len() > 0 {
        assert(seq![before.back[0]] + before.back.drop_first() =~= before.back);
        assert(is_first_in_line(before, before.back[0], after));
    }
    match step {
        Step::Wait => {},
        Step::NotFound(id) => {
            managers_know_their_machines(
                machines,
                signal_queue,
                notification_queue,
                made,
                id.kind,
            );
        },
        Step::Process(_, signal) => {
            managers_know_their_machines(
                machines,
                signal_queue,
                notification_queue,
                made,
                signal.id.kind,
            );
        },
    }
}

/// `value` was first in line in `before`, and `after` is what is in line behind it.
pub open spec fn is_first_in_line<T, W>(
    before: crate::queue::Contents<T, W>,
    value: T,
    after: crate::queue::Contents<T, W>,
) -> bool {
    ||| seq![value] + after.front == before.front && after.back == before.back
    ||| before.front.len() == 0 && after.front.len() == 0 && seq![value] + after.back == before.back
}

/// The context that a manager lends is its own, and what it is left as is the
/// context of the manager afterwards. The machines stay known.
pub proof fn lent_context_is_the_managers<K: Rex, W>(
    manager: &mut StateMachineManager<K, W>,
    ctx: &mut ProcessorContext<K, W>,
    kind: K,
)
    requires
        call_ensures(StateMachineManager::<K, W>::context, (manager,), ctx),
    ensures
        *old(ctx) == old(manager).ctx(),
        final(manager).ctx() == *final(ctx),
        final(manager).machine(kind) == old(manager).machine(kind),
{
}

} // verus!
