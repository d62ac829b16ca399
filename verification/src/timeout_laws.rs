//! Laws of timeouts.

use vstd::prelude::*;

use crate::kind::{HashKind, Rex};
use crate::queue::Contents;
use crate::signal::Signal;
use crate::state_id::StateId;
use crate::time::Moment;
use crate::timeout::{Operation, TimeoutInput};

verus! {

/// A cancelled timeout does not fire, whenever the ledger is looked through.
pub proof fn cancelled_never_fires<K: HashKind>(
    due: Map<StateId<K>, Moment>,
    id: StateId<K>,
    now: Moment,
    order: Seq<StateId<K>>,
)
    requires
        crate::timeout::expired_at(
            crate::timeout::applied(due, TimeoutInput { id, op: Operation::Cancel }),
            now,
            order,
        ),
    ensures
        !order.contains(id),
{
}

/// Setting a timeout again replaces the earlier one: it fires once the later
/// instant is reached, and not before.
pub proof fn renewed_fires_when_renewed<K: HashKind>(
    due: Map<StateId<K>, Moment>,
    id: StateId<K>,
    first: Moment,
    second: Moment,
    now: Moment,
    order: Seq<StateId<K>>,
)
    requires
        ({
            let set = crate::timeout::applied(due, TimeoutInput { id, op: Operation::SetAt(first) });
            let renewed = crate::timeout::applied(
                set,
                TimeoutInput { id, op: Operation::SetAt(second) },
            );
            crate::timeout::expired_at(renewed, now, order)
        }),
    ensures
        order.contains(id) <==> second.nanos <= now.nanos,
{
}

/// An input changes no timeout but that of the id that it names.
pub proof fn others_keep_their_timeouts<K: HashKind>(
    due: Map<StateId<K>, Moment>,
    input: TimeoutInput<K>,
    other: StateId<K>,
)
    requires
        other != input.id,
    ensures
        crate::timeout::applied(due, input).contains_key(other) <==> due.contains_key(other),
        due.contains_key(other) ==> crate::timeout::applied(due, input)[other] == due[other],
{
}

/// Setting a timeout and cancelling it is the same as cancelling it.
pub proof fn cancel_undoes_set<K: HashKind>(
    due: Map<StateId<K>, Moment>,
    id: StateId<K>,
    instant: Moment,
)
    ensures
        crate::timeout::applied(
            crate::timeout::applied(due, TimeoutInput { id, op: Operation::SetAt(instant) }),
            TimeoutInput { id, op: Operation::Cancel },
        ) == due.remove(id),
{
    assert(due.insert(id, instant).remove(id) =~= due.remove(id));
}

/// A timeout that fired is gone: no later look fires it again.
pub proof fn fires_once<K: HashKind>(
    due: Map<StateId<K>, Moment>,
    first: Moment,
    fired: Seq<StateId<K>>,
    second: Moment,
    fired_later: Seq<StateId<K>>,
    id: StateId<K>,
)
    requires
        crate::timeout::expired_at(due, first, fired),
        crate::timeout::expired_at(
            crate::timeout::pending_after(due, first),
            second,
            fired_later,
        ),
    ensures
        !(fired.contains(id) && fired_later.contains(id)),
{
}

/// However often the ledger is looked through, the timeouts fire in
/// chronological order, and none is lost: two looks in turn fire what one look
/// at the later time fires, and leave what it leaves.
pub proof fn looks_compose<K: HashKind>(
    due: Map<StateId<K>, Moment>,
    first: Moment,
    fired: Seq<StateId<K>>,
    second: Moment,
    fired_later: Seq<StateId<K>>,
)
    requires
        first.nanos <= second.nanos,
        crate::timeout::expired_at(due, first, fired),
        crate::timeout::expired_at(
            crate::timeout::pending_after(due, first),
            second,
            fired_later,
        ),
    ensures
        crate::timeout::expired_at(due, second, fired + fired_later),
        crate::timeout::pending_after(crate::timeout::pending_after(due, first), second)
            == crate::timeout::pending_after(due, second),
{
    let all = fired + fired_later;
    let rest = crate::timeout::pending_after(due, first);
    assert forall|id: StateId<K>| #[trigger] all.contains(id) <==> fired.contains(id)
        || fired_later.contains(id) by {
        if fired.contains(id) {
            let k = choose|k: int| 0 <= k < fired.len() && fired[k] == id;
            assert(all[k] == id);
        }
        if fired_later.contains(id) {
            let k = choose|k: int| 0 <= k < fired_later.len() && fired_later[k] == id;
            assert(all[fired.len() + k] == id);
        }
    }
    assert forall|i: int| 0 <= i < fired.len() implies (#[trigger] due[fired[i]]).nanos
        <= first.nanos by {
        assert(fired.contains(fired[i]));
    }
    assert forall|i: int| 0 <= i < fired_later.len() implies first.nanos < (
    #[trigger] due[fired_later[i]]).nanos && rest[fired_later[i]] == due[fired_later[i]] by {
        assert(fired_later.contains(fired_later[i]));
    }
    assert forall|i: int, j: int| 0 <= i < j < all.len() implies all[i] != all[j] by {
        if i < fired.len() && fired.len() <= j {
            assert(due[fired[i]].nanos <= first.nanos < due[fired_later[j - fired.len()]].nanos);
        }
    }
    assert forall|i: int, j: int| 0 <= i <= j < all.len() implies due[all[i]].nanos
        <= due[all[j]].nanos by {
        if fired.len() <= j {
            assert(first.nanos < due[fired_later[j - fired.len()]].nanos);
            if i < fired.len() {
                assert(due[fired[i]].nanos <= first.nanos);
            } else {
                assert(first.nanos < due[fired_later[i - fired.len()]].nanos);
            }
        }
    }
    assert(crate::timeout::pending_after(rest, second) =~= crate::timeout::pending_after(
        due,
        second,
    ));
}

/// The signals of timeouts are taken before every signal that was pushed to the
/// back, behind those that were in the front already, and earlier timeouts
/// before later ones.
pub proof fn timeouts_come_first<K: Rex, W>(
    queue: Contents<Signal<K>, W>,
    order: Seq<StateId<K>>,
    now: Moment,
)
    ensures
        queue.after(
            crate::timeout::to_front(crate::timeout::timeout_signals(order, now)),
        ).values() == queue.front + crate::timeout::timeout_signals(order, now) + queue.back,
{
    let signals = crate::timeout::timeout_signals(order, now);
    let pushes = crate::timeout::to_front(signals);
    lemma_front_values(signals);
    crate::queue::pushes_keep_order(queue, pushes);
    assert(queue.front + signals + queue.back + Seq::<Signal<K>>::empty() =~= queue.front + signals
        + queue.back);
}

pub(crate) proof fn lemma_front_values<T>(values: Seq<T>)
    ensures
        crate::queue::pushed_values(crate::timeout::to_front(values), true) == values,
        crate::queue::pushed_values(crate::timeout::to_front(values), false) == Seq::<T>::empty(),
    decreases values.len(),
{
    if values.len() > 0 {
        let before = values.drop_last();
        lemma_front_values(before);
        assert(crate::timeout::to_front(values).drop_last() =~= crate::timeout::to_front(before));
        assert(before.push(values.last()) =~= values);
    } else {
        assert(values =~= Seq::<T>::empty());
    }
}

/// The signal of a timeout goes to an id that timed out, and tells it of the
/// time at which that was found.
pub proof fn timeout_signals_go_to_expired<K: Rex>(
    order: Seq<StateId<K>>,
    now: Moment,
    signal: Signal<K>,
)
    ensures
        crate::timeout::timeout_signals(order, now).contains(signal) <==> order.contains(signal.id)
            && signal.id.kind.input_of_timeout(now) == Some(signal.input),
    decreases order.len(),
{
    let signals = crate::timeout::timeout_signals(order, now);
    if order.len() > 0 {
        let earlier = order.drop_last();
        let before = crate::timeout::timeout_signals(earlier, now);
        timeout_signals_go_to_expired(earlier, now, signal);
        if before.contains(signal) {
            let k = choose|k: int| 0 <= k < before.len() && before[k] == signal;
            assert(signals[k] == signal);
        }
        if earlier.contains(signal.id) {
            let k = choose|k: int| 0 <= k < earlier.len() && earlier[k] == signal.id;
            assert(order[k] == signal.id);
        }
        if order.contains(signal.id) && !earlier.contains(signal.id) {
            let k = choose|k: int| 0 <= k < order.len() && order[k] == signal.id;
            if k < earlier.len() {
                assert(earlier[k] == signal.id);
            }
            assert(signal.id == order.last());
        }
        if signal.id == order.last() && signal.id.kind.input_of_timeout(now) == Some(
            signal.input,
        ) {
            assert(order[order.len() - 1] == signal.id);
            assert(signals.last() == signal);
            assert(signals.contains(signal));
        }
        if signals.contains(signal) && !before.contains(signal) {
            let k = choose|k: int| 0 <= k < signals.len() && signals[k] == signal;
            if k < before.len() {
                assert(before[k] == signal);
            }
            assert(order[order.len() - 1] == signal.id);
        }
    }
}

} // verus!
