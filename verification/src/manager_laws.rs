//! Laws of state machines in a hierarchy.

use vstd::prelude::*;

use crate::kind::Rex;
use crate::manager::{ProcessorContext, Step};
use crate::queue::{Contents, Push};
use crate::signal::Signal;
use crate::state_id::StateId;

verus! {

/// A state machine hears of the states of the machines right below it: where
/// its kind has an input for the state, the signal comes behind all that wait.
pub proof fn parent_hears_of_child<K: Rex, W>(
    before: ProcessorContext<K, W>,
    after: ProcessorContext<K, W>,
    id: StateId<K>,
    state: K::State,
    handle: Option<W>,
    parent: StateId<K>,
    input: K::Input,
)
    requires
        after.state_signalled(before, id, state, handle),
        before.state_store@.tree_of(id).above_find(id) == Some(parent),
        parent.kind.input_of_state(state) == Some(input),
    ensures
        after.signal_queue@.values() == before.signal_queue@.values().push(
            Signal { id: parent, input },
        ),
{
    assert(after.signal_queue@.values() =~= before.signal_queue@.values().push(
        Signal { id: parent, input },
    ));
}

/// Without a state machine above, or where the kind of that machine has no
/// input for the state, nothing is signalled.
pub proof fn nobody_else_hears<K: Rex, W>(
    before: ProcessorContext<K, W>,
    after: ProcessorContext<K, W>,
    id: StateId<K>,
    state: K::State,
    handle: Option<W>,
)
    requires
        after.state_signalled(before, id, state, handle),
        before.state_store@.tree_of(id).above_find(id) matches Some(parent)
            ==> parent.kind.input_of_state(state) is None,
    ensures
        after.signal_queue@ == before.signal_queue@,
        handle is None,
{
}

/// A state machine that failed or completed is in that state, and the state is
/// one that ignores all input.
pub proof fn ended_state_is_terminal<K: Rex, W>(
    before: ProcessorContext<K, W>,
    after: ProcessorContext<K, W>,
    id: StateId<K>,
    state: K::State,
    handle: Option<W>,
)
    requires
        before.wf(),
        before.state_store@.has(id),
        before.state_store@.tree_of(id).distinct(),
        after.state_signalled(before, id, state, handle),
        state == id.kind.failed() || state == id.kind.completed(),
        K::owner(state) == id.kind,
    ensures
        after.state_store@.state_of(id) == Some(state),
        state == K::owner(state).completed() || state == K::owner(state).failed(),
{
    before.state_store.wf_placed();
    crate::tree_laws::distinct_met_once(before.state_store@.tree_of(id), id);
    crate::storage_laws::update_then_state(before.state_store@, id, state);
}

/// The machine for a kind is the last one of that kind, and there is one as
/// soon as any machine has the kind.
pub proof fn last_machine_of_kind<K>(kinds: Seq<K>, kind: K)
    requires
        kinds.len() <= usize::MAX,
    ensures
        match crate::manager::machine_for(kinds, kind) {
            Some(i) => {
                &&& i < kinds.len()
                &&& kinds[i as int] == kind
                &&& forall|j: int| i < j < kinds.len() ==> kinds[j] != kind
            },
            None => !kinds.contains(kind),
        },
    decreases kinds.len(),
{
    if kinds.len() > 0 && kinds.last() != kind {
        let earlier = kinds.drop_last();
        last_machine_of_kind(earlier, kind);
        if let Some(i) = crate::manager::machine_for(kinds, kind) {
            assert forall|j: int| i < j < kinds.len() implies kinds[j] != kind by {
                if j < earlier.len() {
                    assert(earlier[j] != kind);
                }
            }
        }
        if kinds.contains(kind) {
            let k = choose|k: int| 0 <= k < kinds.len() && kinds[k] == kind;
            assert(earlier[k] == kind);
        }
    }
}

/// One turn of a run.
pub enum Turn<K: Rex, W> {
    /// A signal is pushed, by a state machine or from outside.
    Push(Push<Signal<K>>),
    /// The manager takes a step, or waits with this handle.
    Step(W),
}

/// The queue after the turns, in order.
pub open spec fn after_turns<K: Rex, W>(
    queue: Contents<Signal<K>, W>,
    turns: Seq<Turn<K, W>>,
) -> Contents<Signal<K>, W>
    decreases turns.len(),
{
    if turns.len() == 0 {
        queue
    } else {
        let before = after_turns(queue, turns.drop_last());
        match turns.last() {
            Turn::Push(Push::Front(signal)) => before.pushed_front(signal),
            Turn::Push(Push::Back(signal)) => before.pushed_back(signal),
            Turn::Step(handle) => before.polled(handle),
        }
    }
}

/// What the manager decided in the turns, in order, where `machine` tells the
/// place of the state machine for a kind.
pub open spec fn decisions<K: Rex, W>(
    queue: Contents<Signal<K>, W>,
    machine: spec_fn(K) -> Option<usize>,
    turns: Seq<Turn<K, W>>,
) -> Seq<Step<K>>
    decreases turns.len(),
{
    if turns.len() == 0 {
        Seq::empty()
    } else {
        let earlier = turns.drop_last();
        let before = decisions(queue, machine, earlier);
        match turns.last() {
            Turn::Push(_) => before,
            Turn::Step(_) => before.push(
                crate::manager::decided(after_turns(queue, earlier).first(), machine),
            ),
        }
    }
}

/// The signals that the manager took in the turns, in order, and for each
/// whether it was taken from the front.
pub open spec fn taken<K: Rex, W>(
    queue: Contents<Signal<K>, W>,
    turns: Seq<Turn<K, W>>,
) -> Seq<(Signal<K>, bool)>
    decreases turns.len(),
{
    if turns.len() == 0 {
        Seq::empty()
    } else {
        let earlier = turns.drop_last();
        let before = taken(queue, earlier);
        let at = after_turns(queue, earlier);
        match (turns.last(), at.first()) {
            (Turn::Step(_), Some(signal)) => before.push((signal, at.front.len() > 0)),
            _ => before,
        }
    }
}

/// The signals of `taken` that were taken from one side, in order.
pub open spec fn taken_from<K: Rex>(taken: Seq<(Signal<K>, bool)>, front: bool) -> Seq<Signal<K>>
    decreases taken.len(),
{
    if taken.len() == 0 {
        Seq::empty()
    } else {
        let before = taken_from(taken.drop_last(), front);
        if taken.last().1 == front {
            before.push(taken.last().0)
        } else {
            before
        }
    }
}

/// The pushes among the turns, in order.
pub open spec fn pushes_of<K: Rex, W>(turns: Seq<Turn<K, W>>) -> Seq<Push<Signal<K>>>
    decreases turns.len(),
{
    if turns.len() == 0 {
        Seq::empty()
    } else {
        match turns.last() {
            Turn::Push(push) => pushes_of(turns.drop_last()).push(push),
            Turn::Step(_) => pushes_of(turns.drop_last()),
        }
    }
}

/// In any run, each signal is taken once, in the order in which it was pushed
/// to its side: what was in the queue and what was pushed is what was taken and
/// what is still there.
pub proof fn signals_are_taken_once_in_order<K: Rex, W>(
    queue: Contents<Signal<K>, W>,
    turns: Seq<Turn<K, W>>,
)
    ensures
        queue.front + crate::queue::pushed_values(pushes_of(turns), true) == taken_from(
            taken(queue, turns),
            true,
        ) + after_turns(queue, turns).front,
        queue.back + crate::queue::pushed_values(pushes_of(turns), false) == taken_from(
            taken(queue, turns),
            false,
        ) + after_turns(queue, turns).back,
    decreases turns.len(),
{
    let after = after_turns(queue, turns);
    let all = taken(queue, turns);
    let pushes = pushes_of(turns);
    if turns.len() > 0 {
        let earlier = turns.drop_last();
        let before = after_turns(queue, earlier);
        signals_are_taken_once_in_order(queue, earlier);
        match turns.last() {
            Turn::Push(push) => {
                assert(pushes.drop_last() =~= pushes_of(earlier));
                assert(pushes.last() == push);
                assert(all == taken(queue, earlier));
                let old_taken = taken(queue, earlier);
                let old_pushes = pushes_of(earlier);
                match push {
                    Push::Front(signal) => {
                        assert(after.front == before.front.push(signal));
                        assert(after.back == before.back);
                        assert(queue.front + crate::queue::pushed_values(pushes, true) =~= (
                        queue.front + crate::queue::pushed_values(old_pushes, true)).push(signal));
                        assert(taken_from(all, true) + after.front =~= (taken_from(old_taken, true)
                            + before.front).push(signal));
                    },
                    Push::Back(signal) => {
                        assert(after.back == before.back.push(signal));
                        assert(after.front == before.front);
                        assert(queue.back + crate::queue::pushed_values(pushes, false) =~= (
                        queue.back + crate::queue::pushed_values(old_pushes, false)).push(signal));
                        assert(taken_from(all, false) + after.back =~= (taken_from(old_taken, false)
                            + before.back).push(signal));
                    },
                }
            },
            Turn::Step(_) => {
                assert(pushes == pushes_of(earlier));
                if let Some(signal) = before.first() {
                    let front = before.front.len() > 0;
                    assert(all.drop_last() =~= taken(queue, earlier));
                    assert(all.last() == (signal, front));
                    if front {
                        assert(before.front =~= seq![signal] + after.front);
                    } else {
                        assert(before.back =~= seq![signal] + after.back);
                    }
                    assert(taken_from(all, true) + after.front =~= taken_from(
                        taken(queue, earlier),
                        true,
                    ) + before.front);
                    assert(taken_from(all, false) + after.back =~= taken_from(
                        taken(queue, earlier),
                        false,
                    ) + before.back);
                }
            },
        }
    } else {
        assert(queue.front + Seq::<Signal<K>>::empty() =~= Seq::<Signal<K>>::empty() + queue.front);
        assert(queue.back + Seq::<Signal<K>>::empty() =~= Seq::<Signal<K>>::empty() + queue.back);
    }
}

/// In any run, each signal that is taken is handed to the state machine of its
/// kind, once and to no other, and one without a state machine is skipped and
/// stops none of the later ones: beside the turns in which there was nothing to
/// take, the decisions are those for the signals taken, in order.
pub proof fn signals_go_to_their_machines<K: Rex, W>(
    queue: Contents<Signal<K>, W>,
    machine: spec_fn(K) -> Option<usize>,
    turns: Seq<Turn<K, W>>,
)
    ensures
        decisions(queue, machine, turns).filter(|step: Step<K>| !(step is Wait)) == taken(
            queue,
            turns,
        ).map_values(|t: (Signal<K>, bool)| crate::manager::decided(Some(t.0), machine)),
    decreases turns.len(),
{
    broadcast use vstd::seq_lib::group_filter_ensures;

    let busy = |step: Step<K>| !(step is Wait);
    let decide = |t: (Signal<K>, bool)| crate::manager::decided(Some(t.0), machine);
    let steps = decisions(queue, machine, turns);
    let all = taken(queue, turns);
    reveal(Seq::filter);
    if turns.len() > 0 {
        let earlier = turns.drop_last();
        signals_go_to_their_machines(queue, machine, earlier);
        if let Turn::Step(_) = turns.last() {
            assert(steps.drop_last() =~= decisions(queue, machine, earlier));
        }
    }
    assert(steps.filter(busy) =~= all.map_values(decide));
}

/// Without pushes in between, the steps take the signals that are in the queue
/// in the order in which they are taken from the front, and then wait.
pub proof fn steps_follow_the_queue<K: Rex, W>(
    queue: Contents<Signal<K>, W>,
    machine: spec_fn(K) -> Option<usize>,
    handles: Seq<W>,
)
    ensures
        ({
            let turns = handles.map_values(|handle: W| Turn::<K, W>::Step(handle));
            let n = handles.len() as int;
            let values = queue.values();
            &&& decisions(queue, machine, turns).len() == n
            &&& after_turns(queue, turns).values() == (if n < values.len() {
                values.skip(n)
            } else {
                Seq::empty()
            })
            &&& forall|i: int|
                0 <= i < n ==> #[trigger] decisions(queue, machine, turns)[i]
                    == crate::manager::decided(
                    if i < values.len() {
                        Some(values[i])
                    } else {
                        None
                    },
                    machine,
                )
        }),
    decreases handles.len(),
{
    let step = |handle: W| Turn::<K, W>::Step(handle);
    let turns = handles.map_values(step);
    let values = queue.values();
    if handles.len() == 0 {
        assert(values.len() > 0 ==> values.skip(0) =~= values);
        assert(values.len() == 0 ==> values =~= Seq::empty());
    } else {
        let fewer = handles.drop_last();
        let n = fewer.len() as int;
        steps_follow_the_queue(queue, machine, fewer);
        assert(turns.drop_last() =~= fewer.map_values(step));
        let before = after_turns(queue, turns.drop_last());
        let after = after_turns(queue, turns);
        if n < values.len() {
            assert(before.values()[0] == values[n]);
            assert(before.first() == Some(before.values()[0]));
            assert(after.values() =~= before.values().drop_first());
            if n + 1 < values.len() {
                assert(after.values() =~= values.skip(n + 1));
            } else {
                assert(after.values() =~= Seq::empty());
            }
        } else {
            assert(before.values().len() == 0);
            assert(before.front.len() + before.back.len() == 0);
            assert(before.first() is None);
            assert(after.values() =~= Seq::empty());
        }
    }
}

} // verus!
