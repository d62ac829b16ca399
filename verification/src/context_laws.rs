//! What state machines see of each other through their context, call by call.

use vstd::prelude::*;

use crate::kind::Rex;
use crate::manager::{ProcessorContext, StateMachine, StateMachineExt};
use crate::node::Node;
use crate::notification::Notification;
use crate::signal::Signal;
use crate::state_id::StateId;
use crate::time::Moment;
use crate::timeout::{Operation, TimeoutInput};
use crate::tree::Tree;

verus! {

/// `id` does not name both the topmost state and one below it: there, lookups stop
/// at the top, and updates go below. Trees without repeated ids have no such name.
pub open spec fn read_where_written<Id, S>(t: Tree<Id, S>, id: Id) -> bool {
    forall|path: Seq<int>| #[trigger] t.leads(path, id) && t.id == id ==> path.len() == 0
}

/// In a tree without repeated ids every id is read where it is written.
pub proof fn single_places_are_read_where_written<Id, S>(t: Tree<Id, S>, id: Id)
    requires
        t.names_once(),
    ensures
        read_where_written(t, id),
{
    if t.id == id {
        assert(t.leads(Seq::empty(), id));
    }
}

/// The state that is read of an id is the topmost one of the tree that the id
/// leads to where that has the name, and else the one at the end of the way
/// towards the id. There is none only where no place has the name.
pub proof fn get_state_reads_the_tree<K: Rex, W, T: StateMachine<K>>(
    machine: &T,
    ctx: &ProcessorContext<K, W>,
    id: StateId<K>,
    state: Option<K::State>,
    path: Seq<int>,
)
    requires
        ctx.wf(),
        ctx.state_store@.trees[ctx.state_store@.entries[id]].walks(path, id),
        call_ensures(T::get_state::<W>, (machine, ctx, id), state),
    ensures
        ({
            let t = ctx.state_store@.trees[ctx.state_store@.entries[id]];
            &&& state is Some <==> ctx.state_store@.entries.contains_key(id) && exists|
                p: Seq<int>,
            | #[trigger]
                t.leads(p, id)
            &&& state matches Some(s) ==> s == (if t.id == id {
                t.state
            } else {
                t.at(path).state
            })
        }),
{
    let t = ctx.state_store@.tree_of(id);
    t.lemma_holds(id);
    crate::path_laws::held_ids_have_places(t, id);
    if t.holds(id) {
        crate::path_laws::lookups_follow_the_way(t, id, path);
    }
}

/// After a state change that is signalled, the state read of the id is the one
/// that was passed, whichever it is, and the states read of all other ids are
/// what they were.
pub proof fn signalled_change_is_read_back<K: Rex, W, T: StateMachineExt<K>>(
    machine: &T,
    ctx: &mut ProcessorContext<K, W>,
    id: StateId<K>,
    state: K::State,
    handle: Option<W>,
    other: StateId<K>,
    before: Option<K::State>,
    after: Option<K::State>,
) where K::Message: From<TimeoutInput<K>>
    requires
        old(ctx).wf(),
        old(ctx).state_store@.has(id),
        read_where_written(old(ctx).state_store@.tree_of(id), id),
        call_ensures(T::get_state::<W>, (machine, &*old(ctx), other), before),
        call_ensures(T::update_state_and_signal::<W>, (machine, ctx, id, state), handle),
        call_ensures(T::get_state::<W>, (machine, &*final(ctx), other), after),
    ensures
        after == (if other == id {
            Some(state)
        } else {
            before
        }),
{
    lemma_change_is_read_back(*old(ctx), *final(ctx), id, state, other);
}

proof fn lemma_change_is_read_back<K: Rex, W>(
    before: ProcessorContext<K, W>,
    after: ProcessorContext<K, W>,
    id: StateId<K>,
    state: K::State,
    other: StateId<K>,
)
    requires
        before.wf(),
        before.state_store@.has(id),
        read_where_written(before.state_store@.tree_of(id), id),
        after.state_store@ == before.state_store@.with_state(id, state),
    ensures
        after.state_store@.state_of(other) == (if other == id {
            Some(state)
        } else {
            before.state_store@.state_of(other)
        }),
{
    let stored = before.state_store@;
    before.state_store.wf_placed();
    crate::path_laws::held_ids_have_places(stored.tree_of(id), id);
    if other == id {
        crate::storage_laws::update_then_state(stored, id, state);
    } else {
        crate::storage_laws::update_leaves_other_states(stored, id, state, other);
    }
}

/// The same of a state change that is not signalled.
pub proof fn change_is_read_back<K: Rex, W, T: StateMachine<K>>(
    machine: &T,
    ctx: &mut ProcessorContext<K, W>,
    id: StateId<K>,
    state: K::State,
    other: StateId<K>,
    before: Option<K::State>,
    after: Option<K::State>,
)
    requires
        old(ctx).wf(),
        old(ctx).state_store@.has(id),
        read_where_written(old(ctx).state_store@.tree_of(id), id),
        call_ensures(T::get_state::<W>, (machine, &*old(ctx), other), before),
        call_ensures(T::update_state::<W>, (machine, ctx, id, state), ()),
        call_ensures(T::get_state::<W>, (machine, &*final(ctx), other), after),
    ensures
        after == (if other == id {
            Some(state)
        } else {
            before
        }),
{
    lemma_change_is_read_back(*old(ctx), *final(ctx), id, state, other);
}

/// After a failure, the state read of the id is the failed one of its kind, and
/// the states read of all other ids are what they were.
pub proof fn failure_is_read_back<K: Rex, W, T: StateMachineExt<K>>(
    machine: &T,
    ctx: &mut ProcessorContext<K, W>,
    id: StateId<K>,
    handle: Option<W>,
    other: StateId<K>,
    before: Option<K::State>,
    after: Option<K::State>,
) where K::Message: From<TimeoutInput<K>>
    requires
        old(ctx).wf(),
        old(ctx).state_store@.has(id),
        read_where_written(old(ctx).state_store@.tree_of(id), id),
        call_ensures(T::get_state::<W>, (machine, &*old(ctx), other), before),
        call_ensures(T::fail::<W>, (machine, ctx, id), handle),
        call_ensures(T::get_state::<W>, (machine, &*final(ctx), other), after),
    ensures
        after == (if other == id {
            Some(id.kind.failed())
        } else {
            before
        }),
{
    lemma_change_is_read_back(*old(ctx), *final(ctx), id, id.kind.failed(), other);
}

/// After a completion, the state read of the id is the completed one of its
/// kind, and the states read of all other ids are what they were.
pub proof fn completion_is_read_back<K: Rex, W, T: StateMachineExt<K>>(
    machine: &T,
    ctx: &mut ProcessorContext<K, W>,
    id: StateId<K>,
    handle: Option<W>,
    other: StateId<K>,
    before: Option<K::State>,
    after: Option<K::State>,
) where K::Message: From<TimeoutInput<K>>
    requires
        old(ctx).wf(),
        old(ctx).state_store@.has(id),
        read_where_written(old(ctx).state_store@.tree_of(id), id),
        call_ensures(T::get_state::<W>, (machine, &*old(ctx), other), before),
        call_ensures(T::complete::<W>, (machine, ctx, id), handle),
        call_ensures(T::get_state::<W>, (machine, &*final(ctx), other), after),
    ensures
        after == (if other == id {
            Some(id.kind.completed())
        } else {
            before
        }),
{
    lemma_change_is_read_back(*old(ctx), *final(ctx), id, id.kind.completed(), other);
}

/// A state change is signalled to the state one step back on the way to the id,
/// which in a tree without repeated ids is its parent, with the input that
/// its kind has for the state that was passed: the signal comes behind all that
/// wait, and the receiver that waits longest is notified. The topmost state
/// signals nobody, and neither is a kind signalled that has no input for the state.
pub proof fn parent_is_signalled_of_the_state<K: Rex, W, T: StateMachineExt<K>>(
    machine: &T,
    ctx: &mut ProcessorContext<K, W>,
    id: StateId<K>,
    state: K::State,
    handle: Option<W>,
    place: Seq<int>,
) where K::Message: From<TimeoutInput<K>>
    requires
        old(ctx).wf(),
        old(ctx).state_store@.has(id),
        old(ctx).state_store@.tree_of(id).walks(place, id),
        call_ensures(T::update_state_and_signal::<W>, (machine, ctx, id, state), handle),
    ensures
        final(ctx).notification_queue == old(ctx).notification_queue,
        final(ctx).clock == old(ctx).clock,
        ({
            let parent = old(ctx).state_store@.tree_of(id).at(place.drop_last()).id;
            let before = old(ctx).signal_queue@;
            let after = final(ctx).signal_queue@;
            if place.len() == 0 {
                after == before && handle is None
            } else {
                match parent.kind.input_of_state(state) {
                    None => after == before && handle is None,
                    Some(input) => {
                        &&& after.front == before.front
                        &&& after.back == before.back.push(Signal { id: parent, input })
                        &&& handle is None <==> before.waiting.len() == 0
                        &&& handle matches Some(h) ==> {
                            &&& h == before.waiting[0]
                            &&& after.waiting == before.waiting.drop_first()
                            &&& after.woken == before.woken + 1
                        }
                        &&& handle is None ==> after.waiting == before.waiting && after.woken
                            == before.woken
                    },
                }
            }
        }),
{
    crate::path_laws::parents_are_one_step_back(old(ctx).state_store@.tree_of(id), place, id);
}

/// The same of a failure.
pub proof fn parent_is_signalled_of_the_failure<K: Rex, W, T: StateMachineExt<K>>(
    machine: &T,
    ctx: &mut ProcessorContext<K, W>,
    id: StateId<K>,
    handle: Option<W>,
    place: Seq<int>,
) where K::Message: From<TimeoutInput<K>>
    requires
        old(ctx).wf(),
        old(ctx).state_store@.has(id),
        old(ctx).state_store@.tree_of(id).walks(place, id),
        call_ensures(T::fail::<W>, (machine, ctx, id), handle),
    ensures
        final(ctx).notification_queue == old(ctx).notification_queue,
        final(ctx).clock == old(ctx).clock,
        ({
            let parent = old(ctx).state_store@.tree_of(id).at(place.drop_last()).id;
            let before = old(ctx).signal_queue@;
            let after = final(ctx).signal_queue@;
            if place.len() == 0 {
                after == before && handle is None
            } else {
                match parent.kind.input_of_state(id.kind.failed()) {
                    None => after == before && handle is None,
                    Some(input) => {
                        &&& after.front == before.front
                        &&& after.back == before.back.push(Signal { id: parent, input })
                        &&& handle is None <==> before.waiting.len() == 0
                        &&& handle matches Some(h) ==> {
                            &&& h == before.waiting[0]
                            &&& after.waiting == before.waiting.drop_first()
                            &&& after.woken == before.woken + 1
                        }
                        &&& handle is None ==> after.waiting == before.waiting && after.woken
                            == before.woken
                    },
                }
            }
        }),
{
    crate::path_laws::parents_are_one_step_back(old(ctx).state_store@.tree_of(id), place, id);
}

/// The same of a completion.
pub proof fn parent_is_signalled_of_the_completion<K: Rex, W, T: StateMachineExt<K>>(
    machine: &T,
    ctx: &mut ProcessorContext<K, W>,
    id: StateId<K>,
    handle: Option<W>,
    place: Seq<int>,
) where K::Message: From<TimeoutInput<K>>
    requires
        old(ctx).wf(),
        old(ctx).state_store@.has(id),
        old(ctx).state_store@.tree_of(id).walks(place, id),
        call_ensures(T::complete::<W>, (machine, ctx, id), handle),
    ensures
        final(ctx).notification_queue == old(ctx).notification_queue,
        final(ctx).clock == old(ctx).clock,
        ({
            let parent = old(ctx).state_store@.tree_of(id).at(place.drop_last()).id;
            let before = old(ctx).signal_queue@;
            let after = final(ctx).signal_queue@;
            if place.len() == 0 {
                after == before && handle is None
            } else {
                match parent.kind.input_of_state(id.kind.completed()) {
                    None => after == before && handle is None,
                    Some(input) => {
                        &&& after.front == before.front
                        &&& after.back == before.back.push(Signal { id: parent, input })
                        &&& handle is None <==> before.waiting.len() == 0
                        &&& handle matches Some(h) ==> {
                            &&& h == before.waiting[0]
                            &&& after.waiting == before.waiting.drop_first()
                            &&& after.woken == before.woken + 1
                        }
                        &&& handle is None ==> after.waiting == before.waiting && after.woken
                            == before.woken
                    },
                }
            }
        }),
{
    crate::path_laws::parents_are_one_step_back(old(ctx).state_store@.tree_of(id), place, id);
}

/// A created entry has the first state of its kind, whatever the id had before,
/// and the states read of all other ids are what they were.
pub proof fn created_entry_is_read_back<K: Rex, W, T: StateMachineExt<K>>(
    machine: &T,
    ctx: &mut ProcessorContext<K, W>,
    id: StateId<K>,
    other: StateId<K>,
    before: Option<K::State>,
    after: Option<K::State>,
) where K::Message: From<TimeoutInput<K>>
    requires
        old(ctx).wf(),
        call_ensures(T::get_state::<W>, (machine, &*old(ctx), other), before),
        call_ensures(T::create_entry::<W>, (machine, ctx, id), ()),
        call_ensures(T::get_state::<W>, (machine, &*final(ctx), other), after),
    ensures
        after == (if other == id {
            Some(id.kind.initial())
        } else {
            before
        }),
        final(ctx).signal_queue == old(ctx).signal_queue,
        final(ctx).notification_queue == old(ctx).notification_queue,
        final(ctx).clock == old(ctx).clock,
{
    let stored = old(ctx).state_store@;
    let tree = Tree::leaf(id, id.kind.initial());
    old(ctx).state_store.wf_placed();
    if other == id {
        crate::storage_laws::create_then_state(stored, id, id.kind.initial(), final(ctx).state_store@);
    } else {
        crate::storage_laws::insert_leaves_other_trees(
            stored,
            id,
            tree,
            final(ctx).state_store@,
            other,
        );
    }
}

/// An id has an entry once one was created for it, and no other id comes to
/// have one by that.
pub proof fn created_entry_is_there<K: Rex, W, T: StateMachineExt<K>>(
    machine: &T,
    ctx: &mut ProcessorContext<K, W>,
    id: StateId<K>,
    other: StateId<K>,
    before: bool,
    after: bool,
) where K::Message: From<TimeoutInput<K>>
    requires
        old(ctx).wf(),
        call_ensures(T::has_entry::<W>, (machine, &*old(ctx), other), before),
        call_ensures(T::create_entry::<W>, (machine, ctx, id), ()),
        call_ensures(T::has_entry::<W>, (machine, &*final(ctx), other), after),
    ensures
        after == (other == id || before),
{
    let tree = Tree::leaf(id, id.kind.initial());
    old(ctx).state_store.wf_placed();
    crate::storage_laws::insert_then_tree(old(ctx).state_store@, id, tree, final(ctx).state_store@);
    if other != id {
        crate::storage_laws::insert_leaves_other_trees(
            old(ctx).state_store@,
            id,
            tree,
            final(ctx).state_store@,
            other,
        );
    }
}

/// Whoever has a state has an entry.
pub proof fn states_have_entries<K: Rex, W, T: StateMachineExt<K>>(
    machine: &T,
    ctx: &ProcessorContext<K, W>,
    id: StateId<K>,
    state: Option<K::State>,
    has: bool,
) where K::Message: From<TimeoutInput<K>>
    requires
        ctx.wf(),
        call_ensures(T::get_state::<W>, (machine, ctx, id), state),
        call_ensures(T::has_entry::<W>, (machine, ctx, id), has),
    ensures
        state is Some ==> has,
        has == ctx.state_store@.entries.contains_key(id),
{
}

/// A state is one that ignores all input if it is the failed or the completed
/// one of the kind that it belongs to, and no other state is.
pub proof fn ended_states_ignore_input<K: Rex, T: StateMachineExt<K>>(
    state: K::State,
    invalid: bool,
    terminal: bool,
) where K::Message: From<TimeoutInput<K>>
    requires
        call_ensures(T::invalid_state, (state,), invalid),
        call_ensures(K::is_terminal, (state,), terminal),
    ensures
        state == K::owner(state).failed() ==> invalid && terminal,
        state == K::owner(state).completed() ==> invalid && terminal,
        invalid || terminal ==> state == K::owner(state).failed() || state == K::owner(
            state,
        ).completed(),
{
}

/// A notification is put on its way behind those that are, and changes nothing else.
pub proof fn notifications_queue_up<K: Rex, W, T: StateMachineExt<K>>(
    machine: &T,
    ctx: &mut ProcessorContext<K, W>,
    notification: Notification<K::Message>,
) where K::Message: From<TimeoutInput<K>>
    requires
        old(ctx).wf(),
        call_ensures(T::notify::<W>, (machine, ctx, notification), ()),
    ensures
        final(ctx).notification_queue@ == old(ctx).notification_queue@.push(notification),
        final(ctx).signal_queue == old(ctx).signal_queue,
        final(ctx).state_store == old(ctx).state_store,
        final(ctx).clock == old(ctx).clock,
{
}

/// A request for a timeout, by duration or by milliseconds, puts one message on
/// its way: it is made of an input that names the id, and that sets the timeout
/// for the instant that lies the whole duration after a reading of the clock.
pub proof fn timeout_requests_name_the_instant<K: Rex, W, T: StateMachineExt<K>>(
    machine: &T,
    ctx: &mut ProcessorContext<K, W>,
    id: StateId<K>,
    nanos: u128,
    millis: u64,
) where K::Message: From<TimeoutInput<K>>
    requires
        old(ctx).wf(),
        nanos <= crate::time::MAX_SPAN,
        ({
            ||| call_ensures(T::set_timeout::<W>, (machine, ctx, id, nanos), ())
            ||| nanos == millis * 1_000_000 && call_ensures(
                T::set_timeout_millis::<W>,
                (machine, ctx, id, millis),
                (),
            )
        }),
    ensures
        final(ctx).signal_queue == old(ctx).signal_queue,
        final(ctx).state_store == old(ctx).state_store,
        final(ctx).clock == old(ctx).clock,
        exists|now: Moment, instant: Moment, message: K::Message|
            {
                &&& #[trigger] old(ctx).clock.reads(now)
                &&& instant.nanos - now.nanos == nanos
                &&& #[trigger] call_ensures(
                    K::Message::from,
                    (TimeoutInput { id, op: Operation::SetAt(instant) },),
                    message,
                )
                &&& final(ctx).notification_queue@ == old(ctx).notification_queue@.push(
                    Notification(message),
                )
            },
{
    let clock = old(ctx).clock;
    let (op, message) = choose|op: Operation, message: K::Message|
        {
            &&& op.set_from(clock, nanos as nat)
            &&& #[trigger] call_ensures(K::Message::from, (TimeoutInput { id, op },), message)
            &&& final(ctx).notified(*old(ctx), Notification(message))
        };
    let now = choose|now: Moment| #[trigger]
        clock.reads(now) && now.nanos <= crate::time::MAX_SPAN && op == Operation::SetAt(
            Moment { nanos: (now.nanos + nanos) as u128 },
        );
    let instant = Moment { nanos: (now.nanos + nanos) as u128 };
    assert(op == Operation::SetAt(instant));
    assert(clock.reads(now));
}

/// A request to cancel a timeout puts one message on its way, made of an input
/// that names the id and cancels.
pub proof fn cancel_requests_name_the_id<K: Rex, W, T: StateMachineExt<K>>(
    machine: &T,
    ctx: &mut ProcessorContext<K, W>,
    id: StateId<K>,
) where K::Message: From<TimeoutInput<K>>
    requires
        old(ctx).wf(),
        call_ensures(T::cancel_timeout::<W>, (machine, ctx, id), ()),
    ensures
        final(ctx).signal_queue == old(ctx).signal_queue,
        final(ctx).state_store == old(ctx).state_store,
        final(ctx).clock == old(ctx).clock,
        exists|message: K::Message|
            {
                &&& #[trigger] call_ensures(
                    K::Message::from,
                    (TimeoutInput { id, op: Operation::Cancel },),
                    message,
                )
                &&& final(ctx).notification_queue@ == old(ctx).notification_queue@.push(
                    Notification(message),
                )
            },
{
}

/// A tree that is lent is the one that the id leads to. What it is left as is
/// what every id with the same entry leads to afterwards, and all other ids keep
/// their trees.
pub proof fn lent_tree_is_the_one_kept<K: Rex, W, T: StateMachine<K>>(
    machine: &T,
    ctx: &mut ProcessorContext<K, W>,
    id: StateId<K>,
    entry: Option<&mut Node<StateId<K>, K::State>>,
    other: StateId<K>,
)
    requires
        old(ctx).wf(),
        call_ensures(T::get_entry::<W>, (machine, ctx, id), entry),
        old(ctx).state_store@.entries.contains_key(other),
    ensures
        entry is Some <==> old(ctx).state_store@.entries.contains_key(id),
        final(ctx).state_store@.entries == old(ctx).state_store@.entries,
        final(ctx).signal_queue == old(ctx).signal_queue,
        final(ctx).notification_queue == old(ctx).notification_queue,
        final(ctx).clock == old(ctx).clock,
        entry matches Some(node) ==> {
            let before = old(ctx).state_store@;
            &&& node.tree() == before.trees[before.entries[id]]
            &&& final(ctx).state_store@.trees[before.entries[other]] == (if before.entries[other]
                == before.entries[id] {
                final(node).tree()
            } else {
                before.trees[before.entries[other]]
            })
        },
{
}

/// A request about a timeout puts one message on its way, made of the very input.
pub proof fn timeout_inputs_are_put_on_their_way<K: Rex, W, T: StateMachineExt<K>>(
    machine: &T,
    ctx: &mut ProcessorContext<K, W>,
    input: TimeoutInput<K>,
) where K::Message: From<TimeoutInput<K>>
    requires
        old(ctx).wf(),
        call_ensures(T::request_timeout::<W>, (machine, ctx, input), ()),
    ensures
        final(ctx).signal_queue == old(ctx).signal_queue,
        final(ctx).state_store == old(ctx).state_store,
        final(ctx).clock == old(ctx).clock,
        exists|message: K::Message| #[trigger]
            call_ensures(K::Message::from, (input,), message) && final(ctx).notification_queue@
                == old(ctx).notification_queue@.push(Notification(message)),
{
}

} // verus!
