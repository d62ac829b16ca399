//! State machines and what they are given to work with.

use vstd::prelude::*;

use std::collections::HashMap;

use crate::kind::Rex;
use crate::node::{Node, Update};
use crate::notification::{Notification, NotificationQueue};
use crate::queue::StreamReceiver;
use crate::signal::{Signal, SignalExt, SignalQueue};
use crate::state_id::StateId;
use crate::storage::{NodeStore, Stored};
use crate::time::{Clock, MAX_SPAN, NANOS_PER_MILLI};
use crate::timeout::{Operation, TimeoutInput};
use crate::tree::Tree;

verus! {

/// Store the injectable dependencies provided by the [`StateMachineManager`]
/// to a given state machine processor.
pub struct ProcessorContext<K: Rex, W> {
    pub signal_queue: SignalQueue<K, W>,
    pub notification_queue: NotificationQueue<K::Message>,
    pub state_store: NodeStore<StateId<K>, K::State>,
    pub clock: Clock,
}

impl<K: Rex, W> ProcessorContext<K, W> {
    pub open spec fn wf(self) -> bool {
        self.signal_queue.wf() && self.state_store.wf()
    }

    /// Nothing but the stored trees differs from `before`.
    pub open spec fn only_store_changed(self, before: Self) -> bool {
        &&& self.signal_queue == before.signal_queue
        &&& self.notification_queue == before.notification_queue
        &&& self.clock == before.clock
    }

    /// One notification was added to `before`, and nothing else differs.
    pub open spec fn notified(self, before: Self, notification: Notification<K::Message>) -> bool {
        &&& self.signal_queue == before.signal_queue
        &&& self.state_store == before.state_store
        &&& self.clock == before.clock
        &&& self.notification_queue@ == before.notification_queue@.push(notification)
    }

    /// `id` was given the state `state`, and the state machine above it, if
    /// there is one, was signalled of that.
    pub open spec fn state_signalled(
        self,
        before: Self,
        id: StateId<K>,
        state: K::State,
        handle: Option<W>,
    ) -> bool {
        &&& self.state_store@ == before.state_store@.with_state(id, state)
        &&& self.notification_queue == before.notification_queue
        &&& self.clock == before.clock
        &&& match before.state_store@.tree_of(id).above_find(id) {
            Some(parent) => before.signal_queue.signalled(
                parent,
                state,
                self.signal_queue,
                handle,
            ),
            None => self.signal_queue == before.signal_queue && handle is None,
        }
    }
}

/// Represents the trait that a state machine must fulfill to process signals
/// A [`StateMachine`] consumes the `input` portion of a [`Signal`] and...
/// * optionally emits [`Signal`]s - consumed by the [`StateMachineManager`] `signal_queue`
/// * optionally emits [`Notification`]s  - consumed by the [`NotificationQueue`]
pub trait StateMachine<K: Rex>: Send + Sync {
    /// The kind whose signals this state machine processes.
    spec fn kind(&self) -> K;

    fn get_kind(&self) -> (kind: K)
        ensures
            kind == self.kind(),
    ;

    /// Returns the state of `id`, if it has one.
    fn get_state<W>(&self, ctx: &ProcessorContext<K, W>, id: StateId<K>) -> (state: Option<
        K::State,
    >)
        requires
            ctx.wf(),
        ensures
            state == ctx.state_store@.state_of(id),
    {
        let node = match ctx.state_store.get(id) {
            Some(node) => node,
            None => return None,
        };
        match node.get_state(id) {
            Some(state) => Some(*state),
            None => None,
        }
    }

    /// Lends the tree of `id` for changes, if there is one.
    fn get_entry<'a, W>(&self, ctx: &'a mut ProcessorContext<K, W>, id: StateId<K>) -> (entry:
        Option<&'a mut Node<StateId<K>, K::State>>)
        requires
            old(ctx).wf(),
        ensures
            entry is Some <==> old(ctx).state_store@.entries.contains_key(id),
            match entry {
                Some(node) => {
                    &&& node.wf()
                    &&& node.tree() == old(ctx).state_store@.tree_of(id)
                    &&& final(node).wf() ==> final(ctx).wf()
                    &&& final(ctx).only_store_changed(*old(ctx))
                    &&& final(ctx).state_store@ == old(ctx).state_store@.with_tree(
                        id,
                        final(node).tree(),
                    )
                },
                None => *final(ctx) == *old(ctx),
            },
    {
        if ctx.state_store.get(id).is_some() {
            Some(ctx.state_store.get_mut(id))
        } else {
            None
        }
    }

    /// Gives `id` the state `state`.
    fn update_state<W>(&self, ctx: &mut ProcessorContext<K, W>, id: StateId<K>, state: K::State)
        requires
            old(ctx).wf(),
            old(ctx).state_store@.has(id),
        ensures
            final(ctx).wf(),
            final(ctx).only_store_changed(*old(ctx)),
            final(ctx).state_store@ == old(ctx).state_store@.with_state(id, state),
    {
        self.get_entry(ctx, id).unwrap().update(Update { id, state });
    }
}

/// What state machines do with their context.
pub trait StateMachineExt<K: Rex>: StateMachine<K> where K::Message: From<TimeoutInput<K>> {
    /// NOTE an entry is created without a hierarchy
    fn create_entry<W>(&self, ctx: &mut ProcessorContext<K, W>, id: StateId<K>)
        requires
            old(ctx).wf(),
        ensures
            final(ctx).wf(),
            final(ctx).only_store_changed(*old(ctx)),
            old(ctx).state_store@.inserted(
                id,
                Tree::leaf(id, id.kind.initial()),
                final(ctx).state_store@,
            ),
    ;

    fn has_entry<W>(&self, ctx: &ProcessorContext<K, W>, id: StateId<K>) -> (has: bool)
        requires
            ctx.wf(),
        ensures
            has == ctx.state_store@.entries.contains_key(id),
    ;

    /// Fails `id`, and signals that to the state machine above it.
    fn fail<W>(&self, ctx: &mut ProcessorContext<K, W>, id: StateId<K>) -> (handle: Option<W>)
        requires
            old(ctx).wf(),
            old(ctx).state_store@.has(id),
        ensures
            final(ctx).wf(),
            final(ctx).state_signalled(*old(ctx), id, id.kind.failed(), handle),
    ;

    /// Completes `id`, and signals that to the state machine above it.
    fn complete<W>(&self, ctx: &mut ProcessorContext<K, W>, id: StateId<K>) -> (handle: Option<W>)
        requires
            old(ctx).wf(),
            old(ctx).state_store@.has(id),
        ensures
            final(ctx).wf(),
            final(ctx).state_signalled(*old(ctx), id, id.kind.completed(), handle),
    ;

    /// represents a state that should ignore
    /// all input
    fn invalid_state(state: K::State) -> (invalid: bool)
        ensures
            invalid == (state == K::owner(state).completed() || state == K::owner(state).failed()),
    ;

    /// update state is meant to be used to signal a parent state of a child state
    /// _if_ a parent exists, this function makes no assumptions of the potential
    /// structure of a state hierarchy and _should_ be just as performant on a single
    /// state tree as it is for multiple states
    fn update_state_and_signal<W>(
        &self,
        ctx: &mut ProcessorContext<K, W>,
        id: StateId<K>,
        state: K::State,
    ) -> (handle: Option<W>)
        requires
            old(ctx).wf(),
            old(ctx).state_store@.has(id),
        ensures
            final(ctx).wf(),
            final(ctx).state_signalled(*old(ctx), id, state, handle),
    ;

    /// Puts `notification` on its way.
    fn notify<W>(
        &self,
        ctx: &mut ProcessorContext<K, W>,
        notification: Notification<K::Message>,
    )
        requires
            old(ctx).wf(),
        ensures
            final(ctx).wf(),
            final(ctx).notified(*old(ctx), notification),
    ;

    /// Asks for the timeout of `input.id` to be set or cancelled.
    fn request_timeout<W>(&self, ctx: &mut ProcessorContext<K, W>, input: TimeoutInput<K>)
        requires
            old(ctx).wf(),
        ensures
            final(ctx).wf(),
            exists|message: K::Message|
                {
                    &&& #[trigger] call_ensures(K::Message::from, (input,), message)
                    &&& final(ctx).notified(*old(ctx), Notification(message))
                },
    ;

    /// Asks for a timeout of `id` in `nanos` nanoseconds.
    fn set_timeout<W>(&self, ctx: &mut ProcessorContext<K, W>, id: StateId<K>, nanos: u128)
        requires
            old(ctx).wf(),
            nanos <= MAX_SPAN,
        ensures
            final(ctx).wf(),
            exists|op: Operation, message: K::Message|
                {
                    &&& op.set_from(old(ctx).clock, nanos as nat)
                    &&& #[trigger] call_ensures(
                        K::Message::from,
                        (TimeoutInput { id, op },),
                        message,
                    )
                    &&& final(ctx).notified(*old(ctx), Notification(message))
                },
    ;

    /// Asks for a timeout of `id` in `millis` milliseconds.
    fn set_timeout_millis<W>(&self, ctx: &mut ProcessorContext<K, W>, id: StateId<K>, millis: u64)
        requires
            old(ctx).wf(),
        ensures
            final(ctx).wf(),
            exists|op: Operation, message: K::Message|
                {
                    &&& op.set_from(old(ctx).clock, (millis * NANOS_PER_MILLI) as nat)
                    &&& #[trigger] call_ensures(
                        K::Message::from,
                        (TimeoutInput { id, op },),
                        message,
                    )
                    &&& final(ctx).notified(*old(ctx), Notification(message))
                },
    ;

    /// Asks for the timeout of `id` to be cancelled.
    fn cancel_timeout<W>(&self, ctx: &mut ProcessorContext<K, W>, id: StateId<K>)
        requires
            old(ctx).wf(),
        ensures
            final(ctx).wf(),
            exists|message: K::Message|
                {
                    &&& #[trigger] call_ensures(
                        K::Message::from,
                        (TimeoutInput { id, op: Operation::Cancel },),
                        message,
                    )
                    &&& final(ctx).notified(*old(ctx), Notification(message))
                },
    ;
}

impl<K: Rex, T: StateMachine<K>> StateMachineExt<K> for T where
    K::Message: From<TimeoutInput<K>>,
 {
    fn create_entry<W>(&self, ctx: &mut ProcessorContext<K, W>, id: StateId<K>) {
        let entry = NodeStore::<StateId<K>, K::State>::new_entry(Node::new(id));
        ctx.state_store.insert_entry(id, entry);
    }

    fn has_entry<W>(&self, ctx: &ProcessorContext<K, W>, id: StateId<K>) -> (has: bool) {
        ctx.state_store.get(id).is_some()
    }

    fn fail<W>(&self, ctx: &mut ProcessorContext<K, W>, id: StateId<K>) -> (handle: Option<W>) {
        self.update_state_and_signal(ctx, id, id.kind.failed_state())
    }

    fn complete<W>(&self, ctx: &mut ProcessorContext<K, W>, id: StateId<K>) -> (handle: Option<W>) {
        self.update_state_and_signal(ctx, id, id.kind.completed_state())
    }

    fn invalid_state(state: K::State) -> (invalid: bool) {
        K::is_terminal(state)
    }

    fn update_state_and_signal<W>(
        &self,
        ctx: &mut ProcessorContext<K, W>,
        id: StateId<K>,
        state: K::State,
    ) -> (handle: Option<W>) {
        let parent_id = self.get_entry(ctx, id).unwrap().update_and_get_parent_id(
            Update { id, state },
        );
        if let Some(id) = parent_id {
            ctx.signal_queue.signal_state_change(id, state)
        } else {
            None
        }
    }

    fn notify<W>(
        &self,
        ctx: &mut ProcessorContext<K, W>,
        notification: Notification<K::Message>,
    ) {
        ctx.notification_queue.push(notification);
    }

    fn request_timeout<W>(&self, ctx: &mut ProcessorContext<K, W>, input: TimeoutInput<K>) {
        let message = K::Message::from(input);
        self.notify(ctx, Notification(message));
    }

    fn set_timeout<W>(&self, ctx: &mut ProcessorContext<K, W>, id: StateId<K>, nanos: u128) {
        let input = TimeoutInput::set_timeout(&ctx.clock, id, nanos);
        self.request_timeout(ctx, input)
    }

    fn set_timeout_millis<W>(&self, ctx: &mut ProcessorContext<K, W>, id: StateId<K>, millis: u64) {
        let input = TimeoutInput::set_timeout_millis(&ctx.clock, id, millis);
        self.request_timeout(ctx, input)
    }

    fn cancel_timeout<W>(&self, ctx: &mut ProcessorContext<K, W>, id: StateId<K>) {
        self.request_timeout(ctx, TimeoutInput::cancel_timeout(id))
    }
}

/// The place of the state machine for `kind` among machines of the kinds
/// `kinds`: where several machines have that kind, the last one counts.
pub open spec fn machine_for<K>(kinds: Seq<K>, kind: K) -> Option<usize>
    decreases kinds.len(),
{
    if kinds.len() == 0 {
        None
    } else if kinds.last() == kind {
        Some((kinds.len() - 1) as usize)
    } else {
        machine_for(kinds.drop_last(), kind)
    }
}

/// The kinds of state machines.
pub open spec fn kinds_of<K: Rex, SM: StateMachine<K>>(machines: Seq<SM>) -> Seq<K> {
    machines.map_values(|machine: SM| machine.kind())
}

/// What is to be done next.
pub enum Step<K: Rex> {
    /// There is no signal. The receiver waits for one.
    Wait,
    /// There is no state machine for the signal of this id.
    NotFound(StateId<K>),
    /// The state machine at this place is to process this signal.
    Process(usize, Signal<K>),
}

/// What is to be done about the next signal, where `machine` tells the place of
/// the state machine for a kind.
pub open spec fn decided<K: Rex>(
    next: Option<Signal<K>>,
    machine: spec_fn(K) -> Option<usize>,
) -> Step<K> {
    match next {
        None => Step::Wait,
        Some(signal) => match machine(signal.id.kind) {
            None => Step::NotFound(signal.id),
            Some(place) => Step::Process(place, signal),
        },
    }
}

/// Manages the [`Signal`] scope of various [`State`](crate::State)s and
/// [`StateMachine`]s bounded by a [`Kind`](crate::Kind) enumerable
pub struct StateMachineManager<K: Rex, W> {
    ctx: ProcessorContext<K, W>,
    state_machines: HashMap<u64, usize>,
}

impl<K: Rex, W> StateMachineManager<K, W> {
    /// What the state machines are given to work with.
    pub closed spec fn ctx(self) -> ProcessorContext<K, W> {
        self.ctx
    }

    /// The place of the state machine for `kind`.
    pub closed spec fn machine(self, kind: K) -> Option<usize> {
        if self.state_machines@.contains_key(kind.number()) {
            Some(self.state_machines@[kind.number()])
        } else {
            None
        }
    }

    /// Lends the context to a state machine.
    pub fn context(&mut self) -> (ctx: &mut ProcessorContext<K, W>)
        ensures
            *ctx == old(self).ctx(),
            final(self).ctx() == *final(ctx),
            forall|kind: K| #[trigger] final(self).machine(kind) == old(self).machine(kind),
    {
        &mut self.ctx
    }

    pub fn new<SM: StateMachine<K>>(
        state_machines: &[SM],
        signal_queue: SignalQueue<K, W>,
        notification_queue: NotificationQueue<K::Message>,
    ) -> (manager: Self)
        requires
            signal_queue.wf(),
        ensures
            manager.ctx().wf(),
            manager.ctx().clock.started(),
            manager.ctx().signal_queue == signal_queue,
            manager.ctx().notification_queue == notification_queue,
            manager.ctx().state_store@ == Stored::<StateId<K>, K::State>::empty(),
            forall|kind: K| #[trigger]
                manager.machine(kind) == machine_for(kinds_of::<K, SM>(state_machines@), kind),
    {
        let ctx = ProcessorContext {
            signal_queue,
            notification_queue,
            state_store: NodeStore::new(),
            clock: Clock::new(),
        };
        let mut manager = StateMachineManager { ctx, state_machines: HashMap::new() };
        let ghost kinds = kinds_of::<K, SM>(state_machines@);
        let mut i: usize = 0;
        while i < state_machines.len()
            invariant
                i <= state_machines@.len(),
                kinds == kinds_of::<K, SM>(state_machines@),
                manager.ctx == ctx,
                forall|kind: K| #[trigger]
                    manager.machine(kind) == machine_for(kinds.take(i as int), kind),
            decreases state_machines@.len() - i,
        {
            let kind = state_machines[i].get_kind();
            let ghost before = manager;
            manager.state_machines.insert(kind.code(), i);
            proof {
                assert(kinds.take(i + 1).drop_last() =~= kinds.take(i as int));
                assert(kinds.take(i + 1).last() == kind);
                assert forall|other: K| #[trigger] manager.machine(other) == machine_for(
                    kinds.take(i + 1),
                    other,
                ) by {
                    assert(before.machine(other) == machine_for(kinds.take(i as int), other));
                    if other.number() == kind.number() {
                        K::number_injective(other, kind);
                    }
                }
            }
            i += 1;
        }
        assert(kinds.take(i as int) =~= kinds);
        manager
    }

    /// Takes the next signal and finds the state machine that is to process
    /// it, or else lets the receiver wait with `handle` to be woken by.
    pub fn step(&mut self, receiver: &mut StreamReceiver, handle: W) -> (step: Step<K>)
        requires
            old(self).ctx().wf(),
            old(self).ctx().signal_queue@.first() is None ==> old(
                self,
            ).ctx().signal_queue@.next_ticket() < u64::MAX,
        ensures
            final(self).ctx().wf(),
            final(self).ctx().notification_queue == old(self).ctx().notification_queue,
            final(self).ctx().state_store == old(self).ctx().state_store,
            final(self).ctx().clock == old(self).ctx().clock,
            forall|kind: K| #[trigger] final(self).machine(kind) == old(self).machine(kind),
            old(self).ctx().signal_queue.polled(
                handle,
                old(self).ctx().signal_queue@.first(),
                final(self).ctx().signal_queue,
                *final(receiver),
            ),
            step == decided(
                old(self).ctx().signal_queue@.first(),
                |kind: K| old(self).machine(kind),
            ),
    {
        match self.ctx.signal_queue.poll_next(receiver, handle) {
            None => Step::Wait,
            Some(signal) => match self.state_machines.get(&signal.id.kind.code()) {
                None => Step::NotFound(signal.id),
                Some(machine) => Step::Process(*machine, signal),
            },
        }
    }
}

} // verus!
