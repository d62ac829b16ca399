//! Inputs on their way to state machines.

use vstd::prelude::*;

use crate::kind::{Kind, Rex};
use crate::queue::StreamableDeque;
use crate::state_id::StateId;

verus! {

/// The [`Signal`] struct represents a routable input meant to be consumed
/// by a state machine processor.
/// The `id` field holds:
/// * The routing logic accessed by the [`Kind`] portion of the id
/// * a distinguishing identifier that separates state of the _same_ kind
///
///
/// The `input` field :
/// * holds an event or message meant to be processed by a given state machine
/// * an event is defined as any output emitted by a state machine
#[derive(Debug, PartialEq)]
pub struct Signal<K: Kind> {
    pub id: StateId<K>,
    pub input: K::Input,
}

/// The signal that tells the state machine `id` of the state `state`.
pub open spec fn state_signal<K: Rex>(id: StateId<K>, state: K::State) -> Option<Signal<K>> {
    match id.kind.input_of_state(state) {
        Some(input) => Some(Signal { id, input }),
        None => None,
    }
}

impl<K: Rex> Signal<K> {
    pub fn state_change(id: StateId<K>, state: K::State) -> (signal: Option<Self>)
        ensures
            signal == state_signal(id, state),
    {
        match id.kind.state_input(state) {
            Some(input) => Some(Self { id, input }),
            None => None,
        }
    }
}

/// The queue of the signals that wait for their state machines.
pub type SignalQueue<K, W> = StreamableDeque<Signal<K>, W>;

/// [SignalExt] calls [`Signal::state_change`] to consume a [`Kind::State`] and emit
/// a state change [`Signal`] with a valid input
pub trait SignalExt<K: Rex, W>: Sized {
    spec fn ready(self) -> bool;

    spec fn signalled(self, id: StateId<K>, state: K::State, after: Self, handle: Option<W>) -> bool;

    fn signal_state_change(&mut self, id: StateId<K>, state: K::State) -> (handle: Option<W>)
        requires
            old(self).ready(),
        ensures
            final(self).ready(),
            old(self).signalled(id, state, *final(self), handle),
    ;
}

impl<K: Rex, W> SignalExt<K, W> for SignalQueue<K, W> {
    open spec fn ready(self) -> bool {
        self.wf()
    }

    open spec fn signalled(
        self,
        id: StateId<K>,
        state: K::State,
        after: Self,
        handle: Option<W>,
    ) -> bool {
        match state_signal(id, state) {
            Some(signal) => after@ == self@.pushed_back(signal) && handle == self@.next_waiting(),
            None => after@ == self@ && handle is None,
        }
    }

    fn signal_state_change(&mut self, id: StateId<K>, state: K::State) -> (handle: Option<W>) {
        if let Some(signal) = Signal::state_change(id, state) {
            self.push_back(signal)
        } else {
            None
        }
    }
}

} // verus!
