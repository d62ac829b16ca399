//! What state machines are: their kinds, their states and their inputs.

use std::fmt;

use vstd::prelude::*;

use crate::notification::RexMessage;
use crate::time::Moment;

verus! {

/// A type whose values are numbered, each value with a number of its own: an
/// enumeration, field-less or with variants that only contain such enumerations.
///
/// Values are compared and indexed by their numbers. A type with more values
/// than `u64` has numbers cannot be numbered this way. In an impl that Verus
/// does not read nothing checks [`code`](Coded::code): if it gave two values
/// one number, they would be taken for each other wherever values are looked up.
pub trait Coded: Sized {
    /// The number of this value.
    spec fn number(self) -> u64;

    /// Two values with one number are one value.
    proof fn number_injective(a: Self, b: Self)
        requires
            a.number() == b.number(),
        ensures
            a == b,
    ;

    /// Returns the number of this value.
    fn code(&self) -> (code: u64)
        ensures
            code == self.number(),
    ;
}

/// A trait for types representing state machine lifecycles. These types should be field-less
/// enumerations or enumerations whose variants only contain field-less enumerations; note that
/// `Copy` is a required supertrait.
pub trait State: fmt::Debug + Send + Coded + Copy {
    type Input: Send + Sync + 'static + fmt::Debug;
}

/// Acts as a discriminant between various [`State`] enumerations, similar to
/// [`std::mem::Discriminant`].
/// Used to define the scope for [`Signal`](crate::Signal)s cycled through a
/// [`StateMachineManager`](crate::StateMachineManager).
pub trait Kind: fmt::Debug + Send + Sized {
    type State: State<Input = Self::Input>;

    type Input: Send + Sync + 'static + fmt::Debug;

    /// The state that a state machine of this kind starts in.
    spec fn initial(self) -> Self::State;

    /// The state of a state machine of this kind that failed.
    spec fn failed(self) -> Self::State;

    /// The state of a state machine of this kind that completed.
    spec fn completed(self) -> Self::State;

    /// The kind of the state machines that `state` is a state of.
    spec fn owner(state: Self::State) -> Self;

    fn new_state(&self) -> (state: Self::State)
        ensures
            state == self.initial(),
    ;

    fn failed_state(&self) -> (state: Self::State)
        ensures
            state == self.failed(),
    ;

    fn completed_state(&self) -> (state: Self::State)
        ensures
            state == self.completed(),
    ;

    /// Returns the kind of the state machines that `state` is a state of.
    fn of_state(state: &Self::State) -> (kind: Self)
        ensures
            kind == Self::owner(*state),
    ;

    /// represents a state that will no longer change
    fn is_terminal(state: Self::State) -> (terminal: bool)
        ensures
            terminal == (state == Self::owner(state).completed() || state == Self::owner(
                state,
            ).failed()),
    {
        let kind = Self::of_state(&state);
        let completed = kind.completed_state();
        let failed = kind.failed_state();
        proof {
            if completed.number() == state.number() {
                Self::State::number_injective(completed, state);
            }
            if failed.number() == state.number() {
                Self::State::number_injective(failed, state);
            }
        }
        completed.code() == state.code() || failed.code() == state.code()
    }
}

/// A [`Kind`] whose values can be compared and indexed.
pub trait HashKind: Kind + Coded + Copy + Sync + 'static {

}

impl<K> HashKind for K where K: Kind + Coded + Copy + Sync + 'static {

}

/// Titular trait of the library that enables Hierarchical State Machine (HSM for short) behaviour.
/// Makes sending [`Signal`](crate::Signal)s (destined to become a
/// [`StateMachine`](crate::StateMachine)'s input)
/// and [`Notification`](crate::Notification)s (a
/// [`NotificationProcessor`](crate::NotificationProcessor)'s input) possible.
///
/// The [`Rex`] trait defines the _scope_ of interaction that exists between one or more
/// [`StateMachine`](crate::StateMachine)s and zero or more
/// [`NotificationProcessor`](crate::NotificationProcessor)s.
/// Below is a diagram displaying the associated
/// type hierarchy defined by validly implementing the [`Kind`] and [`Rex`] traits,
/// double colons`::` directed down and right represent type associations:
/// ```text
///
/// Kind -> Rex::Message
///   ::              ::
///   State::Input    Topic
/// ```
pub trait Rex: HashKind {
    type Message: RexMessage;

    /// The input that tells a state machine of this kind of the state `state`
    /// of a machine below it.
    spec fn input_of_state(self, state: Self::State) -> Option<Self::Input>;

    /// The input that tells a state machine of this kind that it timed out,
    /// found at `instant`.
    spec fn input_of_timeout(self, instant: Moment) -> Option<Self::Input>;

    /// Returns the input that tells a state machine of this kind of `state`, if there is one.
    fn state_input(&self, state: Self::State) -> (input: Option<Self::Input>)
        ensures
            input == self.input_of_state(state),
    ;

    /// Returns the input that tells a state machine of this kind of a timeout
    /// that was found at `instant`, if there is one.
    fn timeout_input(&self, instant: Moment) -> (input: Option<Self::Input>)
        ensures
            input == self.input_of_timeout(instant),
    ;
}

} // verus!
