//! Packets on their way between state machines and a network.

use vstd::prelude::*;

use std::collections::HashMap;
use std::marker::PhantomData;

use crate::error::{ConversionError, RexError};
use crate::kind::{HashKind, Rex};
use crate::notification::{Notification, NotificationProcessor, RexMessage};
use crate::signal::{Signal, SignalQueue};
use crate::state_id::StateId;

verus! {

/// Finds the state machines of one kind that packets are meant for.
pub trait StateRouter<K: HashKind>: Send + Sync {
    type Inbound;

    /// The kind of the state machines that this router finds.
    spec fn kind(&self) -> K;

    /// Returns the state machine that `input` is meant for, if there is one.
    fn get_id(&self, input: &Self::Inbound) -> Result<Option<StateId<K>>, RexError>;

    fn get_kind(&self) -> (kind: K)
        ensures
            kind == self.kind(),
    ;
}

/// No two routers have the same kind.
pub open spec fn distinct_kinds<K: HashKind, R: StateRouter<K>>(routers: Seq<R>) -> bool {
    forall|i: int, j: int|
        0 <= i < j < routers.len() ==> (#[trigger] routers[i]).kind() != (
        #[trigger] routers[j]).kind()
}

/// top level router that holds all [`Kind`](crate::Kind) indexed [`StateRouter`]s
pub struct PacketRouter<K: HashKind, R: StateRouter<K>> {
    routers: HashMap<u64, R>,
    kinds: PhantomData<K>,
}

impl<K: HashKind, R: StateRouter<K>> PacketRouter<K, R> {
    /// The router for `kind`.
    pub closed spec fn router(self, kind: K) -> Option<R> {
        if self.routers@.contains_key(kind.number()) {
            Some(self.routers@[kind.number()])
        } else {
            None
        }
    }

    /// Returns a kind that two of the routers have, if there is one.
    pub fn repeated_kind(state_routers: &[R]) -> (repeated: Option<K>)
        ensures
            repeated is None <==> distinct_kinds::<K, R>(state_routers@),
            repeated matches Some(kind) ==> exists|i: int, j: int|
                0 <= i < j < state_routers@.len() && (#[trigger] state_routers@[i]).kind() == kind
                    && (#[trigger] state_routers@[j]).kind() == kind,
    {
        let mut j: usize = 0;
        while j < state_routers.len()
            invariant
                j <= state_routers@.len(),
                distinct_kinds::<K, R>(state_routers@.take(j as int)),
            decreases state_routers@.len() - j,
        {
            let kind = state_routers[j].get_kind();
            let mut i: usize = 0;
            while i < j
                invariant
                    i <= j < state_routers@.len(),
                    kind == state_routers@[j as int].kind(),
                    forall|k: int| 0 <= k < i ==> (#[trigger] state_routers@[k]).kind() != kind,
                decreases j - i,
            {
                let other = state_routers[i].get_kind();
                if other.code() == kind.code() {
                    proof {
                        K::number_injective(other, kind);
                    }
                    return Some(kind);
                }
                i += 1;
            }
            proof {
                let seen = state_routers@.take(j as int);
                let more = state_routers@.take(j + 1);
                assert forall|a: int, b: int| 0 <= a < b < more.len() implies (
                #[trigger] more[a]).kind() != (#[trigger] more[b]).kind() by {
                    if b < j {
                        assert(seen[a].kind() != seen[b].kind());
                    }
                }
            }
            j += 1;
        }
        assert(state_routers@.take(j as int) =~= state_routers@);
        None
    }

    pub fn new(state_routers: Vec<R>) -> (router: Self)
        requires
            distinct_kinds::<K, R>(state_routers@),
        ensures
            router.routes(state_routers@),
    {
        let ghost routers = state_routers@;
        let mut router = PacketRouter { routers: HashMap::new(), kinds: PhantomData };
        for state_router in it: state_routers
            invariant
                it.seq() == routers,
                distinct_kinds::<K, R>(routers),
                router.routes(routers.take(it.index())),
        {
            let kind = state_router.get_kind();
            let ghost before = router;
            router.routers.insert(kind.code(), state_router);
            proof {
                let k = it.index();
                let seen = routers.take(k);
                let more = routers.take(k + 1);
                assert(state_router == routers[k]);
                assert forall|other: K| other != kind implies #[trigger] router.router(other)
                    == before.router(other) by {
                    if other.number() == kind.number() {
                        K::number_injective(other, kind);
                    }
                }
                assert forall|i: int| 0 <= i < more.len() implies router.router(
                    (#[trigger] more[i]).kind(),
                ) == Some(more[i]) by {
                    if i < k {
                        assert(seen[i] == more[i]);
                        assert(routers[i].kind() != routers[k].kind());
                    }
                }
                assert forall|other: K| #[trigger] router.router(other) is Some implies exists|i: int|
                    0 <= i < more.len() && (#[trigger] more[i]).kind() == other by {
                    if other == kind {
                        assert(more[k].kind() == other);
                    } else {
                        assert(before.router(other) is Some);
                        let i = choose|i: int|
                            0 <= i < seen.len() && (#[trigger] seen[i]).kind() == other;
                        assert(more[i].kind() == other);
                    }
                }
            }
        }
        assert(routers.take(routers.len() as int) =~= routers);
        router
    }

    /// Each of `state_routers` is the router for its kind, and there are no others.
    pub open spec fn routes(self, state_routers: Seq<R>) -> bool {
        &&& forall|i: int|
            0 <= i < state_routers.len() ==> self.router((#[trigger] state_routers[i]).kind())
                == Some(state_routers[i])
        &&& forall|kind: K| #[trigger]
            self.router(kind) is Some ==> exists|i: int|
                0 <= i < state_routers.len() && (#[trigger] state_routers[i]).kind() == kind
    }

    /// `id` is what came of a packet that was read to be of the kind `kind`:
    /// what the router for that kind found. A packet of no kind is an error,
    /// and one of a kind without router goes nowhere.
    pub open spec fn found(
        self,
        packet: R::Inbound,
        kind: Result<K, ConversionError>,
        id: Result<Option<StateId<K>>, RexError>,
    ) -> bool {
        match kind {
            Err(_) => id == Err::<Option<StateId<K>>, RexError>(RexError),
            Ok(kind) => match self.router(kind) {
                None => id == Ok::<Option<StateId<K>>, RexError>(None),
                Some(router) => call_ensures(R::get_id, (&router, &packet), id),
            },
        }
    }

    /// Finds the state machine that `packet` is meant for, read to be of the
    /// kind `kind`.
    pub fn find(&self, packet: &R::Inbound, kind: Result<K, ConversionError>) -> (id: Result<
        Option<StateId<K>>,
        RexError,
    >)
        ensures
            self.found(*packet, kind, id),
    {
        match kind {
            Err(_) => Err(RexError),
            Ok(kind) => match self.routers.get(&kind.code()) {
                None => Ok(None),
                Some(router) => router.get_id(packet),
            },
        }
    }

    /// Reads the kind of `packet` and finds the state machine that it is meant for.
    pub fn get_id(&self, packet: &R::Inbound) -> (id: Result<Option<StateId<K>>, RexError>) where
        K: for <'a>TryFrom<&'a R::Inbound, Error = ConversionError>,

        ensures
            exists|kind: Result<K, ConversionError>|
                {
                    &&& #[trigger] call_ensures(K::try_from, (packet,), kind)
                    &&& self.found(*packet, kind, id)
                },
    {
        let kind = K::try_from(packet);
        self.find(packet, kind)
    }
}

/// Why a packet from the network comes to no state machine.
#[derive(Debug)]
pub enum Refused {
    /// No state machine was found for it.
    Unroutable,
    /// The search for its state machine failed.
    RouteFailed(RexError),
    /// It is not an input of its state machine.
    Invalid(ConversionError),
}

/// Represents a bidirectional network connection
pub struct IngressAdapter<K: Rex, R: StateRouter<K>> {
    pub router: PacketRouter<K, R>,
    pub topic: <K::Message as RexMessage>::Topic,
}

impl<K: Rex, R: StateRouter<K>> IngressAdapter<K, R> {
    pub fn new(state_routers: Vec<R>, topic: <K::Message as RexMessage>::Topic) -> (adapter: Self)
        requires
            distinct_kinds::<K, R>(state_routers@),
        ensures
            adapter.router.routes(state_routers@),
            adapter.topic == topic,
    {
        Self { router: PacketRouter::new(state_routers), topic }
    }

    /// Addresses to `id` what a packet was read as.
    pub fn address(id: StateId<K>, input: Result<K::Input, ConversionError>) -> (signal: Result<
        Signal<K>,
        Refused,
    >)
        ensures
            signal == addressed(id, input),
    {
        match input {
            Ok(input) => Ok(Signal { id, input }),
            Err(e) => Err(Refused::Invalid(e)),
        }
    }

    /// `signal` is what came of `packet`: the input that it is read as, for
    /// the state machine that the router finds.
    pub open spec fn resolved(self, packet: R::Inbound, signal: Result<Signal<K>, Refused>) -> bool where
        K: for <'a>TryFrom<&'a R::Inbound, Error = ConversionError>,
        K::Input: TryFrom<R::Inbound, Error = ConversionError>,
     {
        exists|kind: Result<K, ConversionError>, id: Result<Option<StateId<K>>, RexError>|
            {
                &&& #[trigger] call_ensures(K::try_from, (&packet,), kind)
                &&& #[trigger] self.router.found(packet, kind, id)
                &&& match id {
                    Err(e) => signal == Err::<Signal<K>, Refused>(Refused::RouteFailed(e)),
                    Ok(None) => signal == Err::<Signal<K>, Refused>(Refused::Unroutable),
                    Ok(Some(id)) => exists|input: Result<K::Input, ConversionError>|
                        {
                            &&& #[trigger] call_ensures(K::Input::try_from, (packet,), input)
                            &&& signal == addressed(id, input)
                        },
                }
            }
    }

    /// Finds the state machine for a packet and reads the packet as an input for it.
    pub fn resolve(&self, packet: R::Inbound) -> (signal: Result<Signal<K>, Refused>) where
        K: for <'a>TryFrom<&'a R::Inbound, Error = ConversionError>,
        K::Input: TryFrom<R::Inbound, Error = ConversionError>,

        ensures
            self.resolved(packet, signal),
    {
        match self.router.get_id(&packet) {
            Err(e) => Err(Refused::RouteFailed(e)),
            Ok(None) => Err(Refused::Unroutable),
            Ok(Some(id)) => Self::address(id, K::Input::try_from(packet)),
        }
    }

    /// Finds the state machine for a packet and queues the packet for it,
    /// behind all that wait. Returns the handle of a receiver that waits for it.
    pub fn receive<W>(&self, packet: R::Inbound, queue: &mut SignalQueue<K, W>) -> (woken: Result<
        Option<W>,
        Refused,
    >) where
        K: for <'a>TryFrom<&'a R::Inbound, Error = ConversionError>,
        K::Input: TryFrom<R::Inbound, Error = ConversionError>,

        requires
            old(queue).wf(),
        ensures
            final(queue).wf(),
            exists|signal: Result<Signal<K>, Refused>|
                {
                    &&& #[trigger] self.resolved(packet, signal)
                    &&& match signal {
                        Ok(signal) => {
                            &&& final(queue)@ == old(queue)@.pushed_back(signal)
                            &&& woken == Ok::<Option<W>, Refused>(old(queue)@.next_waiting())
                        },
                        Err(e) => final(queue)@ == old(queue)@ && woken == Err::<
                            Option<W>,
                            Refused,
                        >(e),
                    }
                },
    {
        match self.resolve(packet) {
            Ok(signal) => Ok(queue.push_back(signal)),
            Err(e) => Err(e),
        }
    }

    /// Reads a notification as a packet to the network.
    pub fn send<Out>(notification: Notification<K::Message>) -> (packet: Result<
        Out,
        ConversionError,
    >) where K::Message: TryInto<Out, Error = ConversionError>
        ensures
            call_ensures(K::Message::try_into, (notification.0,), packet),
    {
        notification.0.try_into()
    }
}

/// What a packet for `id` was read as, addressed to `id`.
pub open spec fn addressed<K: Rex>(id: StateId<K>, input: Result<K::Input, ConversionError>) -> Result<
    Signal<K>,
    Refused,
> {
    match input {
        Ok(input) => Ok(Signal { id, input }),
        Err(e) => Err(Refused::Invalid(e)),
    }
}

impl<K: Rex, R: StateRouter<K>> NotificationProcessor<K::Message> for IngressAdapter<K, R> {
    fn get_topics(&self) -> (topics: &[<K::Message as RexMessage>::Topic])
        ensures
            topics@ == seq![self.topic],
    {
        core::slice::from_ref(&self.topic)
    }
}

} // verus!
