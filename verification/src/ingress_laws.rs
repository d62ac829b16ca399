//! Where packets from the network come to.

use vstd::prelude::*;

use crate::error::{ConversionError, RexError};
use crate::ingress::{IngressAdapter, PacketRouter, Refused, StateRouter};
use crate::kind::{HashKind, Rex};
use crate::notification::{Notification, NotificationProcessor, RexMessage};
use crate::signal::{Signal, SignalQueue};
use crate::state_id::StateId;

verus! {

/// What a packet was read as is addressed to the very id that it is for, and
/// carries the very input. What is no input is refused.
pub proof fn addressed_signals_keep_id_and_input<K: Rex, R: StateRouter<K>>(
    id: StateId<K>,
    input: Result<K::Input, ConversionError>,
    signal: Result<Signal<K>, Refused>,
)
    requires
        call_ensures(IngressAdapter::<K, R>::address, (id, input), signal),
    ensures
        match signal {
            Ok(s) => s.id.kind == id.kind && s.id.uuid == id.uuid && input == Ok::<
                K::Input,
                ConversionError,
            >(s.input),
            Err(Refused::Invalid(e)) => input == Err::<K::Input, ConversionError>(e),
            Err(_) => false,
        },
{
}

/// No two routers have the same kind, or a kind is told that two have.
pub proof fn repeated_kinds_are_told<K: HashKind, R: StateRouter<K>>(
    routers: &[R],
    repeated: Option<K>,
)
    requires
        call_ensures(PacketRouter::<K, R>::repeated_kind, (routers,), repeated),
    ensures
        match repeated {
            None => forall|i: int, j: int|
                0 <= i < routers@.len() && 0 <= j < routers@.len() && i != j ==> (
                #[trigger] routers@[i]).kind() != (#[trigger] routers@[j]).kind(),
            Some(kind) => exists|i: int, j: int|
                0 <= i < routers@.len() && 0 <= j < routers@.len() && i != j && (
                #[trigger] routers@[i]).kind() == kind && (#[trigger] routers@[j]).kind() == kind,
        },
{
    if repeated is None {
        assert forall|i: int, j: int|
            0 <= i < routers@.len() && 0 <= j < routers@.len() && i != j implies (
        #[trigger] routers@[i]).kind() != (#[trigger] routers@[j]).kind() by {
            if i < j {
                assert(routers@[i].kind() != routers@[j].kind());
            } else {
                assert(routers@[j].kind() != routers@[i].kind());
            }
        }
    }
}

/// The id that is found for a packet of a kind is the one that the router of
/// that kind returned for the packet. Where no router has the kind there is
/// none, and a packet without a kind is an error.
pub proof fn ids_come_from_the_router_of_the_kind<K: HashKind, R: StateRouter<K>>(
    routers: Vec<R>,
    router: PacketRouter<K, R>,
    packet: &R::Inbound,
    kind: Result<K, ConversionError>,
    id: Result<Option<StateId<K>>, RexError>,
)
    requires
        forall|i: int, j: int|
            0 <= i < j < routers@.len() ==> (#[trigger] routers@[i]).kind() != (
            #[trigger] routers@[j]).kind(),
        call_ensures(PacketRouter::<K, R>::new, (routers,), router),
        call_ensures(PacketRouter::<K, R>::find, (&router, packet, kind), id),
    ensures
        routed(routers@, *packet, kind, id),
{
    lemma_routed(routers@, router, *packet, kind, id);
}

/// `id` is what the router of the kind `kind` returned for `packet`, if one of
/// `routers` has that kind.
pub open spec fn routed<K: HashKind, R: StateRouter<K>>(
    routers: Seq<R>,
    packet: R::Inbound,
    kind: Result<K, ConversionError>,
    id: Result<Option<StateId<K>>, RexError>,
) -> bool {
    match kind {
        Err(_) => id is Err,
        Ok(kind) => {
            &&& forall|i: int|
                0 <= i < routers.len() && (#[trigger] routers[i]).kind() == kind ==> call_ensures(
                    R::get_id,
                    (&routers[i], &packet),
                    id,
                )
            &&& (forall|i: int| 0 <= i < routers.len() ==> (#[trigger] routers[i]).kind() != kind)
                ==> id == Ok::<Option<StateId<K>>, RexError>(None)
        },
    }
}

proof fn lemma_routed<K: HashKind, R: StateRouter<K>>(
    routers: Seq<R>,
    router: PacketRouter<K, R>,
    packet: R::Inbound,
    kind: Result<K, ConversionError>,
    id: Result<Option<StateId<K>>, RexError>,
)
    requires
        router.routes(routers),
        router.found(packet, kind, id),
    ensures
        routed(routers, packet, kind, id),
{
    if let Ok(kind) = kind {
        assert forall|i: int| 0 <= i < routers.len() && (#[trigger] routers[i]).kind()
            == kind implies call_ensures(R::get_id, (&routers[i], &packet), id) by {
            assert(router.router(routers[i].kind()) == Some(routers[i]));
        }
        if forall|i: int| 0 <= i < routers.len() ==> (#[trigger] routers[i]).kind() != kind {
            assert(router.router(kind) is None);
        }
    }
}

/// The same of a packet whose kind is read first.
pub proof fn ids_come_from_the_router_of_the_packet<K: HashKind, R: StateRouter<K>>(
    routers: Vec<R>,
    router: PacketRouter<K, R>,
    packet: &R::Inbound,
    id: Result<Option<StateId<K>>, RexError>,
) where K: for <'a>TryFrom<&'a R::Inbound, Error = ConversionError>
    requires
        forall|i: int, j: int|
            0 <= i < j < routers@.len() ==> (#[trigger] routers@[i]).kind() != (
            #[trigger] routers@[j]).kind(),
        call_ensures(PacketRouter::<K, R>::new, (routers,), router),
        call_ensures(PacketRouter::<K, R>::get_id, (&router, packet), id),
    ensures
        exists|kind: Result<K, ConversionError>| #[trigger]
            call_ensures(K::try_from, (packet,), kind) && routed(routers@, *packet, kind, id),
{
    let kind = choose|kind: Result<K, ConversionError>|
        {
            &&& #[trigger] call_ensures(K::try_from, (packet,), kind)
            &&& router.found(*packet, kind, id)
        };
    lemma_routed(routers@, router, *packet, kind, id);
}

/// A packet that comes to a signal comes to the very id that the router of its
/// kind returned for it, with the very input that it was read as. It is refused
/// only if no id was found for it, the search failed, or it is no input.
pub proof fn packets_come_to_the_id_that_was_found<K: Rex, R: StateRouter<K>>(
    routers: Vec<R>,
    topic: <K::Message as RexMessage>::Topic,
    adapter: IngressAdapter<K, R>,
    packet: R::Inbound,
    signal: Result<Signal<K>, Refused>,
) where
    K: for <'a>TryFrom<&'a R::Inbound, Error = ConversionError>,
    K::Input: TryFrom<R::Inbound, Error = ConversionError>,

    requires
        forall|i: int, j: int|
            0 <= i < j < routers@.len() ==> (#[trigger] routers@[i]).kind() != (
            #[trigger] routers@[j]).kind(),
        call_ensures(IngressAdapter::<K, R>::new, (routers, topic), adapter),
        call_ensures(IngressAdapter::<K, R>::resolve, (&adapter, packet), signal),
    ensures
        adapter.topic == topic,
        came_to(routers@, packet, signal),
{
    lemma_came_to(routers@, adapter, packet, signal);
}

/// `signal` is for the id that the router of the kind of `packet` returned, and
/// carries the input that `packet` was read as. Else it tells why there is none.
pub open spec fn came_to<K: Rex, R: StateRouter<K>>(
    routers: Seq<R>,
    packet: R::Inbound,
    signal: Result<Signal<K>, Refused>,
) -> bool where
    K: for <'a>TryFrom<&'a R::Inbound, Error = ConversionError>,
    K::Input: TryFrom<R::Inbound, Error = ConversionError>,
 {
    exists|kind: Result<K, ConversionError>, id: Result<Option<StateId<K>>, RexError>|
        {
            &&& #[trigger] call_ensures(K::try_from, (&packet,), kind)
            &&& #[trigger] routed(routers, packet, kind, id)
            &&& match signal {
                Ok(s) => {
                    &&& id == Ok::<Option<StateId<K>>, RexError>(Some(s.id))
                    &&& call_ensures(
                        K::Input::try_from,
                        (packet,),
                        Ok::<K::Input, ConversionError>(s.input),
                    )
                },
                Err(Refused::Unroutable) => id == Ok::<Option<StateId<K>>, RexError>(None),
                Err(Refused::RouteFailed(e)) => id == Err::<Option<StateId<K>>, RexError>(e),
                Err(Refused::Invalid(e)) => {
                    &&& id matches Ok(Some(_))
                    &&& call_ensures(
                        K::Input::try_from,
                        (packet,),
                        Err::<K::Input, ConversionError>(e),
                    )
                },
            }
        }
}

proof fn lemma_came_to<K: Rex, R: StateRouter<K>>(
    routers: Seq<R>,
    adapter: IngressAdapter<K, R>,
    packet: R::Inbound,
    signal: Result<Signal<K>, Refused>,
) where
    K: for <'a>TryFrom<&'a R::Inbound, Error = ConversionError>,
    K::Input: TryFrom<R::Inbound, Error = ConversionError>,

    requires
        adapter.router.routes(routers),
        adapter.resolved(packet, signal),
    ensures
        came_to(routers, packet, signal),
{
    let (kind, id) = choose|
        kind: Result<K, ConversionError>,
        id: Result<Option<StateId<K>>, RexError>,
    |
        {
            &&& #[trigger] call_ensures(K::try_from, (&packet,), kind)
            &&& #[trigger] adapter.router.found(packet, kind, id)
            &&& match id {
                Err(e) => signal == Err::<Signal<K>, Refused>(Refused::RouteFailed(e)),
                Ok(None) => signal == Err::<Signal<K>, Refused>(Refused::Unroutable),
                Ok(Some(id)) => exists|input: Result<K::Input, ConversionError>|
                    {
                        &&& #[trigger] call_ensures(K::Input::try_from, (packet,), input)
                        &&& signal == crate::ingress::addressed(id, input)
                    },
            }
        };
    lemma_routed(routers, adapter.router, packet, kind, id);
    if let Ok(Some(found)) = id {
        let input = choose|input: Result<K::Input, ConversionError>|
            {
                &&& #[trigger] call_ensures(K::Input::try_from, (packet,), input)
                &&& signal == crate::ingress::addressed(found, input)
            };
        assert(call_ensures(K::Input::try_from, (packet,), input));
    }
    assert(routed(routers, packet, kind, id));
}

/// A packet that is taken in is queued behind all that wait, for the very id
/// that the router of its kind returned for it, with the very input that it was
/// read as. One that is refused is not queued.
pub proof fn received_packets_are_queued_for_the_id<K: Rex, R: StateRouter<K>, W>(
    routers: Vec<R>,
    topic: <K::Message as RexMessage>::Topic,
    adapter: IngressAdapter<K, R>,
    packet: R::Inbound,
    queue: &mut SignalQueue<K, W>,
    woken: Result<Option<W>, Refused>,
) where
    K: for <'a>TryFrom<&'a R::Inbound, Error = ConversionError>,
    K::Input: TryFrom<R::Inbound, Error = ConversionError>,

    requires
        forall|i: int, j: int|
            0 <= i < j < routers@.len() ==> (#[trigger] routers@[i]).kind() != (
            #[trigger] routers@[j]).kind(),
        old(queue).wf(),
        call_ensures(IngressAdapter::<K, R>::new, (routers, topic), adapter),
        call_ensures(IngressAdapter::<K, R>::receive::<W>, (&adapter, packet, queue), woken),
    ensures
        final(queue)@.front == old(queue)@.front,
        match woken {
            Ok(handle) => {
                &&& exists|signal: Signal<K>|
                    came_to(routers@, packet, Ok::<Signal<K>, Refused>(signal)) && final(queue)@.back
                        == #[trigger] old(queue)@.back.push(signal)
                &&& handle == (if old(queue)@.waiting.len() > 0 {
                    Some(old(queue)@.waiting[0])
                } else {
                    None
                })
            },
            Err(e) => {
                &&& came_to(routers@, packet, Err::<Signal<K>, Refused>(e))
                &&& final(queue)@.back == old(queue)@.back
                &&& final(queue)@.waiting == old(queue)@.waiting
            },
        },
{
    let signal = choose|signal: Result<Signal<K>, Refused>|
        {
            &&& #[trigger] adapter.resolved(packet, signal)
            &&& match signal {
                Ok(signal) => {
                    &&& final(queue)@ == old(queue)@.pushed_back(signal)
                    &&& woken == Ok::<Option<W>, Refused>(old(queue)@.next_waiting())
                },
                Err(e) => final(queue)@ == old(queue)@ && woken == Err::<Option<W>, Refused>(e),
            }
        };
    lemma_came_to(routers@, adapter, packet, signal);
    if let Ok(signal) = signal {
        assert(final(queue)@.back == old(queue)@.back.push(signal));
    }
}

/// What is sent for a notification is what its message is read as, and the
/// adapter listens to its one topic.
pub proof fn sent_packets_are_the_messages<K: Rex, R: StateRouter<K>, Out>(
    notification: Notification<K::Message>,
    packet: Result<Out, ConversionError>,
    adapter: &IngressAdapter<K, R>,
    topics: &[<K::Message as RexMessage>::Topic],
) where K::Message: TryInto<Out, Error = ConversionError>
    requires
        call_ensures(IngressAdapter::<K, R>::send::<Out>, (notification,), packet),
        call_ensures(
            <IngressAdapter<K, R> as NotificationProcessor<K::Message>>::get_topics,
            (adapter,),
            topics,
        ),
    ensures
        call_ensures(K::Message::try_into, (notification.0,), packet),
        topics@.len() == 1 && topics@[0] == adapter.topic,
{
}

} // verus!
