//! What a program is built of.

use vstd::prelude::*;

use crate::builder::{BuilderContext, Built, Parts, Processor, RexBuilder};
use crate::ingress::StateRouter;
use crate::kind::Rex;
use crate::manager::StateMachine;
use crate::notification::{NotificationProcessor, RexMessage};
use crate::timeout::DEFAULT_TICK_RATE;

verus! {

/// A new builder holds nothing, and neither queue has anything in it.
pub proof fn new_builders_are_blank<K: Rex, B: Parts<K>>(builder: RexBuilder<K, B>)
    requires
        call_ensures(RexBuilder::<K, B>::new, (), builder),
    ensures
        builder@.state_machines.len() == 0,
        builder@.notification_processors.len() == 0,
        builder@.notification_queue@.len() == 0,
        builder@.signal_queue@.front.len() == 0 && builder@.signal_queue@.back.len() == 0,
        builder@.signal_queue@.waiting.len() == 0,
        builder@.timeout_topic is None && builder@.tick_rate is None,
        builder@.outbound_tx is None && builder@.ingress_channel is None,
{
}

/// A state machine is added behind the others, and nothing else changes.
pub proof fn machines_are_added_in_order<K: Rex, B: Parts<K>>(
    builder: RexBuilder<K, B>,
    machine: B::Machine,
    after: RexBuilder<K, B>,
)
    requires
        call_ensures(RexBuilder::<K, B>::with_sm, (builder, machine), after),
    ensures
        after@.state_machines == builder@.state_machines.push(machine),
        after@.notification_processors == builder@.notification_processors,
        after@.signal_queue == builder@.signal_queue,
        after@.notification_queue == builder@.notification_queue,
        after@.timeout_topic == builder@.timeout_topic,
        after@.tick_rate == builder@.tick_rate,
        after@.outbound_tx == builder@.outbound_tx,
        after@.ingress_channel == builder@.ingress_channel,
{
}

/// A processor is added behind the others, by value, boxed or in place, and
/// nothing else changes.
pub proof fn processors_are_added_in_order<K: Rex, B: Parts<K>>(
    builder: RexBuilder<K, B>,
    processor: B::Processor,
    boxed: Box<B::Processor>,
    place: &mut RexBuilder<K, B>,
    after: RexBuilder<K, B>,
)
    requires
        *boxed == processor,
        ({
            ||| call_ensures(RexBuilder::<K, B>::with_np, (builder, processor), after)
            ||| call_ensures(RexBuilder::<K, B>::with_boxed_np, (builder, boxed), after)
            ||| *old(place) == builder && *final(place) == after && call_ensures(
                RexBuilder::<K, B>::push_np,
                (place, processor),
                (),
            )
        }),
    ensures
        after@.notification_processors == builder@.notification_processors.push(
            Processor::Custom(processor),
        ),
        after@.state_machines == builder@.state_machines,
        after@.signal_queue == builder@.signal_queue,
        after@.notification_queue == builder@.notification_queue,
        after@.timeout_topic == builder@.timeout_topic,
        after@.tick_rate == builder@.tick_rate,
        after@.outbound_tx == builder@.outbound_tx,
        after@.ingress_channel == builder@.ingress_channel,
{
}

/// A processor that is made from the context is one that the closure returned
/// for the queues of the builder. It is added behind the others, and nothing
/// else changes.
pub proof fn processors_are_made_from_the_queues<K: Rex, B: Parts<K>, F>(
    builder: RexBuilder<K, B>,
    op: F,
    place: &mut RexBuilder<K, B>,
    after: RexBuilder<K, B>,
) where F: for <'a>FnOnce(BuilderContext<'a, K, B::Handle>) -> B::Processor
    requires
        ({
            ||| call_ensures(RexBuilder::<K, B>::with_ctx_np::<F>, (builder, op), after)
            ||| *old(place) == builder && *final(place) == after && call_ensures(
                RexBuilder::<K, B>::push_ctx_np::<F>,
                (place, op),
                (),
            )
        }),
    ensures
        exists|processor: B::Processor|
            {
                &&& #[trigger] op.ensures(
                    (BuilderContext {
                        signal_queue: &builder@.signal_queue,
                        notification_queue: &builder@.notification_queue,
                    },),
                    processor,
                )
                &&& after@.notification_processors == builder@.notification_processors.push(
                    Processor::Custom(processor),
                )
            },
        after@.state_machines == builder@.state_machines,
        after@.signal_queue == builder@.signal_queue,
        after@.notification_queue == builder@.notification_queue,
        after@.timeout_topic == builder@.timeout_topic,
        after@.tick_rate == builder@.tick_rate,
        after@.outbound_tx == builder@.outbound_tx,
        after@.ingress_channel == builder@.ingress_channel,
{
}

/// The topic for timeouts and the tick rate are the ones that were asked for
/// last, and nothing else changes with either.
pub proof fn timeouts_are_as_asked_for<K: Rex, B: Parts<K>>(
    builder: RexBuilder<K, B>,
    topic: <K::Message as RexMessage>::Topic,
    tick_rate: u128,
    listening: RexBuilder<K, B>,
    ticking: RexBuilder<K, B>,
)
    requires
        call_ensures(RexBuilder::<K, B>::with_timeout_manager, (builder, topic), listening),
        call_ensures(RexBuilder::<K, B>::with_tick_rate, (builder, tick_rate), ticking),
    ensures
        listening@.timeout_topic == Some(topic),
        ticking@.tick_rate == Some(tick_rate),
        listening@.tick_rate == builder@.tick_rate,
        ticking@.timeout_topic == builder@.timeout_topic,
        listening@.state_machines == builder@.state_machines,
        ticking@.state_machines == builder@.state_machines,
        listening@.notification_processors == builder@.notification_processors,
        ticking@.notification_processors == builder@.notification_processors,
        listening@.signal_queue == builder@.signal_queue,
        ticking@.signal_queue == builder@.signal_queue,
        listening@.notification_queue == builder@.notification_queue,
        ticking@.notification_queue == builder@.notification_queue,
        listening@.outbound_tx == builder@.outbound_tx,
        ticking@.outbound_tx == builder@.outbound_tx,
        listening@.ingress_channel == builder@.ingress_channel,
        ticking@.ingress_channel == builder@.ingress_channel,
{
}

/// A connected builder has the ends of its connection, hands out a clone of the
/// one where packets are handed in, and is blank otherwise.
pub proof fn connected_builders_have_their_ends<K: Rex, B: Parts<K>>(
    outbound_tx: B::Outbound,
    channel: (B::InboundTx, B::InboundRx),
    connected: (B::InboundTx, RexBuilder<K, B>),
    is_connected: bool,
    tx: B::InboundTx,
)
    requires
        call_ensures(RexBuilder::<K, B>::new_connected, (outbound_tx, channel), connected),
        call_ensures(RexBuilder::<K, B>::is_connected, (&connected.1,), is_connected),
        call_ensures(RexBuilder::<K, B>::ingress_tx, (&connected.1,), tx),
    ensures
        is_connected,
        cloned(channel.0, connected.0),
        cloned(channel.0, tx),
        connected.1@.outbound_tx == Some(outbound_tx),
        connected.1@.ingress_channel == Some(channel),
        connected.1@.state_machines.len() == 0,
        connected.1@.notification_processors.len() == 0,
        connected.1@.notification_queue@.len() == 0,
        connected.1@.signal_queue@.front.len() == 0 && connected.1@.signal_queue@.back.len() == 0,
        connected.1@.timeout_topic is None && connected.1@.tick_rate is None,
{
}

/// A builder is connected exactly while both ends of a connection are there.
pub proof fn connections_have_two_ends<K: Rex, B: Parts<K>>(
    builder: &RexBuilder<K, B>,
    connected: bool,
    ctx: BuilderContext<'static, K, B::Handle>,
    lent: &'static RexBuilder<K, B>,
)
    requires
        call_ensures(RexBuilder::<K, B>::is_connected, (builder,), connected),
        call_ensures(RexBuilder::<K, B>::ctx, (lent,), ctx),
    ensures
        connected <==> builder@.ingress_channel is Some && builder@.outbound_tx is Some,
        *ctx.signal_queue == lent@.signal_queue,
        *ctx.notification_queue == lent@.notification_queue,
{
}

/// An adapter is added behind the other processors. It takes the end of the
/// connection where packets come in, has a clone of the other end, listens to
/// the topic that was asked for, and knows each of the routers by its kind.
/// Nothing else changes.
pub proof fn adapters_take_the_connection<K: Rex, B: Parts<K>>(
    builder: RexBuilder<K, B>,
    routers: Vec<B::Router>,
    topic: <K::Message as RexMessage>::Topic,
    after: RexBuilder<K, B>,
)
    requires
        builder@.ingress_channel is Some,
        builder@.outbound_tx is Some,
        call_ensures(
            RexBuilder::<K, B>::with_ingress_adapter,
            (builder, routers, topic),
            after,
        ),
    ensures
        after@.ingress_channel is None,
        after@.outbound_tx == builder@.outbound_tx,
        after@.notification_processors.len() == builder@.notification_processors.len() + 1,
        forall|i: int|
            0 <= i < builder@.notification_processors.len()
                ==> #[trigger] after@.notification_processors[i]
                == builder@.notification_processors[i],
        after@.notification_processors.last() matches Processor::Ingress(adapter, connection) && {
            &&& adapter.topic == topic
            &&& forall|i: int|
                0 <= i < routers@.len() ==> adapter.router.router((#[trigger] routers@[i]).kind())
                    == Some(routers@[i])
            &&& forall|kind: K| #[trigger]
                adapter.router.router(kind) is Some ==> exists|i: int|
                    0 <= i < routers@.len() && (#[trigger] routers@[i]).kind() == kind
            &&& cloned(builder@.outbound_tx.unwrap(), connection.outbound_tx)
            &&& connection.inbound_tx == builder@.ingress_channel.unwrap().0
            &&& connection.inbound_rx == builder@.ingress_channel.unwrap().1
        },
        after@.state_machines == builder@.state_machines,
        after@.signal_queue == builder@.signal_queue,
        after@.notification_queue == builder@.notification_queue,
        after@.timeout_topic == builder@.timeout_topic,
        after@.tick_rate == builder@.tick_rate,
{
}

/// What is built has the state machines and the queues of the builder, with
/// each machine known by its kind. It has the processors that were asked for, in
/// order, and exactly if timeouts were asked for one more behind them: a manager
/// of timeouts for that topic, with no timeouts yet, at the tick rate that was
/// asked for or else the default one. There is a manager of notifications
/// exactly if there is a processor.
pub proof fn programs_are_built_as_asked_for<K: Rex, B: Parts<K>>(
    builder: RexBuilder<K, B>,
    built: Built<K, B>,
    kind: K,
)
    requires
        builder@.signal_queue.wf(),
        builder@.state_machines.len() <= usize::MAX,
        call_ensures(RexBuilder::<K, B>::build, (builder,), built),
    ensures
        built.state_machines@ == builder@.state_machines,
        built.manager.ctx().signal_queue == builder@.signal_queue,
        built.manager.ctx().notification_queue == builder@.notification_queue,
        built.manager.ctx().state_store@.entries.dom().is_empty(),
        match built.manager.machine(kind) {
            Some(place) => {
                &&& place < built.state_machines@.len()
                &&& built.state_machines@[place as int].kind() == kind
                &&& forall|later: int|
                    place < later < built.state_machines@.len() ==> (
                    #[trigger] built.state_machines@[later]).kind() != kind
            },
            None => forall|i: int|
                0 <= i < built.state_machines@.len() ==> (
                #[trigger] built.state_machines@[i]).kind() != kind,
        },
        forall|i: int|
            0 <= i < builder@.notification_processors.len()
                ==> #[trigger] built.notification_processors@[i]
                == builder@.notification_processors[i],
        match builder@.timeout_topic {
            None => built.notification_processors@.len() == builder@.notification_processors.len(),
            Some(topic) => {
                &&& built.notification_processors@.len() == builder@.notification_processors.len()
                    + 1
                &&& built.notification_processors@.last() matches Processor::Timeout(manager) && {
                    &&& manager.topic == topic
                    &&& manager.ledger@.dom().is_empty()
                    &&& builder@.tick_rate matches Some(rate) ==> manager.tick_rate == rate
                    &&& builder@.tick_rate is None ==> manager.tick_rate == DEFAULT_TICK_RATE
                }
            },
        },
        built.notification_manager is Some <==> built.notification_processors@.len() > 0,
        built.notification_manager matches Some(manager) ==> exists|
            lists: Seq<Seq<<K::Message as RexMessage>::Topic>>,
        |
            {
                &&& #[trigger] crate::notification_laws::returned::<K::Message, Processor<K, B>>(
                    built.notification_processors@,
                    lists,
                )
                &&& forall|topic: <K::Message as RexMessage>::Topic, i: usize|
                    (#[trigger] manager.subscribers(topic).to_multiset().count(i)) == (if i
                        < lists.len() {
                        lists[i as int].to_multiset().count(topic)
                    } else {
                        0
                    })
            },
{
    let machines = builder@.state_machines;
    let kinds = crate::manager::kinds_of::<K, B::Machine>(machines);
    crate::manager_laws::last_machine_of_kind(kinds, kind);
    assert forall|i: int| 0 <= i < machines.len() implies (#[trigger] machines[i]).kind()
        == kinds[i] by {
    }
    if built.manager.machine(kind) is None {
        assert forall|i: int| 0 <= i < machines.len() implies (#[trigger] machines[i]).kind()
            != kind by {
            assert(kinds.contains(kinds[i]));
        }
    }
    let processors = built.notification_processors@;
    let asked = builder@.notification_processors;
    if builder@.timeout_topic is Some {
        assert forall|i: int| 0 <= i < asked.len() implies #[trigger] processors[i] == asked[i] by {
            assert(processors.drop_last()[i] == processors[i]);
        }
    }
    if let Some(manager) = built.notification_manager {
        let lists = choose|lists: Seq<Seq<<K::Message as RexMessage>::Topic>>| #[trigger]
            crate::notification::listed::<K::Message, Processor<K, B>>(processors, lists)
                && manager.routes(lists);
        assert forall|i: int| 0 <= i < lists.len() implies crate::notification_laws::returned_by::<
            K::Message,
            Processor<K, B>,
        >(processors[i], #[trigger] lists[i]) by {
            assert(crate::notification::returned_topics::<K::Message, Processor<K, B>>(
                processors[i],
                lists[i],
            ));
        }
        assert(crate::notification_laws::returned::<K::Message, Processor<K, B>>(
            processors,
            lists,
        ));
        assert(built.notification_processors.len() == processors.len());
        assert forall|topic: <K::Message as RexMessage>::Topic, i: usize|
            (#[trigger] manager.subscribers(topic).to_multiset().count(i)) == (if i < lists.len() {
                lists[i as int].to_multiset().count(topic)
            } else {
                0
            }) by {
            assert(manager.subscribers(topic) == crate::notification::subscribed(lists, topic));
            crate::notification_laws::subscriptions_are_counted(lists, topic, i);
        }
    }
}

/// A default builder is a new one.
pub proof fn default_builders_are_blank<K: Rex, B: Parts<K>>(builder: RexBuilder<K, B>)
    requires
        call_ensures(<RexBuilder<K, B> as Default>::default, (), builder),
    ensures
        builder@.state_machines.len() == 0,
        builder@.notification_processors.len() == 0,
        builder@.notification_queue@.len() == 0,
        builder@.signal_queue@.front.len() == 0 && builder@.signal_queue@.back.len() == 0,
        builder@.signal_queue@.waiting.len() == 0,
        builder@.timeout_topic is None && builder@.tick_rate is None,
        builder@.outbound_tx is None && builder@.ingress_channel is None,
{
}

/// A processor listens to the topics that it returns, a manager of timeouts and
/// an adapter to their one topic.
pub proof fn processors_listen_to_their_topics<K: Rex, B: Parts<K>>(
    processor: &Processor<K, B>,
    topics: &[<K::Message as RexMessage>::Topic],
)
    requires
        call_ensures(
            <Processor<K, B> as NotificationProcessor<K::Message>>::get_topics,
            (processor,),
            topics,
        ),
    ensures
        match *processor {
            Processor::Custom(custom) => call_ensures(
                B::Processor::get_topics,
                (&custom,),
                topics,
            ),
            Processor::Timeout(manager) => topics@.len() == 1 && topics@[0] == manager.topic,
            Processor::Ingress(adapter, _) => topics@.len() == 1 && topics@[0] == adapter.topic,
        },
{
}

} // verus!
