//! Putting state machines and processors together.

use vstd::prelude::*;

use crate::ingress::{IngressAdapter, StateRouter};
use crate::kind::Rex;
use crate::manager::{StateMachine, StateMachineManager};
use crate::notification::{
    NotificationManager, NotificationProcessor, NotificationQueue, RexMessage,
};
use crate::signal::SignalQueue;
use crate::timeout::{TimeoutManager, DEFAULT_TICK_RATE};

verus! {

/// What a program is put together from.
pub trait Parts<K: Rex>: Sized {
    /// The state machines.
    type Machine: StateMachine<K>;

    /// The processors beside those of this library.
    type Processor: NotificationProcessor<K::Message>;

    /// The routers of packets from the network.
    type Router: StateRouter<K>;

    /// The handles by which receivers are woken.
    type Handle;

    /// Where packets to the network are sent.
    type Outbound: Clone + Send + Sync;

    /// Where packets from the network are handed in.
    type InboundTx: Clone + Send + Sync;

    /// Where packets from the network are taken out.
    type InboundRx: Send + Sync;
}

/// A processor of notifications.
pub enum Processor<K: Rex, B: Parts<K>> {
    Custom(B::Processor),
    Timeout(TimeoutManager<K>),
    Ingress(IngressAdapter<K, B::Router>, Connection<K, B>),
}

impl<K: Rex, B: Parts<K>> NotificationProcessor<K::Message> for Processor<K, B> {
    fn get_topics(&self) -> (topics: &[<K::Message as RexMessage>::Topic])
        ensures
            match self {
                Processor::Custom(processor) => call_ensures(
                    B::Processor::get_topics,
                    (processor,),
                    topics,
                ),
                Processor::Timeout(manager) => topics@ == seq![manager.topic],
                Processor::Ingress(adapter, _) => topics@ == seq![adapter.topic],
            },
    {
        match self {
            Processor::Custom(processor) => processor.get_topics(),
            Processor::Timeout(manager) => manager.get_topics(),
            Processor::Ingress(adapter, _) => adapter.get_topics(),
        }
    }
}

/// The ends of a network connection.
pub struct Connection<K: Rex, B: Parts<K>> {
    pub outbound_tx: B::Outbound,
    pub inbound_tx: B::InboundTx,
    pub inbound_rx: B::InboundRx,
}

/// Collects what a program is put together from.
pub struct RexBuilder<K: Rex, B: Parts<K>> {
    signal_queue: SignalQueue<K, B::Handle>,
    notification_queue: NotificationQueue<K::Message>,
    state_machines: Vec<B::Machine>,
    notification_processors: Vec<Processor<K, B>>,
    timeout_topic: Option<<K::Message as RexMessage>::Topic>,
    tick_rate: Option<u128>,
    outbound_tx: Option<B::Outbound>,
    ingress_channel: Option<(B::InboundTx, B::InboundRx)>,
}

/// What was asked of a builder.
pub struct Draft<K: Rex, B: Parts<K>> {
    pub signal_queue: SignalQueue<K, B::Handle>,
    pub notification_queue: NotificationQueue<K::Message>,
    pub state_machines: Seq<B::Machine>,
    pub notification_processors: Seq<Processor<K, B>>,
    pub timeout_topic: Option<<K::Message as RexMessage>::Topic>,
    pub tick_rate: Option<u128>,
    pub outbound_tx: Option<B::Outbound>,
    pub ingress_channel: Option<(B::InboundTx, B::InboundRx)>,
}

/// context used before calling build
///
/// The queues have one owner, the builder, and the context lends them for
/// as long as it is held: to fill a queue of a program that runs, go through
/// what [`RexBuilder::build`] returns.
pub struct BuilderContext<'a, K: Rex, W> {
    pub signal_queue: &'a SignalQueue<K, W>,
    pub notification_queue: &'a NotificationQueue<K::Message>,
}

/// What is ready to be run.
pub struct Built<K: Rex, B: Parts<K>> {
    pub manager: StateMachineManager<K, B::Handle>,
    pub state_machines: Vec<B::Machine>,
    pub notification_manager: Option<NotificationManager<K::Message>>,
    pub notification_processors: Vec<Processor<K, B>>,
}

impl<K: Rex, B: Parts<K>> Draft<K, B> {
    /// Nothing was asked for yet, and the queues are empty.
    pub open spec fn blank(self) -> bool {
        &&& self.signal_queue.wf()
        &&& self.signal_queue@ == crate::queue::Contents::<
            crate::signal::Signal<K>,
            B::Handle,
        >::empty()
        &&& self.notification_queue@.len() == 0
        &&& self.state_machines.len() == 0
        &&& self.notification_processors.len() == 0
        &&& self.timeout_topic is None
        &&& self.tick_rate is None
    }

    /// The queues of the program to be.
    pub open spec fn context(self) -> BuilderContext<'static, K, B::Handle> {
        BuilderContext {
            signal_queue: &self.signal_queue,
            notification_queue: &self.notification_queue,
        }
    }

    /// One more processor was asked for.
    pub open spec fn with_processor(self, processor: Processor<K, B>) -> Self {
        Draft {
            notification_processors: self.notification_processors.push(processor),
            ..self
        }
    }

    /// `processors` are those that were asked for, and behind them a
    /// [`TimeoutManager`] if one was asked for.
    pub open spec fn all_processors(self, processors: Seq<Processor<K, B>>) -> bool {
        let asked = self.notification_processors;
        match self.timeout_topic {
            Some(topic) => {
                &&& processors.len() == asked.len() + 1
                &&& processors.drop_last() == asked
                &&& processors.last() matches Processor::Timeout(manager)
                &&& manager.ledger.wf()
                &&& manager.ledger@ == Map::<
                    crate::state_id::StateId<K>,
                    crate::time::Moment,
                >::empty()
                &&& manager.topic == topic
                &&& manager.tick_rate == (match self.tick_rate {
                    Some(tick_rate) => tick_rate,
                    None => DEFAULT_TICK_RATE,
                })
            },
            None => processors == asked,
        }
    }
}

impl<K: Rex, B: Parts<K>> View for RexBuilder<K, B> {
    type V = Draft<K, B>;

    closed spec fn view(&self) -> Draft<K, B> {
        Draft {
            signal_queue: self.signal_queue,
            notification_queue: self.notification_queue,
            state_machines: self.state_machines@,
            notification_processors: self.notification_processors@,
            timeout_topic: self.timeout_topic,
            tick_rate: self.tick_rate,
            outbound_tx: self.outbound_tx,
            ingress_channel: self.ingress_channel,
        }
    }
}

impl<K: Rex, B: Parts<K>> RexBuilder<K, B> {
    #[must_use]
    pub fn new() -> (builder: Self)
        ensures
            builder@.blank(),
            builder@.outbound_tx is None,
            builder@.ingress_channel is None,
    {
        Self::default()
    }

    pub fn ctx(&self) -> (ctx: BuilderContext<'_, K, B::Handle>)
        ensures
            ctx == self@.context(),
    {
        BuilderContext {
            signal_queue: &self.signal_queue,
            notification_queue: &self.notification_queue,
        }
    }

    #[must_use]
    pub fn with_sm(self, state_machine: B::Machine) -> (builder: Self)
        ensures
            builder@ == (Draft {
                state_machines: self@.state_machines.push(state_machine),
                ..self@
            }),
    {
        let mut builder = self;
        builder.state_machines.push(state_machine);
        builder
    }

    #[must_use]
    pub fn with_np(self, processor: B::Processor) -> (builder: Self)
        ensures
            builder@ == self@.with_processor(Processor::Custom(processor)),
    {
        let mut builder = self;
        builder.push_np(processor);
        builder
    }

    pub fn push_np(&mut self, processor: B::Processor)
        ensures
            final(self)@ == old(self)@.with_processor(Processor::Custom(processor)),
    {
        self.notification_processors.push(Processor::Custom(processor));
    }

    #[must_use]
    pub fn with_ctx_np<F>(self, op: F) -> (builder: Self) where
        F: for <'a>FnOnce(BuilderContext<'a, K, B::Handle>) -> B::Processor,

        requires
            op.requires((self@.context(),)),
        ensures
            exists|processor: B::Processor|
                {
                    &&& #[trigger] op.ensures((self@.context(),), processor)
                    &&& builder@ == self@.with_processor(Processor::Custom(processor))
                },
    {
        let mut builder = self;
        builder.push_ctx_np(op);
        builder
    }

    pub fn push_ctx_np<F>(&mut self, op: F) where
        F: for <'a>FnOnce(BuilderContext<'a, K, B::Handle>) -> B::Processor,

        requires
            op.requires((old(self)@.context(),)),
        ensures
            exists|processor: B::Processor|
                {
                    &&& #[trigger] op.ensures((old(self)@.context(),), processor)
                    &&& final(self)@ == old(self)@.with_processor(Processor::Custom(processor))
                },
    {
        let processor = op(self.ctx());
        self.push_np(processor);
    }

    #[must_use]
    pub fn with_boxed_np(self, processor: Box<B::Processor>) -> (builder: Self)
        ensures
            builder@ == self@.with_processor(Processor::Custom(*processor)),
    {
        self.with_np(*processor)
    }

    #[must_use]
    pub fn with_timeout_manager(
        self,
        timeout_topic: <K::Message as RexMessage>::Topic,
    ) -> (builder: Self)
        ensures
            builder@ == (Draft { timeout_topic: Some(timeout_topic), ..self@ }),
    {
        RexBuilder { timeout_topic: Some(timeout_topic), ..self }
    }

    /// Has ledgers looked through every `tick_rate` nanoseconds.
    #[must_use]
    pub fn with_tick_rate(self, tick_rate: u128) -> (builder: Self)
        ensures
            builder@ == (Draft { tick_rate: Some(tick_rate), ..self@ }),
    {
        RexBuilder { tick_rate: Some(tick_rate), ..self }
    }

    fn build_timeout_manager(&mut self)
        ensures
            old(self)@.all_processors(final(self)@.notification_processors),
            final(self)@ == (Draft {
                notification_processors: final(self)@.notification_processors,
                ..old(self)@
            }),
    {
        if let Some(topic) = self.timeout_topic {
            let tick_rate: u128 = match self.tick_rate {
                Some(tick_rate) => tick_rate,
                None => DEFAULT_TICK_RATE,
            };
            let timeout_manager = TimeoutManager::new(tick_rate, topic);
            self.notification_processors.push(Processor::Timeout(timeout_manager));
            assert(self.notification_processors@.drop_last() =~= old(
                self,
            ).notification_processors@);
        }
    }

    pub fn build(self) -> (built: Built<K, B>)
        requires
            self@.signal_queue.wf(),
        ensures
            self@.all_processors(built.notification_processors@),
            built.notification_manager is Some <==> built.notification_processors@.len() > 0,
            built.notification_manager matches Some(manager) ==> {
                &&& manager.wf()
                &&& exists|lists: Seq<Seq<<K::Message as RexMessage>::Topic>>| #[trigger]
                    crate::notification::listed::<K::Message, Processor<K, B>>(
                        built.notification_processors@,
                        lists,
                    ) && manager.routes(lists)
            },
            built.state_machines@ == self@.state_machines,
            built.manager.ctx().wf(),
            built.manager.ctx().clock.started(),
            built.manager.ctx().signal_queue == self@.signal_queue,
            built.manager.ctx().notification_queue == self@.notification_queue,
            built.manager.ctx().state_store@ == crate::storage::Stored::<
                crate::state_id::StateId<K>,
                K::State,
            >::empty(),
            forall|kind: K| #[trigger]
                built.manager.machine(kind) == crate::manager::machine_for(
                    crate::manager::kinds_of::<K, B::Machine>(self@.state_machines),
                    kind,
                ),
    {
        let mut builder = self;
        builder.build_timeout_manager();
        let notification_manager = if !builder.notification_processors.is_empty() {
            Some(NotificationManager::new(builder.notification_processors.as_slice()))
        } else {
            None
        };
        let manager = StateMachineManager::new(
            builder.state_machines.as_slice(),
            builder.signal_queue,
            builder.notification_queue,
        );
        Built {
            manager,
            state_machines: builder.state_machines,
            notification_manager,
            notification_processors: builder.notification_processors,
        }
    }

    /// Returns a builder that is connected to a network, and the end of the
    /// connection where packets are handed in.
    #[must_use]
    pub fn new_connected(
        outbound_tx: B::Outbound,
        ingress_channel: (B::InboundTx, B::InboundRx),
    ) -> (connected: (B::InboundTx, Self))
        ensures
            cloned(ingress_channel.0, connected.0),
            connected.1@.blank(),
            connected.1@.outbound_tx == Some(outbound_tx),
            connected.1@.ingress_channel == Some(ingress_channel),
    {
        let inbound_tx = ingress_channel.0.clone();
        let builder = RexBuilder {
            outbound_tx: Some(outbound_tx),
            ingress_channel: Some(ingress_channel),
            ..Self::default()
        };
        (inbound_tx, builder)
    }

    /// Returns whether packets can still be handed in and sent: the
    /// connection is there, and no adapter took it.
    #[must_use]
    pub fn is_connected(&self) -> (connected: bool)
        ensures
            connected == (self@.ingress_channel is Some && self@.outbound_tx is Some),
    {
        self.ingress_channel.is_some() && self.outbound_tx.is_some()
    }

    #[must_use]
    pub fn ingress_tx(&self) -> (tx: B::InboundTx)
        requires
            self@.ingress_channel is Some,
        ensures
            cloned(self@.ingress_channel.unwrap().0, tx),
    {
        self.ingress_channel.as_ref().unwrap().0.clone()
    }

    #[must_use]
    pub fn with_ingress_adapter(
        self,
        state_routers: Vec<B::Router>,
        ingress_topic: <K::Message as RexMessage>::Topic,
    ) -> (builder: Self)
        requires
            state_routers@.len() > 0,
            crate::ingress::distinct_kinds::<K, B::Router>(state_routers@),
            self@.ingress_channel is Some,
            self@.outbound_tx is Some,
        ensures
            builder@ == (Draft { ingress_channel: None, ..self@ }).with_processor(
                builder@.notification_processors.last(),
            ),
            builder@.notification_processors.last() matches Processor::Ingress(adapter, connection)
                && {
                &&& adapter.router.routes(state_routers@)
                &&& adapter.topic == ingress_topic
                &&& cloned(self@.outbound_tx.unwrap(), connection.outbound_tx)
                &&& connection.inbound_tx == self@.ingress_channel.unwrap().0
                &&& connection.inbound_rx == self@.ingress_channel.unwrap().1
            },
    {
        let mut builder = self;
        let (inbound_tx, inbound_rx) = builder.ingress_channel.take().unwrap();
        let outbound_tx = builder.outbound_tx.clone().unwrap();
        let adapter = IngressAdapter::new(state_routers, ingress_topic);
        builder.notification_processors.push(
            Processor::Ingress(adapter, Connection { outbound_tx, inbound_tx, inbound_rx }),
        );
        builder
    }
}

impl<K: Rex, B: Parts<K>> Default for RexBuilder<K, B> {
    fn default() -> (builder: Self)
        ensures
            builder@.blank(),
            builder@.outbound_tx is None,
            builder@.ingress_channel is None,
    {
        Self {
            notification_queue: Vec::new(),
            signal_queue: SignalQueue::default(),
            state_machines: Vec::new(),
            notification_processors: Vec::new(),
            timeout_topic: None,
            tick_rate: None,
            outbound_tx: None,
            ingress_channel: None,
        }
    }
}

} // verus!
