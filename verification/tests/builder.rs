use rex::builder::{Parts, Processor, RexBuilder};
use rex::ingress::{Refused, StateRouter};
use rex::manager::Step;
use rex::time::Moment;
use rex::timeout::{TimeoutInput, DEFAULT_TICK_RATE};
use rex::{
    Coded, ConversionError, GetTopic, Kind, Notification, NotificationProcessor, Rex, RexError,
    RexMessage, Signal, State, StateId, StateMachine,
};

#[derive(Debug, Clone, Copy, Eq, PartialEq)]
enum TestTopic {
    Timeout,
    Ingress,
    Other,
}

impl Coded for TestTopic {
    fn number(self) -> u64 {
        self.code()
    }

    fn number_injective(_a: Self, _b: Self) {}

    fn code(&self) -> u64 {
        match self {
            TestTopic::Timeout => 0,
            TestTopic::Ingress => 1,
            TestTopic::Other => 2,
        }
    }
}

#[derive(Debug, Clone)]
#[allow(dead_code)]
enum TestMsg {
    TimeoutInput(TimeoutInput<TestKind>),
    Ingress(OutPacket),
    Other,
}

impl RexMessage for TestMsg {
    type Topic = TestTopic;
}

impl GetTopic<TestTopic> for TestMsg {
    fn topic(self) -> TestTopic {
        self.get_topic()
    }

    fn get_topic(&self) -> TestTopic {
        match self {
            TestMsg::TimeoutInput(_) => TestTopic::Timeout,
            TestMsg::Ingress(_) => TestTopic::Ingress,
            TestMsg::Other => TestTopic::Other,
        }
    }
}

#[derive(Clone, Copy, Debug, Eq, PartialEq)]
#[allow(dead_code)]
enum TestState {
    New,
    Awaiting,
    Completed,
    Failed,
}

impl Coded for TestState {
    fn number(self) -> u64 {
        self.code()
    }

    fn number_injective(_a: Self, _b: Self) {}

    fn code(&self) -> u64 {
        match self {
            TestState::New => 0,
            TestState::Awaiting => 1,
            TestState::Completed => 2,
            TestState::Failed => 3,
        }
    }
}

impl State for TestState {
    type Input = TestInput;
}

#[derive(Debug, Clone, Copy, Eq, PartialEq, Hash)]
struct TestKind;

impl Coded for TestKind {
    fn number(self) -> u64 {
        self.code()
    }

    fn number_injective(_a: Self, _b: Self) {}

    fn code(&self) -> u64 {
        0
    }
}

impl Kind for TestKind {
    type State = TestState;
    type Input = TestInput;

    fn initial(self) -> TestState {
        self.new_state()
    }

    fn failed(self) -> TestState {
        self.failed_state()
    }

    fn completed(self) -> TestState {
        self.completed_state()
    }

    fn owner(state: TestState) -> TestKind {
        TestKind::of_state(&state)
    }

    fn new_state(&self) -> TestState {
        TestState::New
    }

    fn failed_state(&self) -> TestState {
        TestState::Failed
    }

    fn completed_state(&self) -> TestState {
        TestState::Completed
    }

    fn of_state(_state: &TestState) -> TestKind {
        TestKind
    }
}

#[derive(Clone, Debug, PartialEq)]
#[allow(dead_code)]
enum TestInput {
    Timeout(Moment),
    Packet(InPacket),
}

#[derive(Clone, Debug, PartialEq, Eq)]
struct OutPacket(Vec<u8>);

#[derive(Clone, Debug, PartialEq)]
struct InPacket(Vec<u8>);

impl Rex for TestKind {
    type Message = TestMsg;

    fn input_of_state(self, state: TestState) -> Option<TestInput> {
        self.state_input(state)
    }

    fn input_of_timeout(self, instant: Moment) -> Option<TestInput> {
        self.timeout_input(instant)
    }

    fn state_input(&self, _state: TestState) -> Option<TestInput> {
        None
    }

    fn timeout_input(&self, instant: Moment) -> Option<TestInput> {
        Some(TestInput::Timeout(instant))
    }
}

impl TryInto<TimeoutInput<TestKind>> for TestMsg {
    type Error = ConversionError;

    fn try_into(self) -> Result<TimeoutInput<TestKind>, ConversionError> {
        if let TestMsg::TimeoutInput(timeout) = self {
            return Ok(timeout);
        }
        Err(ConversionError)
    }
}

impl From<OutPacket> for TestMsg {
    fn from(val: OutPacket) -> Self {
        TestMsg::Ingress(val)
    }
}

impl From<TimeoutInput<TestKind>> for TestMsg {
    fn from(value: TimeoutInput<TestKind>) -> Self {
        TestMsg::TimeoutInput(value)
    }
}

struct TestStateRouter;

impl StateRouter<TestKind> for TestStateRouter {
    type Inbound = InPacket;

    fn kind(&self) -> TestKind {
        self.get_kind()
    }

    fn get_id(&self, input: &InPacket) -> Result<Option<StateId<TestKind>>, RexError> {
        let packet = &input.0;
        match packet {
            _ if packet.starts_with(b"unsupported") => Err(RexError),
            _ if packet.starts_with(b"unknown") => Ok(None),
            _ if packet.starts_with(b"new_state") => Ok(Some(StateId::new_with_u128(TestKind, 1))),
            _ => unreachable!(),
        }
    }

    fn get_kind(&self) -> TestKind {
        TestKind
    }
}

impl<'a> TryFrom<&'a InPacket> for TestKind {
    type Error = ConversionError;

    fn try_from(packet: &'a InPacket) -> Result<Self, ConversionError> {
        if packet.0.is_empty() {
            return Err(ConversionError);
        }
        Ok(TestKind)
    }
}

impl TryFrom<InPacket> for TestInput {
    type Error = ConversionError;

    fn try_from(packet: InPacket) -> Result<Self, ConversionError> {
        if packet.0.ends_with(b"!") {
            return Err(ConversionError);
        }
        Ok(Self::Packet(packet))
    }
}

impl TryInto<OutPacket> for TestMsg {
    type Error = ConversionError;

    fn try_into(self) -> Result<OutPacket, ConversionError> {
        if let Self::Ingress(packet) = self {
            return Ok(packet);
        }
        Err(ConversionError)
    }
}

struct TestMachine;

impl StateMachine<TestKind> for TestMachine {
    fn kind(&self) -> TestKind {
        self.get_kind()
    }

    fn get_kind(&self) -> TestKind {
        TestKind
    }
}

struct Listener(Vec<TestTopic>);

impl NotificationProcessor<TestMsg> for Listener {
    fn get_topics(&self) -> &[TestTopic] {
        &self.0
    }
}

/// The ends of the connection are named by numbers.
struct TestParts;

impl Parts<TestKind> for TestParts {
    type Machine = TestMachine;
    type Processor = Listener;
    type Router = TestStateRouter;
    type Handle = u8;
    type Outbound = u32;
    type InboundTx = u32;
    type InboundRx = u32;
}

type Builder = RexBuilder<TestKind, TestParts>;

#[test]
fn rex_builder() {
    let (inbound_tx, builder) = Builder::new_connected(10, (20, 30));
    assert_eq!(inbound_tx, 20);
    let mut built = builder
        .with_ingress_adapter(vec![TestStateRouter], TestTopic::Ingress)
        .build();

    let Processor::Ingress(adapter, connection) = &built.notification_processors[0] else {
        panic!("not an adapter");
    };
    assert_eq!(connection.outbound_tx, 10);
    assert_eq!(connection.inbound_tx, 20);
    assert_eq!(connection.inbound_rx, 30);
    let ctx = built.manager.context();

    // An unknown packet should be unrouteable
    let unknown_packet = InPacket(b"unknown_packet".to_vec());
    assert!(matches!(
        adapter.receive(unknown_packet, &mut ctx.signal_queue),
        Err(Refused::Unroutable)
    ));
    assert!(ctx.signal_queue.pop_front().is_none());

    let supported_packet = InPacket(b"new_state".to_vec());
    assert!(adapter.receive(supported_packet.clone(), &mut ctx.signal_queue).is_ok());
    let signal = ctx.signal_queue.pop_front().unwrap();
    assert_eq!(
        Signal {
            id: StateId::new_with_u128(TestKind, 1),
            input: TestInput::Packet(supported_packet),
        },
        signal,
    );
}

#[test]
fn nothing_asked_for_is_nothing_built() {
    let mut built = Builder::new().build();
    assert!(built.notification_manager.is_none());
    assert!(built.notification_processors.is_empty());
    assert!(built.state_machines.is_empty());
    let mut receiver = built.manager.context().signal_queue.stream();
    assert!(matches!(built.manager.step(&mut receiver, 0), Step::Wait));
}

#[test]
fn timeout_manager_comes_last() {
    let built = Builder::new()
        .with_timeout_manager(TestTopic::Timeout)
        .with_np(Listener(vec![TestTopic::Timeout]))
        .with_boxed_np(Box::new(Listener(vec![TestTopic::Other])))
        .build();
    assert_eq!(built.notification_processors.len(), 3);
    let Processor::Timeout(manager) = &built.notification_processors[2] else {
        panic!("not a timeout manager");
    };
    assert_eq!(manager.tick_rate, DEFAULT_TICK_RATE);
    assert_eq!(manager.topic, TestTopic::Timeout);
    let input = TimeoutInput::cancel_timeout(StateId::nil(TestKind));
    let deliveries = built
        .notification_manager
        .unwrap()
        .route(Notification(TestMsg::TimeoutInput(input)))
        .unwrap();
    let subscribers: Vec<usize> = deliveries.into_iter().map(|(place, _)| place).collect();
    assert_eq!(subscribers, vec![0, 2]);
}

#[test]
fn tick_rate_is_the_one_asked_for() {
    let built = Builder::new()
        .with_tick_rate(500)
        .with_timeout_manager(TestTopic::Other)
        .build();
    let Processor::Timeout(manager) = &built.notification_processors[0] else {
        panic!("not a timeout manager");
    };
    assert_eq!(manager.tick_rate, 500);
    assert_eq!(manager.get_topics(), &[TestTopic::Other]);
}

#[test]
fn processors_are_made_from_the_context() {
    let mut builder = Builder::new();
    builder.push_np(Listener(vec![TestTopic::Other]));
    builder.push_ctx_np(|ctx| {
        assert!(ctx.notification_queue.is_empty());
        Listener(vec![TestTopic::Ingress])
    });
    let builder = builder.with_ctx_np(|_ctx| Listener(vec![TestTopic::Timeout]));
    assert!(builder.ctx().notification_queue.is_empty());
    let topics: Vec<TestTopic> = builder
        .build()
        .notification_processors
        .iter()
        .map(|processor| processor.get_topics()[0])
        .collect();
    assert_eq!(
        topics,
        vec![TestTopic::Other, TestTopic::Ingress, TestTopic::Timeout]
    );
}

#[test]
fn machines_process_the_signals_of_their_kind() {
    let mut built = Builder::default().with_sm(TestMachine).build();
    let id = StateId::new_with_u128(TestKind, 2);
    built.manager.context().signal_queue.push_back(Signal {
        id,
        input: TestInput::Timeout(Moment { nanos: 1 }),
    });
    let mut receiver = built.manager.context().signal_queue.stream();
    let Step::Process(place, signal) = built.manager.step(&mut receiver, 0) else {
        panic!("nothing to process");
    };
    assert_eq!(place, 0);
    assert_eq!(signal.id, id);
}

#[test]
fn packets_can_be_handed_in_before_the_adapter_is_made() {
    let (_, builder) = Builder::new_connected(1, (2, 3));
    assert_eq!(builder.ingress_tx(), 2);
    assert!(builder.is_connected());
    let builder = builder.with_ingress_adapter(vec![TestStateRouter], TestTopic::Ingress);
    assert!(!builder.is_connected());
    assert!(!Builder::new().is_connected());
    let Processor::Ingress(_, connection) = &builder.build().notification_processors[0] else {
        panic!("not an adapter");
    };
    assert_eq!(connection.outbound_tx, 1);
}
