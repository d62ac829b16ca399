use rex::ingress::{IngressAdapter, PacketRouter, Refused, StateRouter};
use rex::queue::StreamableDeque;
use rex::time::Moment;
use rex::timeout::TimeoutInput;
use rex::{
    Coded, ConversionError, GetTopic, Kind, Notification, NotificationManager,
    NotificationProcessor, Rex, RexError, RexMessage, Signal, SignalQueue, State, StateId,
};

#[derive(Debug, Clone, Copy, Eq, PartialEq)]
enum TestTopic {
    Timeout,
    Ingress,
    Other,
}

impl Coded for TestTopic {
    fn number(self) -> u64 {
        self.code()
    }

    fn number_injective(_a: Self, _b: Self) {}

    fn code(&self) -> u64 {
        match self {
            TestTopic::Timeout => 0,
            TestTopic::Ingress => 1,
            TestTopic::Other => 2,
        }
    }
}

#[derive(Debug, Clone)]
#[allow(dead_code)]
enum TestMsg {
    TimeoutInput(TimeoutInput<TestKind>),
    Ingress(OutPacket),
    Other,
}

impl RexMessage for TestMsg {
    type Topic = TestTopic;
}

impl GetTopic<TestTopic> for TestMsg {
    fn topic(self) -> TestTopic {
        self.get_topic()
    }

    fn get_topic(&self) -> TestTopic {
        match self {
            TestMsg::TimeoutInput(_) => TestTopic::Timeout,
            TestMsg::Ingress(_) => TestTopic::Ingress,
            TestMsg::Other => TestTopic::Other,
        }
    }
}

#[derive(Clone, Copy, Debug, Eq, PartialEq)]
#[allow(dead_code)]
enum TestState {
    New,
    Awaiting,
    Completed,
    Failed,
}

impl Coded for TestState {
    fn number(self) -> u64 {
        self.code()
    }

    fn number_injective(_a: Self, _b: Self) {}

    fn code(&self) -> u64 {
        match self {
            TestState::New => 0,
            TestState::Awaiting => 1,
            TestState::Completed => 2,
            TestState::Failed => 3,
        }
    }
}

impl State for TestState {
    type Input = TestInput;
}

#[derive(Debug, Clone, Copy, Eq, PartialEq, Hash)]
struct TestKind;

impl Coded for TestKind {
    fn number(self) -> u64 {
        self.code()
    }

    fn number_injective(_a: Self, _b: Self) {}

    fn code(&self) -> u64 {
        0
    }
}

impl Kind for TestKind {
    type State = TestState;
    type Input = TestInput;

    fn initial(self) -> TestState {
        self.new_state()
    }

    fn failed(self) -> TestState {
        self.failed_state()
    }

    fn completed(self) -> TestState {
        self.completed_state()
    }

    fn owner(state: TestState) -> TestKind {
        TestKind::of_state(&state)
    }

    fn new_state(&self) -> TestState {
        TestState::New
    }

    fn failed_state(&self) -> TestState {
        TestState::Failed
    }

    fn completed_state(&self) -> TestState {
        TestState::Completed
    }

    fn of_state(_state: &TestState) -> TestKind {
        TestKind
    }
}

#[derive(Clone, Debug, PartialEq)]
#[allow(dead_code)]
enum TestInput {
    Timeout(Moment),
    Packet(InPacket),
}

#[derive(Clone, Debug, PartialEq, Eq)]
struct OutPacket(Vec<u8>);

#[derive(Clone, Debug, PartialEq)]
struct InPacket(Vec<u8>);

impl Rex for TestKind {
    type Message = TestMsg;

    fn input_of_state(self, state: TestState) -> Option<TestInput> {
        self.state_input(state)
    }

    fn input_of_timeout(self, instant: Moment) -> Option<TestInput> {
        self.timeout_input(instant)
    }

    fn state_input(&self, _state: TestState) -> Option<TestInput> {
        None
    }

    fn timeout_input(&self, instant: Moment) -> Option<TestInput> {
        Some(TestInput::Timeout(instant))
    }
}

impl TryInto<TimeoutInput<TestKind>> for TestMsg {
    type Error = ConversionError;

    fn try_into(self) -> Result<TimeoutInput<TestKind>, ConversionError> {
        if let TestMsg::TimeoutInput(timeout) = self {
            return Ok(timeout);
        }
        Err(ConversionError)
    }
}

impl From<OutPacket> for TestMsg {
    fn from(val: OutPacket) -> Self {
        TestMsg::Ingress(val)
    }
}

impl From<TimeoutInput<TestKind>> for TestMsg {
    fn from(value: TimeoutInput<TestKind>) -> Self {
        TestMsg::TimeoutInput(value)
    }
}

struct TestStateRouter;

impl StateRouter<TestKind> for TestStateRouter {
    type Inbound = InPacket;

    fn kind(&self) -> TestKind {
        self.get_kind()
    }

    fn get_id(&self, input: &InPacket) -> Result<Option<StateId<TestKind>>, RexError> {
        let packet = &input.0;
        match packet {
            _ if packet.starts_with(b"unsupported") => Err(RexError),
            _ if packet.starts_with(b"unknown") => Ok(None),
            _ if packet.starts_with(b"new_state") => Ok(Some(StateId::new_with_u128(TestKind, 1))),
            _ => unreachable!(),
        }
    }

    fn get_kind(&self) -> TestKind {
        TestKind
    }
}

impl<'a> TryFrom<&'a InPacket> for TestKind {
    type Error = ConversionError;

    fn try_from(packet: &'a InPacket) -> Result<Self, ConversionError> {
        if packet.0.is_empty() {
            return Err(ConversionError);
        }
        Ok(TestKind)
    }
}

impl TryFrom<InPacket> for TestInput {
    type Error = ConversionError;

    fn try_from(packet: InPacket) -> Result<Self, ConversionError> {
        if packet.0.ends_with(b"!") {
            return Err(ConversionError);
        }
        Ok(Self::Packet(packet))
    }
}

impl TryInto<OutPacket> for TestMsg {
    type Error = ConversionError;

    fn try_into(self) -> Result<OutPacket, ConversionError> {
        if let Self::Ingress(packet) = self {
            return Ok(packet);
        }
        Err(ConversionError)
    }
}

fn test_default() -> IngressAdapter<TestKind, TestStateRouter> {
    IngressAdapter::new(vec![TestStateRouter], TestTopic::Ingress)
}

fn to_network(
    manager: &NotificationManager<TestMsg>,
    packet: OutPacket,
) -> Result<OutPacket, ConversionError> {
    let mut deliveries = manager.route(Notification(packet.into())).unwrap();
    assert_eq!(deliveries.len(), 1);
    let (subscriber, notification) = deliveries.remove(0);
    assert_eq!(subscriber, 0);
    IngressAdapter::<TestKind, TestStateRouter>::send(notification)
}

#[test]
fn route_to_network() {
    let adapters = [test_default()];
    let notification_manager: NotificationManager<TestMsg> = NotificationManager::new(&adapters);

    let unknown_packet = OutPacket(b"unknown_packet".to_vec());

    // Any packet should get to the GatewayClient since routing rules
    // are only used at the ingress of the state machine
    let sent = to_network(&notification_manager, unknown_packet.clone());
    assert_eq!(Ok(unknown_packet), sent);

    let unsupported_packet = OutPacket(b"unsupported_packet".to_vec());

    let sent = to_network(&notification_manager, unsupported_packet.clone());
    assert_eq!(Ok(unsupported_packet), sent);
}

#[test]
fn route_from_network() {
    let adapter = test_default();
    let mut signal_queue: SignalQueue<TestKind, u8> = StreamableDeque::new();

    // An unknown packet should be unrouteable
    let unknown_packet = InPacket(b"unknown_packet".to_vec());
    assert!(matches!(
        adapter.receive(unknown_packet, &mut signal_queue),
        Err(Refused::Unroutable)
    ));
    assert!(signal_queue.pop_front().is_none());

    let supported_packet = InPacket(b"new_state".to_vec());
    assert!(matches!(
        adapter.receive(supported_packet.clone(), &mut signal_queue),
        Ok(None)
    ));
    let signal = signal_queue.pop_front().unwrap();
    assert_eq!(
        Signal {
            id: StateId::new_with_u128(TestKind, 1),
            input: TestInput::Packet(supported_packet),
        },
        signal,
    );
}

#[test]
fn packets_that_fail_are_not_queued() {
    let adapter = test_default();
    let mut queue: SignalQueue<TestKind, u8> = StreamableDeque::new();
    // the router refuses it
    assert!(matches!(
        adapter.receive(InPacket(b"unsupported_packet".to_vec()), &mut queue),
        Err(Refused::RouteFailed(RexError))
    ));
    // it has no kind
    assert!(matches!(
        adapter.receive(InPacket(vec![]), &mut queue),
        Err(Refused::RouteFailed(RexError))
    ));
    // it is no input
    assert!(matches!(
        adapter.receive(InPacket(b"new_state!".to_vec()), &mut queue),
        Err(Refused::Invalid(ConversionError))
    ));
    assert!(queue.pop_front().is_none());
}

#[test]
fn packets_are_read_for_the_machine_that_is_found() {
    let adapter = test_default();
    let packet = InPacket(b"new_state".to_vec());
    let signal = Signal {
        id: StateId::new_with_u128(TestKind, 1),
        input: TestInput::Packet(packet.clone()),
    };
    assert_eq!(adapter.resolve(packet).unwrap(), signal);
    assert!(matches!(
        adapter.resolve(InPacket(b"unknown_packet".to_vec())),
        Err(Refused::Unroutable)
    ));
    assert!(matches!(adapter.resolve(InPacket(vec![])), Err(Refused::RouteFailed(RexError))));
}

#[test]
fn inputs_are_addressed() {
    let id = StateId::new_with_u128(TestKind, 7);
    let input = TestInput::Packet(InPacket(vec![1]));
    let signal = IngressAdapter::<TestKind, TestStateRouter>::address(id, Ok(input));
    let signal = signal.unwrap();
    assert_eq!(signal.id, id);
    assert_eq!(signal.input, TestInput::Packet(InPacket(vec![1])));
    assert!(matches!(
        IngressAdapter::<TestKind, TestStateRouter>::address(id, Err(ConversionError)),
        Err(Refused::Invalid(ConversionError))
    ));
}

#[test]
fn waiting_receiver_is_readied_by_a_packet() {
    let adapter = test_default();
    let mut queue: SignalQueue<TestKind, u8> = StreamableDeque::new();
    let mut receiver = queue.stream();
    assert!(queue.poll_next(&mut receiver, 3).is_none());
    assert!(matches!(
        adapter.receive(InPacket(b"new_state".to_vec()), &mut queue),
        Ok(Some(3))
    ));
    assert!(queue.poll_next(&mut receiver, 3).is_some());
}

#[test]
fn messages_that_are_no_packets_are_not_sent() {
    let sent: Result<OutPacket, ConversionError> =
        IngressAdapter::<TestKind, TestStateRouter>::send(Notification(TestMsg::Other));
    assert_eq!(sent, Err(ConversionError));
}

#[test]
fn packets_without_router_go_nowhere() {
    let router: PacketRouter<TestKind, TestStateRouter> = PacketRouter::new(vec![]);
    let packet = InPacket(b"new_state".to_vec());
    assert_eq!(router.get_id(&packet), Ok(None));
    assert_eq!(router.find(&packet, Err(ConversionError)), Err(RexError));
    let router = PacketRouter::new(vec![TestStateRouter]);
    let id = StateId::new_with_u128(TestKind, 1);
    assert_eq!(router.get_id(&packet), Ok(Some(id)));
    assert_eq!(router.find(&packet, Ok(TestKind)), Ok(Some(id)));
}

#[test]
fn repeated_kinds_are_found() {
    let once = [TestStateRouter];
    let twice = [TestStateRouter, TestStateRouter];
    assert_eq!(PacketRouter::<TestKind, TestStateRouter>::repeated_kind(&once), None);
    assert_eq!(
        PacketRouter::<TestKind, TestStateRouter>::repeated_kind(&twice),
        Some(TestKind)
    );
}

#[test]
fn adapter_subscribes_to_its_topic() {
    assert_eq!(test_default().get_topics(), &[TestTopic::Ingress]);
}

#[test]
fn errors_are_written() {
    assert_eq!(RexError.to_string(), "StateMachineError");
}
