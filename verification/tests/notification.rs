use std::fmt;

use rex::queue::StreamableDeque;
use rex::time::Moment;
use rex::timeout::{Operation, TimeoutInput, TimeoutManager};
use rex::{
    Coded, ConversionError, GetTopic, Kind, Notification, NotificationManager,
    NotificationProcessor, Request, RequestInner, Rex, RexMessage, SignalQueue, State, StateId,
    ToNotification, UnaryRequest,
};

#[derive(Debug, Clone, Copy, Eq, PartialEq)]
enum TestTopic {
    Timeout,
    Ingress,
    Other,
}

impl Coded for TestTopic {
    fn number(self) -> u64 {
        self.code()
    }

    fn number_injective(_a: Self, _b: Self) {}

    fn code(&self) -> u64 {
        match self {
            TestTopic::Timeout => 0,
            TestTopic::Ingress => 1,
            TestTopic::Other => 2,
        }
    }
}

#[derive(Debug, Clone)]
#[allow(dead_code)]
enum TestMsg {
    TimeoutInput(TimeoutInput<TestKind>),
    Ingress(OutPacket),
    Other,
}

impl RexMessage for TestMsg {
    type Topic = TestTopic;
}

impl GetTopic<TestTopic> for TestMsg {
    fn topic(self) -> TestTopic {
        self.get_topic()
    }

    fn get_topic(&self) -> TestTopic {
        match self {
            TestMsg::TimeoutInput(_) => TestTopic::Timeout,
            TestMsg::Ingress(_) => TestTopic::Ingress,
            TestMsg::Other => TestTopic::Other,
        }
    }
}

#[derive(Clone, Copy, Debug, Eq, PartialEq)]
#[allow(dead_code)]
enum TestState {
    New,
    Awaiting,
    Completed,
    Failed,
}

impl Coded for TestState {
    fn number(self) -> u64 {
        self.code()
    }

    fn number_injective(_a: Self, _b: Self) {}

    fn code(&self) -> u64 {
        match self {
            TestState::New => 0,
            TestState::Awaiting => 1,
            TestState::Completed => 2,
            TestState::Failed => 3,
        }
    }
}

impl State for TestState {
    type Input = TestInput;
}

#[derive(Debug, Clone, Copy, Eq, PartialEq, Hash)]
struct TestKind;

impl Coded for TestKind {
    fn number(self) -> u64 {
        self.code()
    }

    fn number_injective(_a: Self, _b: Self) {}

    fn code(&self) -> u64 {
        0
    }
}

impl Kind for TestKind {
    type State = TestState;
    type Input = TestInput;

    fn initial(self) -> TestState {
        self.new_state()
    }

    fn failed(self) -> TestState {
        self.failed_state()
    }

    fn completed(self) -> TestState {
        self.completed_state()
    }

    fn owner(state: TestState) -> TestKind {
        TestKind::of_state(&state)
    }

    fn new_state(&self) -> TestState {
        TestState::New
    }

    fn failed_state(&self) -> TestState {
        TestState::Failed
    }

    fn completed_state(&self) -> TestState {
        TestState::Completed
    }

    fn of_state(_state: &TestState) -> TestKind {
        TestKind
    }
}

#[derive(Clone, Debug, PartialEq)]
#[allow(dead_code)]
enum TestInput {
    Timeout(Moment),
    Packet(InPacket),
}

#[derive(Clone, Debug, PartialEq, Eq)]
struct OutPacket(Vec<u8>);

#[derive(Clone, Debug, PartialEq)]
struct InPacket(Vec<u8>);

impl Rex for TestKind {
    type Message = TestMsg;

    fn input_of_state(self, state: TestState) -> Option<TestInput> {
        self.state_input(state)
    }

    fn input_of_timeout(self, instant: Moment) -> Option<TestInput> {
        self.timeout_input(instant)
    }

    fn state_input(&self, _state: TestState) -> Option<TestInput> {
        None
    }

    fn timeout_input(&self, instant: Moment) -> Option<TestInput> {
        Some(TestInput::Timeout(instant))
    }
}

impl TryInto<TimeoutInput<TestKind>> for TestMsg {
    type Error = ConversionError;

    fn try_into(self) -> Result<TimeoutInput<TestKind>, ConversionError> {
        if let TestMsg::TimeoutInput(timeout) = self {
            return Ok(timeout);
        }
        Err(ConversionError)
    }
}

impl From<OutPacket> for TestMsg {
    fn from(val: OutPacket) -> Self {
        TestMsg::Ingress(val)
    }
}

impl From<TimeoutInput<TestKind>> for TestMsg {
    fn from(value: TimeoutInput<TestKind>) -> Self {
        TestMsg::TimeoutInput(value)
    }
}

#[test]
fn route_to_timeout_manager() {
    let mut signal_queue: SignalQueue<TestKind, u8> = StreamableDeque::new();
    let mut signal_queue_two: SignalQueue<TestKind, u8> = StreamableDeque::new();
    let mut managers = vec![
        TimeoutManager::<TestKind>::new(1_000_000, TestTopic::Timeout),
        TimeoutManager::<TestKind>::new(1_000_000, TestTopic::Timeout),
    ];
    let notification_manager: NotificationManager<TestMsg> = NotificationManager::new(&managers);

    let test_id = StateId::new_with_u128(TestKind, 1);
    let set_timeout = TimeoutInput {
        id: test_id,
        op: Operation::set_after(Moment { nanos: 0 }, 1_000_000),
    };
    let deliveries = notification_manager
        .route(Notification(set_timeout.into()))
        .unwrap();
    for (subscriber, notification) in deliveries {
        assert!(managers[subscriber].process(notification));
    }

    let now = Moment { nanos: 10_000_000 };
    managers[0].tick_at(now, &mut signal_queue);
    managers[1].tick_at(now, &mut signal_queue_two);

    let timeout_one = signal_queue.pop_front().expect("timeout one");
    let timeout_two = signal_queue_two.pop_front().expect("timeout two");
    assert_eq!(timeout_one.id, timeout_two.id);
}

struct Listener {
    topics: Vec<TestTopic>,
}

impl NotificationProcessor<TestMsg> for Listener {
    fn get_topics(&self) -> &[TestTopic] {
        &self.topics
    }
}

fn listener(topics: &[TestTopic]) -> Listener {
    Listener {
        topics: topics.to_vec(),
    }
}

fn receivers(manager: &NotificationManager<TestMsg>, msg: TestMsg) -> Option<Vec<usize>> {
    manager
        .route(Notification(msg))
        .map(|deliveries| deliveries.into_iter().map(|(subscriber, _)| subscriber).collect())
}

#[test]
fn notifications_reach_those_who_subscribe() {
    let listeners = [
        listener(&[TestTopic::Other, TestTopic::Ingress]),
        listener(&[]),
        listener(&[TestTopic::Other]),
    ];
    let manager = NotificationManager::new(&listeners);
    assert_eq!(receivers(&manager, TestMsg::Other), Some(vec![0, 2]));
    assert_eq!(
        receivers(&manager, TestMsg::Ingress(OutPacket(vec![1]))),
        Some(vec![0])
    );
    let input = TimeoutInput::cancel_timeout(StateId::nil(TestKind));
    assert_eq!(receivers(&manager, TestMsg::TimeoutInput(input)), None);
}

#[test]
fn a_topic_named_twice_is_delivered_twice() {
    let listeners = [listener(&[TestTopic::Other, TestTopic::Other])];
    let manager = NotificationManager::new(&listeners);
    assert_eq!(receivers(&manager, TestMsg::Other), Some(vec![0, 0]));
}

#[test]
fn every_subscriber_receives_the_message() {
    let listeners = [listener(&[TestTopic::Ingress]), listener(&[TestTopic::Ingress])];
    let mut manager = NotificationManager::new(&listeners);
    manager.subscribe_all(&[TestTopic::Ingress], 5);
    let deliveries = manager
        .route(Notification(TestMsg::Ingress(OutPacket(vec![4, 2]))))
        .unwrap();
    assert_eq!(deliveries.len(), 3);
    let mut subscribers = vec![];
    for (subscriber, notification) in deliveries {
        subscribers.push(subscriber);
        let TestMsg::Ingress(packet) = notification.0 else {
            panic!("another message");
        };
        assert_eq!(packet, OutPacket(vec![4, 2]));
    }
    assert_eq!(subscribers, vec![0, 1, 5]);
}

#[test]
fn messages_become_notifications() {
    let notification: Notification<TestMsg> = OutPacket(vec![3]).notification();
    assert_eq!(GetTopic::<TestTopic>::get_topic(&notification), TestTopic::Ingress);
    let copy = notification.clone();
    let TestMsg::Ingress(packet) = copy.0 else {
        panic!("another message");
    };
    assert_eq!(packet, OutPacket(vec![3]));
}

#[derive(Clone, Copy, Debug, PartialEq)]
struct Store(u8);

impl fmt::Display for Store {
    fn fmt(&self, f: &mut fmt::Formatter<'_>) -> fmt::Result {
        f.write_str("Store")
    }
}

impl From<u8> for Store {
    fn from(value: u8) -> Self {
        Store(value)
    }
}

impl From<UnaryRequest<TestKind, Store>> for TestMsg {
    fn from(_request: UnaryRequest<TestKind, Store>) -> Self {
        TestMsg::Other
    }
}

#[test]
fn requests_carry_their_id() {
    let id = StateId::new_with_u128(TestKind, 4);
    let request = Store(1).request(id);
    assert_eq!(request.id, id);
    assert_eq!(request.op, Store(1));
    let request: UnaryRequest<TestKind, Store> = 2u8.request_inner(id);
    assert_eq!(request.id, id);
    assert_eq!(request.op, Store(2));
    let request = UnaryRequest::new(id, Store(3)).clone();
    assert_eq!(request.id, id);
    assert_eq!(request.op, Store(3));
}
