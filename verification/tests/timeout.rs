use std::time::Duration;

use rex::queue::StreamableDeque;
use rex::time::{Clock, Moment};
use rex::timeout::{Operation, TimeoutInput, TimeoutLedger, TimeoutManager};
use rex::{
    Coded, ConversionError, GetTopic, Kind, Notification, NotificationProcessor, Rex, RexMessage,
    Signal, SignalQueue, State, StateId,
};

const MILLI: u128 = 1_000_000;

const TEST_TICK_RATE: u128 = MILLI;

#[derive(Debug, Clone, Copy, Eq, PartialEq)]
enum TestTopic {
    Timeout,
    Ingress,
    Other,
}

impl Coded for TestTopic {
    fn number(self) -> u64 {
        self.code()
    }

    fn number_injective(_a: Self, _b: Self) {}

    fn code(&self) -> u64 {
        match self {
            TestTopic::Timeout => 0,
            TestTopic::Ingress => 1,
            TestTopic::Other => 2,
        }
    }
}

#[derive(Debug, Clone)]
#[allow(dead_code)]
enum TestMsg {
    TimeoutInput(TimeoutInput<TestKind>),
    Ingress(OutPacket),
    Other,
}

impl RexMessage for TestMsg {
    type Topic = TestTopic;
}

impl GetTopic<TestTopic> for TestMsg {
    fn topic(self) -> TestTopic {
        self.get_topic()
    }

    fn get_topic(&self) -> TestTopic {
        match self {
            TestMsg::TimeoutInput(_) => TestTopic::Timeout,
            TestMsg::Ingress(_) => TestTopic::Ingress,
            TestMsg::Other => TestTopic::Other,
        }
    }
}

#[derive(Clone, Copy, Debug, Eq, PartialEq)]
#[allow(dead_code)]
enum TestState {
    New,
    Awaiting,
    Completed,
    Failed,
}

impl Coded for TestState {
    fn number(self) -> u64 {
        self.code()
    }

    fn number_injective(_a: Self, _b: Self) {}

    fn code(&self) -> u64 {
        match self {
            TestState::New => 0,
            TestState::Awaiting => 1,
            TestState::Completed => 2,
            TestState::Failed => 3,
        }
    }
}

impl State for TestState {
    type Input = TestInput;
}

#[derive(Debug, Clone, Copy, Eq, PartialEq, Hash)]
struct TestKind;

impl Coded for TestKind {
    fn number(self) -> u64 {
        self.code()
    }

    fn number_injective(_a: Self, _b: Self) {}

    fn code(&self) -> u64 {
        0
    }
}

impl Kind for TestKind {
    type State = TestState;
    type Input = TestInput;

    fn initial(self) -> TestState {
        self.new_state()
    }

    fn failed(self) -> TestState {
        self.failed_state()
    }

    fn completed(self) -> TestState {
        self.completed_state()
    }

    fn owner(state: TestState) -> TestKind {
        TestKind::of_state(&state)
    }

    fn new_state(&self) -> TestState {
        TestState::New
    }

    fn failed_state(&self) -> TestState {
        TestState::Failed
    }

    fn completed_state(&self) -> TestState {
        TestState::Completed
    }

    fn of_state(_state: &TestState) -> TestKind {
        TestKind
    }
}

#[derive(Clone, Debug, PartialEq)]
#[allow(dead_code)]
enum TestInput {
    Timeout(Moment),
    Packet(InPacket),
}

#[derive(Clone, Debug, PartialEq, Eq)]
struct OutPacket(Vec<u8>);

#[derive(Clone, Debug, PartialEq)]
struct InPacket(Vec<u8>);

impl Rex for TestKind {
    type Message = TestMsg;

    fn input_of_state(self, state: TestState) -> Option<TestInput> {
        self.state_input(state)
    }

    fn input_of_timeout(self, instant: Moment) -> Option<TestInput> {
        self.timeout_input(instant)
    }

    fn state_input(&self, _state: TestState) -> Option<TestInput> {
        None
    }

    fn timeout_input(&self, instant: Moment) -> Option<TestInput> {
        Some(TestInput::Timeout(instant))
    }
}

impl TryInto<TimeoutInput<TestKind>> for TestMsg {
    type Error = ConversionError;

    fn try_into(self) -> Result<TimeoutInput<TestKind>, ConversionError> {
        if let TestMsg::TimeoutInput(timeout) = self {
            return Ok(timeout);
        }
        Err(ConversionError)
    }
}

impl From<OutPacket> for TestMsg {
    fn from(val: OutPacket) -> Self {
        TestMsg::Ingress(val)
    }
}

impl From<TimeoutInput<TestKind>> for TestMsg {
    fn from(value: TimeoutInput<TestKind>) -> Self {
        TestMsg::TimeoutInput(value)
    }
}

fn test_default() -> TimeoutManager<TestKind> {
    TimeoutManager::new(TEST_TICK_RATE, TestTopic::Timeout)
}

fn send(manager: &mut TimeoutManager<TestKind>, input: TimeoutInput<TestKind>) {
    assert!(manager.process(Notification(input.into())));
}

/// Looks through the ledger at every tick until the time is over.
fn run(
    manager: &mut TimeoutManager<TestKind>,
    clock: &Clock,
    queue: &mut SignalQueue<TestKind, u8>,
    duration: Duration,
) {
    let runtime = tokio::runtime::Builder::new_current_thread()
        .enable_time()
        .build()
        .unwrap();
    let end = clock.now().nanos + duration.as_nanos();
    while clock.now().nanos < end {
        let tick = Duration::from_nanos(manager.tick_rate as u64);
        runtime.block_on(async { tokio::time::sleep(tick).await });
        manager.tick(clock, queue);
    }
}

fn id(n: u128) -> StateId<TestKind> {
    StateId::new_with_u128(TestKind, n)
}

fn at(nanos: u128) -> Moment {
    Moment { nanos }
}

fn set(n: u128, nanos: u128) -> TimeoutInput<TestKind> {
    TimeoutInput {
        id: id(n),
        op: Operation::SetAt(at(nanos)),
    }
}

#[test]
fn timeout_to_signal() {
    let clock = Clock::new();
    let mut signal_queue: SignalQueue<TestKind, u8> = StreamableDeque::new();
    let mut timeout_manager = test_default();

    let test_id = StateId::new_rand(TestKind);
    let timeout_duration = Duration::from_millis(5);

    let timeout = clock.now().nanos + timeout_duration.as_nanos();
    let set_timeout = TimeoutInput::set_timeout(&clock, test_id, timeout_duration.as_nanos());

    send(&mut timeout_manager, set_timeout);

    // ensure two ticks have passed
    run(&mut timeout_manager, &clock, &mut signal_queue, timeout_duration * 3);

    let Signal { id, input } = signal_queue.pop_front().unwrap();
    assert_eq!(test_id, id);

    let TestInput::Timeout(signal_timeout) = input else {
        panic!("not a timeout");
    };
    assert!(
        signal_timeout.nanos >= timeout,
        "out[{signal_timeout:?}] >= in[{timeout:?}]"
    );
}

#[test]
fn timeout_cancellation() {
    let clock = Clock::new();
    let mut signal_queue: SignalQueue<TestKind, u8> = StreamableDeque::new();
    let mut timeout_manager = test_default();

    let test_id = StateId::new_rand(TestKind);
    let set_timeout = TimeoutInput::set_timeout_millis(&clock, test_id, 10);

    send(&mut timeout_manager, set_timeout);

    run(&mut timeout_manager, &clock, &mut signal_queue, Duration::from_millis(2));
    let cancel_timeout = TimeoutInput {
        id: test_id,
        op: Operation::Cancel,
    };
    send(&mut timeout_manager, cancel_timeout);

    // wait out the rest of the duration and some ticks
    run(&mut timeout_manager, &clock, &mut signal_queue, Duration::from_millis(12));

    // we should not be getting any signal since the timeout was cancelled
    assert!(signal_queue.pop_front().is_none());
}

// this test ensures that 2/3 timers are cancelled
#[test]
fn partial_timeout_cancellation() {
    let clock = Clock::new();
    let mut signal_queue: SignalQueue<TestKind, u8> = StreamableDeque::new();
    let mut timeout_manager = test_default();

    let id1 = StateId::new_with_u128(TestKind, 1);
    let id2 = StateId::new_with_u128(TestKind, 2); // gets cancelled
    let id3 = StateId::new_with_u128(TestKind, 3); // gets overridden with earlier timeout

    let timeout_duration = Duration::from_millis(5);
    let now = clock.now();
    let timeout = at(now.nanos + timeout_duration.as_nanos());
    let early_timeout = at(timeout.nanos - 2 * MILLI);
    let set_timeout = TimeoutInput {
        id: id1,
        op: Operation::SetAt(timeout),
    };

    send(&mut timeout_manager, set_timeout);
    send(&mut timeout_manager, set_timeout.with_id(id2));
    send(&mut timeout_manager, set_timeout.with_id(id3));

    // id1 should timeout after 5 milliseconds
    // ...
    // id2 cancellation
    send(
        &mut timeout_manager,
        set_timeout.with_id(id2).with_op(Operation::Cancel),
    );
    // id3 should timeout 2 milliseconds earlier than id1
    send(
        &mut timeout_manager,
        set_timeout.with_id(id3).with_op(Operation::SetAt(early_timeout)),
    );

    run(&mut timeout_manager, &clock, &mut signal_queue, timeout_duration * 3);

    let first_timeout = signal_queue.pop_front().unwrap();
    assert_eq!(id3, first_timeout.id);

    let second_timeout = signal_queue.pop_front().unwrap();
    assert_eq!(id1, second_timeout.id);

    // ... and id2 should be cancelled
    assert!(signal_queue.pop_front().is_none());
}

#[test]
fn timeouts_of_one_look_come_in_chronological_order() {
    let mut queue: SignalQueue<TestKind, u8> = StreamableDeque::new();
    let mut manager = test_default();
    queue.push_back(Signal {
        id: id(9),
        input: TestInput::Timeout(at(0)),
    });
    send(&mut manager, set(1, 30));
    send(&mut manager, set(2, 10));
    send(&mut manager, set(3, 20));
    send(&mut manager, set(4, 40));
    let tick = manager.tick_at(at(30), &mut queue);
    assert_eq!(tick.expired, vec![id(2), id(3), id(1)]);
    assert!(tick.ready.is_empty());
    // the timeouts go before what was pushed to the back
    for n in [2, 3, 1] {
        let signal = queue.pop_front().unwrap();
        assert_eq!(signal.id, id(n));
        assert_eq!(signal.input, TestInput::Timeout(at(30)));
    }
    assert_eq!(queue.pop_front().unwrap().id, id(9));
    // the one that was not due yet fires later
    assert_eq!(manager.tick_at(at(39), &mut queue).expired, vec![]);
    assert_eq!(manager.tick_at(at(40), &mut queue).expired, vec![id(4)]);
    assert_eq!(manager.tick_at(at(50), &mut queue).expired, vec![]);
}

#[test]
fn timeouts_at_one_instant_all_fire() {
    let mut ledger: TimeoutLedger<TestKind> = TimeoutLedger::new();
    for n in 1..=3 {
        ledger.set_timeout(id(n), at(5));
        ledger.set_timeout(id(n), at(5));
    }
    ledger.cancel_timeout(id(2));
    ledger.cancel_timeout(id(7));
    let mut expired: Vec<u128> = ledger.expire(at(5)).iter().map(|id| id.uuid).collect();
    expired.sort();
    assert_eq!(expired, vec![1, 3]);
    assert_eq!(ledger.expire(at(5)), vec![]);
}

#[test]
fn renewed_timeouts_fire_when_renewed() {
    let mut ledger: TimeoutLedger<TestKind> = TimeoutLedger::new();
    ledger.set_timeout(id(1), at(5));
    ledger.set_timeout(id(1), at(9));
    assert_eq!(ledger.expire(at(8)), vec![]);
    assert_eq!(ledger.expire(at(9)), vec![id(1)]);
    ledger.set_timeout(id(1), at(20));
    ledger.set_timeout(id(1), at(12));
    assert_eq!(ledger.expire(at(12)), vec![id(1)]);
    assert_eq!(ledger.expire(at(20)), vec![]);
}

#[test]
fn waiting_receivers_are_readied_by_timeouts() {
    let mut queue: SignalQueue<TestKind, u8> = StreamableDeque::new();
    let mut manager = test_default();
    let mut receiver = queue.stream();
    assert!(queue.poll_next(&mut receiver, 7).is_none());
    send(&mut manager, set(1, 1));
    send(&mut manager, set(2, 2));
    let tick = manager.tick_at(at(3), &mut queue);
    assert_eq!(tick.ready, vec![7]);
    assert_eq!(queue.poll_next(&mut receiver, 7).unwrap().id, id(1));
}

#[test]
fn what_is_no_timeout_input_changes_nothing() {
    let mut queue: SignalQueue<TestKind, u8> = StreamableDeque::new();
    let mut manager = test_default();
    send(&mut manager, set(1, 1));
    assert!(!manager.process(Notification(TestMsg::Other)));
    assert!(!manager.apply::<ConversionError>(Err(ConversionError)));
    assert_eq!(manager.tick_at(at(1), &mut queue).expired, vec![id(1)]);
}

#[test]
fn manager_subscribes_to_its_topic() {
    assert_eq!(test_default().get_topics(), &[TestTopic::Timeout]);
}

#[test]
fn operations_are_set_from_now() {
    let Operation::SetAt(instant) = Operation::set_after(at(7), 5) else {
        panic!("not set");
    };
    assert_eq!(instant, at(12));
    let clock = Clock::new();
    let before = clock.now().nanos;
    let Operation::SetAt(instant) = Operation::from_millis(&clock, 3) else {
        panic!("not set");
    };
    let after = clock.now().nanos;
    assert!(before + 3 * MILLI <= instant.nanos && instant.nanos <= after + 3 * MILLI);
    let Operation::SetAt(instant) = Operation::from_duration(&clock, 3) else {
        panic!("not set");
    };
    assert!(after + 3 <= instant.nanos);
    assert!(matches!(
        TimeoutInput::cancel_timeout(id(1)).op,
        Operation::Cancel
    ));
}

#[test]
fn clocks_advance() {
    let clock = Clock::new();
    let runtime = tokio::runtime::Builder::new_current_thread()
        .enable_time()
        .build()
        .unwrap();
    let before = clock.now();
    runtime.block_on(async { tokio::time::sleep(Duration::from_millis(2)).await });
    let after = clock.now();
    assert!(after.nanos >= before.nanos + 2 * MILLI);
}
