use rex::manager::Step;
use rex::node::{Insert, Node};
use rex::queue::{StreamReceiver, StreamableDeque};
use rex::storage::NodeStore;
use rex::time::Moment;
use rex::timeout::{Operation, TimeoutInput, TimeoutManager};
use rex::{
    Coded, ConversionError, GetTopic, Kind, Notification, NotificationManager, ProcessorContext,
    Rex, RexMessage, Signal, State, StateId, StateMachine, StateMachineExt, StateMachineManager,
};

const MILLI: u128 = 1_000_000;

const TEST_TICK_RATE: u128 = MILLI;

const TEST_TIMEOUT: u128 = 11 * MILLI;

#[derive(Clone, Debug)]
struct Packet {
    msg: u64,
    sender: StateId<ComponentKind>,
    who_sleeps: WhoSleeps,
}

#[derive(Clone, Debug)]
#[allow(dead_code)]
enum Input {
    Ping(PingInput),
    Pong(PongInput),
    Menu(MenuInput),
}

// determines whether Ping or Pong will wait before packet send
#[derive(Clone, PartialEq, Debug)]
struct WhoSleeps(Option<ComponentKind>);

#[derive(Clone, PartialEq, Debug)]
enum MenuInput {
    Play(WhoSleeps),
    PingPongComplete,
    FailedPing,
    FailedPong,
}

#[derive(Copy, Clone, PartialEq, Debug)]
enum MenuState {
    Ready,
    Done,
    Failed,
}

#[derive(Copy, Clone, PartialEq, Debug)]
enum PingState {
    Ready,
    Sending,
    Done,
    Failed,
}

#[derive(Clone, Debug)]
#[allow(dead_code)]
enum PingInput {
    StartSending(StateId<ComponentKind>, WhoSleeps),
    Packet(Packet),
    RecvTimeout(Moment),
}

#[derive(Copy, Clone, PartialEq, Debug)]
enum PongState {
    Ready,
    Responding,
    Done,
    Failed,
}

#[derive(Clone, Debug)]
#[allow(dead_code)]
enum PongInput {
    Packet(Packet),
    RecvTimeout(Moment),
}

#[derive(Copy, Clone, PartialEq, Debug)]
enum ComponentState {
    Ping(PingState),
    Pong(PongState),
    Menu(MenuState),
}

impl Coded for ComponentState {
    fn number(self) -> u64 {
        self.code()
    }

    fn number_injective(_a: Self, _b: Self) {}

    fn code(&self) -> u64 {
        match self {
            ComponentState::Ping(PingState::Ready) => 0,
            ComponentState::Ping(PingState::Sending) => 1,
            ComponentState::Ping(PingState::Done) => 2,
            ComponentState::Ping(PingState::Failed) => 3,
            ComponentState::Pong(PongState::Ready) => 4,
            ComponentState::Pong(PongState::Responding) => 5,
            ComponentState::Pong(PongState::Done) => 6,
            ComponentState::Pong(PongState::Failed) => 7,
            ComponentState::Menu(MenuState::Ready) => 8,
            ComponentState::Menu(MenuState::Done) => 9,
            ComponentState::Menu(MenuState::Failed) => 10,
        }
    }
}

impl State for ComponentState {
    type Input = Input;
}

#[derive(Copy, Clone, Debug, Hash, Eq, PartialEq)]
enum ComponentKind {
    Ping,
    Pong,
    Menu,
}

impl Coded for ComponentKind {
    fn number(self) -> u64 {
        self.code()
    }

    fn number_injective(_a: Self, _b: Self) {}

    fn code(&self) -> u64 {
        match self {
            ComponentKind::Ping => 0,
            ComponentKind::Pong => 1,
            ComponentKind::Menu => 2,
        }
    }
}

impl Kind for ComponentKind {
    type State = ComponentState;
    type Input = Input;

    fn initial(self) -> ComponentState {
        self.new_state()
    }

    fn failed(self) -> ComponentState {
        self.failed_state()
    }

    fn completed(self) -> ComponentState {
        self.completed_state()
    }

    fn owner(state: ComponentState) -> ComponentKind {
        ComponentKind::of_state(&state)
    }

    fn new_state(&self) -> ComponentState {
        match self {
            ComponentKind::Ping => ComponentState::Ping(PingState::Ready),
            ComponentKind::Pong => ComponentState::Pong(PongState::Ready),
            ComponentKind::Menu => ComponentState::Menu(MenuState::Ready),
        }
    }

    fn failed_state(&self) -> ComponentState {
        match self {
            ComponentKind::Ping => ComponentState::Ping(PingState::Failed),
            ComponentKind::Pong => ComponentState::Pong(PongState::Failed),
            ComponentKind::Menu => ComponentState::Menu(MenuState::Failed),
        }
    }

    fn completed_state(&self) -> ComponentState {
        match self {
            ComponentKind::Ping => ComponentState::Ping(PingState::Done),
            ComponentKind::Pong => ComponentState::Pong(PongState::Done),
            ComponentKind::Menu => ComponentState::Menu(MenuState::Done),
        }
    }

    fn of_state(state: &ComponentState) -> ComponentKind {
        match state {
            ComponentState::Ping(_) => ComponentKind::Ping,
            ComponentState::Pong(_) => ComponentKind::Pong,
            ComponentState::Menu(_) => ComponentKind::Menu,
        }
    }
}

impl Rex for ComponentKind {
    type Message = TestMsg;

    fn input_of_state(self, state: ComponentState) -> Option<Input> {
        self.state_input(state)
    }

    fn input_of_timeout(self, instant: Moment) -> Option<Input> {
        self.timeout_input(instant)
    }

    fn state_input(&self, state: ComponentState) -> Option<Input> {
        if *self != ComponentKind::Menu {
            return None;
        }

        match state {
            ComponentState::Ping(PingState::Done) => {
                Some(Input::Menu(MenuInput::PingPongComplete))
            }
            ComponentState::Ping(PingState::Failed) => Some(Input::Menu(MenuInput::FailedPing)),
            ComponentState::Pong(PongState::Failed) => Some(Input::Menu(MenuInput::FailedPong)),
            _ => None,
        }
    }

    fn timeout_input(&self, instant: Moment) -> Option<Input> {
        match self {
            ComponentKind::Ping => Some(Input::Ping(PingInput::RecvTimeout(instant))),
            ComponentKind::Pong => Some(Input::Pong(PongInput::RecvTimeout(instant))),
            ComponentKind::Menu => None,
        }
    }
}

#[derive(Debug, Clone, Copy, PartialEq)]
enum TestTopic {
    Timeout,
    Other,
}

impl Coded for TestTopic {
    fn number(self) -> u64 {
        self.code()
    }

    fn number_injective(_a: Self, _b: Self) {}

    fn code(&self) -> u64 {
        match self {
            TestTopic::Timeout => 0,
            TestTopic::Other => 1,
        }
    }
}

#[derive(Debug, Clone)]
enum TestMsg {
    TimeoutInput(TimeoutInput<ComponentKind>),
    Other,
}

impl RexMessage for TestMsg {
    type Topic = TestTopic;
}

impl GetTopic<TestTopic> for TestMsg {
    fn topic(self) -> TestTopic {
        self.get_topic()
    }

    fn get_topic(&self) -> TestTopic {
        match self {
            TestMsg::TimeoutInput(_) => TestTopic::Timeout,
            TestMsg::Other => TestTopic::Other,
        }
    }
}

impl From<TimeoutInput<ComponentKind>> for TestMsg {
    fn from(input: TimeoutInput<ComponentKind>) -> Self {
        TestMsg::TimeoutInput(input)
    }
}

impl TryInto<TimeoutInput<ComponentKind>> for TestMsg {
    type Error = ConversionError;

    fn try_into(self) -> Result<TimeoutInput<ComponentKind>, ConversionError> {
        match self {
            TestMsg::TimeoutInput(input) => Ok(input),
            TestMsg::Other => Err(ConversionError),
        }
    }
}

type Id = StateId<ComponentKind>;

type Ctx = ProcessorContext<ComponentKind, u8>;

/// A program in a time of its own.
struct World {
    now: Moment,
    machines: Vec<Machine>,
    manager: StateMachineManager<ComponentKind, u8>,
    receiver: StreamReceiver,
    timeouts: Vec<TimeoutManager<ComponentKind>>,
    notifications: NotificationManager<TestMsg>,
    failures: Vec<(Id, MenuInput)>,
}

#[derive(Clone, Copy)]
enum Machine {
    Menu,
    Ping,
    Pong,
}

impl StateMachine<ComponentKind> for Machine {
    fn kind(&self) -> ComponentKind {
        self.get_kind()
    }

    fn get_kind(&self) -> ComponentKind {
        match self {
            Machine::Menu => ComponentKind::Menu,
            Machine::Ping => ComponentKind::Ping,
            Machine::Pong => ComponentKind::Pong,
        }
    }
}

impl World {
    fn new(timeouts: Vec<TimeoutManager<ComponentKind>>) -> Self {
        let machines = vec![Machine::Menu, Machine::Ping, Machine::Pong];
        let mut manager = StateMachineManager::new(&machines, StreamableDeque::new(), Vec::new());
        let receiver = manager.context().signal_queue.stream();
        let notifications = NotificationManager::new(&timeouts);
        World {
            now: Moment { nanos: 0 },
            machines,
            manager,
            receiver,
            timeouts,
            notifications,
            failures: vec![],
        }
    }

    fn ctx(&mut self) -> &mut Ctx {
        self.manager.context()
    }

    fn signal(&mut self, id: Id, input: Input) {
        self.ctx().signal_queue.push_back(Signal { id, input });
    }

    fn set_timeout(&mut self, machine: &Machine, id: Id) {
        let op = Operation::set_after(self.now, TEST_TIMEOUT);
        machine.request_timeout(self.ctx(), TimeoutInput { id, op });
    }

    /// Delivers what the machines sent.
    fn deliver(&mut self) {
        let sent: Vec<Notification<TestMsg>> = self.ctx().notification_queue.drain(..).collect();
        for notification in sent {
            for (subscriber, notification) in
                self.notifications.route(notification).into_iter().flatten()
            {
                assert!(self.timeouts[subscriber].process(notification));
            }
        }
    }

    /// Lets the time pass, tick by tick.
    fn sleep(&mut self, duration: u128) {
        let end = self.now.nanos + duration;
        while self.now.nanos < end {
            self.deliver();
            self.now.nanos = std::cmp::min(end, self.now.nanos + TEST_TICK_RATE / 2);
            for timeouts in &mut self.timeouts {
                timeouts.tick_at(self.now, &mut self.manager.context().signal_queue);
            }
        }
    }

    /// Processes signals until there are no more.
    fn run(&mut self) {
        loop {
            match self.manager.step(&mut self.receiver, 1) {
                Step::Wait => return,
                Step::NotFound(id) => panic!("no machine for {id:?}"),
                Step::Process(machine, Signal { id, input }) => {
                    let machine = self.machines[machine];
                    self.process(&machine, id, input);
                }
            }
        }
    }

    fn process(&mut self, machine: &Machine, id: Id, input: Input) {
        let state = machine.get_state(self.ctx(), id);
        if let Some(true) = state.map(Machine::invalid_state) {
            return;
        }
        match (machine, input) {
            (Machine::Menu, Input::Menu(input)) => self.menu(machine, id, input),
            (Machine::Ping, Input::Ping(input)) => self.ping(machine, id, input),
            (Machine::Pong, Input::Pong(input)) => self.pong(machine, id, input),
            (_, input) => panic!("invalid input {input:?}"),
        }
    }

    fn menu(&mut self, machine: &Machine, id: Id, input: MenuInput) {
        match input {
            MenuInput::Play(who_sleeps) => {
                let ping_id = StateId::new_rand(ComponentKind::Ping);
                let pong_id = StateId::new_rand(ComponentKind::Pong);
                // Menu + Ping + Pong
                let menu_tree = Node::new(id)
                    .into_insert(Insert {
                        parent_id: Some(id),
                        id: ping_id,
                    })
                    .into_insert(Insert {
                        parent_id: Some(id),
                        id: pong_id,
                    });

                let entry = NodeStore::new_entry(menu_tree);
                let store = &mut self.ctx().state_store;
                store.insert_entry(id, entry);
                for shared in [ping_id, pong_id] {
                    assert!(store.share_entry(shared, id));
                }

                // signal to Ping state machine
                self.signal(
                    ping_id,
                    Input::Ping(PingInput::StartSending(pong_id, who_sleeps)),
                );
            }
            MenuInput::PingPongComplete => {
                machine.complete(self.ctx(), id);
            }
            failure => {
                let node = machine.get_entry(self.ctx(), id).unwrap();
                let mut ids = vec![node.id];
                ids.extend(node.children.iter().map(|child| child.id));
                // set all states to failed state
                node.update_all_fn(|mut z| {
                    z.node.state = z.node.id.failed_state();
                    z.finish_update()
                });
                // cancel all other timeouts
                for id in ids {
                    machine.cancel_timeout(self.ctx(), id);
                }
                self.failures.push((id, failure));
            }
        }
    }

    fn ping(&mut self, machine: &Machine, id: Id, input: PingInput) {
        match input {
            PingInput::StartSending(pong_id, who_sleeps) => {
                machine.update_state(self.ctx(), id, ComponentState::Ping(PingState::Sending));
                self.signal(
                    pong_id,
                    Input::Pong(PongInput::Packet(Packet {
                        msg: 0,
                        sender: id,
                        who_sleeps,
                    })),
                );
            }
            PingInput::Packet(Packet { msg: 25.., .. }) => {
                machine.complete(self.ctx(), id);
                machine.cancel_timeout(self.ctx(), id);
            }
            PingInput::Packet(Packet {
                mut msg,
                sender,
                who_sleeps,
            }) => {
                self.set_timeout(machine, id);
                msg += 5;

                // sleep after resetting own timeout
                if let WhoSleeps(Some(ComponentKind::Ping)) = who_sleeps {
                    // refresh timeout halfway through sleep
                    let half_sleep = u128::from(msg) * MILLI / 2;
                    self.sleep(half_sleep);
                    self.set_timeout(machine, id);
                    self.sleep(half_sleep);
                }

                self.signal(
                    sender,
                    Input::Pong(PongInput::Packet(Packet {
                        msg,
                        sender: id,
                        who_sleeps,
                    })),
                );
            }
            PingInput::RecvTimeout(_) => {
                machine.fail(self.ctx(), id);
            }
        }
    }

    fn pong(&mut self, machine: &Machine, id: Id, input: PongInput) {
        match input {
            PongInput::Packet(Packet {
                msg: mut msg @ 20..,
                sender,
                who_sleeps,
            }) => {
                msg += 5;
                machine.complete(self.ctx(), id);
                machine.cancel_timeout(self.ctx(), id);
                self.signal(
                    sender,
                    Input::Ping(PingInput::Packet(Packet {
                        msg,
                        sender: id,
                        who_sleeps,
                    })),
                );
            }
            PongInput::Packet(Packet {
                mut msg,
                sender,
                who_sleeps,
            }) => {
                if msg == 0 {
                    machine.update_state(
                        self.ctx(),
                        id,
                        ComponentState::Pong(PongState::Responding),
                    );
                }
                msg += 5;

                if let WhoSleeps(Some(ComponentKind::Pong)) = who_sleeps {
                    // refresh timeout halfway through sleep
                    let half_sleep = u128::from(msg) * MILLI / 2;
                    self.sleep(half_sleep);
                    self.set_timeout(machine, id);
                    self.sleep(half_sleep);
                }

                self.set_timeout(machine, id);
                self.signal(
                    sender,
                    Input::Ping(PingInput::Packet(Packet {
                        msg,
                        sender: id,
                        who_sleeps,
                    })),
                );
            }
            PongInput::RecvTimeout(_) => {
                machine.fail(self.ctx(), id);
            }
        }
    }

    /// Plays, and lets time pass with signals processed as they come.
    fn play(&mut self, menu_id: Id, who_sleeps: WhoSleeps) {
        self.signal(menu_id, Input::Menu(MenuInput::Play(who_sleeps)));
        let end = self.now.nanos + TEST_TIMEOUT * 4;
        while self.now.nanos < end {
            self.run();
            self.sleep(TEST_TICK_RATE);
        }
        self.run();
    }

    fn state(&mut self, id: Id) -> Option<ComponentState> {
        Machine::Menu.get_state(self.ctx(), id)
    }
}

#[test]
fn state_machine() {
    // This test does not have a TimeoutManager
    let mut world = World::new(vec![]);

    let menu_id = StateId::new_rand(ComponentKind::Menu);
    world.signal(menu_id, Input::Menu(MenuInput::Play(WhoSleeps(None))));
    world.run();

    let store = &world.manager.context().state_store;
    let node = store.get(menu_id).unwrap();
    let ping_id = node.children[0].id;
    let pong_id = node.children[1].id;
    assert_eq!(menu_id, node.id);
    assert_eq!(ComponentState::Menu(MenuState::Done), node.state);

    // ensure MenuState is also indexed by ping id
    let node = store.get(ping_id).unwrap();
    let state = node.get_state(ping_id).unwrap();
    assert_eq!(ComponentState::Ping(PingState::Done), *state);

    let node = store.get(pong_id).unwrap();
    let state = node.get_state(pong_id).unwrap();
    assert_eq!(ComponentState::Pong(PongState::Done), *state);
}

#[test]
fn state_machine_timeout() {
    let timeouts = TimeoutManager::new(TEST_TICK_RATE / 2, TestTopic::Timeout);
    let mut world = World::new(vec![timeouts]);

    let menu_id = StateId::new_rand(ComponentKind::Menu);
    world.play(menu_id, WhoSleeps(Some(ComponentKind::Ping)));

    let store = &world.manager.context().state_store;
    let node = store.get(menu_id).unwrap();
    let ping_node = &node.children[0];
    let pong_node = &node.children[1];
    assert_eq!(menu_id, node.id);
    assert_eq!(ComponentState::Menu(MenuState::Failed), node.state);
    assert_eq!(ComponentState::Ping(PingState::Failed), ping_node.state);
    assert_eq!(ComponentState::Pong(PongState::Failed), pong_node.state);

    // Ensure that our Menu failed due to Pong timing out since
    // Ping "slept on" the packet
    assert_eq!(vec![(menu_id, MenuInput::FailedPong)], world.failures);

    // Now fail due to Ping
    world.failures.clear();
    let menu_id = StateId::new_rand(ComponentKind::Menu);
    world.play(menu_id, WhoSleeps(Some(ComponentKind::Pong)));

    let store = &world.manager.context().state_store;
    let node = store.get(menu_id).unwrap();
    let ping_node = &node.children[0];
    let pong_node = &node.children[1];
    assert_eq!(menu_id, node.id);
    assert_eq!(ComponentState::Menu(MenuState::Failed), node.state);
    assert_eq!(ComponentState::Ping(PingState::Failed), ping_node.state);
    assert_eq!(ComponentState::Pong(PongState::Failed), pong_node.state);
    // Ensure that our Menu failed due to Ping
    assert_eq!(vec![(menu_id, MenuInput::FailedPing)], world.failures);
}

fn id(kind: ComponentKind, n: u128) -> Id {
    StateId::new_with_u128(kind, n)
}

/// A menu above ping and pong, each with an entry.
fn family(world: &mut World) -> (Id, Id, Id) {
    let menu = id(ComponentKind::Menu, 1);
    let ping = id(ComponentKind::Ping, 2);
    let pong = id(ComponentKind::Pong, 3);
    let tree = Node::new(menu)
        .into_insert(Insert {
            parent_id: Some(menu),
            id: ping,
        })
        .into_insert(Insert {
            parent_id: Some(menu),
            id: pong,
        });
    let store = &mut world.ctx().state_store;
    store.insert_entry(menu, NodeStore::new_entry(tree));
    assert!(store.share_entry(ping, menu));
    assert!(store.share_entry(pong, ping));
    (menu, ping, pong)
}

#[test]
fn created_entries_are_in_their_first_state() {
    let mut world = World::new(vec![]);
    let (_, ping, _) = family(&mut world);
    let other = id(ComponentKind::Ping, 9);
    assert!(!Machine::Ping.has_entry(world.ctx(), other));
    assert_eq!(world.state(other), None);
    Machine::Ping.create_entry(world.ctx(), other);
    assert!(Machine::Ping.has_entry(world.ctx(), other));
    assert_eq!(world.state(other), Some(ComponentState::Ping(PingState::Ready)));
    assert_eq!(world.state(ping), Some(ComponentState::Ping(PingState::Ready)));
}

#[test]
fn updates_touch_one_state() {
    let mut world = World::new(vec![]);
    let (menu, ping, pong) = family(&mut world);
    let other = id(ComponentKind::Ping, 9);
    Machine::Ping.create_entry(world.ctx(), other);
    let sending = ComponentState::Ping(PingState::Sending);
    Machine::Ping.update_state(world.ctx(), ping, sending);
    assert_eq!(world.state(ping), Some(sending));
    assert_eq!(world.state(menu), Some(ComponentState::Menu(MenuState::Ready)));
    assert_eq!(world.state(pong), Some(ComponentState::Pong(PongState::Ready)));
    assert_eq!(world.state(other), Some(ComponentState::Ping(PingState::Ready)));
    // every id of the tree leads to the same node
    let store = &world.ctx().state_store;
    let node = store.get(pong).unwrap();
    assert_eq!(node.get_state(ping), Some(&sending));
}

#[test]
fn parents_hear_of_their_children() {
    let mut world = World::new(vec![]);
    let (menu, ping, pong) = family(&mut world);
    assert_eq!(Machine::Ping.fail(world.ctx(), ping), None);
    assert_eq!(world.state(ping), Some(ComponentState::Ping(PingState::Failed)));
    let signal = world.ctx().signal_queue.pop_front().unwrap();
    assert_eq!(signal.id, menu);
    assert!(matches!(signal.input, Input::Menu(MenuInput::FailedPing)));
    // a menu has no input for a pong that is done
    Machine::Pong.complete(world.ctx(), pong);
    assert_eq!(world.state(pong), Some(ComponentState::Pong(PongState::Done)));
    assert!(world.ctx().signal_queue.pop_front().is_none());
    // and nobody is above the menu
    Machine::Menu.complete(world.ctx(), menu);
    assert!(world.ctx().signal_queue.pop_front().is_none());
    assert!(Machine::invalid_state(world.state(menu).unwrap()));
    assert!(!Machine::invalid_state(ComponentState::Menu(MenuState::Ready)));
}

#[test]
fn waiting_receivers_are_handed_back_to_be_woken() {
    let mut world = World::new(vec![]);
    let (_, ping, _) = family(&mut world);
    world.run();
    assert_eq!(Machine::Ping.complete(world.ctx(), ping), Some(1));
}

#[test]
fn signals_without_a_machine_are_skipped() {
    let machines: Vec<Machine> = vec![Machine::Ping, Machine::Pong, Machine::Ping];
    let mut manager: StateMachineManager<ComponentKind, u8> =
        StateMachineManager::new(&machines, StreamableDeque::new(), Vec::new());
    let mut receiver = manager.context().signal_queue.stream();
    for kind in [ComponentKind::Menu, ComponentKind::Ping] {
        manager.context().signal_queue.push_back(Signal {
            id: id(kind, 1),
            input: Input::Menu(MenuInput::FailedPing),
        });
    }
    let Step::NotFound(skipped) = manager.step(&mut receiver, 1) else {
        panic!("found a machine");
    };
    assert_eq!(skipped, id(ComponentKind::Menu, 1));
    // of two machines of one kind the last one counts
    let Step::Process(place, _) = manager.step(&mut receiver, 1) else {
        panic!("found no machine");
    };
    assert_eq!(place, 2);
    assert!(matches!(manager.step(&mut receiver, 1), Step::Wait));
}

#[test]
fn runs_take_each_signal_once_in_order() {
    let machines: Vec<Machine> = vec![Machine::Ping, Machine::Pong];
    let mut manager: StateMachineManager<ComponentKind, u8> =
        StateMachineManager::new(&machines, StreamableDeque::new(), Vec::new());
    let mut receiver = manager.context().signal_queue.stream();
    let signal = |kind, n| Signal {
        id: id(kind, n),
        input: Input::Menu(MenuInput::FailedPing),
    };
    let mut taken = vec![];
    let mut step = |manager: &mut StateMachineManager<ComponentKind, u8>| {
        taken.push(match manager.step(&mut receiver, 1) {
            Step::Wait => (9, 0),
            Step::NotFound(id) => (8, id.uuid),
            Step::Process(place, signal) => (place, signal.id.uuid),
        });
    };
    let queue = |manager: &mut StateMachineManager<ComponentKind, u8>, kind, n| {
        manager.context().signal_queue.push_back(signal(kind, n));
    };
    queue(&mut manager, ComponentKind::Pong, 1);
    queue(&mut manager, ComponentKind::Menu, 2);
    queue(&mut manager, ComponentKind::Ping, 3);
    step(&mut manager);
    manager
        .context()
        .signal_queue
        .push_front(signal(ComponentKind::Ping, 4));
    queue(&mut manager, ComponentKind::Ping, 5);
    for _ in 0..5 {
        step(&mut manager);
    }
    assert_eq!(taken, vec![(1, 1), (0, 4), (8, 2), (0, 3), (0, 5), (9, 0)]);
}

#[test]
fn machines_send_notifications() {
    let mut world = World::new(vec![]);
    let ping = id(ComponentKind::Ping, 2);
    Machine::Ping.notify(world.ctx(), Notification(TestMsg::Other));
    let before = world.ctx().clock.now().nanos;
    Machine::Ping.set_timeout(world.ctx(), ping, 5);
    Machine::Ping.set_timeout_millis(world.ctx(), ping, 5);
    Machine::Ping.cancel_timeout(world.ctx(), ping);
    let after = world.ctx().clock.now().nanos;
    let sent = &world.ctx().notification_queue;
    assert_eq!(sent.len(), 4);
    assert!(matches!(sent[0].0, TestMsg::Other));
    for (i, nanos) in [(1, 5), (2, 5 * MILLI)] {
        let TestMsg::TimeoutInput(input) = &sent[i].0 else {
            panic!("another message");
        };
        assert_eq!(input.id, ping);
        let Operation::SetAt(at) = input.op else {
            panic!("not set");
        };
        assert!(before + nanos <= at.nanos && at.nanos <= after + nanos);
    }
    let TestMsg::TimeoutInput(input) = &sent[3].0 else {
        panic!("another message");
    };
    assert_eq!(input.id, ping);
    assert!(matches!(input.op, Operation::Cancel));
}

#[test]
fn removed_entries_leave_the_others() {
    let mut world = World::new(vec![]);
    let (menu, ping, pong) = family(&mut world);
    world.ctx().state_store.remove_entry(ping);
    assert_eq!(world.state(ping), None);
    assert_eq!(world.state(menu), Some(ComponentState::Menu(MenuState::Ready)));
    assert_eq!(world.state(pong), Some(ComponentState::Pong(PongState::Ready)));
    // the tree still holds the state
    let store = &world.ctx().state_store;
    let node = store.get(menu).unwrap();
    assert!(node.get_state(ping).is_some());
    // an entry may be replaced
    let store = &mut world.ctx().state_store;
    store.insert_entry(menu, NodeStore::new_entry(Node::new(menu)));
    assert!(store.get(menu).unwrap().children.is_empty());
    assert_eq!(store.get(pong).unwrap().children.len(), 2);
}

#[test]
fn trees_go_with_their_last_reference() {
    let mut world = World::new(vec![]);
    let (menu, ping, pong) = family(&mut world);
    let store = &mut world.ctx().state_store;
    store.remove_entry(menu);
    store.remove_entry(ping);
    // one reference is left, and others can be made of it
    assert!(store.get(pong).unwrap().get_state(menu).is_some());
    assert!(store.share_entry(menu, pong));
    assert_eq!(store.get(menu).unwrap().id, menu);
    store.remove_entry(pong);
    store.remove_entry(menu);
    for id in [menu, ping, pong] {
        assert!(store.get(id).is_none());
        assert!(!store.share_entry(id, pong));
        assert!(store.get(id).is_none());
    }
    // what comes next starts anew
    store.insert_entry(ping, NodeStore::new_entry(Node::new(ping)));
    assert!(store.share_entry(pong, ping));
    assert_eq!(store.get(pong).unwrap().id, ping);
    assert!(store.get(menu).is_none());
}

#[test]
fn replaced_trees_leave_the_entries_beside_them() {
    let mut world = World::new(vec![]);
    let (menu, ping, pong) = family(&mut world);
    let other = id(ComponentKind::Pong, 9);
    Machine::Pong.create_entry(world.ctx(), other);
    let store = &mut world.ctx().state_store;
    // an id that shares a tree comes to share another
    assert!(store.share_entry(ping, other));
    assert_eq!(store.get(ping).unwrap().id, other);
    assert_eq!(store.get(menu).unwrap().id, menu);
    assert_eq!(store.get(pong).unwrap().id, menu);
    // sharing with itself changes nothing
    assert!(store.share_entry(pong, pong));
    assert_eq!(store.get(pong).unwrap().id, menu);
    // many trees, given up in another order than they came in
    for n in 20..40 {
        let fresh = id(ComponentKind::Ping, n);
        store.insert_entry(fresh, NodeStore::new_entry(Node::new(fresh)));
    }
    for n in (20..40).step_by(2) {
        store.remove_entry(id(ComponentKind::Ping, n));
    }
    for n in 40..60 {
        let fresh = id(ComponentKind::Pong, n);
        store.insert_entry(fresh, NodeStore::new_entry(Node::new(fresh)));
    }
    for n in 20..40 {
        let found = store.get(id(ComponentKind::Ping, n)).map(|node| node.id);
        let kept = (n % 2 == 1).then_some(id(ComponentKind::Ping, n));
        assert_eq!(found, kept);
    }
    for n in 40..60 {
        let id = id(ComponentKind::Pong, n);
        assert_eq!(store.get(id).unwrap().id, id);
    }
    assert_eq!(store.get(pong).unwrap().id, menu);
}
