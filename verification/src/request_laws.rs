//! When timeouts that were asked for fire.

use vstd::prelude::*;

use crate::kind::{HashKind, Rex};
use crate::notification::{Notification, NotificationProcessor, RexMessage};
use crate::signal::{Signal, SignalQueue};
use crate::state_id::StateId;
use crate::time::{Clock, Moment, MAX_SPAN};
use crate::timeout::{Operation, Tick, TimeoutInput, TimeoutLedger, TimeoutManager};

verus! {

/// A timeout that is asked for, by duration or by milliseconds, is set for the
/// instant that lies the whole duration after a reading of the clock.
pub proof fn instants_lie_the_duration_ahead(
    clock: &Clock,
    nanos: u128,
    millis: u64,
    op: Operation,
)
    requires
        nanos <= MAX_SPAN,
        ({
            ||| call_ensures(Operation::from_duration, (clock, nanos), op)
            ||| nanos == millis * 1_000_000 && call_ensures(
                Operation::from_millis,
                (clock, millis),
                op,
            )
        }),
    ensures
        exists|now: Moment| #[trigger]
            clock.reads(now) && (op matches Operation::SetAt(instant) && instant.nanos - now.nanos
                == nanos),
{
    let now = choose|now: Moment| #[trigger]
        clock.reads(now) && now.nanos <= MAX_SPAN && op == Operation::SetAt(
            Moment { nanos: (now.nanos + nanos) as u128 },
        );
    assert(clock.reads(now));
}

/// The same of an input, which names the id that it is asked for.
pub proof fn inputs_name_id_and_instant<K: HashKind>(
    clock: &Clock,
    id: StateId<K>,
    nanos: u128,
    millis: u64,
    input: TimeoutInput<K>,
)
    requires
        nanos <= MAX_SPAN,
        ({
            ||| call_ensures(TimeoutInput::<K>::set_timeout, (clock, id, nanos), input)
            ||| nanos == millis * 1_000_000 && call_ensures(
                TimeoutInput::<K>::set_timeout_millis,
                (clock, id, millis),
                input,
            )
        }),
    ensures
        input.id == id,
        exists|now: Moment| #[trigger]
            clock.reads(now) && (input.op matches Operation::SetAt(instant) && instant.nanos
                - now.nanos == nanos),
{
    let now = choose|now: Moment| #[trigger]
        clock.reads(now) && now.nanos <= MAX_SPAN && input.op == Operation::SetAt(
            Moment { nanos: (now.nanos + nanos) as u128 },
        );
    assert(clock.reads(now));
}

/// Of two timeouts asked for at one reading, the instants lie as far apart as
/// the durations: the longer one fires later.
pub proof fn longer_durations_end_later(
    now: Moment,
    shorter: u128,
    longer: u128,
    first: Operation,
    second: Operation,
)
    requires
        shorter <= longer,
        now.nanos + longer <= u128::MAX,
        call_ensures(Operation::set_after, (now, shorter), first),
        call_ensures(Operation::set_after, (now, longer), second),
    ensures
        first matches Operation::SetAt(early) && second matches Operation::SetAt(late) && {
            &&& early.nanos >= now.nanos
            &&& late.nanos - early.nanos == longer - shorter
            &&& early.nanos - now.nanos == shorter
        },
{
}

/// A request to cancel names the id and cancels. A request for another id or
/// with another operation keeps the other part.
pub proof fn inputs_keep_their_other_part<K: HashKind>(
    id: StateId<K>,
    op: Operation,
    cancel: TimeoutInput<K>,
    input: TimeoutInput<K>,
    renamed: TimeoutInput<K>,
    changed: TimeoutInput<K>,
)
    requires
        call_ensures(TimeoutInput::<K>::cancel_timeout, (id,), cancel),
        call_ensures(TimeoutInput::<K>::with_id, (&input, id), renamed),
        call_ensures(TimeoutInput::<K>::with_op, (&input, op), changed),
    ensures
        cancel.id == id && cancel.op is Cancel,
        renamed.id == id && renamed.op == input.op,
        changed.id == input.id && changed.op == op,
{
}

/// In a new ledger nothing is due, whenever it is looked through.
pub proof fn new_ledgers_are_empty<K: HashKind>(ledger: TimeoutLedger<K>, id: StateId<K>)
    requires
        call_ensures(TimeoutLedger::<K>::new, (), ledger),
    ensures
        !ledger@.contains_key(id),
{
}

/// Setting a timeout sets that of its id, to its instant, and leaves those of
/// all other ids.
pub proof fn set_timeouts_are_kept<K: HashKind>(
    ledger: &mut TimeoutLedger<K>,
    id: StateId<K>,
    instant: Moment,
    other: StateId<K>,
)
    requires
        old(ledger).wf(),
        call_ensures(TimeoutLedger::<K>::set_timeout, (ledger, id, instant), ()),
    ensures
        final(ledger)@.contains_key(id) && final(ledger)@[id] == instant,
        other != id ==> (final(ledger)@.contains_key(other) <==> old(ledger)@.contains_key(other)),
        other != id && old(ledger)@.contains_key(other) ==> final(ledger)@[other] == old(
            ledger,
        )@[other],
{
}

/// Cancelling a timeout takes that of its id away, and leaves those of all other ids.
pub proof fn cancelled_timeouts_are_gone<K: HashKind>(
    ledger: &mut TimeoutLedger<K>,
    id: StateId<K>,
    other: StateId<K>,
)
    requires
        old(ledger).wf(),
        call_ensures(TimeoutLedger::<K>::cancel_timeout, (ledger, id), ()),
    ensures
        !final(ledger)@.contains_key(id),
        other != id ==> (final(ledger)@.contains_key(other) <==> old(ledger)@.contains_key(other)),
        other != id && old(ledger)@.contains_key(other) ==> final(ledger)@[other] == old(
            ledger,
        )@[other],
{
}

/// Looking through a ledger takes out the timeouts whose instants are reached,
/// no sooner and no later, and leaves the others as they are.
pub proof fn expire_takes_what_is_due<K: HashKind>(
    ledger: &mut TimeoutLedger<K>,
    now: Moment,
    expired: Vec<StateId<K>>,
    id: StateId<K>,
)
    requires
        old(ledger).wf(),
        call_ensures(TimeoutLedger::<K>::expire, (ledger, now), expired),
    ensures
        (exists|i: int| 0 <= i < expired@.len() && #[trigger] expired@[i] == id) <==> old(
            ledger,
        )@.contains_key(id) && old(ledger)@[id].nanos <= now.nanos,
        final(ledger)@.contains_key(id) <==> old(ledger)@.contains_key(id) && now.nanos < old(
            ledger,
        )@[id].nanos,
        final(ledger)@.contains_key(id) ==> final(ledger)@[id] == old(ledger)@[id],
        forall|i: int, j: int|
            #![trigger expired@[i], expired@[j]]
            0 <= i < j < expired@.len() ==> expired@[i] != expired@[j] && old(
                ledger,
            )@[expired@[i]].nanos <= old(ledger)@[expired@[j]].nanos,
{
    assert(expired@.contains(id) <==> exists|i: int|
        0 <= i < expired@.len() && #[trigger] expired@[i] == id);
}

/// A manager that processes an input sets or cancels the timeout of the id that
/// the input names, as it says, and leaves those of all other ids. What is no
/// input changes nothing.
pub proof fn inputs_change_their_timeout<K: Rex, E>(
    manager: &mut TimeoutManager<K>,
    parsed: Result<TimeoutInput<K>, E>,
    valid: bool,
    id: StateId<K>,
)
    requires
        old(manager).ledger.wf(),
        call_ensures(TimeoutManager::<K>::apply::<E>, (manager, parsed), valid),
    ensures
        valid <==> parsed is Ok,
        final(manager).tick_rate == old(manager).tick_rate,
        final(manager).topic == old(manager).topic,
        ({
            let before = old(manager).ledger@;
            let after = final(manager).ledger@;
            match parsed {
                Ok(input) if input.id == id => match input.op {
                    Operation::Cancel => !after.contains_key(id),
                    Operation::SetAt(instant) => after.contains_key(id) && after[id] == instant,
                },
                _ => {
                    &&& after.contains_key(id) <==> before.contains_key(id)
                    &&& before.contains_key(id) ==> after[id] == before[id]
                },
            }
        }),
{
}

/// The same of a notification, which is read as an input first.
pub proof fn notifications_change_their_timeout<K: Rex>(
    manager: &mut TimeoutManager<K>,
    notification: Notification<K::Message>,
    valid: bool,
    id: StateId<K>,
) where K::Message: TryInto<TimeoutInput<K>>
    requires
        old(manager).ledger.wf(),
        call_ensures(TimeoutManager::<K>::process, (manager, notification), valid),
    ensures
        final(manager).tick_rate == old(manager).tick_rate,
        final(manager).topic == old(manager).topic,
        exists|parsed: Result<TimeoutInput<K>, <K::Message as TryInto<TimeoutInput<K>>>::Error>|
            {
                let before = old(manager).ledger@;
                let after = final(manager).ledger@;
                &&& #[trigger] call_ensures(K::Message::try_into, (notification.0,), parsed)
                &&& valid <==> parsed is Ok
                &&& match parsed {
                    Ok(input) if input.id == id => match input.op {
                        Operation::Cancel => !after.contains_key(id),
                        Operation::SetAt(instant) => after.contains_key(id) && after[id]
                            == instant,
                    },
                    _ => {
                        &&& after.contains_key(id) <==> before.contains_key(id)
                        &&& before.contains_key(id) ==> after[id] == before[id]
                    },
                }
            },
{
}

/// A timeout that was asked for fires at a look exactly if by then the whole
/// duration has passed since the reading that it was asked for at.
pub proof fn timeouts_fire_after_the_whole_duration<K: Rex, E, W>(
    now: Moment,
    nanos: u128,
    op: Operation,
    id: StateId<K>,
    asked: &mut TimeoutManager<K>,
    valid: bool,
    looked: &mut TimeoutManager<K>,
    later: Moment,
    queue: &mut SignalQueue<K, W>,
    tick: Tick<K, W>,
)
    requires
        now.nanos + nanos <= u128::MAX,
        old(asked).ledger.wf(),
        old(queue).wf(),
        call_ensures(Operation::set_after, (now, nanos), op),
        call_ensures(
            TimeoutManager::<K>::apply::<E>,
            (asked, Ok::<TimeoutInput<K>, E>(TimeoutInput { id, op })),
            valid,
        ),
        *old(looked) == *final(asked),
        call_ensures(TimeoutManager::<K>::tick_at::<W>, (looked, later, queue), tick),
    ensures
        tick.expired@.contains(id) <==> later.nanos - now.nanos >= nanos,
{
}

/// A tick times out the ids whose instants are reached, keeps the other
/// timeouts, and gives each id that timed out, and that has an input for that,
/// one signal: they are taken behind those that were in front already, before
/// all those in the back, and in the order in which they were due.
pub proof fn ticks_signal_what_is_due<K: Rex, W>(
    manager: &mut TimeoutManager<K>,
    now: Moment,
    queue: &mut SignalQueue<K, W>,
    tick: Tick<K, W>,
    id: StateId<K>,
)
    requires
        old(manager).ledger.wf(),
        old(queue).wf(),
        call_ensures(TimeoutManager::<K>::tick_at::<W>, (manager, now, queue), tick),
    ensures
        final(manager).tick_rate == old(manager).tick_rate,
        final(manager).topic == old(manager).topic,
        tick.expired@.contains(id) <==> old(manager).ledger@.contains_key(id) && old(
            manager,
        ).ledger@[id].nanos <= now.nanos,
        final(manager).ledger@.contains_key(id) <==> old(manager).ledger@.contains_key(id)
            && now.nanos < old(manager).ledger@[id].nanos,
        final(manager).ledger@.contains_key(id) ==> final(manager).ledger@[id] == old(
            manager,
        ).ledger@[id],
        final(queue)@.back == old(queue)@.back,
        exists|signals: Seq<Signal<K>>|
            {
                &&& final(queue)@.front == #[trigger] (old(queue)@.front + signals)
                &&& forall|signal: Signal<K>| #[trigger]
                    signals.contains(signal) <==> tick.expired@.contains(signal.id)
                        && signal.id.kind.input_of_timeout(now) == Some(signal.input)
                &&& forall|i: int, j: int|
                    #![trigger signals[i], signals[j]]
                    0 <= i < j < signals.len() ==> signals[i].id != signals[j].id && old(
                        manager,
                    ).ledger@[signals[i].id].nanos <= old(manager).ledger@[signals[j].id].nanos
                &&& tick.ready@ == old(queue)@.waiting.take(
                    if signals.len() < old(queue)@.waiting.len() {
                        signals.len() as int
                    } else {
                        old(queue)@.waiting.len() as int
                    },
                )
                &&& tick.ready@ + final(queue)@.waiting == old(queue)@.waiting
            },
{
    let signals = crate::timeout::timeout_signals(tick.expired@, now);
    let pushes = crate::timeout::to_front(signals);
    crate::timeout_laws::lemma_front_values(signals);
    crate::queue::lemma_sides(old(queue)@, pushes);
    crate::queue::pushes_notify_in_order(old(queue)@, pushes);
    assert(final(queue)@.back =~= old(queue)@.back);
    assert(final(queue)@.front == old(queue)@.front + signals);
    assert forall|signal: Signal<K>| #[trigger] signals.contains(signal) <==> tick.expired@.contains(
        signal.id,
    ) && signal.id.kind.input_of_timeout(now) == Some(signal.input) by {
        crate::timeout_laws::timeout_signals_go_to_expired(tick.expired@, now, signal);
    }
    lemma_signals_in_order(old(manager).ledger@, now, tick.expired@);
    let n = if signals.len() < old(queue)@.waiting.len() {
        signals.len() as int
    } else {
        old(queue)@.waiting.len() as int
    };
    assert(pushes.len() == signals.len());
    assert(tick.ready@ =~= old(queue)@.waiting.take(n));
    assert(tick.ready@ + final(queue)@.waiting =~= old(queue)@.waiting);
}

proof fn lemma_signals_in_order<K: Rex>(
    due: Map<StateId<K>, Moment>,
    now: Moment,
    order: Seq<StateId<K>>,
)
    requires
        order.no_duplicates(),
        forall|i: int, j: int|
            0 <= i <= j < order.len() ==> due[order[i]].nanos <= due[order[j]].nanos,
    ensures
        forall|i: int, j: int|
            #![trigger crate::timeout::timeout_signals(order, now)[i], crate::timeout::timeout_signals(order, now)[j]]
            0 <= i < j < crate::timeout::timeout_signals(order, now).len()
                ==> crate::timeout::timeout_signals(order, now)[i].id
                != crate::timeout::timeout_signals(order, now)[j].id
                && due[crate::timeout::timeout_signals(order, now)[i].id].nanos
                <= due[crate::timeout::timeout_signals(order, now)[j].id].nanos,
    decreases order.len(),
{
    if order.len() > 0 {
        let earlier = order.drop_last();
        let before = crate::timeout::timeout_signals(earlier, now);
        let signals = crate::timeout::timeout_signals(order, now);
        lemma_signals_in_order(due, now, earlier);
        assert forall|i: int, j: int|
            #![trigger signals[i], signals[j]]
            0 <= i < j < signals.len() implies signals[i].id != signals[j].id
            && due[signals[i].id].nanos <= due[signals[j].id].nanos by {
            assert(signals[i] == before[i]);
            if j < before.len() {
                assert(signals[j] == before[j]);
            } else {
                crate::timeout_laws::timeout_signals_go_to_expired(earlier, now, before[i]);
                assert(before.contains(before[i]));
                let k = choose|k: int| 0 <= k < earlier.len() && earlier[k] == before[i].id;
                assert(order[k] == before[i].id);
                assert(order[order.len() - 1] == signals[j].id);
            }
        }
    }
}

/// A tick by the clock is a tick at a reading of it.
pub proof fn ticks_go_by_the_clock<K: Rex, W>(
    manager: &mut TimeoutManager<K>,
    clock: &Clock,
    queue: &mut SignalQueue<K, W>,
    tick: Tick<K, W>,
    id: StateId<K>,
)
    requires
        old(manager).ledger.wf(),
        old(queue).wf(),
        call_ensures(TimeoutManager::<K>::tick::<W>, (manager, clock, queue), tick),
    ensures
        final(manager).tick_rate == old(manager).tick_rate,
        final(manager).topic == old(manager).topic,
        final(queue)@.back == old(queue)@.back,
        exists|now: Moment|
            {
                &&& #[trigger] clock.reads(now)
                &&& tick.expired@.contains(id) <==> old(manager).ledger@.contains_key(id) && old(
                    manager,
                ).ledger@[id].nanos <= now.nanos
                &&& final(manager).ledger@.contains_key(id) <==> old(
                    manager,
                ).ledger@.contains_key(id) && now.nanos < old(manager).ledger@[id].nanos
                &&& forall|signal: Signal<K>| #[trigger]
                    final(queue)@.front.contains(signal) <==> old(queue)@.front.contains(signal)
                        || (tick.expired@.contains(signal.id) && signal.id.kind.input_of_timeout(now)
                        == Some(signal.input))
            },
{
    let now = choose|now: Moment|
        {
            &&& #[trigger] clock.reads(now)
            &&& now.nanos <= MAX_SPAN
            &&& final(manager).ticked(*old(manager), now, tick)
            &&& final(queue)@ == old(queue)@.after(
                crate::timeout::to_front(crate::timeout::timeout_signals(tick.expired@, now)),
            )
            &&& tick.ready@ == old(queue)@.readied(
                crate::timeout::timeout_signals(tick.expired@, now).len(),
            )
        };
    let signals = crate::timeout::timeout_signals(tick.expired@, now);
    let pushes = crate::timeout::to_front(signals);
    crate::timeout_laws::lemma_front_values(signals);
    crate::queue::lemma_sides(old(queue)@, pushes);
    let front = old(queue)@.front;
    let all = final(queue)@.front;
    assert(all == front + signals);
    assert(final(queue)@.back =~= old(queue)@.back);
    assert forall|signal: Signal<K>| #[trigger] all.contains(signal) <==> front.contains(signal) || (
    tick.expired@.contains(signal.id) && signal.id.kind.input_of_timeout(now) == Some(
        signal.input,
    )) by {
        crate::timeout_laws::timeout_signals_go_to_expired(tick.expired@, now, signal);
        if front.contains(signal) {
            let k = choose|k: int| 0 <= k < front.len() && front[k] == signal;
            assert(all[k] == signal);
        }
        if signals.contains(signal) {
            let k = choose|k: int| 0 <= k < signals.len() && signals[k] == signal;
            assert(all[front.len() + k] == signal);
        }
        if all.contains(signal) && !front.contains(signal) {
            let k = choose|k: int| 0 <= k < all.len() && all[k] == signal;
            if k < front.len() {
                assert(front[k] == signal);
            }
            assert(signals[k - front.len()] == signal);
        }
    }
    assert(clock.reads(now));
}

/// A new manager of timeouts has none, and the rate and the topic that it was given.
pub proof fn new_timeout_managers_keep_what_they_are_given<K: Rex>(
    tick_rate: u128,
    topic: <K::Message as RexMessage>::Topic,
    manager: TimeoutManager<K>,
    id: StateId<K>,
)
    requires
        call_ensures(TimeoutManager::<K>::new, (tick_rate, topic), manager),
    ensures
        manager.tick_rate == tick_rate,
        manager.topic == topic,
        !manager.ledger@.contains_key(id),
{
}

/// A manager of timeouts listens to its one topic, and a copy of an input is
/// the same input.
pub proof fn timeout_managers_listen_to_their_topic<K: Rex>(
    manager: &TimeoutManager<K>,
    topics: &[<K::Message as RexMessage>::Topic],
    input: &TimeoutInput<K>,
    copy: TimeoutInput<K>,
)
    requires
        call_ensures(
            <TimeoutManager<K> as NotificationProcessor<K::Message>>::get_topics,
            (manager,),
            topics,
        ),
        call_ensures(<TimeoutInput<K> as Clone>::clone, (input,), copy),
    ensures
        topics@.len() == 1 && topics@[0] == manager.topic,
        copy.id == input.id && copy.op == input.op,
{
}

/// What a clock shows is a reading of it, and no more than can be counted.
pub proof fn clocks_show_their_readings(clock: &Clock, now: Moment)
    requires
        call_ensures(Clock::now, (clock,), now),
    ensures
        clock.reads(now),
        now.nanos <= MAX_SPAN,
{
}

} // verus!
