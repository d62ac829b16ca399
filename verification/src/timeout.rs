//! Timeouts of state machines.

use vstd::prelude::*;

use std::collections::BTreeMap;

use crate::kind::{HashKind, Rex};
use crate::notification::{Notification, NotificationProcessor, RexMessage};
use crate::queue::Push;
use crate::signal::{Signal, SignalQueue};
use crate::state_id::StateId;
use crate::time::{Clock, Moment, MAX_SPAN, NANOS_PER_MILLI};

verus! {

/// The interval at which a ledger is looked through unless another one is
/// asked for: three milliseconds, in nanoseconds.
pub const DEFAULT_TICK_RATE: u128 = 3_000_000;

/// What is to be done to a timeout.
#[derive(Copy, Clone, Debug)]
pub enum Operation {
    Cancel,
    SetAt(Moment),
}

impl Operation {
    /// This sets a timeout `nanos` nanoseconds after a reading of `clock`.
    pub open spec fn set_from(self, clock: Clock, nanos: nat) -> bool {
        exists|now: Moment| #[trigger]
            clock.reads(now) && now.nanos <= MAX_SPAN && self == Operation::SetAt(
                Moment { nanos: (now.nanos + nanos) as u128 },
            )
    }

    /// Sets a timeout `nanos` nanoseconds after `now`.
    pub fn set_after(now: Moment, nanos: u128) -> (op: Self)
        requires
            now.nanos + nanos <= u128::MAX,
        ensures
            op == Operation::SetAt(Moment { nanos: (now.nanos + nanos) as u128 }),
    {
        Self::SetAt(Moment { nanos: now.nanos + nanos })
    }

    /// Sets a timeout `nanos` nanoseconds from the time that `clock` shows.
    pub fn from_duration(clock: &Clock, nanos: u128) -> (op: Self)
        requires
            nanos <= MAX_SPAN,
        ensures
            op.set_from(*clock, nanos as nat),
    {
        Self::set_after(clock.now(), nanos)
    }

    /// Sets a timeout `millis` milliseconds from the time that `clock` shows.
    pub fn from_millis(clock: &Clock, millis: u64) -> (op: Self)
        ensures
            op.set_from(*clock, (millis * NANOS_PER_MILLI) as nat),
    {
        Self::set_after(clock.now(), millis as u128 * NANOS_PER_MILLI)
    }
}

/// Asks for a timeout of the state machine `id` to be set or cancelled.
#[derive(Debug)]
pub struct TimeoutInput<K: HashKind> {
    pub id: StateId<K>,
    pub op: Operation,
}

impl<K: HashKind> Clone for TimeoutInput<K> {
    fn clone(&self) -> (input: Self)
        ensures
            input == *self,
    {
        *self
    }
}

impl<K: HashKind> Copy for TimeoutInput<K> {

}

impl<K: HashKind> TimeoutInput<K> {
    pub fn set_timeout_millis(clock: &Clock, id: StateId<K>, millis: u64) -> (input: Self)
        ensures
            input.id == id,
            input.op.set_from(*clock, (millis * NANOS_PER_MILLI) as nat),
    {
        Self { id, op: Operation::from_millis(clock, millis) }
    }

    pub fn set_timeout(clock: &Clock, id: StateId<K>, nanos: u128) -> (input: Self)
        requires
            nanos <= MAX_SPAN,
        ensures
            input.id == id,
            input.op.set_from(*clock, nanos as nat),
    {
        Self { id, op: Operation::from_duration(clock, nanos) }
    }

    pub fn cancel_timeout(id: StateId<K>) -> (input: Self)
        ensures
            input == (TimeoutInput { id, op: Operation::Cancel }),
    {
        Self { id, op: Operation::Cancel }
    }

    pub fn with_id(&self, id: StateId<K>) -> (input: Self)
        ensures
            input == (TimeoutInput { id, op: self.op }),
    {
        Self { id, ..*self }
    }

    pub fn with_op(&self, op: Operation) -> (input: Self)
        ensures
            input == (TimeoutInput { id: self.id, op }),
    {
        Self { op, ..*self }
    }
}

/// `TimeoutLedger` contains a [`BTreeMap`] that uses instants to time out
/// specific [`StateId`]s and a second one that indexes instants by [`StateId`].
///
/// This double indexing allows [`Operation::Cancel`]s to go
/// through without having to provide an instant.
pub struct TimeoutLedger<K: HashKind> {
    timers: BTreeMap<u128, Vec<StateId<K>>>,
    ids: BTreeMap<(u64, u128), Moment>,
}

impl<K: HashKind> View for TimeoutLedger<K> {
    type V = Map<StateId<K>, Moment>;

    /// The instants at which ids time out.
    closed spec fn view(&self) -> Map<StateId<K>, Moment> {
        Map::new(
            |id: StateId<K>| self.ids@.contains_key(id.key()),
            |id: StateId<K>| self.ids@[id.key()],
        )
    }
}

impl<K: HashKind> TimeoutLedger<K> {
    /// `id` is listed among those that time out at `nanos`.
    spec fn listed(self, id: StateId<K>, nanos: u128) -> bool {
        self.timers@.contains_key(nanos) && self.timers@[nanos]@.contains(id)
    }

    /// Both indexes hold the same timeouts, each once.
    pub closed spec fn wf(self) -> bool {
        &&& forall|id: StateId<K>, nanos: u128| #[trigger]
            self.listed(id, nanos) <==> self@.contains_key(id) && self@[id].nanos == nanos
        &&& forall|nanos: u128|
            self.timers@.contains_key(nanos) ==> (#[trigger] self.timers@[nanos])@.no_duplicates()
    }

    pub fn new() -> (ledger: Self)
        ensures
            ledger.wf(),
            ledger@ == Map::<StateId<K>, Moment>::empty(),
    {
        let ledger = Self { timers: BTreeMap::new(), ids: BTreeMap::new() };
        assert(ledger@ =~= Map::<StateId<K>, Moment>::empty());
        ledger
    }

    /// Takes `id` off the list of those that time out at `nanos`.
    fn unlist(&mut self, id: StateId<K>, nanos: u128)
        requires
            forall|n: u128|
                old(self).timers@.contains_key(n) ==> (
                #[trigger] old(self).timers@[n])@.no_duplicates(),
        ensures
            final(self).ids == old(self).ids,
            forall|n: u128|
                final(self).timers@.contains_key(n) ==> (
                #[trigger] final(self).timers@[n])@.no_duplicates(),
            forall|x: StateId<K>, n: u128| #[trigger]
                final(self).listed(x, n) <==> old(self).listed(x, n) && !(x == id && n == nanos),
    {
        if let Some(list) = self.timers.remove(&nanos) {
            let mut list = list;
            let ghost before = list@;
            let mut i: usize = 0;
            while i < list.len() && !list[i].same(&id)
                invariant
                    i <= list@.len(),
                    forall|j: int| 0 <= j < i ==> list@[j] != id,
                decreases list@.len() - i,
            {
                i += 1;
            }
            if i < list.len() {
                list.swap_remove(i);
            }
            self.timers.insert(nanos, list);
            proof {
                crate::lists::lemma_swap_removed(before, list@, id, i as int);
            }
            assert forall|x: StateId<K>, n: u128| #[trigger]
                self.listed(x, n) <==> old(self).listed(x, n) && !(x == id && n == nanos) by {
                assert(before == old(self).timers@[nanos]@);
            }
        }
    }

    /// Puts `id` on the list of those that time out at `nanos`.
    fn enlist(&mut self, id: StateId<K>, nanos: u128)
        requires
            forall|n: u128|
                old(self).timers@.contains_key(n) ==> (
                #[trigger] old(self).timers@[n])@.no_duplicates(),
        ensures
            final(self).ids == old(self).ids,
            forall|n: u128|
                final(self).timers@.contains_key(n) ==> (
                #[trigger] final(self).timers@[n])@.no_duplicates(),
            forall|x: StateId<K>, n: u128| #[trigger]
                final(self).listed(x, n) <==> old(self).listed(x, n) || (x == id && n == nanos),
    {
        let mut list = match self.timers.remove(&nanos) {
            Some(list) => list,
            None => Vec::new(),
        };
        let ghost before = list@;
        let mut i: usize = 0;
        while i < list.len() && !list[i].same(&id)
            invariant
                i <= list@.len(),
                forall|j: int| 0 <= j < i ==> list@[j] != id,
            decreases list@.len() - i,
        {
            i += 1;
        }
        if i == list.len() {
            list.push(id);
        }
        self.timers.insert(nanos, list);
        proof {
            assert forall|x: StateId<K>| #[trigger] list@.contains(x) <==> before.contains(x) || x
                == id by {
                if before.contains(x) {
                    let k = choose|k: int| 0 <= k < before.len() && before[k] == x;
                    assert(list@[k] == x);
                }
                if x == id {
                    assert(list@[i as int] == x);
                }
            }
            assert forall|x: StateId<K>, n: u128| #[trigger]
                self.listed(x, n) <==> old(self).listed(x, n) || (x == id && n == nanos) by {
                if old(self).timers@.contains_key(nanos) {
                    assert(before == old(self).timers@[nanos]@);
                }
            }
        }
    }

    /// set timeout for a given instant and associate it with a given id
    /// remove old instants associated with the same id if they exist
    pub fn set_timeout(&mut self, id: StateId<K>, instant: Moment)
        requires
            old(self).wf(),
        ensures
            final(self).wf(),
            final(self)@ == old(self)@.insert(id, instant),
    {
        proof {
            old(self).lemma_view(id);
        }
        let old_instant = self.ids.insert(id.get_key(), instant);
        assert(self@ =~= old(self)@.insert(id, instant)) by {
            assert forall|x: StateId<K>| x.key() == id.key() implies x == id by {
                StateId::key_injective(x, id);
            }
        }
        let ghost renewed = *self;
        if let Some(old_instant) = old_instant {
            // remove older reference to id
            // if instants differ
            if old_instant.nanos != instant.nanos {
                self.unlist(id, old_instant.nanos);
            }
        }
        assert(self@ =~= renewed@);
        let ghost unlisted = *self;
        self.enlist(id, instant.nanos);
        assert(self@ =~= renewed@);
        assert(self.wf()) by {
            assert forall|x: StateId<K>, n: u128| #[trigger]
                self.listed(x, n) <==> self@.contains_key(x) && self@[x].nanos == n by {
                assert(renewed.listed(x, n) == old(self).listed(x, n));
                assert(unlisted.listed(x, n) <==> (renewed.listed(x, n) && !(x == id && n
                    != instant.nanos)));
            }
        }
    }

    /// remove existing timeout by id, this removes
    /// one entry in `self.ids` and one entry in `self.timers[id_instant]`
    pub fn cancel_timeout(&mut self, id: StateId<K>)
        requires
            old(self).wf(),
        ensures
            final(self).wf(),
            final(self)@ == old(self)@.remove(id),
    {
        proof {
            old(self).lemma_view(id);
        }
        let instant = self.ids.remove(&id.get_key());
        assert(self@ =~= old(self)@.remove(id)) by {
            assert forall|x: StateId<K>| x.key() == id.key() implies x == id by {
                StateId::key_injective(x, id);
            }
        }
        let ghost removed = *self;
        if let Some(instant) = instant {
            // remove reference to id
            // from associated instant
            self.unlist(id, instant.nanos);
        }
        assert(self@ =~= removed@);
        assert(self.wf()) by {
            assert forall|x: StateId<K>, n: u128| #[trigger]
                self.listed(x, n) <==> self@.contains_key(x) && self@[x].nanos == n by {
                assert(removed.listed(x, n) == old(self).listed(x, n));
            }
        }
    }

    /// Takes out every timeout that is set for `nanos`.
    fn retire(&mut self, nanos: u128) -> (list: Vec<StateId<K>>)
        requires
            old(self).wf(),
        ensures
            final(self).wf(),
            final(self).timers@ == old(self).timers@.remove(nanos),
            list@.no_duplicates(),
            forall|id: StateId<K>| #[trigger]
                list@.contains(id) <==> old(self)@.contains_key(id) && old(self)@[id].nanos
                    == nanos,
            final(self)@ == old(self)@.remove_keys(list@.to_set()),
    {
        let list = match self.timers.remove(&nanos) {
            Some(list) => list,
            None => Vec::new(),
        };
        assert forall|id: StateId<K>| #[trigger] list@.contains(id) <==> old(self)@.contains_key(id)
            && old(self)@[id].nanos == nanos by {
            assert(old(self).listed(id, nanos) <==> list@.contains(id));
        }
        let ghost taken = self.timers;
        let mut i: usize = 0;
        assert(self@ =~= old(self)@);
        while i < list.len()
            invariant
                i <= list@.len(),
                self.timers == taken,
                forall|id: StateId<K>| #[trigger]
                    self@.contains_key(id) <==> old(self)@.contains_key(id) && !list@.take(
                        i as int,
                    ).contains(id),
                forall|id: StateId<K>| #[trigger]
                    self@.contains_key(id) ==> self@[id] == old(self)@[id],
            decreases list@.len() - i,
        {
            let id = list[i];
            let ghost before = *self;
            self.ids.remove(&id.get_key());
            assert(self@ =~= before@.remove(id)) by {
                assert forall|x: StateId<K>| x.key() == id.key() implies x == id by {
                    StateId::key_injective(x, id);
                }
            }
            proof {
                let seen = list@.take(i as int);
                let more = list@.take(i + 1);
                assert(more =~= seen.push(id));
                assert forall|x: StateId<K>| #[trigger] more.contains(x) <==> seen.contains(x) || x
                    == id by {
                    if seen.contains(x) {
                        let k = choose|k: int| 0 <= k < seen.len() && seen[k] == x;
                        assert(more[k] == x);
                    }
                    assert(more[i as int] == id);
                }
            }
            i += 1;
        }
        assert(list@.take(i as int) =~= list@);
        assert(self@ =~= old(self)@.remove_keys(list@.to_set()));
        assert(self.wf()) by {
            assert forall|x: StateId<K>, n: u128| #[trigger]
                self.listed(x, n) <==> self@.contains_key(x) && self@[x].nanos == n by {
                assert(old(self).listed(x, n) <==> old(self)@.contains_key(x) && old(
                    self,
                )@[x].nanos == n);
                assert(list@.contains(x) <==> old(self)@.contains_key(x) && old(self)@[x].nanos
                    == nanos);
            }
        }
        list
    }

    /// Lists the instants up to `now` for which timeouts are set, earliest first.
    fn due(&self, now: Moment) -> (due: Vec<u128>)
        ensures
            forall|i: int, j: int| 0 <= i < j < due@.len() ==> due@[i] < due@[j],
            forall|n: u128| #[trigger]
                due@.contains(n) <==> self.timers@.contains_key(n) && n <= now.nanos,
    {
        let mut due: Vec<u128> = Vec::new();
        let entries = self.timers.iter();
        let ghost remaining = vstd::std_specs::iter::IteratorSpec::remaining(&entries);
        let ghost keys = remaining.map_values(|entry: (&u128, &Vec<StateId<K>>)| *entry.0);
        proof {
            lemma_increasing(keys);
        }
        for entry in it: entries
            invariant
                forall|i: int, j: int| 0 <= i < j < keys.len() ==> keys[i] < keys[j],
                keys.len() == it.seq().len(),
                forall|i: int| 0 <= i < keys.len() ==> keys[i] == *(#[trigger] it.seq()[i]).0,
                forall|i: int, j: int| 0 <= i < j < due@.len() ==> due@[i] < due@[j],
                forall|n: u128| #[trigger]
                    due@.contains(n) <==> n <= now.nanos && keys.take(it.index()).contains(n),
        {
            let ghost before = due@;
            if *entry.0 <= now.nanos {
                due.push(*entry.0);
            }
            proof {
                let k = it.index();
                crate::lists::lemma_push_contains(keys.take(k), keys[k]);
                crate::lists::lemma_push_contains(before, keys[k]);
                assert(keys.take(k + 1) =~= keys.take(k).push(keys[k]));
                assert forall|i: int| 0 <= i < before.len() implies before[i] < keys[k] by {
                    assert(before.contains(before[i]));
                    let m = choose|m: int| 0 <= m < k && keys.take(k)[m] == before[i];
                    assert(keys[m] == before[i]);
                }
            }
        }
        proof {
            assert(keys.take(keys.len() as int) =~= keys);
            assert forall|n: u128| #[trigger] due@.contains(n) <==> self.timers@.contains_key(n)
                && n <= now.nanos by {
                if keys.contains(n) {
                    let k = choose|k: int| 0 <= k < keys.len() && keys[k] == n;
                    assert(self.timers@.contains_key(*remaining[k].0));
                }
                if self.timers@.contains_key(n) {
                    let k = choose|k: int|
                        0 <= k < remaining.len() && remaining[k] == (&n, &self.timers@[n]);
                    assert(keys[k] == n);
                }
            }
        }
        due
    }

    /// Takes out every timeout that is due at `now`, and returns the ids that
    /// timed out, those that were due earlier first.
    pub fn expire(&mut self, now: Moment) -> (expired: Vec<StateId<K>>)
        requires
            old(self).wf(),
        ensures
            final(self).wf(),
            expired_at(old(self)@, now, expired@),
            final(self)@ == pending_after(old(self)@, now),
    {
        // Get all instants where `instant <= now`
        let due = self.due(now);
        let mut expired: Vec<StateId<K>> = Vec::new();
        let mut i: usize = 0;
        while i < due.len()
            invariant
                i <= due@.len(),
                self.wf(),
                forall|i: int, j: int| 0 <= i < j < due@.len() ==> due@[i] < due@[j],
                expired_up_to(old(self)@, due@.take(i as int), expired@),
                self@ == old(self)@.remove_keys(expired@.to_set()),
            decreases due@.len() - i,
        {
            let ghost before = expired@;
            let mut list = self.retire(due[i]);
            let ghost retired = list@;
            expired.append(&mut list);
            proof {
                lemma_expired_next(old(self)@, due@.take(i as int), before, due@[i as int], retired);
                assert(due@.take(i + 1) =~= due@.take(i as int).push(due@[i as int]));
                assert(self@ =~= old(self)@.remove_keys(expired@.to_set()));
            }
            i += 1;
        }
        proof {
            assert(due@.take(i as int) =~= due@);
            assert forall|id: StateId<K>| #[trigger] expired@.contains(id) <==> old(
                self,
            )@.contains_key(id) && old(self)@[id].nanos <= now.nanos by {
                if old(self)@.contains_key(id) {
                    assert(old(self).listed(id, old(self)@[id].nanos));
                }
            }
            assert(self@ =~= pending_after(old(self)@, now));
        }
        expired
    }

    proof fn lemma_view(self, id: StateId<K>)
        ensures
            self@.contains_key(id) <==> self.ids@.contains_key(id.key()),
            self@.contains_key(id) ==> self@[id] == self.ids@[id.key()],
    {
    }
}

/// The timeouts of `due` after `input` was processed.
pub open spec fn applied<K: HashKind>(
    due: Map<StateId<K>, Moment>,
    input: TimeoutInput<K>,
) -> Map<StateId<K>, Moment> {
    match input.op {
        Operation::Cancel => due.remove(input.id),
        Operation::SetAt(instant) => due.insert(input.id, instant),
    }
}

/// The signals of ids that timed out, found at `now`. An id whose kind has no
/// input for timeouts gets none.
pub open spec fn timeout_signals<K: Rex>(order: Seq<StateId<K>>, now: Moment) -> Seq<Signal<K>>
    decreases order.len(),
{
    if order.len() == 0 {
        Seq::empty()
    } else {
        let before = timeout_signals(order.drop_last(), now);
        let id = order.last();
        match id.kind.input_of_timeout(now) {
            Some(input) => before.push(Signal { id, input }),
            None => before,
        }
    }
}

/// Each of `values`, pushed to the front.
pub open spec fn to_front<T>(values: Seq<T>) -> Seq<Push<T>> {
    values.map_values(|value: T| Push::Front(value))
}

/// What one look at the ledger did.
pub struct Tick<K: Rex, W> {
    /// The ids that timed out.
    pub expired: Vec<StateId<K>>,
    /// The handles of the receivers that have a signal to take now.
    pub ready: Vec<W>,
}

/// Processes incoming [`TimeoutInput`]s and modifies the [`TimeoutLedger`].
pub struct TimeoutManager<K: Rex> {
    /// The interval at which the ledger is looked through for timeouts, in nanoseconds.
    pub tick_rate: u128,
    pub topic: <K::Message as RexMessage>::Topic,
    pub ledger: TimeoutLedger<K>,
}

impl<K: Rex> TimeoutManager<K> {
    pub fn new(tick_rate: u128, topic: <K::Message as RexMessage>::Topic) -> (manager: Self)
        ensures
            manager.ledger.wf(),
            manager.ledger@ == Map::<StateId<K>, Moment>::empty(),
            manager.tick_rate == tick_rate,
            manager.topic == topic,
    {
        Self { tick_rate, topic, ledger: TimeoutLedger::new() }
    }

    /// Processes what a notification was read as, and returns whether it was
    /// read as a [`TimeoutInput`].
    pub fn apply<E>(&mut self, parsed: Result<TimeoutInput<K>, E>) -> (valid: bool)
        requires
            old(self).ledger.wf(),
        ensures
            final(self).processed(*old(self), parsed, valid),
    {
        match parsed {
            Ok(TimeoutInput { id, op }) => {
                match op {
                    Operation::Cancel => {
                        self.ledger.cancel_timeout(id);
                    },
                    Operation::SetAt(instant) => {
                        self.ledger.set_timeout(id, instant);
                    },
                }
                true
            },
            Err(_) => false,
        }
    }

    /// This manager is `before` with `parsed` processed: an input changes the
    /// one timeout that it names, and anything else changes nothing.
    pub open spec fn processed<E>(
        self,
        before: Self,
        parsed: Result<TimeoutInput<K>, E>,
        valid: bool,
    ) -> bool {
        &&& self.ledger.wf()
        &&& self.tick_rate == before.tick_rate
        &&& self.topic == before.topic
        &&& match parsed {
            Ok(input) => valid && self.ledger@ == applied(before.ledger@, input),
            Err(_) => !valid && self.ledger@ == before.ledger@,
        }
    }

    /// Reads a notification as a [`TimeoutInput`] and processes it. Returns
    /// whether it could be read.
    pub fn process(&mut self, notification: Notification<K::Message>) -> (valid: bool) where
        K::Message: TryInto<TimeoutInput<K>>,

        requires
            old(self).ledger.wf(),
        ensures
            exists|parsed: Result<TimeoutInput<K>, <K::Message as TryInto<TimeoutInput<K>>>::Error>|
                {
                    &&& #[trigger] call_ensures(K::Message::try_into, (notification.0,), parsed)
                    &&& final(self).processed(*old(self), parsed, valid)
                },
    {
        let parsed = notification.0.try_into();
        self.apply(parsed)
    }

    /// This manager is `before` without the timeouts that were due at `now`,
    /// which are those that `tick` tells of.
    pub open spec fn ticked<W>(self, before: Self, now: Moment, tick: Tick<K, W>) -> bool {
        &&& self.ledger.wf()
        &&& self.tick_rate == before.tick_rate
        &&& self.topic == before.topic
        &&& expired_at(before.ledger@, now, tick.expired@)
        &&& self.ledger@ == pending_after(before.ledger@, now)
    }

    /// Times out what is due at the time that `clock` shows.
    pub fn tick<W>(&mut self, clock: &Clock, queue: &mut SignalQueue<K, W>) -> (tick: Tick<K, W>)
        requires
            old(self).ledger.wf(),
            old(queue).wf(),
        ensures
            final(queue).wf(),
            exists|now: Moment|
                {
                    &&& #[trigger] clock.reads(now)
                    &&& now.nanos <= MAX_SPAN
                    &&& final(self).ticked(*old(self), now, tick)
                    &&& final(queue)@ == old(queue)@.after(
                        to_front(timeout_signals(tick.expired@, now)),
                    )
                    &&& tick.ready@ == old(queue)@.readied(
                        timeout_signals(tick.expired@, now).len(),
                    )
                },
    {
        let now = clock.now();
        self.tick_at(now, queue)
    }

    /// Times out what is due at `now`, and puts the signals of the ids that
    /// timed out into the front of `queue`.
    ///
    /// Later timeouts are behind earlier ones in the queue.
    pub fn tick_at<W>(&mut self, now: Moment, queue: &mut SignalQueue<K, W>) -> (tick: Tick<K, W>)
        requires
            old(self).ledger.wf(),
            old(queue).wf(),
        ensures
            final(self).ticked(*old(self), now, tick),
            final(queue).wf(),
            final(queue)@ == old(queue)@.after(to_front(timeout_signals(tick.expired@, now))),
            tick.ready@ == old(queue)@.readied(timeout_signals(tick.expired@, now).len()),
    {
        let expired = self.ledger.expire(now);
        let mut ready: Vec<W> = Vec::new();
        let mut i: usize = 0;
        assert(to_front(timeout_signals(expired@.take(0), now)) =~= Seq::empty());
        while i < expired.len()
            invariant
                i <= expired@.len(),
                queue.wf(),
                queue@ == old(queue)@.after(
                    to_front(timeout_signals(expired@.take(i as int), now)),
                ),
                ready@ == old(queue)@.readied(timeout_signals(expired@.take(i as int), now).len()),
            decreases expired@.len() - i,
        {
            let id = expired[i];
            proof {
                assert(expired@.take(i + 1).drop_last() =~= expired@.take(i as int));
            }
            if let Some(input) = id.kind.timeout_input(now) {
                proof {
                    let signal = Signal { id, input };
                    let before = timeout_signals(expired@.take(i as int), now);
                    assert(to_front(before.push(signal)) =~= to_front(before).push(
                        Push::Front(signal),
                    ));
                    crate::queue::lemma_push_readies(
                        old(queue)@,
                        to_front(before),
                        Push::Front(signal),
                    );
                }
                if let Some(handle) = queue.push_front(Signal { id, input }) {
                    ready.push(handle);
                }
            }
            i += 1;
        }
        assert(expired@.take(i as int) =~= expired@);
        Tick { expired, ready }
    }
}

impl<K: Rex> NotificationProcessor<K::Message> for TimeoutManager<K> {
    fn get_topics(&self) -> (topics: &[<K::Message as RexMessage>::Topic])
        ensures
            topics@ == seq![self.topic],
    {
        core::slice::from_ref(&self.topic)
    }
}

/// `order` holds the ids that `due` sets a timeout for at `now` or before, each
/// once, and those with earlier timeouts before those with later ones. Ids that
/// time out at the same instant may come in any order.
pub open spec fn expired_at<K: HashKind>(
    due: Map<StateId<K>, Moment>,
    now: Moment,
    order: Seq<StateId<K>>,
) -> bool {
    &&& order.no_duplicates()
    &&& forall|id: StateId<K>| #[trigger]
        order.contains(id) <==> due.contains_key(id) && due[id].nanos <= now.nanos
    &&& forall|i: int, j: int|
        0 <= i <= j < order.len() ==> due[order[i]].nanos <= due[order[j]].nanos
}

/// The timeouts of `due` that are set for an instant after `now`.
pub open spec fn pending_after<K: HashKind>(
    due: Map<StateId<K>, Moment>,
    now: Moment,
) -> Map<StateId<K>, Moment> {
    due.restrict(due.dom().filter(|id: StateId<K>| now.nanos < due[id].nanos))
}

/// `order` holds the ids that `due` sets a timeout for at one of `times`, each
/// once, and those with earlier timeouts before those with later ones.
spec fn expired_up_to<K: HashKind>(
    due: Map<StateId<K>, Moment>,
    times: Seq<u128>,
    order: Seq<StateId<K>>,
) -> bool {
    &&& order.no_duplicates()
    &&& forall|id: StateId<K>| #[trigger]
        order.contains(id) <==> due.contains_key(id) && times.contains(due[id].nanos)
    &&& forall|i: int, j: int|
        0 <= i <= j < order.len() ==> due[order[i]].nanos <= due[order[j]].nanos
}

proof fn lemma_expired_next<K: HashKind>(
    due: Map<StateId<K>, Moment>,
    times: Seq<u128>,
    order: Seq<StateId<K>>,
    time: u128,
    list: Seq<StateId<K>>,
)
    requires
        expired_up_to(due, times, order),
        forall|i: int| 0 <= i < times.len() ==> times[i] < time,
        list.no_duplicates(),
        forall|id: StateId<K>| #[trigger]
            list.contains(id) <==> due.remove_keys(order.to_set()).contains_key(id)
                && due.remove_keys(order.to_set())[id].nanos == time,
    ensures
        expired_up_to(due, times.push(time), order + list),
        forall|id: StateId<K>| #[trigger]
            (order + list).contains(id) <==> order.contains(id) || list.contains(id),
{
    let all = order + list;
    crate::lists::lemma_push_contains(times, time);
    assert forall|id: StateId<K>| #[trigger] all.contains(id) <==> order.contains(id)
        || list.contains(id) by {
        if order.contains(id) {
            let k = choose|k: int| 0 <= k < order.len() && order[k] == id;
            assert(all[k] == id);
        }
        if list.contains(id) {
            let k = choose|k: int| 0 <= k < list.len() && list[k] == id;
            assert(all[order.len() + k] == id);
        }
    }
    assert forall|i: int| 0 <= i < order.len() implies (#[trigger] due[order[i]]).nanos < time by {
        assert(order.contains(order[i]));
    }
    assert forall|i: int| 0 <= i < list.len() implies (#[trigger] due[list[i]]).nanos == time
        && !order.contains(list[i]) by {
        assert(list.contains(list[i]));
    }
    assert forall|id: StateId<K>| #[trigger] all.contains(id) <==> due.contains_key(id)
        && times.push(time).contains(due[id].nanos) by {
    }
    assert forall|i: int, j: int| 0 <= i < j < all.len() implies all[i] != all[j] by {
        if i < order.len() && j >= order.len() {
            assert(order.contains(order[i]));
            assert(due[list[j - order.len()]].nanos == time);
        }
    }
    assert forall|i: int, j: int| 0 <= i <= j < all.len() implies due[all[i]].nanos
        <= due[all[j]].nanos by {
        if j >= order.len() {
            assert(due[list[j - order.len()]].nanos == time);
            if i >= order.len() {
                assert(due[list[i - order.len()]].nanos == time);
            } else {
                assert(due[order[i]].nanos < time);
            }
        }
    }
}

/// The keys of an ordered map come in ascending order.
proof fn lemma_increasing(keys: Seq<u128>)
    requires
        vstd::std_specs::btree::increasing_seq(keys),
    ensures
        forall|i: int, j: int| 0 <= i < j < keys.len() ==> keys[i] < keys[j],
{
    broadcast use vstd::laws_cmp::group_laws_cmp;

    assert(vstd::laws_cmp::obeys_cmp::<u128>());
    assert forall|i: int, j: int| 0 <= i < j < keys.len() implies keys[i] < keys[j] by {
        assert(vstd::std_specs::cmp::OrdSpec::cmp_spec(&keys[i], &keys[j]) is Less);
    }
}

} // verus!
