//! Messages to whatever is not a state machine, and their routes.

use vstd::prelude::*;

use std::collections::HashMap;
use std::fmt;
use std::marker::PhantomData;

use crate::kind::{Coded, HashKind, Rex};
use crate::state_id::StateId;

verus! {

/// a PubSub message that is able to be sent to [`NotificationProcessor`]s that subscribe to one
/// or more [`RexTopic`]s
pub trait RexMessage: GetTopic<Self::Topic> + Clone + fmt::Debug + Send + Sync + 'static {
    type Topic: RexTopic;
}

/// Used to derive a marker used to route [`Notification`]s
/// to [`NotificationProcessor`]s
pub trait GetTopic<T: RexTopic>: fmt::Debug {
    spec fn topic(self) -> T;

    fn get_topic(&self) -> (topic: T)
        ensures
            topic == self.topic(),
    ;
}

pub trait RexTopic: fmt::Debug + Coded + Copy + Send + Sync + 'static {

}

impl<T> RexTopic for T where T: fmt::Debug + Coded + Copy + Send + Sync + 'static {

}

/// This is the analogue to [`Signal`](crate::Signal)
/// that is meant to send messages to anything that is _not_ a
/// state machine
#[derive(Debug)]
pub struct Notification<M: RexMessage>(pub M);

impl<M: RexMessage> Clone for Notification<M> {
    fn clone(&self) -> (notification: Self)
        ensures
            cloned(self.0, notification.0),
    {
        Notification(self.0.clone())
    }
}

impl<M, T> GetTopic<T> for Notification<M> where T: RexTopic, M: RexMessage + GetTopic<T> {
    open spec fn topic(self) -> T {
        self.0.topic()
    }

    fn get_topic(&self) -> T {
        self.0.get_topic()
    }
}

pub trait ToNotification<M> where M: RexMessage {
    spec fn as_message(self, message: M) -> bool;

    fn notification(self) -> (notification: Notification<M>)
        ensures
            self.as_message(notification.0),
    ;
}

impl<T, M> ToNotification<M> for T where T: Into<M>, M: RexMessage {
    open spec fn as_message(self, message: M) -> bool {
        call_ensures(T::into, (self,), message)
    }

    fn notification(self) -> (notification: Notification<M>) {
        let msg: M = self.into();
        Notification(msg)
    }
}

/// Processes the notifications whose topics it subscribes to.
pub trait NotificationProcessor<M>: Send + Sync where M: RexMessage {
    /// Returns the topics that this processor subscribes to.
    fn get_topics(&self) -> &[M::Topic];
}

/// Calls `core::slice::from_ref`. Claims that the slice holds the value behind
/// the reference and nothing else.
pub assume_specification<T>[ core::slice::from_ref::<T> ](s: &T) -> (slice: &[T])
    ensures
        slice@ == seq![*s],
;

/// The notifications on their way to a [`NotificationManager`], oldest first.
pub type NotificationQueue<M> = Vec<Notification<M>>;

/// The place of a processor among those that a [`NotificationManager`] was made with.
pub type Subscriber = usize;

/// The subscribers to `topic`, where `lists` holds the topics of each processor:
/// the processors in order, each as often as it names the topic.
pub open spec fn subscribed<T>(lists: Seq<Seq<T>>, topic: T) -> Seq<Subscriber>
    decreases lists.len(),
{
    if lists.len() == 0 {
        Seq::empty()
    } else {
        subscribed(lists.drop_last(), topic) + repeated(
            (lists.len() - 1) as usize,
            lists.last().to_multiset().count(topic),
        )
    }
}

/// `subscriber`, `n` times.
pub open spec fn repeated(subscriber: Subscriber, n: nat) -> Seq<Subscriber> {
    Seq::new(n, |i: int| subscriber)
}

/// `lists` holds what each of the processors returned as its topics.
pub open spec fn listed<M: RexMessage, P: NotificationProcessor<M>>(
    processors: Seq<P>,
    lists: Seq<Seq<M::Topic>>,
) -> bool {
    &&& lists.len() == processors.len()
    &&& forall|i: int|
        0 <= i < processors.len() ==> returned_topics::<M, P>(processors[i], #[trigger] lists[i])
}

/// `processor` returned `list` as its topics.
pub open spec fn returned_topics<M: RexMessage, P: NotificationProcessor<M>>(
    processor: P,
    list: Seq<M::Topic>,
) -> bool {
    exists|topics: &[M::Topic]| #[trigger]
        call_ensures(P::get_topics, (&processor,), topics) && topics@ == list
}

/// [`NotificationManager`] routes [`Notification`]s to their desired
/// destination
pub struct NotificationManager<M> where M: RexMessage {
    processors: HashMap<u64, Vec<Subscriber>>,
    message: PhantomData<M>,
}

impl<M> NotificationManager<M> where M: RexMessage {
    /// The subscribers to `topic`.
    pub closed spec fn subscribers(self, topic: M::Topic) -> Seq<Subscriber> {
        if self.processors@.contains_key(topic.number()) {
            self.processors@[topic.number()]@
        } else {
            Seq::empty()
        }
    }

    /// No topic is kept without a subscriber.
    pub closed spec fn wf(self) -> bool {
        forall|code: u64|
            self.processors@.contains_key(code) ==> (#[trigger] self.processors@[code])@.len() > 0
    }

    pub fn new<P: NotificationProcessor<M>>(processors: &[P]) -> (manager: Self)
        ensures
            manager.wf(),
            exists|lists: Seq<Seq<M::Topic>>| #[trigger]
                listed::<M, P>(processors@, lists) && manager.routes(lists),
    {
        let mut manager = NotificationManager { processors: HashMap::new(), message: PhantomData };
        let ghost mut lists: Seq<Seq<M::Topic>> = Seq::empty();
        let mut i: usize = 0;
        while i < processors.len()
            invariant
                i <= processors@.len(),
                lists.len() == i,
                forall|k: int|
                    0 <= k < i ==> returned_topics::<M, P>(processors@[k], #[trigger] lists[k]),
                manager.wf(),
                manager.routes(lists),
            decreases processors@.len() - i,
        {
            let topics = processors[i].get_topics();
            let ghost before = manager;
            manager.subscribe_all(topics, i);
            proof {
                let more = lists.push(topics@);
                assert(returned_topics::<M, P>(processors@[i as int], topics@));
                assert(more.drop_last() =~= lists);
                assert forall|topic: M::Topic| #[trigger] manager.subscribers(topic) == subscribed(
                    more,
                    topic,
                ) by {
                    assert(before.subscribers(topic) == subscribed(lists, topic));
                }
                lists = more;
            }
            i += 1;
        }
        assert(listed::<M, P>(processors@, lists));
        manager
    }

    /// The subscribers are those of processors with the topics `lists`.
    pub open spec fn routes(self, lists: Seq<Seq<M::Topic>>) -> bool {
        forall|topic: M::Topic| #[trigger] self.subscribers(topic) == subscribed(lists, topic)
    }

    /// Adds `subscriber` to the subscribers to each of `topics`.
    pub fn subscribe_all(&mut self, topics: &[M::Topic], subscriber: Subscriber)
        requires
            old(self).wf(),
        ensures
            final(self).wf(),
            forall|topic: M::Topic| #[trigger]
                final(self).subscribers(topic) == old(self).subscribers(topic) + repeated(
                    subscriber,
                    topics@.to_multiset().count(topic),
                ),
    {
        let mut j: usize = 0;
        assert forall|topic: M::Topic| #[trigger]
            self.subscribers(topic) == old(self).subscribers(topic) + repeated(
                subscriber,
                topics@.take(0).to_multiset().count(topic),
            ) by {
            broadcast use vstd::seq_lib::group_to_multiset_ensures;

            assert(topics@.take(0).to_multiset().count(topic) == 0);
            assert(self.subscribers(topic) + repeated(subscriber, 0) =~= self.subscribers(topic));
        }
        while j < topics.len()
            invariant
                j <= topics@.len(),
                self.wf(),
                forall|topic: M::Topic| #[trigger]
                    self.subscribers(topic) == old(self).subscribers(topic) + repeated(
                        subscriber,
                        topics@.take(j as int).to_multiset().count(topic),
                    ),
            decreases topics@.len() - j,
        {
            let ghost before = *self;
            self.subscribe(topics[j], subscriber);
            proof {
                let seen = topics@.take(j as int);
                assert(topics@.take(j + 1) =~= seen.push(topics@[j as int]));
                assert forall|topic: M::Topic| #[trigger]
                    self.subscribers(topic) == old(self).subscribers(topic) + repeated(
                        subscriber,
                        topics@.take(j + 1).to_multiset().count(topic),
                    ) by {
                    broadcast use vstd::seq_lib::group_to_multiset_ensures;

                    let n = seen.to_multiset().count(topic);
                    assert(before.subscribers(topic) == old(self).subscribers(topic) + repeated(
                        subscriber,
                        n,
                    ));
                    assert(repeated(subscriber, n).push(subscriber) =~= repeated(
                        subscriber,
                        n + 1,
                    ));
                    assert(seen.push(topics@[j as int]).to_multiset() == seen.to_multiset().insert(
                        topics@[j as int],
                    ));
                    if topic == topics@[j as int] {
                        assert(self.subscribers(topic) =~= old(self).subscribers(topic) + repeated(
                            subscriber,
                            n + 1,
                        ));
                    }
                }
            }
            j += 1;
        }
        assert(topics@.take(j as int) =~= topics@);
    }

    /// Returns what goes to which subscriber, or nothing where nobody subscribes
    /// to the topic of the notification.
    pub fn route(&self, notification: Notification<M>) -> (deliveries: Option<
        Vec<(Subscriber, Notification<M>)>,
    >)
        requires
            self.wf(),
        ensures
            deliveries is None <==> self.subscribers(notification.0.topic()).len() == 0,
            deliveries matches Some(list) ==> delivered(
                notification,
                self.subscribers(notification.0.topic()),
                list@,
            ),
    {
        let topic: M::Topic = notification.get_topic();
        let subscribers = match self.processors.get(&topic.code()) {
            Some(subscribers) => subscribers,
            None => return None,
        };
        let last: usize = subscribers.len() - 1;
        let mut deliveries: Vec<(Subscriber, Notification<M>)> = Vec::new();
        let mut i: usize = 0;
        while i < last
            invariant
                i <= last < subscribers@.len(),
                deliveries@.len() == i,
                forall|k: int|
                    0 <= k < i ==> (#[trigger] deliveries@[k]).0 == subscribers@[k] && cloned(
                        notification.0,
                        deliveries@[k].1.0,
                    ),
            decreases last - i,
        {
            deliveries.push((subscribers[i], notification.clone()));
            i += 1;
        }
        deliveries.push((subscribers[last], notification));
        Some(deliveries)
    }

    /// Adds `subscriber` to the subscribers to `topic`.
    fn subscribe(&mut self, topic: M::Topic, subscriber: Subscriber)
        requires
            old(self).wf(),
        ensures
            final(self).wf(),
            final(self).subscribers(topic) == old(self).subscribers(topic).push(subscriber),
            forall|other: M::Topic|
                other != topic ==> #[trigger] final(self).subscribers(other) == old(
                    self,
                ).subscribers(other),
    {
        let list = self.processors.entry(topic.code()).or_insert(Vec::new());
        list.push(subscriber);
        proof {
            assert forall|other: M::Topic| other != topic implies #[trigger] self.subscribers(other)
                == old(self).subscribers(other) by {
                if other.number() == topic.number() {
                    M::Topic::number_injective(other, topic);
                }
            }
            assert(self.subscribers(topic) =~= old(self).subscribers(topic).push(subscriber));
        }
    }
}

/// A notification reaches exactly the processors that subscribe to its topic,
/// in the order in which the manager was given them.
pub proof fn subscribers_subscribe<T>(lists: Seq<Seq<T>>, topic: T)
    requires
        lists.len() <= usize::MAX,
    ensures
        forall|i: usize| #[trigger]
            subscribed(lists, topic).contains(i) <==> i < lists.len() && lists[i as int].contains(
                topic,
            ),
        forall|i: int, j: int|
            0 <= i <= j < subscribed(lists, topic).len() ==> subscribed(lists, topic)[i]
                <= subscribed(lists, topic)[j],
    decreases lists.len(),
{
    broadcast use vstd::seq_lib::group_to_multiset_ensures;

    if lists.len() > 0 {
        let earlier = lists.drop_last();
        let last = (lists.len() - 1) as usize;
        let n = lists.last().to_multiset().count(topic);
        subscribers_subscribe(earlier, topic);
        let before = subscribed(earlier, topic);
        let all = subscribed(lists, topic);
        assert(all == before + repeated(last, n));
        assert(n > 0 <==> lists.last().contains(topic));
        assert forall|i: usize| #[trigger] all.contains(i) <==> i < lists.len()
            && lists[i as int].contains(topic) by {
            if before.contains(i) {
                let k = choose|k: int| 0 <= k < before.len() && before[k] == i;
                assert(all[k] == i);
            }
            if i == last && n > 0 {
                assert(all[before.len() as int] == i);
            }
            if all.contains(i) {
                let k = choose|k: int| 0 <= k < all.len() && all[k] == i;
                if k < before.len() {
                    assert(before[k] == i);
                }
            }
            if i < last {
                assert(earlier[i as int] == lists[i as int]);
            }
        }
        assert forall|k: int| 0 <= k < before.len() implies before[k] < last by {
            assert(before.contains(before[k]));
        }
    }
}

/// What every subscriber to the topic of `notification` receives: the last one
/// the notification itself, those before it clones.
pub open spec fn delivered<M: RexMessage>(
    notification: Notification<M>,
    subscribers: Seq<Subscriber>,
    deliveries: Seq<(Subscriber, Notification<M>)>,
) -> bool {
    &&& deliveries.len() == subscribers.len()
    &&& forall|i: int|
        0 <= i < subscribers.len() ==> (#[trigger] deliveries[i]).0 == subscribers[i] && cloned(
            notification.0,
            deliveries[i].1.0,
        )
    &&& deliveries.last().1 == notification
}

/// A message that is expected to return a result
/// to the associated [`StateId`] that that did the initial request
#[derive(Debug)]
pub struct UnaryRequest<K, O> where K: HashKind, O: Operation {
    pub id: StateId<K>,
    pub op: O,
}

impl<K: HashKind, O: Operation> Clone for UnaryRequest<K, O> {
    fn clone(&self) -> (request: Self)
        ensures
            request.id == self.id,
            cloned(self.op, request.op),
    {
        UnaryRequest { id: self.id, op: self.op.clone() }
    }
}

impl<K: HashKind, O: Operation + Copy> Copy for UnaryRequest<K, O> {

}

impl<K, O> UnaryRequest<K, O> where K: HashKind, O: Operation {
    pub fn new(id: StateId<K>, op: O) -> (request: Self)
        ensures
            request == (UnaryRequest { id, op }),
    {
        Self { id, op }
    }
}

/// Defines the unit of work held by a [`UnaryRequest`]
pub trait Operation: fmt::Display + Clone {

}

impl<Op> Operation for Op where Op: fmt::Display + Clone {

}

pub trait Request<K>: Operation where K: HashKind {
    /// Asks for this unit of work on behalf of `id`.
    fn request(self, id: StateId<K>) -> (request: UnaryRequest<K, Self>)
        ensures
            request == (UnaryRequest { id, op: self }),
    ;
}

impl<K: Rex, Op: Operation> Request<K> for Op where K::Message: From<UnaryRequest<K, Op>> {
    fn request(self, id: StateId<K>) -> UnaryRequest<K, Op> {
        UnaryRequest { id, op: self }
    }
}

pub trait RequestInner<K>: Sized where K: HashKind {
    /// Asks for the unit of work that is made of this value on behalf of `id`.
    fn request_inner<Op>(self, id: StateId<K>) -> (request: UnaryRequest<K, Op>) where
        Op: Operation + From<Self>,

        ensures
            request.id == id,
            call_ensures(Op::from, (self,), request.op),
    ;
}

impl<K, T> RequestInner<K> for T where K: HashKind {
    fn request_inner<Op>(self, id: StateId<K>) -> (request: UnaryRequest<K, Op>) where
        Op: Operation + From<T>,
     {
        UnaryRequest { id, op: Op::from(self) }
    }
}

} // verus!
