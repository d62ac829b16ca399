//! Who receives which notification.

use vstd::prelude::*;

use crate::kind::{HashKind, Rex};
use crate::notification::{
    GetTopic, Notification, NotificationManager, NotificationProcessor, Operation, Request,
    RequestInner, RexMessage, Subscriber, ToNotification, UnaryRequest,
};
use crate::state_id::StateId;

verus! {

/// Of one value many times, there are that many.
proof fn lemma_repeated_count(subscriber: Subscriber, n: nat, other: Subscriber)
    ensures
        crate::notification::repeated(subscriber, n).to_multiset().count(other) == (if other
            == subscriber {
            n
        } else {
            0
        }),
    decreases n,
{
    broadcast use vstd::seq_lib::group_to_multiset_ensures;

    let all = crate::notification::repeated(subscriber, n);
    if n > 0 {
        let fewer = crate::notification::repeated(subscriber, (n - 1) as nat);
        lemma_repeated_count(subscriber, (n - 1) as nat, other);
        assert(all =~= fewer.push(subscriber));
    } else {
        assert(all =~= Seq::<Subscriber>::empty());
    }
}

/// A processor is among the subscribers to a topic as often as it names the
/// topic, and they come in the order in which the processors were given.
pub proof fn subscriptions_are_counted<T>(lists: Seq<Seq<T>>, topic: T, i: usize)
    requires
        lists.len() <= usize::MAX,
    ensures
        crate::notification::subscribed(lists, topic).to_multiset().count(i) == (if i
            < lists.len() {
            lists[i as int].to_multiset().count(topic)
        } else {
            0
        }),
        forall|a: int, b: int|
            0 <= a <= b < crate::notification::subscribed(lists, topic).len()
                ==> crate::notification::subscribed(lists, topic)[a]
                <= crate::notification::subscribed(lists, topic)[b],
    decreases lists.len(),
{
    broadcast use vstd::seq_lib::group_to_multiset_ensures;

    crate::notification::subscribers_subscribe(lists, topic);
    if lists.len() > 0 {
        let earlier = lists.drop_last();
        let last = (lists.len() - 1) as usize;
        let n = lists.last().to_multiset().count(topic);
        subscriptions_are_counted(earlier, topic, i);
        lemma_repeated_count(last, n, i);
        vstd::seq_lib::lemma_multiset_commutative(
            crate::notification::subscribed(earlier, topic),
            crate::notification::repeated(last, n),
        );
        if i < last {
            assert(earlier[i as int] == lists[i as int]);
        }
    }
}

/// A notification goes to each processor as often as the topics that the
/// processor returned name the topic of its message, in the order in which the
/// manager was given the processors. Each is handed a clone of the message, and
/// the last one the message itself. Where nobody names the topic, it goes nowhere.
pub proof fn notifications_go_to_their_subscribers<M: RexMessage, P: NotificationProcessor<M>>(
    processors: &[P],
    manager: NotificationManager<M>,
    notification: Notification<M>,
    deliveries: Option<Vec<(Subscriber, Notification<M>)>>,
)
    requires
        call_ensures(NotificationManager::<M>::new::<P>, (processors,), manager),
        call_ensures(NotificationManager::<M>::route, (&manager, notification), deliveries),
    ensures
        exists|lists: Seq<Seq<M::Topic>>|
            {
                &&& #[trigger] returned(processors@, lists)
                &&& deliveries is None <==> forall|i: int|
                    0 <= i < lists.len() ==> !(#[trigger] lists[i]).contains(
                        notification.0.topic(),
                    )
                &&& deliveries matches Some(list) ==> {
                    &&& forall|i: usize|
                        (#[trigger] receivers(list@).to_multiset().count(i)) == (if i
                            < lists.len() {
                            lists[i as int].to_multiset().count(notification.0.topic())
                        } else {
                            0
                        })
                    &&& forall|a: int, b: int|
                        #![trigger list@[a], list@[b]]
                        0 <= a <= b < list@.len() ==> list@[a].0 <= list@[b].0
                    &&& forall|a: int|
                        0 <= a < list@.len() ==> cloned(
                            notification.0,
                            (#[trigger] list@[a]).1.0,
                        )
                    &&& list@.len() > 0 && list@.last().1 == notification
                }
            },
{
    broadcast use vstd::seq_lib::group_to_multiset_ensures;

    let topic: M::Topic = notification.0.topic();
    let lists = choose|lists: Seq<Seq<M::Topic>>| #[trigger]
        crate::notification::listed::<M, P>(processors@, lists) && manager.routes(lists);
    let subscribers = manager.subscribers(topic);
    assert(subscribers == crate::notification::subscribed(lists, topic));
    assert(processors@.len() == processors.len());
    crate::notification::subscribers_subscribe(lists, topic);
    assert forall|i: int| 0 <= i < lists.len() implies returned_by::<M, P>(
        processors@[i],
        #[trigger] lists[i],
    ) by {
        assert(crate::notification::returned_topics::<M, P>(processors@[i], lists[i]));
    }
    assert(returned(processors@, lists));
    if subscribers.len() > 0 {
        assert(subscribers.contains(subscribers[0]));
    } else {
        assert forall|i: int| 0 <= i < lists.len() implies !(#[trigger] lists[i]).contains(
            topic,
        ) by {
            assert(!subscribers.contains(i as usize));
        }
    }
    if let Some(list) = deliveries {
        assert(receivers(list@) =~= subscribers);
        assert forall|i: usize| (#[trigger] receivers(list@).to_multiset().count(i)) == (if i
            < lists.len() {
            lists[i as int].to_multiset().count(topic)
        } else {
            0
        }) by {
            subscriptions_are_counted(lists, topic, i);
        }
        assert forall|a: int, b: int|
            #![trigger list@[a], list@[b]]
            0 <= a <= b < list@.len() implies list@[a].0 <= list@[b].0 by {
            assert(list@[a].0 == subscribers[a] && list@[b].0 == subscribers[b]);
        }
    }
}

/// `lists` holds what each of the processors returned as its topics.
pub open spec fn returned<M: RexMessage, P: NotificationProcessor<M>>(
    processors: Seq<P>,
    lists: Seq<Seq<M::Topic>>,
) -> bool {
    &&& lists.len() == processors.len()
    &&& forall|i: int|
        0 <= i < lists.len() ==> returned_by::<M, P>(processors[i], #[trigger] lists[i])
}

/// `processor` returned `list` as its topics.
pub open spec fn returned_by<M: RexMessage, P: NotificationProcessor<M>>(
    processor: P,
    list: Seq<M::Topic>,
) -> bool {
    exists|topics: &[M::Topic]| #[trigger]
        call_ensures(P::get_topics, (&processor,), topics) && topics@ == list
}

/// Who the deliveries go to, in order.
pub open spec fn receivers<M: RexMessage>(
    deliveries: Seq<(Subscriber, Notification<M>)>,
) -> Seq<Subscriber> {
    deliveries.map_values(|delivery: (Subscriber, Notification<M>)| delivery.0)
}

/// Subscribing adds the subscriber behind the others, as often as a topic is
/// named, and changes the subscribers to no other topic.
pub proof fn subscribing_adds_the_subscriber<M: RexMessage>(
    manager: &mut NotificationManager<M>,
    topics: &[M::Topic],
    subscriber: Subscriber,
    topic: M::Topic,
)
    requires
        old(manager).wf(),
        call_ensures(NotificationManager::<M>::subscribe_all, (manager, topics, subscriber), ()),
    ensures
        ({
            let before = old(manager).subscribers(topic);
            let after = final(manager).subscribers(topic);
            &&& after.len() == before.len() + topics@.to_multiset().count(topic)
            &&& forall|i: int| 0 <= i < before.len() ==> #[trigger] after[i] == before[i]
            &&& forall|i: int| before.len() <= i < after.len() ==> #[trigger] after[i] == subscriber
            &&& !topics@.contains(topic) ==> after == before
        }),
{
    broadcast use vstd::seq_lib::group_to_multiset_ensures;

    let before = old(manager).subscribers(topic);
    let after = final(manager).subscribers(topic);
    if !topics@.contains(topic) {
        assert(topics@.to_multiset().count(topic) == 0);
        assert(after =~= before);
    }
}

/// The topic of a notification is that of its message, and its clone holds a
/// clone of the message.
pub proof fn notifications_stand_for_their_messages<M: RexMessage>(
    notification: &Notification<M>,
    topic: M::Topic,
    clone: Notification<M>,
)
    requires
        call_ensures(
            <Notification<M> as GetTopic<M::Topic>>::get_topic,
            (notification,),
            topic,
        ),
        call_ensures(<Notification<M> as Clone>::clone, (notification,), clone),
    ensures
        topic == notification.0.topic(),
        cloned(notification.0, clone.0),
{
}

/// The notification of a value holds the message that the value is turned into.
pub proof fn notifications_hold_the_message<T, M: RexMessage>(
    value: T,
    notification: Notification<M>,
) where T: Into<M>
    requires
        call_ensures(<T as ToNotification<M>>::notification, (value,), notification),
    ensures
        call_ensures(T::into, (value,), notification.0),
{
}

/// A request is made on behalf of its id, for its unit of work.
pub proof fn requests_keep_id_and_work<K: Rex, O: Operation>(
    id: StateId<K>,
    op: O,
    made: UnaryRequest<K, O>,
    asked: UnaryRequest<K, O>,
) where K::Message: From<UnaryRequest<K, O>>
    requires
        call_ensures(UnaryRequest::<K, O>::new, (id, op), made),
        call_ensures(<O as Request<K>>::request, (op, id), asked),
    ensures
        made.id == id && made.op == op,
        asked.id == id && asked.op == op,
{
}

/// The same where the unit of work is made of a value first.
pub proof fn requests_are_made_of_values<K: HashKind, T, O: Operation + From<T>>(
    id: StateId<K>,
    value: T,
    asked: UnaryRequest<K, O>,
)
    requires
        call_ensures(<T as RequestInner<K>>::request_inner::<O>, (value, id), asked),
    ensures
        asked.id == id,
        call_ensures(O::from, (value,), asked.op),
{
}

} // verus!
