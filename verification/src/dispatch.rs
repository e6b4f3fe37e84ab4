//! Fan-out of notifications: every subscriber has a bounded queue of its own.
//!
//! Publishing never waits for a subscriber. A queue that is full gives up its oldest
//! notice for the new one.

use crate::bf4::event::{duplicate_notice, notice_view, Event, EventView};
use crate::error::{RconError, RconErrorView};
use crate::search::{
    distinct, first_index, lemma_first_index, lemma_first_index_is, lemma_first_index_push,
    lemma_first_index_remove,
};
use std::collections::VecDeque;
use vstd::prelude::*;

verus! {

/// What a subscriber is handed, as a mathematical value.
pub type NoticeView = Result<EventView, RconErrorView>;

/// One consumer of the notifications.
#[derive(Debug)]
pub struct Subscriber {
    id: u64,
    capacity: usize,
    queue: VecDeque<Result<Event, RconError>>,
}

/// A subscriber as a mathematical value.
pub struct SubscriberView {
    pub id: u64,
    pub capacity: nat,
    /// The notices not yet taken, oldest first.
    pub queue: Seq<NoticeView>,
}

/// The registry of subscribers.
#[derive(Debug)]
pub struct Dispatcher {
    subscribers: Vec<Subscriber>,
    next_id: u64,
}

/// The registry of subscribers as a mathematical value.
pub struct DispatcherView {
    /// The subscribers, in the order in which they subscribed.
    pub subscribers: Seq<SubscriberView>,
    /// The identifier that the next subscriber gets.
    pub next_id: u64,
}

/// What a subscriber gets when it asks for its next notice.
#[derive(Debug)]
pub enum Delivery {
    /// The oldest notice that was waiting.
    Notice(Result<Event, RconError>),
    /// Nothing is waiting.
    Empty,
    /// The subscription has ended: nothing will come.
    Closed,
}

/// The notices of a queue as mathematical values.
pub open spec fn queue_view(queue: Seq<Result<Event, RconError>>) -> Seq<NoticeView> {
    Seq::new(queue.len(), |i: int| notice_view(queue[i]))
}

/// A queue after one more notice: the notice is added at the end, and where the
/// queue was full the oldest notice is dropped for it. A queue without room for
/// anything stays empty.
pub open spec fn bounded_push(queue: Seq<NoticeView>, notice: NoticeView, capacity: nat) -> Seq<
    NoticeView,
> {
    if capacity == 0 {
        queue
    } else if queue.len() >= capacity {
        queue.skip(queue.len() - capacity + 1).push(notice)
    } else {
        queue.push(notice)
    }
}

/// The identifiers of the subscribers, in order.
pub open spec fn subscriber_ids(subscribers: Seq<SubscriberView>) -> Seq<u64> {
    Seq::new(subscribers.len(), |i: int| subscribers[i].id)
}

impl SubscriberView {
    /// The subscriber after one more notice.
    pub open spec fn receive(self, notice: NoticeView) -> SubscriberView {
        SubscriberView {
            id: self.id,
            capacity: self.capacity,
            queue: bounded_push(self.queue, notice, self.capacity),
        }
    }

    /// The subscriber after it took its oldest notice.
    pub open spec fn advance(self) -> SubscriberView
        recommends
            self.queue.len() > 0,
    {
        SubscriberView { id: self.id, capacity: self.capacity, queue: self.queue.skip(1) }
    }
}

impl DispatcherView {
    /// Identifiers are distinct and were handed out before, and no queue is longer
    /// than its bound.
    pub open spec fn wf(self) -> bool {
        &&& distinct(subscriber_ids(self.subscribers))
        &&& forall|i: int|
            0 <= i < self.subscribers.len() ==> (#[trigger] self.subscribers[i]).id < self.next_id
        &&& forall|i: int|
            0 <= i < self.subscribers.len() ==> (#[trigger] self.subscribers[i]).queue.len()
                <= self.subscribers[i].capacity
    }

    /// Where the subscriber `id` stands; the number of subscribers if there is none.
    pub open spec fn position(self, id: u64) -> nat {
        first_index(subscriber_ids(self.subscribers), id)
    }

    /// Whether `id` is subscribed.
    pub open spec fn has(self, id: u64) -> bool {
        self.position(id) < self.subscribers.len()
    }

    /// The queue of subscriber `id`, oldest notice first.
    pub open spec fn queue_of(self, id: u64) -> Seq<NoticeView>
        recommends
            self.has(id),
    {
        self.subscribers[self.position(id) as int].queue
    }

    /// The bound of the queue of subscriber `id`.
    pub open spec fn capacity_of(self, id: u64) -> nat
        recommends
            self.has(id),
    {
        self.subscribers[self.position(id) as int].capacity
    }

    /// The registry with one subscriber more, whose queue is empty and whose
    /// identifier is the next one.
    pub open spec fn subscribe(self, capacity: nat) -> DispatcherView {
        DispatcherView {
            subscribers: self.subscribers.push(
                SubscriberView { id: self.next_id, capacity, queue: Seq::empty() },
            ),
            next_id: (self.next_id + 1) as u64,
        }
    }

    /// The registry without the subscriber `id`.
    pub open spec fn unsubscribe(self, id: u64) -> DispatcherView {
        if self.has(id) {
            DispatcherView {
                subscribers: self.subscribers.remove(self.position(id) as int),
                next_id: self.next_id,
            }
        } else {
            self
        }
    }

    /// Every subscriber after one more notice.
    pub open spec fn publish(self, notice: NoticeView) -> DispatcherView {
        DispatcherView {
            subscribers: Seq::new(
                self.subscribers.len(),
                |i: int| self.subscribers[i].receive(notice),
            ),
            next_id: self.next_id,
        }
    }

    /// The registry after subscriber `id` took its oldest notice.
    pub open spec fn take(self, id: u64) -> DispatcherView
        recommends
            self.has(id),
            self.queue_of(id).len() > 0,
    {
        DispatcherView {
            subscribers: self.subscribers.update(
                self.position(id) as int,
                self.subscribers[self.position(id) as int].advance(),
            ),
            next_id: self.next_id,
        }
    }
}

impl View for Subscriber {
    type V = SubscriberView;

    closed spec fn view(&self) -> SubscriberView {
        SubscriberView {
            id: self.id,
            capacity: self.capacity as nat,
            queue: queue_view(self.queue@),
        }
    }
}

/// The subscribers as mathematical values.
pub closed spec fn subscribers_view(subscribers: Seq<Subscriber>) -> Seq<SubscriberView> {
    Seq::new(subscribers.len(), |i: int| subscribers[i]@)
}

impl View for Dispatcher {
    type V = DispatcherView;

    closed spec fn view(&self) -> DispatcherView {
        DispatcherView { subscribers: subscribers_view(self.subscribers@), next_id: self.next_id }
    }
}

/// A new subscriber is subscribed with an empty queue, and changes no other
/// subscriber.
pub proof fn lemma_subscribe(dispatcher: DispatcherView, capacity: nat, other: u64)
    requires
        dispatcher.wf(),
        dispatcher.next_id < u64::MAX,
    ensures
        !dispatcher.has(dispatcher.next_id),
        dispatcher.subscribe(capacity).wf(),
        dispatcher.subscribe(capacity).has(dispatcher.next_id),
        dispatcher.subscribe(capacity).queue_of(dispatcher.next_id) == Seq::<NoticeView>::empty(),
        dispatcher.subscribe(capacity).capacity_of(dispatcher.next_id) == capacity,
        other != dispatcher.next_id ==> dispatcher.subscribe(capacity).has(other)
            == dispatcher.has(other),
        dispatcher.has(other) ==> dispatcher.subscribe(capacity).queue_of(other)
            == dispatcher.queue_of(other) && dispatcher.subscribe(capacity).capacity_of(other)
            == dispatcher.capacity_of(other),
{
    let id = dispatcher.next_id;
    let before = dispatcher.subscribers;
    let ids = subscriber_ids(before);
    let added = SubscriberView { id, capacity, queue: Seq::empty() };
    let after = dispatcher.subscribe(capacity);
    lemma_first_index(ids, id);
    lemma_first_index(ids, other);
    if dispatcher.has(id) {
        assert(before[dispatcher.position(id) as int].id < dispatcher.next_id);
    }
    assert(subscriber_ids(after.subscribers) =~= ids.push(id));
    lemma_first_index_push(ids, id, id);
    lemma_first_index_push(ids, id, other);
    assert forall|i: int, j: int| 0 <= i < j < after.subscribers.len() implies subscriber_ids(
        after.subscribers,
    )[i] != subscriber_ids(after.subscribers)[j] by {
        assert(before[i].id < dispatcher.next_id);
        if j < before.len() {
            assert(ids[i] != ids[j]);
        }
    }
    assert forall|i: int| 0 <= i < after.subscribers.len() implies (
    #[trigger] after.subscribers[i]).id < after.next_id && after.subscribers[i].queue.len()
        <= after.subscribers[i].capacity by {
        if i < before.len() {
            assert(before[i].id < dispatcher.next_id);
            assert(before[i].queue.len() <= before[i].capacity);
        }
    }
}

/// A subscriber that ends its subscription is subscribed no more, and changes no
/// other subscriber.
pub proof fn lemma_unsubscribe(dispatcher: DispatcherView, id: u64, other: u64)
    requires
        dispatcher.wf(),
    ensures
        dispatcher.unsubscribe(id).wf(),
        !dispatcher.unsubscribe(id).has(id),
        other != id ==> dispatcher.unsubscribe(id).has(other) == dispatcher.has(other),
        other != id && dispatcher.has(other) ==> dispatcher.unsubscribe(id).queue_of(other)
            == dispatcher.queue_of(other) && dispatcher.unsubscribe(id).capacity_of(other)
            == dispatcher.capacity_of(other),
{
    let before = dispatcher.subscribers;
    let ids = subscriber_ids(before);
    lemma_first_index(ids, id);
    lemma_first_index(ids, other);
    if dispatcher.has(id) {
        let at = dispatcher.position(id) as int;
        let after = dispatcher.unsubscribe(id);
        assert(subscriber_ids(after.subscribers) =~= ids.remove(at));
        lemma_first_index_remove(ids, at, id);
        lemma_first_index_remove(ids, at, other);
        assert forall|i: int| 0 <= i < after.subscribers.len() implies (
        #[trigger] after.subscribers[i]).id < after.next_id && after.subscribers[i].queue.len()
            <= after.subscribers[i].capacity by {
            let k = if i < at {
                i
            } else {
                i + 1
            };
            assert(after.subscribers[i] == before[k]);
            assert(before[k].id < dispatcher.next_id);
            assert(before[k].queue.len() <= before[k].capacity);
        }
    }
}

/// Publishing changes no identifier and no bound, and gives each subscriber the
/// notice whatever the others hold: a copy at the end of its queue, for which the
/// oldest notice makes room where the queue is full.
pub proof fn lemma_publish(dispatcher: DispatcherView, notice: NoticeView, id: u64)
    requires
        dispatcher.wf(),
    ensures
        dispatcher.publish(notice).wf(),
        dispatcher.publish(notice).has(id) == dispatcher.has(id),
        dispatcher.has(id) ==> dispatcher.publish(notice).capacity_of(id)
            == dispatcher.capacity_of(id) && dispatcher.publish(notice).queue_of(id)
            == bounded_push(dispatcher.queue_of(id), notice, dispatcher.capacity_of(id)),
{
    let after = dispatcher.publish(notice);
    assert(subscriber_ids(after.subscribers) =~= subscriber_ids(dispatcher.subscribers));
    assert forall|i: int| 0 <= i < after.subscribers.len() implies (
    #[trigger] after.subscribers[i]).id < after.next_id && after.subscribers[i].queue.len()
        <= after.subscribers[i].capacity by {
        assert(dispatcher.subscribers[i].id < dispatcher.next_id);
        assert(dispatcher.subscribers[i].queue.len() <= dispatcher.subscribers[i].capacity);
    }
}

/// A subscriber that takes a notice shortens its own queue by the oldest notice, and
/// changes no other subscriber.
pub proof fn lemma_take(dispatcher: DispatcherView, id: u64, other: u64)
    requires
        dispatcher.wf(),
        dispatcher.has(id),
        dispatcher.queue_of(id).len() > 0,
    ensures
        dispatcher.take(id).wf(),
        dispatcher.take(id).has(other) == dispatcher.has(other),
        dispatcher.take(id).queue_of(id) == dispatcher.queue_of(id).skip(1),
        dispatcher.has(other) ==> dispatcher.take(id).capacity_of(other)
            == dispatcher.capacity_of(other),
        other != id && dispatcher.has(other) ==> dispatcher.take(id).queue_of(other)
            == dispatcher.queue_of(other),
{
    let after = dispatcher.take(id);
    let ids = subscriber_ids(dispatcher.subscribers);
    lemma_first_index(ids, id);
    lemma_first_index(ids, other);
    assert(subscriber_ids(after.subscribers) =~= ids);
    assert forall|i: int| 0 <= i < after.subscribers.len() implies (
    #[trigger] after.subscribers[i]).id < after.next_id && after.subscribers[i].queue.len()
        <= after.subscribers[i].capacity by {
        assert(dispatcher.subscribers[i].id < dispatcher.next_id);
        assert(dispatcher.subscribers[i].queue.len() <= dispatcher.subscribers[i].capacity);
    }
}

/// A queue within its bound stays within it: a notice is added at the end, and goes
/// in place of the oldest where the queue is full.
pub proof fn lemma_bounded_push(queue: Seq<NoticeView>, notice: NoticeView, capacity: nat)
    requires
        queue.len() <= capacity,
    ensures
        bounded_push(queue, notice, capacity).len() <= capacity,
        queue.len() < capacity ==> bounded_push(queue, notice, capacity) == queue.push(notice),
        queue.len() == capacity && capacity > 0 ==> bounded_push(queue, notice, capacity)
            == queue.skip(1).push(notice),
{
}

impl Dispatcher {
    /// The registry satisfies `DispatcherView::wf`.
    #[verifier::type_invariant]
    pub open spec fn well_formed(self) -> bool {
        self@.wf()
    }

    /// A registry without subscribers.
    pub fn new() -> (dispatcher: Dispatcher)
        ensures
            dispatcher@.subscribers.len() == 0,
            dispatcher@.next_id == 0,
            dispatcher@.wf(),
    {
        Dispatcher { subscribers: Vec::new(), next_id: 0 }
    }

    /// How many subscribers there are.
    pub fn subscriber_count(&self) -> (count: usize)
        ensures
            count == self@.subscribers.len(),
            self@.wf(),
    {
        proof {
            use_type_invariant(self);
        }
        self.subscribers.len()
    }

    /// Where the subscriber `id` stands.
    fn find(&self, id: u64) -> (at: usize)
        ensures
            at == self@.position(id),
            at <= self.subscribers@.len(),
            at < self.subscribers@.len() ==> self.subscribers@[at as int].id == id,
            self@.wf(),
    {
        proof {
            use_type_invariant(self);
        }
        let ghost ids = subscriber_ids(self@.subscribers);
        let mut at: usize = 0;
        while at < self.subscribers.len()
            invariant
                at <= self.subscribers@.len(),
                self@.wf(),
                ids == subscriber_ids(self@.subscribers),
                forall|i: int| 0 <= i < at ==> ids[i] != id,
            decreases self.subscribers@.len() - at,
        {
            if self.subscribers[at].id == id {
                proof {
                    lemma_first_index_is(ids, id, at as int);
                }
                return at;
            }
            at = at + 1;
        }
        proof {
            lemma_first_index_is(ids, id, at as int);
        }
        at
    }

    /// Takes the subscribers out, to work on them, and leaves none behind.
    fn take_subscribers(&mut self) -> (taken: Vec<Subscriber>)
        ensures
            subscribers_view(taken@) == old(self)@.subscribers,
            final(self)@.subscribers.len() == 0,
            final(self)@.next_id == old(self)@.next_id,
            old(self)@.wf(),
    {
        proof {
            use_type_invariant(&*self);
        }
        let mut taken: Vec<Subscriber> = Vec::new();
        core::mem::swap(&mut self.subscribers, &mut taken);
        taken
    }

    /// Adds a subscriber whose queue holds up to `capacity` notices, and gives its
    /// identifier; `None` once the identifiers have run out.
    pub fn subscribe(&mut self, capacity: usize) -> (id: Option<u64>)
        ensures
            old(self)@.wf(),
            final(self)@.wf(),
            match id {
                Some(id) => id == old(self)@.next_id && final(self)@ == old(self)@.subscribe(
                    capacity as nat,
                ),
                None => old(self)@.next_id == u64::MAX && final(self)@ == old(self)@,
            },
    {
        proof {
            use_type_invariant(&*self);
        }
        if self.next_id == u64::MAX {
            return None;
        }
        let id: u64 = self.next_id;
        let ghost before = self@;
        let subscriber = Subscriber { id, capacity, queue: VecDeque::new() };
        assert(subscriber@.queue =~= Seq::empty());
        let mut subscribers = self.take_subscribers();
        self.next_id = id + 1;
        subscribers.push(subscriber);
        proof {
            assert(subscribers_view(subscribers@) =~= before.subscribe(capacity as nat).subscribers);
            lemma_subscribe(before, capacity as nat, id);
        }
        self.subscribers = subscribers;
        Some(id)
    }

    /// Ends the subscription `id`; says whether there was one.
    pub fn unsubscribe(&mut self, id: u64) -> (found: bool)
        ensures
            old(self)@.wf(),
            final(self)@.wf(),
            found == old(self)@.has(id),
            final(self)@ == old(self)@.unsubscribe(id),
    {
        let at = self.find(id);
        let ghost before = self@;
        if at >= self.subscribers.len() {
            return false;
        }
        let mut subscribers = self.take_subscribers();
        let _ = subscribers.remove(at);
        proof {
            assert(subscribers_view(subscribers@) =~= before.unsubscribe(id).subscribers);
            lemma_unsubscribe(before, id, id);
        }
        self.subscribers = subscribers;
        true
    }

    /// Hands every subscriber a copy of the notice.
    pub fn publish(&mut self, notice: &Result<Event, RconError>)
        ensures
            old(self)@.wf(),
            final(self)@.wf(),
            final(self)@ == old(self)@.publish(notice_view(*notice)),
    {
        let ghost before = self@;
        let ghost given = notice_view(*notice);
        let mut subscribers = self.take_subscribers();
        let mut i: usize = 0;
        while i < subscribers.len()
            invariant
                i <= subscribers@.len(),
                subscribers@.len() == before.subscribers.len(),
                before.wf(),
                given == notice_view(*notice),
                forall|j: int|
                    0 <= j < i ==> (#[trigger] subscribers@[j])@ == before.subscribers[j].receive(
                        given,
                    ),
                forall|j: int|
                    i <= j < subscribers@.len() ==> (#[trigger] subscribers@[j])@
                        == before.subscribers[j],
            decreases subscribers@.len() - i,
        {
            let ghost was = subscribers@[i as int]@;
            assert(was == before.subscribers[i as int]);
            assert(was.queue.len() <= was.capacity);
            if subscribers[i].capacity > 0 {
                if subscribers[i].queue.len() >= subscribers[i].capacity {
                    let _ = subscribers[i].queue.pop_front();
                    assert(subscribers@[i as int]@.queue =~= was.queue.skip(1));
                }
                let ghost shortened = subscribers@[i as int]@.queue;
                let copy = duplicate_notice(notice);
                subscribers[i].queue.push_back(copy);
                assert(subscribers@[i as int]@.queue =~= shortened.push(given));
            }
            assert(subscribers@[i as int]@ == was.receive(given));
            i = i + 1;
        }
        proof {
            assert(subscribers_view(subscribers@) =~= before.publish(given).subscribers);
            lemma_publish(before, given, 0);
        }
        self.subscribers = subscribers;
    }

    /// Takes the oldest notice that waits for subscriber `id`.
    pub fn poll(&mut self, id: u64) -> (delivery: Delivery)
        ensures
            old(self)@.wf(),
            final(self)@.wf(),
            match delivery {
                Delivery::Notice(notice) => old(self)@.has(id) && old(self)@.queue_of(id).len() > 0
                    && notice_view(notice) == old(self)@.queue_of(id)[0] && final(self)@ == old(
                    self,
                )@.take(id),
                Delivery::Empty => old(self)@.has(id) && old(self)@.queue_of(id).len() == 0
                    && final(self)@ == old(self)@,
                Delivery::Closed => !old(self)@.has(id) && final(self)@ == old(self)@,
            },
    {
        let at = self.find(id);
        let ghost before = self@;
        if at >= self.subscribers.len() {
            return Delivery::Closed;
        }
        if self.subscribers[at].queue.len() == 0 {
            return Delivery::Empty;
        }
        let mut subscribers = self.take_subscribers();
        let ghost was = subscribers@[at as int]@;
        let taken = subscribers[at].queue.pop_front();
        proof {
            assert(subscribers@[at as int]@.queue =~= was.queue.skip(1));
            assert(subscribers_view(subscribers@) =~= before.take(id).subscribers);
            lemma_take(before, id, id);
        }
        self.subscribers = subscribers;
        match taken {
            Some(notice) => Delivery::Notice(notice),
            None => unreached(),
        }
    }

    /// Ends every subscription.
    pub fn close(&mut self)
        ensures
            final(self)@.subscribers.len() == 0,
            final(self)@.next_id == old(self)@.next_id,
            final(self)@.wf(),
    {
        let _ = self.take_subscribers();
    }
}

} // verus!
