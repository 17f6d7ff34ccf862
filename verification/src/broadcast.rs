//! Fan-out of published messages to any number of subscribers, each with a
//! bounded queue of its own. Publishing never waits for a subscriber: a queue
//! that is full loses its oldest message.

use crate::retention::retained;
use crate::ring::trim_front;
use std::collections::VecDeque;
use vstd::prelude::*;

verus! {

/// The number of pending messages a subscriber's queue holds by default.
pub const DEFAULT_QUEUE_LEN: usize = 100;

/// The queues after one message was published: every queue has the message
/// at its end and, where it was full, has lost its oldest.
pub open spec fn published(
    queues: Map<u64, Seq<Seq<char>>>,
    message: Seq<char>,
    queue_len: nat,
) -> Map<u64, Seq<Seq<char>>> {
    queues.map_values(|pending: Seq<Seq<char>>| retained(pending.push(message), queue_len))
}

/// The queues after each of `messages` was published in turn.
pub open spec fn after_publishes(
    queues: Map<u64, Seq<Seq<char>>>,
    messages: Seq<Seq<char>>,
    queue_len: nat,
) -> Map<u64, Seq<Seq<char>>>
    decreases messages.len(),
{
    if messages.len() == 0 {
        queues
    } else {
        published(
            after_publishes(queues, messages.drop_last(), queue_len),
            messages.last(),
            queue_len,
        )
    }
}

/// What a subscriber takes out of its queue by receiving `count` times in a
/// row: each time the oldest message that is left, until none is.
pub open spec fn received(pending: Seq<Seq<char>>, count: nat) -> Seq<Seq<char>>
    decreases count,
{
    if count == 0 || pending.len() == 0 {
        Seq::empty()
    } else {
        seq![pending.first()] + received(pending.drop_first(), (count - 1) as nat)
    }
}

/// The text of each message.
pub open spec fn texts(messages: Seq<String>) -> Seq<Seq<char>> {
    Seq::new(messages.len(), |i: int| messages[i]@)
}

/// Every subscriber that was there before a sequence of publishes is still
/// there after it, and no other. Its queue then ends with the published
/// messages in publish order: all of them, after all it held before, as long
/// as that fits its bound, and otherwise the most recent ones that fit. What
/// one subscriber has lost depends on its own queue alone.
pub proof fn law_subscribers_observe_in_order(
    queues: Map<u64, Seq<Seq<char>>>,
    messages: Seq<Seq<char>>,
    queue_len: nat,
    subscriber: u64,
)
    requires
        queues.contains_key(subscriber),
        queues[subscriber].len() <= queue_len,
    ensures
        after_publishes(queues, messages, queue_len).dom() == queues.dom(),
        after_publishes(queues, messages, queue_len)[subscriber] == retained(
            queues[subscriber] + messages,
            queue_len,
        ),
        queues[subscriber].len() + messages.len() <= queue_len ==> after_publishes(
            queues,
            messages,
            queue_len,
        )[subscriber] == queues[subscriber] + messages,
    decreases messages.len(),
{
    if messages.len() == 0 {
        assert(queues[subscriber] + messages =~= queues[subscriber]);
    } else {
        let earlier = messages.drop_last();
        law_subscribers_observe_in_order(queues, earlier, queue_len, subscriber);
        let before = after_publishes(queues, earlier, queue_len);
        crate::retention::lemma_retained_append(
            queues[subscriber] + earlier,
            seq![messages.last()],
            queue_len,
        );
        assert(before[subscriber].push(messages.last()) =~= before[subscriber] + seq![
            messages.last(),
        ]);
        assert((queues[subscriber] + earlier) + seq![messages.last()] =~= queues[subscriber]
            + messages);
        assert(after_publishes(queues, messages, queue_len).dom() =~= queues.dom());
    }
}

/// Receiving as often as there are messages takes the whole queue, oldest
/// message first.
pub proof fn lemma_received_all(pending: Seq<Seq<char>>)
    ensures
        received(pending, pending.len()) == pending,
    decreases pending.len(),
{
    if pending.len() > 0 {
        lemma_received_all(pending.drop_first());
        assert(seq![pending.first()] + pending.drop_first() =~= pending);
    }
}

/// A subscriber with an empty queue that receives only after a sequence of
/// publishes that fits its bound receives every published message, in
/// publish order.
pub proof fn law_reader_receives_everything(
    queues: Map<u64, Seq<Seq<char>>>,
    messages: Seq<Seq<char>>,
    queue_len: nat,
    subscriber: u64,
)
    requires
        queues.contains_key(subscriber),
        queues[subscriber].len() == 0,
        messages.len() <= queue_len,
    ensures
        received(after_publishes(queues, messages, queue_len)[subscriber], messages.len())
            == messages,
{
    law_subscribers_observe_in_order(queues, messages, queue_len, subscriber);
    assert(queues[subscriber] + messages =~= messages);
    lemma_received_all(messages);
}

/// One subscriber with the messages it has not taken yet, oldest first.
#[derive(Debug)]
struct Subscriber {
    id: u64,
    pending: VecDeque<String>,
}

/// The registry of subscribers and their queues. No subscriber occurs twice,
/// and no queue is ever longer than the bound.
#[derive(Debug)]
pub struct Broadcaster {
    subscribers: Vec<Subscriber>,
    queue_len: usize,
    issued: u64,
}

/// The names of the subscribers, in the order in which they subscribed.
spec fn ids_of(subscribers: Seq<Subscriber>) -> Seq<u64> {
    Seq::new(subscribers.len(), |i: int| subscribers[i].id)
}

/// A place at which the subscriber `id` is stored.
spec fn slot_of(subscribers: Seq<Subscriber>, id: u64) -> int {
    choose|i: int| 0 <= i < subscribers.len() && subscribers[i].id == id
}

/// The pending messages of every subscriber.
spec fn queues_of(subscribers: Seq<Subscriber>) -> Map<u64, Seq<Seq<char>>> {
    Map::new(
        |id: u64| ids_of(subscribers).contains(id),
        |id: u64| texts(subscribers[slot_of(subscribers, id)].pending@),
    )
}

/// No subscriber occurs twice, each was named before `issued`, and no queue
/// is longer than `queue_len`.
spec fn sound(subscribers: Seq<Subscriber>, queue_len: usize, issued: u64) -> bool {
    &&& ids_of(subscribers).no_duplicates()
    &&& forall|i: int| 0 <= i < subscribers.len() ==> (#[trigger] subscribers[i]).id < issued
    &&& forall|i: int|
        0 <= i < subscribers.len() ==> (#[trigger] subscribers[i]).pending@.len() <= queue_len
}

/// Among distinct subscribers each has exactly one place.
proof fn lemma_slot(subscribers: Seq<Subscriber>, i: int)
    requires
        ids_of(subscribers).no_duplicates(),
        0 <= i < subscribers.len(),
    ensures
        ids_of(subscribers).contains(subscribers[i].id),
        slot_of(subscribers, subscribers[i].id) == i,
        queues_of(subscribers).contains_key(subscribers[i].id),
        queues_of(subscribers)[subscribers[i].id] == texts(subscribers[i].pending@),
{
    let ids = ids_of(subscribers);
    assert(ids[i] == subscribers[i].id);
    let j = slot_of(subscribers, subscribers[i].id);
    assert(ids[j] == ids[i]);
}

/// The place of the subscriber `id`, if it is among `subscribers`.
fn position(subscribers: &Vec<Subscriber>, id: u64) -> (found: Option<usize>)
    ensures
        match found {
            Some(i) => i < subscribers@.len() && subscribers@[i as int].id == id,
            None => !ids_of(subscribers@).contains(id),
        },
{
    let mut i: usize = 0;
    while i < subscribers.len()
        invariant
            i <= subscribers@.len(),
            forall|j: int| 0 <= j < i ==> subscribers@[j].id != id,
        decreases subscribers@.len() - i,
    {
        if subscribers[i].id == id {
            return Some(i);
        }
        i += 1;
    }
    None
}

impl View for Broadcaster {
    type V = Map<u64, Seq<Seq<char>>>;

    /// The pending messages of every subscriber, oldest first.
    closed spec fn view(&self) -> Map<u64, Seq<Seq<char>>> {
        queues_of(self.subscribers@)
    }
}

impl Broadcaster {
    #[verifier::type_invariant]
    spec fn wf(&self) -> bool {
        sound(self.subscribers@, self.queue_len, self.issued)
    }

    /// The subscribers, in the order in which they subscribed.
    pub closed spec fn spec_ids(&self) -> Seq<u64> {
        ids_of(self.subscribers@)
    }

    /// The bound of every subscriber's queue.
    pub closed spec fn spec_queue_len(&self) -> usize {
        self.queue_len
    }

    /// How many subscriptions were ever made; the next subscriber gets this
    /// number as its name.
    pub closed spec fn spec_issued(&self) -> u64 {
        self.issued
    }

    /// A registry without subscribers whose queues will hold at most
    /// `queue_len` pending messages each.
    pub fn new(queue_len: usize) -> (broadcaster: Self)
        ensures
            broadcaster@ == Map::<u64, Seq<Seq<char>>>::empty(),
            broadcaster.spec_ids() == Seq::<u64>::empty(),
            broadcaster.spec_queue_len() == queue_len,
            broadcaster.spec_issued() == 0,
    {
        let broadcaster = Broadcaster { subscribers: Vec::new(), queue_len, issued: 0 };
        assert(broadcaster@ =~= Map::<u64, Seq<Seq<char>>>::empty());
        assert(broadcaster.spec_ids() =~= Seq::<u64>::empty());
        broadcaster
    }

    /// The bound of every subscriber's queue.
    #[verifier::when_used_as_spec(spec_queue_len)]
    pub fn queue_len(&self) -> (queue_len: usize)
        ensures
            queue_len == self.spec_queue_len(),
    {
        self.queue_len
    }

    /// The number of subscribers.
    pub fn subscriber_count(&self) -> (count: usize)
        ensures
            count == self.spec_ids().len(),
            count == self@.dom().len(),
    {
        proof {
            use_type_invariant(&*self);
            ids_of(self.subscribers@).unique_seq_to_set();
            assert(self@.dom() =~= ids_of(self.subscribers@).to_set());
        }
        self.subscribers.len()
    }

    /// Whether `id` names a current subscriber.
    pub fn is_subscribed(&self, id: u64) -> (subscribed: bool)
        ensures
            subscribed == self@.contains_key(id),
    {
        match position(&self.subscribers, id) {
            Some(i) => {
                assert(ids_of(self.subscribers@)[i as int] == id);
                true
            },
            None => false,
        }
    }

    /// The number of messages waiting for the subscriber `id`: never more
    /// than the bound.
    pub fn pending(&self, id: u64) -> (waiting: Option<usize>)
        ensures
            match waiting {
                Some(count) => self@.contains_key(id) && count == self@[id].len() && count
                    <= self.spec_queue_len(),
                None => !self@.contains_key(id),
            },
    {
        proof {
            use_type_invariant(&*self);
        }
        match position(&self.subscribers, id) {
            Some(i) => {
                proof {
                    lemma_slot(self.subscribers@, i as int);
                }
                Some(self.subscribers[i].pending.len())
            },
            None => None,
        }
    }

    /// Adds a subscriber with an empty queue: it will receive only what is
    /// published from now on. Returns its name, or nothing once every name
    /// has been given out.
    pub fn subscribe(&mut self) -> (subscriber: Option<u64>)
        ensures
            final(self).spec_queue_len() == old(self).spec_queue_len(),
            match subscriber {
                Some(id) => {
                    &&& id == old(self).spec_issued()
                    &&& !old(self)@.contains_key(id)
                    &&& final(self).spec_issued() == id + 1
                    &&& final(self)@ == old(self)@.insert(id, Seq::empty())
                    &&& final(self).spec_ids() == old(self).spec_ids().push(id)
                },
                None => {
                    &&& old(self).spec_issued() == u64::MAX
                    &&& *final(self) == *old(self)
                },
            },
    {
        proof {
            use_type_invariant(&*self);
        }
        if self.issued == u64::MAX {
            return None;
        }
        let id = self.issued;
        let mut subscribers: Vec<Subscriber> = Vec::new();
        std::mem::swap(&mut subscribers, &mut self.subscribers);
        let ghost before = subscribers@;
        subscribers.push(Subscriber { id, pending: VecDeque::new() });
        proof {
            let after = subscribers@;
            assert(ids_of(after) =~= ids_of(before).push(id));
            assert(!ids_of(before).contains(id)) by {
                if ids_of(before).contains(id) {
                    let j = choose|j: int| 0 <= j < ids_of(before).len() && ids_of(before)[j] == id;
                    assert(before[j].id < id);
                }
            }
            assert(sound(after, self.queue_len, (id + 1) as u64));
            let last = after.len() - 1;
            lemma_slot(after, last);
            assert(texts(after[last].pending@) =~= Seq::<Seq<char>>::empty());
            assert forall|other: u64| #[trigger]
                queues_of(before).contains_key(other) implies queues_of(after).contains_key(other)
                && queues_of(after)[other] == queues_of(before)[other] by {
                let j = choose|j: int|
                    0 <= j < ids_of(before).len() && ids_of(before)[j] == other;
                lemma_slot(before, j);
                lemma_slot(after, j);
            }
            assert forall|other: u64| #[trigger] queues_of(after).contains_key(other) && other
                != id implies queues_of(before).contains_key(other) by {
                let j = choose|j: int| 0 <= j < ids_of(after).len() && ids_of(after)[j] == other;
                assert(ids_of(before)[j] == other);
            }
            assert(queues_of(after) =~= queues_of(before).insert(id, Seq::empty()));
        }
        self.issued = id + 1;
        self.subscribers = subscribers;
        Some(id)
    }

    /// Ends the subscription `id` and discards its queue. The other
    /// subscribers are not affected. Returns whether `id` was subscribed.
    pub fn unsubscribe(&mut self, id: u64) -> (removed: bool)
        ensures
            final(self).spec_queue_len() == old(self).spec_queue_len(),
            final(self).spec_issued() == old(self).spec_issued(),
            removed == old(self)@.contains_key(id),
            final(self)@ == old(self)@.remove(id),
    {
        proof {
            use_type_invariant(&*self);
        }
        let mut subscribers: Vec<Subscriber> = Vec::new();
        std::mem::swap(&mut subscribers, &mut self.subscribers);
        let ghost before = subscribers@;
        let removed = match position(&subscribers, id) {
            None => {
                assert(queues_of(before) =~= queues_of(before).remove(id));
                false
            },
            Some(i) => {
                subscribers.remove(i);
                proof {
                    let after = subscribers@;
                    lemma_slot(before, i as int);
                    assert(ids_of(after) =~= ids_of(before).remove(i as int));
                    assert forall|a: int, b: int|
                        0 <= a < ids_of(after).len() && 0 <= b < ids_of(after).len() && a
                            != b implies ids_of(after)[a] != ids_of(after)[b] by {
                        let a0 = if a < i { a } else { a + 1 };
                        let b0 = if b < i { b } else { b + 1 };
                        assert(ids_of(after)[a] == ids_of(before)[a0]);
                        assert(ids_of(after)[b] == ids_of(before)[b0]);
                    }
                    assert forall|j: int| 0 <= j < after.len() implies (#[trigger] after[j])
                        == before[if j < i { j } else { j + 1 }] by {}
                    assert(sound(after, self.queue_len, self.issued));
                    assert forall|other: u64| #[trigger]
                        queues_of(after).contains_key(other) implies other != id
                        && queues_of(before).contains_key(other)
                        && queues_of(after)[other] == queues_of(before)[other] by {
                        let j = choose|j: int|
                            0 <= j < ids_of(after).len() && ids_of(after)[j] == other;
                        let j0 = if j < i { j } else { j + 1 };
                        lemma_slot(after, j);
                        lemma_slot(before, j0);
                    }
                    assert forall|other: u64| #[trigger]
                        queues_of(before).contains_key(other) && other != id implies queues_of(
                        after,
                    ).contains_key(other) by {
                        let j0 = choose|j: int|
                            0 <= j < ids_of(before).len() && ids_of(before)[j] == other;
                        let j = if j0 < i { j0 } else { j0 - 1 };
                        assert(ids_of(after)[j] == other);
                    }
                    assert(queues_of(after) =~= queues_of(before).remove(id));
                }
                true
            },
        };
        self.subscribers = subscribers;
        removed
    }

    /// Delivers `message` to every current subscriber: the message is put at
    /// the end of each queue, and a queue that was full loses its oldest
    /// message. Returns the number of subscribers.
    pub fn publish(&mut self, message: &str) -> (reached: usize)
        ensures
            final(self).spec_queue_len() == old(self).spec_queue_len(),
            final(self).spec_issued() == old(self).spec_issued(),
            final(self).spec_ids() == old(self).spec_ids(),
            final(self)@ == published(old(self)@, message@, old(self).spec_queue_len() as nat),
            reached == old(self).spec_ids().len(),
    {
        proof {
            use_type_invariant(&*self);
        }
        let mut subscribers: Vec<Subscriber> = Vec::new();
        std::mem::swap(&mut subscribers, &mut self.subscribers);
        let ghost before = subscribers@;
        let queue_len = self.queue_len;
        let ghost bound = queue_len as nat;
        let mut i: usize = 0;
        while i < subscribers.len()
            invariant
                i <= subscribers@.len(),
                bound == queue_len,
                subscribers@.len() == before.len(),
                forall|j: int|
                    0 <= j < subscribers@.len() ==> (#[trigger] subscribers@[j]).id
                        == before[j].id,
                forall|j: int|
                    0 <= j < i ==> texts((#[trigger] subscribers@[j]).pending@) == retained(
                        texts(before[j].pending@).push(message@),
                        bound,
                    ),
                forall|j: int|
                    i <= j < subscribers@.len() ==> (#[trigger] subscribers@[j]).pending
                        == before[j].pending,
            decreases subscribers@.len() - i,
        {
            let ghost waiting = subscribers@[i as int].pending@;
            let copy = message.to_owned();
            subscribers[i].pending.push_back(copy);
            trim_front(&mut subscribers[i].pending, queue_len);
            proof {
                assert(texts(waiting.push(copy)) =~= texts(waiting).push(message@));
                assert(texts(retained(waiting.push(copy), bound)) =~= retained(
                    texts(waiting.push(copy)),
                    bound,
                ));
            }
            i += 1;
        }
        proof {
            let after = subscribers@;
            assert(ids_of(after) =~= ids_of(before));
            assert forall|j: int| 0 <= j < after.len() implies (#[trigger] after[j]).pending@.len()
                <= queue_len by {
                assert(texts(after[j].pending@).len() == after[j].pending@.len());
            }
            assert(sound(after, self.queue_len, self.issued));
            let target = published(queues_of(before), message@, bound);
            assert forall|id: u64| #[trigger] queues_of(after).contains_key(id) implies queues_of(
                after,
            )[id] == target[id] by {
                let j = choose|j: int| 0 <= j < ids_of(after).len() && ids_of(after)[j] == id;
                lemma_slot(after, j);
                lemma_slot(before, j);
            }
            assert(queues_of(after) =~= target);
        }
        let reached = subscribers.len();
        self.subscribers = subscribers;
        reached
    }

    /// Takes the oldest pending message of the subscriber `id` out of its
    /// queue. Returns nothing, and changes nothing, where the queue is empty
    /// or `id` is not subscribed.
    pub fn try_recv(&mut self, id: u64) -> (message: Option<String>)
        ensures
            final(self).spec_queue_len() == old(self).spec_queue_len(),
            final(self).spec_issued() == old(self).spec_issued(),
            final(self).spec_ids() == old(self).spec_ids(),
            match message {
                Some(text) => {
                    &&& old(self)@.contains_key(id)
                    &&& old(self)@[id].len() > 0
                    &&& text@ == old(self)@[id].first()
                    &&& final(self)@ == old(self)@.insert(id, old(self)@[id].drop_first())
                },
                None => {
                    &&& !old(self)@.contains_key(id) || old(self)@[id].len() == 0
                    &&& final(self)@ == old(self)@
                },
            },
    {
        proof {
            use_type_invariant(&*self);
        }
        let mut subscribers: Vec<Subscriber> = Vec::new();
        std::mem::swap(&mut subscribers, &mut self.subscribers);
        let ghost before = subscribers@;
        let message = match position(&subscribers, id) {
            None => None,
            Some(i) => {
                proof {
                    lemma_slot(before, i as int);
                }
                let ghost waiting = subscribers@[i as int].pending@;
                let taken = subscribers[i].pending.pop_front();
                proof {
                    let after = subscribers@;
                    assert(ids_of(after) =~= ids_of(before));
                    assert(sound(after, self.queue_len, self.issued));
                    lemma_slot(after, i as int);
                    assert forall|other: u64| #[trigger] queues_of(after).contains_key(other)
                        && other != id implies queues_of(after)[other] == queues_of(
                        before,
                    )[other] by {
                        let j = choose|j: int|
                            0 <= j < ids_of(after).len() && ids_of(after)[j] == other;
                        lemma_slot(after, j);
                        lemma_slot(before, j);
                    }
                    if taken is Some {
                        assert(texts(waiting.subrange(1, waiting.len() as int)) =~= texts(
                            waiting,
                        ).drop_first());
                        assert(queues_of(after) =~= queues_of(before).insert(
                            id,
                            queues_of(before)[id].drop_first(),
                        ));
                    } else {
                        assert(queues_of(after) =~= queues_of(before));
                    }
                }
                taken
            },
        };
        self.subscribers = subscribers;
        message
    }
}

} // verus!
