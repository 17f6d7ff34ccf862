//! The serving side as one value: the store and the registry of subscribers,
//! changed together so that every accepted batch is applied once and
//! published once.

use crate::batch::Batch;
use crate::broadcast::{published, Broadcaster, DEFAULT_QUEUE_LEN};
use crate::values::{keys_joined, merged, Values, DEFAULT_MAX_LEN};
use vstd::prelude::*;

verus! {

/// The store and the broadcaster of one server. Whoever shares it between
/// request handlers decides how: nothing here is global.
#[derive(Debug)]
pub struct AppState<T> {
    values: Values<T>,
    broadcaster: Broadcaster,
}

impl<T> AppState<T> {
    /// The store.
    pub closed spec fn spec_values(&self) -> Values<T> {
        self.values
    }

    /// The registry of subscribers.
    pub closed spec fn spec_broadcaster(&self) -> Broadcaster {
        self.broadcaster
    }

    /// The store, for reading.
    pub fn values(&self) -> (values: &Values<T>)
        ensures
            *values == self.spec_values(),
    {
        &self.values
    }

    /// The registry of subscribers, for reading.
    pub fn broadcaster(&self) -> (broadcaster: &Broadcaster)
        ensures
            *broadcaster == self.spec_broadcaster(),
    {
        &self.broadcaster
    }
}

impl<T: Copy> AppState<T> {
    /// An empty store with the default capacity and no subscriber.
    pub fn new() -> (state: Self)
        ensures
            state.spec_values()@ == Map::<Seq<char>, Seq<T>>::empty(),
            state.spec_values().spec_keys() == Seq::<Seq<char>>::empty(),
            state.spec_values().spec_max_len() == DEFAULT_MAX_LEN,
            state.spec_broadcaster()@ == Map::<u64, Seq<Seq<char>>>::empty(),
            state.spec_broadcaster().spec_queue_len() == DEFAULT_QUEUE_LEN,
            state.spec_broadcaster().spec_issued() == 0,
    {
        AppState {
            values: Values::with_capacity(DEFAULT_MAX_LEN),
            broadcaster: Broadcaster::new(DEFAULT_QUEUE_LEN),
        }
    }

    /// Accepts one decoded batch: applies it to the store as one mutation and
    /// publishes `frame`, the message that stands for it, to every
    /// subscriber. Returns the number of subscribers.
    pub fn accept(&mut self, batch: &Batch<T>, frame: &str) -> (reached: usize)
        ensures
            final(self).spec_values().spec_max_len() == old(self).spec_values().spec_max_len(),
            final(self).spec_values()@ == merged(
                old(self).spec_values()@,
                batch@,
                old(self).spec_values().spec_max_len() as nat,
            ),
            final(self).spec_values().spec_keys() == keys_joined(
                old(self).spec_values().spec_keys(),
                batch.spec_keys(),
            ),
            final(self).spec_broadcaster().spec_queue_len() == old(
                self,
            ).spec_broadcaster().spec_queue_len(),
            final(self).spec_broadcaster().spec_issued() == old(
                self,
            ).spec_broadcaster().spec_issued(),
            final(self).spec_broadcaster().spec_ids() == old(self).spec_broadcaster().spec_ids(),
            final(self).spec_broadcaster()@ == published(
                old(self).spec_broadcaster()@,
                frame@,
                old(self).spec_broadcaster().spec_queue_len() as nat,
            ),
            reached == old(self).spec_broadcaster().spec_ids().len(),
    {
        self.values.push_batch(batch);
        self.broadcaster.publish(frame)
    }

    /// A copy of the whole store as of this moment.
    pub fn snapshot(&self) -> (snapshot: Batch<T>)
        ensures
            snapshot@ == self.spec_values()@,
            snapshot.spec_keys() == self.spec_values().spec_keys(),
    {
        self.values.snapshot()
    }

    /// Adds a subscriber, as `Broadcaster::subscribe` does; the store is not
    /// touched.
    pub fn subscribe(&mut self) -> (subscriber: Option<u64>)
        ensures
            final(self).spec_values() == old(self).spec_values(),
            final(self).spec_broadcaster().spec_queue_len() == old(
                self,
            ).spec_broadcaster().spec_queue_len(),
            match subscriber {
                Some(id) => {
                    &&& id == old(self).spec_broadcaster().spec_issued()
                    &&& !old(self).spec_broadcaster()@.contains_key(id)
                    &&& final(self).spec_broadcaster().spec_issued() == id + 1
                    &&& final(self).spec_broadcaster()@ == old(self).spec_broadcaster()@.insert(
                        id,
                        Seq::empty(),
                    )
                },
                None => {
                    &&& old(self).spec_broadcaster().spec_issued() == u64::MAX
                    &&& final(self).spec_broadcaster() == old(self).spec_broadcaster()
                },
            },
    {
        self.broadcaster.subscribe()
    }

    /// Ends one subscription, as `Broadcaster::unsubscribe` does; the store
    /// and the other subscribers are not touched.
    pub fn unsubscribe(&mut self, id: u64) -> (removed: bool)
        ensures
            final(self).spec_values() == old(self).spec_values(),
            final(self).spec_broadcaster().spec_queue_len() == old(
                self,
            ).spec_broadcaster().spec_queue_len(),
            final(self).spec_broadcaster().spec_issued() == old(
                self,
            ).spec_broadcaster().spec_issued(),
            removed == old(self).spec_broadcaster()@.contains_key(id),
            final(self).spec_broadcaster()@ == old(self).spec_broadcaster()@.remove(id),
    {
        self.broadcaster.unsubscribe(id)
    }

    /// Takes the oldest pending message of one subscriber, as
    /// `Broadcaster::try_recv` does; the store is not touched.
    pub fn try_recv(&mut self, id: u64) -> (message: Option<String>)
        ensures
            final(self).spec_values() == old(self).spec_values(),
            final(self).spec_broadcaster().spec_queue_len() == old(
                self,
            ).spec_broadcaster().spec_queue_len(),
            final(self).spec_broadcaster().spec_issued() == old(
                self,
            ).spec_broadcaster().spec_issued(),
            final(self).spec_broadcaster().spec_ids() == old(self).spec_broadcaster().spec_ids(),
            match message {
                Some(text) => {
                    &&& old(self).spec_broadcaster()@.contains_key(id)
                    &&& old(self).spec_broadcaster()@[id].len() > 0
                    &&& text@ == old(self).spec_broadcaster()@[id].first()
                    &&& final(self).spec_broadcaster()@ == old(self).spec_broadcaster()@.insert(
                        id,
                        old(self).spec_broadcaster()@[id].drop_first(),
                    )
                },
                None => {
                    &&& !old(self).spec_broadcaster()@.contains_key(id) || old(
                        self,
                    ).spec_broadcaster()@[id].len() == 0
                    &&& final(self).spec_broadcaster()@ == old(self).spec_broadcaster()@
                },
            },
    {
        self.broadcaster.try_recv(id)
    }
}

} // verus!
