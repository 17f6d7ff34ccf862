//! The store: one bounded series of samples per key, all series sharing one
//! capacity.

use crate::batch::{list_of, Batch};
use crate::retention::retained;
use crate::ring::{append_samples, copy_samples, trim_front};
use crate::text::{names, same_text};
use std::collections::vec_deque::Iter;
use std::collections::VecDeque;
use vstd::prelude::*;
use vstd::std_specs::iter::IteratorSpec;

verus! {

/// The capacity of a store made by `Values::default`.
pub const DEFAULT_MAX_LEN: usize = 3600;

/// The content of a store of the given capacity after a batch was applied to
/// it: every key of the batch has its values appended and its series trimmed
/// to the capacity; the other series are untouched.
pub open spec fn merged<T>(
    store: Map<Seq<char>, Seq<T>>,
    batch: Map<Seq<char>, Seq<T>>,
    capacity: nat,
) -> Map<Seq<char>, Seq<T>> {
    Map::new(
        |key: Seq<char>| store.contains_key(key) || batch.contains_key(key),
        |key: Seq<char>|
            if batch.contains_key(key) {
                retained(list_of(store, key) + batch[key], capacity)
            } else {
                store[key]
            },
    )
}

/// The keys of a store after the keys `added` were pushed to in turn: a key
/// that is new to the store takes the last place.
pub open spec fn keys_joined(keys: Seq<Seq<char>>, added: Seq<Seq<char>>) -> Seq<Seq<char>>
    decreases added.len(),
{
    if added.len() == 0 {
        keys
    } else {
        let before = keys_joined(keys, added.drop_last());
        if before.contains(added.last()) {
            before
        } else {
            before.push(added.last())
        }
    }
}

/// Replaying a snapshot into an empty store whose capacity no series of the
/// snapshot exceeds reproduces, for every key, the same samples in the same
/// order.
pub proof fn law_snapshot_round_trip<T>(snapshot: Map<Seq<char>, Seq<T>>, capacity: nat)
    requires
        forall|key: Seq<char>| #[trigger]
            snapshot.contains_key(key) ==> snapshot[key].len() <= capacity,
    ensures
        merged(Map::<Seq<char>, Seq<T>>::empty(), snapshot, capacity) == snapshot,
{
    let replayed = merged(Map::<Seq<char>, Seq<T>>::empty(), snapshot, capacity);
    assert forall|key: Seq<char>| #[trigger] replayed.contains_key(key) implies replayed[key]
        == snapshot[key] by {
        assert(Seq::<T>::empty() + snapshot[key] =~= snapshot[key]);
    }
    assert(replayed =~= snapshot);
}

/// Replaying a snapshot into an empty store also reproduces the order of its
/// keys.
pub proof fn law_snapshot_keeps_key_order(keys: Seq<Seq<char>>)
    requires
        keys.no_duplicates(),
    ensures
        keys_joined(Seq::empty(), keys) == keys,
    decreases keys.len(),
{
    if keys.len() > 0 {
        let earlier = keys.drop_last();
        law_snapshot_keeps_key_order(earlier);
        assert(!earlier.contains(keys.last())) by {
            if earlier.contains(keys.last()) {
                let j = choose|j: int| 0 <= j < earlier.len() && earlier[j] == keys.last();
                assert(keys[j] == keys[keys.len() - 1]);
            }
        }
        assert(earlier.push(keys.last()) =~= keys);
    } else {
        assert(keys =~= Seq::<Seq<char>>::empty());
    }
}

/// One key with the samples retained for it, oldest first.
#[derive(Debug)]
struct Series<T> {
    key: String,
    samples: VecDeque<T>,
}

/// A store of samples: for each key the most recent samples pushed under it.
/// No key occurs twice, no series is ever longer than the capacity, and the
/// keys are kept in the order of their first push.
#[derive(Debug)]
pub struct Values<T> {
    series: Vec<Series<T>>,
    max_len: usize,
}

/// The keys of the series, in order.
spec fn keys_of<T>(series: Seq<Series<T>>) -> Seq<Seq<char>> {
    Seq::new(series.len(), |i: int| series[i].key@)
}

/// A place at which `key` is stored.
spec fn slot_of<T>(series: Seq<Series<T>>, key: Seq<char>) -> int {
    choose|i: int| 0 <= i < series.len() && series[i].key@ == key
}

/// The retained samples of every key.
spec fn content_of<T>(series: Seq<Series<T>>) -> Map<Seq<char>, Seq<T>> {
    Map::new(
        |key: Seq<char>| keys_of(series).contains(key),
        |key: Seq<char>| series[slot_of(series, key)].samples@,
    )
}

/// No key occurs twice and no series is longer than `max_len`.
spec fn sound<T>(series: Seq<Series<T>>, max_len: usize) -> bool {
    &&& keys_of(series).no_duplicates()
    &&& forall|i: int| 0 <= i < series.len() ==> (#[trigger] series[i]).samples@.len() <= max_len
}

/// Among distinct keys each has exactly one place.
proof fn lemma_slot<T>(series: Seq<Series<T>>, i: int)
    requires
        keys_of(series).no_duplicates(),
        0 <= i < series.len(),
    ensures
        keys_of(series).contains(series[i].key@),
        slot_of(series, series[i].key@) == i,
        content_of(series).contains_key(series[i].key@),
        content_of(series)[series[i].key@] == series[i].samples@,
{
    let keys = keys_of(series);
    assert(keys[i] == series[i].key@);
    let j = slot_of(series, series[i].key@);
    assert(keys[j] == keys[i]);
}

/// The place of `key` among the series, if it has one.
fn position<T>(series: &Vec<Series<T>>, key: &str) -> (found: Option<usize>)
    ensures
        match found {
            Some(i) => i < series@.len() && series@[i as int].key@ == key@,
            None => !keys_of(series@).contains(key@),
        },
{
    let mut i: usize = 0;
    while i < series.len()
        invariant
            i <= series@.len(),
            forall|j: int| 0 <= j < i ==> series@[j].key@ != key@,
        decreases series@.len() - i,
    {
        if same_text(series[i].key.as_str(), key) {
            return Some(i);
        }
        i += 1;
    }
    None
}

impl<T> View for Values<T> {
    type V = Map<Seq<char>, Seq<T>>;

    /// The retained samples of every key, oldest first.
    closed spec fn view(&self) -> Map<Seq<char>, Seq<T>> {
        content_of(self.series@)
    }
}

impl<T> Values<T> {
    #[verifier::type_invariant]
    spec fn wf(&self) -> bool {
        sound(self.series@, self.max_len)
    }

    /// The keys of the store, in the order of their first push.
    pub closed spec fn spec_keys(&self) -> Seq<Seq<char>> {
        keys_of(self.series@)
    }

    /// The capacity shared by every series.
    pub closed spec fn spec_max_len(&self) -> usize {
        self.max_len
    }

    /// The capacity shared by every series.
    #[verifier::when_used_as_spec(spec_max_len)]
    pub fn max_len(&self) -> (max_len: usize)
        ensures
            max_len == self.spec_max_len(),
    {
        self.max_len
    }

    /// The samples retained for `key`; none where the key is absent.
    pub open spec fn samples(&self, key: Seq<char>) -> Seq<T> {
        list_of(self@, key)
    }

    /// An empty store whose series will each keep at most `max_len` samples.
    pub fn with_capacity(max_len: usize) -> (store: Self)
        ensures
            store@ == Map::<Seq<char>, Seq<T>>::empty(),
            store.spec_keys() == Seq::<Seq<char>>::empty(),
            store.spec_max_len() == max_len,
    {
        let store = Values { series: Vec::new(), max_len };
        assert(store@ =~= Map::<Seq<char>, Seq<T>>::empty());
        assert(store.spec_keys() =~= Seq::<Seq<char>>::empty());
        store
    }

    /// Discards every series and every key; the capacity stays.
    pub fn reset(&mut self)
        ensures
            final(self).spec_max_len() == old(self).spec_max_len(),
            final(self)@ == Map::<Seq<char>, Seq<T>>::empty(),
            final(self).spec_keys() == Seq::<Seq<char>>::empty(),
    {
        self.series = Vec::new();
        assert(self@ =~= Map::<Seq<char>, Seq<T>>::empty());
        assert(self.spec_keys() =~= Seq::<Seq<char>>::empty());
    }

    /// Whether anything was pushed under `key` since the last reset.
    pub fn contains_key(&self, key: &str) -> (present: bool)
        ensures
            present == self@.contains_key(key@),
    {
        match position(&self.series, key) {
            Some(i) => {
                assert(keys_of(self.series@)[i as int] == key@);
                true
            },
            None => false,
        }
    }

    /// The keys of the store, each once, in the order of their first push.
    pub fn keys(&self) -> (keys: Vec<String>)
        ensures
            names(keys@) == self.spec_keys(),
            names(keys@).no_duplicates(),
            forall|key: Seq<char>| self@.contains_key(key) <==> names(keys@).contains(key),
    {
        let mut keys: Vec<String> = Vec::new();
        let mut i: usize = 0;
        while i < self.series.len()
            invariant
                i <= self.series@.len(),
                keys@.len() == i,
                forall|j: int| 0 <= j < i ==> (#[trigger] keys@[j])@ == self.series@[j].key@,
            decreases self.series@.len() - i,
        {
            keys.push(self.series[i].key.clone());
            i += 1;
        }
        proof {
            use_type_invariant(&*self);
            assert(names(keys@) =~= keys_of(self.series@));
        }
        keys
    }

    /// The series of `key`, oldest sample first: its length, never more than
    /// the capacity, is known at once, and it can be walked from either end,
    /// any number of times.
    pub fn values_for_key(&self, key: &str) -> (series: Option<&VecDeque<T>>)
        ensures
            match series {
                Some(samples) => self@.contains_key(key@) && samples@ == self@[key@]
                    && samples@.len() <= self.spec_max_len(),
                None => !self@.contains_key(key@),
            },
    {
        match position(&self.series, key) {
            Some(i) => {
                proof {
                    use_type_invariant(&*self);
                    lemma_slot(self.series@, i as int);
                }
                Some(&self.series[i].samples)
            },
            None => None,
        }
    }

    /// A walk over the series of `key`, oldest sample first. It knows its
    /// length, can be walked from the back, and a new one can be had at any
    /// time.
    pub fn iter_for_key(&self, key: &str) -> (walk: Option<Iter<'_, T>>)
        ensures
            match walk {
                Some(iter) => self@.contains_key(key@) && iter.remaining().unref() == self@[key@],
                None => !self@.contains_key(key@),
            },
    {
        match self.values_for_key(key) {
            Some(series) => {
                let iter = series.iter();
                assert(iter.remaining().unref() =~= series@);
                Some(iter)
            },
            None => None,
        }
    }
}

impl<T: Copy> Values<T> {
    /// Appends `values` to the series of `key`, creating the series if the key
    /// is new, then evicts from its head, in one bulk removal, whatever
    /// exceeds the capacity.
    pub fn push(&mut self, key: String, values: &[T])
        ensures
            final(self).spec_max_len() == old(self).spec_max_len(),
            final(self)@ == old(self)@.insert(
                key@,
                retained(old(self).samples(key@) + values@, old(self).spec_max_len() as nat),
            ),
            final(self)@[key@].len() <= final(self).spec_max_len(),
            final(self).spec_keys() == if old(self)@.contains_key(key@) {
                old(self).spec_keys()
            } else {
                old(self).spec_keys().push(key@)
            },
    {
        proof {
            use_type_invariant(&*self);
        }
        let mut series: Vec<Series<T>> = Vec::new();
        std::mem::swap(&mut series, &mut self.series);
        let ghost before = series@;
        let found = position(&series, key.as_str());
        let slot = match found {
            Some(i) => i,
            None => {
                series.push(Series { key, samples: VecDeque::new() });
                series.len() - 1
            },
        };
        let ghost grown = series@;
        proof {
            assert(keys_of(grown) =~= if found is Some {
                keys_of(before)
            } else {
                keys_of(before).push(key@)
            });
            if found is Some {
                lemma_slot(before, slot as int);
            }
            lemma_slot(grown, slot as int);
        }
        append_samples(&mut series[slot].samples, values);
        trim_front(&mut series[slot].samples, self.max_len);
        proof {
            let after = series@;
            let target = retained(
                list_of(content_of(before), key@) + values@,
                self.max_len as nat,
            );
            assert(after[slot as int].samples@ == target);
            assert(keys_of(after) =~= keys_of(grown));
            assert(sound(after, self.max_len));
            lemma_slot(after, slot as int);
            assert forall|k: Seq<char>| #[trigger]
                content_of(after).contains_key(k) && k != key@ implies content_of(
                before,
            ).contains_key(k) && content_of(after)[k] == content_of(before)[k] by {
                let i = choose|i: int| 0 <= i < keys_of(after).len() && keys_of(after)[i] == k;
                lemma_slot(after, i);
                lemma_slot(before, i);
            }
            assert forall|k: Seq<char>| #[trigger]
                content_of(before).contains_key(k) implies content_of(after).contains_key(k) by {
                let i = choose|i: int| 0 <= i < keys_of(before).len() && keys_of(before)[i] == k;
                lemma_slot(after, i);
            }
            assert(content_of(after) =~= content_of(before).insert(key@, target));
        }
        self.series = series;
    }

    /// Changes the capacity of every series, present and future. A series
    /// longer than the new capacity loses its oldest samples in one bulk
    /// removal; a series that fits is left as it is.
    pub fn set_max_len(&mut self, max_len: usize)
        ensures
            final(self).spec_max_len() == max_len,
            final(self).spec_keys() == old(self).spec_keys(),
            final(self)@ == old(self)@.map_values(
                |samples: Seq<T>| retained(samples, max_len as nat),
            ),
    {
        proof {
            use_type_invariant(&*self);
        }
        let mut series: Vec<Series<T>> = Vec::new();
        std::mem::swap(&mut series, &mut self.series);
        let ghost before = series@;
        let mut i: usize = 0;
        while i < series.len()
            invariant
                i <= series@.len(),
                series@.len() == before.len(),
                forall|j: int|
                    0 <= j < series@.len() ==> (#[trigger] series@[j]).key == before[j].key,
                forall|j: int|
                    0 <= j < i ==> (#[trigger] series@[j]).samples@ == retained(
                        before[j].samples@,
                        max_len as nat,
                    ),
                forall|j: int|
                    i <= j < series@.len() ==> (#[trigger] series@[j]).samples
                        == before[j].samples,
            decreases series@.len() - i,
        {
            trim_front(&mut series[i].samples, max_len);
            i += 1;
        }
        proof {
            let after = series@;
            assert(keys_of(after) =~= keys_of(before));
            assert(sound(after, max_len));
            let trimmed = content_of(before).map_values(
                |samples: Seq<T>| retained(samples, max_len as nat),
            );
            assert forall|k: Seq<char>| #[trigger]
                content_of(after).contains_key(k) implies content_of(after)[k] == trimmed[k] by {
                let j = choose|j: int| 0 <= j < keys_of(after).len() && keys_of(after)[j] == k;
                lemma_slot(after, j);
                lemma_slot(before, j);
            }
            assert(content_of(after) =~= trimmed);
        }
        self.max_len = max_len;
        self.series = series;
    }

    /// The sample most recently pushed under `key`, if the key is present and
    /// its series is not empty.
    pub fn get_last_value_for_key(&self, key: &str) -> (last: Option<T>)
        ensures
            last == if self.samples(key@).len() > 0 {
                Some(self.samples(key@).last())
            } else {
                None
            },
    {
        match self.values_for_key(key) {
            Some(samples) => {
                let len = samples.len();
                if len > 0 {
                    Some(samples[len - 1])
                } else {
                    None
                }
            },
            None => None,
        }
    }

    /// Applies a batch as one mutation: every key of the batch has its values
    /// appended to its series, which is then trimmed to the capacity.
    pub fn push_batch(&mut self, batch: &Batch<T>)
        ensures
            final(self).spec_max_len() == old(self).spec_max_len(),
            final(self)@ == merged(old(self)@, batch@, old(self).spec_max_len() as nat),
            final(self).spec_keys() == keys_joined(old(self).spec_keys(), batch.spec_keys()),
    {
        let ghost before = *self;
        let ghost capacity = self.max_len as nat;
        let ghost keys = batch.spec_keys();
        let mut i: usize = 0;
        proof {
            use_type_invariant(batch);
            batch.lemma_wf();
            assert(batch@.restrict(keys.subrange(0, 0).to_set()) =~= Map::<
                Seq<char>,
                Seq<T>,
            >::empty());
            assert(self@ =~= merged(before@, Map::<Seq<char>, Seq<T>>::empty(), capacity));
        }
        while i < batch.len()
            invariant
                i <= keys.len(),
                keys == batch.spec_keys(),
                keys.no_duplicates(),
                forall|key: Seq<char>| batch@.contains_key(key) <==> keys.contains(key),
                self.spec_max_len() == capacity,
                self@ == merged(
                    before@,
                    batch@.restrict(keys.subrange(0, i as int).to_set()),
                    capacity,
                ),
                self.spec_keys() == keys_joined(before.spec_keys(), keys.subrange(0, i as int)),
            decreases keys.len() - i,
        {
            let ghost key = keys[i as int];
            let ghost done = batch@.restrict(keys.subrange(0, i as int).to_set());
            let ghost next = batch@.restrict(keys.subrange(0, i as int + 1).to_set());
            proof {
                use_type_invariant(&*self);
                assert(forall|k: Seq<char>|
                    self@.contains_key(k) <==> self.spec_keys().contains(k));
                assert(keys.subrange(0, i as int + 1).drop_last() =~= keys.subrange(0, i as int));
                assert(keys.subrange(0, i as int + 1).last() == key);
                assert(keys.contains(key));
                assert(!keys.subrange(0, i as int).contains(key));
                assert(!done.contains_key(key));
                assert(next =~= done.insert(key, batch@[key]));
            }
            match (batch.key(i), batch.values(i)) {
                (Some(key), Some(values)) => {
                    self.push(key.clone(), values.as_slice());
                },
                _ => {},
            }
            proof {
                assert(self@ =~= merged(before@, next, capacity));
            }
            i += 1;
        }
        proof {
            assert(keys.subrange(0, i as int) =~= keys);
            assert(batch@.restrict(keys.to_set()) =~= batch@);
        }
    }

    /// A copy of the whole store as of this moment: every key with all its
    /// retained samples, oldest first, keys in the order of the store.
    pub fn snapshot(&self) -> (snapshot: Batch<T>)
        ensures
            snapshot@ == self@,
            snapshot.spec_keys() == self.spec_keys(),
    {
        let mut snapshot: Batch<T> = Batch::new();
        let ghost keys = self.spec_keys();
        let mut i: usize = 0;
        proof {
            use_type_invariant(&*self);
            assert(self@.restrict(keys.subrange(0, 0).to_set()) =~= Map::<
                Seq<char>,
                Seq<T>,
            >::empty());
            assert(keys.subrange(0, 0) =~= Seq::<Seq<char>>::empty());
        }
        while i < self.series.len()
            invariant
                i <= self.series@.len(),
                sound(self.series@, self.max_len),
                keys == self.spec_keys(),
                snapshot.spec_keys() == keys.subrange(0, i as int),
                snapshot@ == self@.restrict(keys.subrange(0, i as int).to_set()),
            decreases self.series@.len() - i,
        {
            let ghost done = snapshot@;
            proof {
                lemma_slot(self.series@, i as int);
                assert(keys[i as int] == self.series@[i as int].key@);
                assert(!keys.subrange(0, i as int).contains(keys[i as int]));
            }
            let samples = copy_samples(&self.series[i].samples);
            snapshot.extend(self.series[i].key.clone(), samples.as_slice());
            proof {
                assert(Seq::<T>::empty() + samples@ =~= samples@);
                assert(keys.subrange(0, i as int + 1) =~= keys.subrange(0, i as int).push(
                    keys[i as int],
                ));
                let shorter = keys.subrange(0, i as int);
                let longer = keys.subrange(0, i as int + 1);
                assert(!done.contains_key(keys[i as int]));
                assert forall|k: Seq<char>| longer.contains(k) <==> (shorter.contains(k) || k
                    == keys[i as int]) by {
                    if shorter.contains(k) {
                        let j = choose|j: int| 0 <= j < shorter.len() && shorter[j] == k;
                        assert(longer[j] == k);
                    }
                    if k == keys[i as int] {
                        assert(longer[i as int] == k);
                    }
                }
                assert(snapshot@ =~= self@.restrict(longer.to_set()));
            }
            i += 1;
        }
        proof {
            assert(keys.subrange(0, i as int) =~= keys);
            assert(self@.restrict(keys.to_set()) =~= self@);
        }
        snapshot
    }
}

impl<T> Default for Values<T> {
    /// An empty store with the default capacity.
    fn default() -> (store: Self)
        ensures
            store@ == Map::<Seq<char>, Seq<T>>::empty(),
            store.spec_keys() == Seq::<Seq<char>>::empty(),
            store.spec_max_len() == DEFAULT_MAX_LEN,
    {
        Values::with_capacity(DEFAULT_MAX_LEN)
    }
}

} // verus!
