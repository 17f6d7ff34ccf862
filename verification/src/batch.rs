//! One ingestion event: for each key the values that arrived for it, in
//! arrival order.

use crate::text::same_text;
use vstd::prelude::*;

verus! {

/// The values that `entries` hold for `key`, in the order of the entries and,
/// within an entry, in its own order.
pub open spec fn gathered<T>(entries: Seq<(Seq<char>, Seq<T>)>, key: Seq<char>) -> Seq<T>
    decreases entries.len(),
{
    if entries.len() == 0 {
        Seq::empty()
    } else if entries.last().0 == key {
        gathered(entries.drop_last(), key) + entries.last().1
    } else {
        gathered(entries.drop_last(), key)
    }
}

/// Whether some entry is for `key`.
pub open spec fn mentioned<T>(entries: Seq<(Seq<char>, Seq<T>)>, key: Seq<char>) -> bool {
    exists|i: int| 0 <= i < entries.len() && (#[trigger] entries[i]).0 == key
}

/// The entries as one list per key: repeated keys accumulate.
pub open spec fn grouped<T>(entries: Seq<(Seq<char>, Seq<T>)>) -> Map<Seq<char>, Seq<T>> {
    Map::new(
        |key: Seq<char>| mentioned(entries, key),
        |key: Seq<char>| gathered(entries, key),
    )
}

/// The keys of the entries, each once, in the order of first appearance.
pub open spec fn first_mentions<T>(entries: Seq<(Seq<char>, Seq<T>)>) -> Seq<Seq<char>>
    decreases entries.len(),
{
    if entries.len() == 0 {
        Seq::empty()
    } else {
        let before = first_mentions(entries.drop_last());
        if mentioned(entries.drop_last(), entries.last().0) {
            before
        } else {
            before.push(entries.last().0)
        }
    }
}

/// What a list of keyed lists holds, as plain sequences.
pub open spec fn entries_view<T>(entries: Seq<(String, Vec<T>)>) -> Seq<(Seq<char>, Seq<T>)> {
    Seq::new(entries.len(), |i: int| (entries[i].0@, entries[i].1@))
}

/// The list under `key` in `lists`; empty where the key is absent.
pub open spec fn list_of<T>(lists: Map<Seq<char>, Seq<T>>, key: Seq<char>) -> Seq<T> {
    if lists.contains_key(key) {
        lists[key]
    } else {
        Seq::empty()
    }
}

/// A key that no entry mentions gathers nothing.
pub proof fn lemma_gathered_unmentioned<T>(entries: Seq<(Seq<char>, Seq<T>)>, key: Seq<char>)
    requires
        !mentioned(entries, key),
    ensures
        gathered(entries, key) == Seq::<T>::empty(),
    decreases entries.len(),
{
    if entries.len() > 0 {
        let rest = entries.drop_last();
        assert(entries[entries.len() - 1].0 != key);
        assert forall|i: int| 0 <= i < rest.len() implies (#[trigger] rest[i]).0 != key by {
            assert(entries[i].0 != key);
        }
        lemma_gathered_unmentioned(rest, key);
    }
}

/// One more entry extends the list of its key and leaves the others alone.
pub proof fn lemma_grouped_push<T>(entries: Seq<(Seq<char>, Seq<T>)>, entry: (Seq<char>, Seq<T>))
    ensures
        grouped(entries.push(entry)) == grouped(entries).insert(
            entry.0,
            list_of(grouped(entries), entry.0) + entry.1,
        ),
{
    let more = entries.push(entry);
    assert(more.drop_last() =~= entries);
    assert(more.last() == entry);
    assert forall|key: Seq<char>| mentioned(more, key) <==> (mentioned(entries, key) || key
        == entry.0) by {
        if mentioned(more, key) {
            let i = choose|i: int| 0 <= i < more.len() && (#[trigger] more[i]).0 == key;
            if i < entries.len() {
                assert(entries[i].0 == key);
            }
        }
        if mentioned(entries, key) {
            let i = choose|i: int| 0 <= i < entries.len() && (#[trigger] entries[i]).0 == key;
            assert(more[i].0 == key);
        }
        if key == entry.0 {
            assert(more[more.len() - 1].0 == key);
        }
    }
    if !mentioned(entries, entry.0) {
        lemma_gathered_unmentioned(entries, entry.0);
    }
    assert(grouped(more) =~= grouped(entries).insert(
        entry.0,
        list_of(grouped(entries), entry.0) + entry.1,
    ));
}

/// One key of a batch with the values that arrived for it.
#[derive(Debug)]
struct Group<T> {
    key: String,
    values: Vec<T>,
}

/// The new values of one ingestion event, one ordered list per key. No key
/// occurs twice, and the keys are kept in the order in which they first
/// arrived.
#[derive(Debug)]
pub struct Batch<T> {
    groups: Vec<Group<T>>,
}

/// The keys of the groups, in order.
spec fn keys_of<T>(groups: Seq<Group<T>>) -> Seq<Seq<char>> {
    Seq::new(groups.len(), |i: int| groups[i].key@)
}

/// A place at which `key` is stored.
spec fn slot_of<T>(groups: Seq<Group<T>>, key: Seq<char>) -> int {
    choose|i: int| 0 <= i < groups.len() && groups[i].key@ == key
}

/// The list of every key.
spec fn lists_of<T>(groups: Seq<Group<T>>) -> Map<Seq<char>, Seq<T>> {
    Map::new(
        |key: Seq<char>| keys_of(groups).contains(key),
        |key: Seq<char>| groups[slot_of(groups, key)].values@,
    )
}

/// Among distinct keys each has exactly one place.
proof fn lemma_slot<T>(groups: Seq<Group<T>>, i: int)
    requires
        keys_of(groups).no_duplicates(),
        0 <= i < groups.len(),
    ensures
        keys_of(groups).contains(groups[i].key@),
        slot_of(groups, groups[i].key@) == i,
        lists_of(groups).contains_key(groups[i].key@),
        lists_of(groups)[groups[i].key@] == groups[i].values@,
{
    let keys = keys_of(groups);
    assert(keys[i] == groups[i].key@);
    let j = slot_of(groups, groups[i].key@);
    assert(keys[j] == keys[i]);
}

/// The place of `key` among the groups, if it has one.
fn position<T>(groups: &Vec<Group<T>>, key: &str) -> (found: Option<usize>)
    ensures
        match found {
            Some(i) => i < groups@.len() && groups@[i as int].key@ == key@,
            None => !keys_of(groups@).contains(key@),
        },
{
    let mut i: usize = 0;
    while i < groups.len()
        invariant
            i <= groups@.len(),
            forall|j: int| 0 <= j < i ==> groups@[j].key@ != key@,
        decreases groups@.len() - i,
    {
        if same_text(groups[i].key.as_str(), key) {
            return Some(i);
        }
        i += 1;
    }
    None
}

/// Appends `values` to the back of `list`, in order.
fn append_values<T: Copy>(list: &mut Vec<T>, values: &[T])
    ensures
        final(list)@ == old(list)@ + values@,
{
    let mut i: usize = 0;
    while i < values.len()
        invariant
            i <= values@.len(),
            list@ == old(list)@ + values@.subrange(0, i as int),
        decreases values@.len() - i,
    {
        list.push(values[i]);
        i += 1;
    }
    assert(values@.subrange(0, values@.len() as int) =~= values@);
}

impl<T> View for Batch<T> {
    type V = Map<Seq<char>, Seq<T>>;

    /// The values of every key, in arrival order.
    closed spec fn view(&self) -> Map<Seq<char>, Seq<T>> {
        lists_of(self.groups@)
    }
}

impl<T> Batch<T> {
    /// No key occurs twice.
    #[verifier::type_invariant]
    pub(crate) closed spec fn wf(&self) -> bool {
        keys_of(self.groups@).no_duplicates()
    }

    /// The keys of the batch, in the order in which they first arrived.
    pub closed spec fn spec_keys(&self) -> Seq<Seq<char>> {
        keys_of(self.groups@)
    }

    /// The number of keys.
    pub open spec fn spec_len(&self) -> nat {
        self.spec_keys().len()
    }

    /// What the invariant of a batch means for its view: the keys are
    /// distinct and they are exactly the keys of the view.
    pub(crate) proof fn lemma_wf(&self)
        requires
            self.wf(),
        ensures
            self.spec_keys().no_duplicates(),
            forall|key: Seq<char>| self@.contains_key(key) <==> self.spec_keys().contains(key),
    {
    }

    /// A batch without keys.
    pub fn new() -> (batch: Self)
        ensures
            batch@ == Map::<Seq<char>, Seq<T>>::empty(),
            batch.spec_keys() == Seq::<Seq<char>>::empty(),
    {
        let batch = Batch { groups: Vec::new() };
        assert(batch@ =~= Map::<Seq<char>, Seq<T>>::empty());
        assert(batch.spec_keys() =~= Seq::<Seq<char>>::empty());
        batch
    }

    /// The number of keys.
    pub fn len(&self) -> (len: usize)
        ensures
            len == self.spec_len(),
    {
        self.groups.len()
    }

    /// Whether the batch has no key.
    pub fn is_empty(&self) -> (empty: bool)
        ensures
            empty == (self.spec_len() == 0),
    {
        self.groups.len() == 0
    }

    /// The key at place `index` in arrival order, if there are that many.
    pub fn key(&self, index: usize) -> (key: Option<&String>)
        ensures
            match key {
                Some(text) => index < self.spec_len() && text@ == self.spec_keys()[index as int],
                None => index >= self.spec_len(),
            },
    {
        if index < self.groups.len() {
            Some(&self.groups[index].key)
        } else {
            None
        }
    }

    /// The values of the key at place `index` in arrival order, if there are
    /// that many keys.
    pub fn values(&self, index: usize) -> (values: Option<&Vec<T>>)
        ensures
            match values {
                Some(list) => {
                    let key = self.spec_keys()[index as int];
                    index < self.spec_len() && list@ == self@[key]
                },
                None => index >= self.spec_len(),
            },
    {
        if index < self.groups.len() {
            proof {
                use_type_invariant(&*self);
                lemma_slot(self.groups@, index as int);
            }
            Some(&self.groups[index].values)
        } else {
            None
        }
    }

    /// The values that arrived for `key`, if any did.
    pub fn get(&self, key: &str) -> (values: Option<&Vec<T>>)
        ensures
            match values {
                Some(list) => self@.contains_key(key@) && list@ == self@[key@],
                None => !self@.contains_key(key@),
            },
    {
        match position(&self.groups, key) {
            Some(i) => {
                proof {
                    use_type_invariant(&*self);
                    lemma_slot(self.groups@, i as int);
                }
                Some(&self.groups[i].values)
            },
            None => None,
        }
    }
}

impl<T: Copy> Batch<T> {
    /// Appends `values` to the list of `key`; a key that is new to the batch
    /// takes the last place.
    pub fn extend(&mut self, key: String, values: &[T])
        ensures
            final(self)@ == old(self)@.insert(key@, list_of(old(self)@, key@) + values@),
            final(self).spec_keys() == if old(self)@.contains_key(key@) {
                old(self).spec_keys()
            } else {
                old(self).spec_keys().push(key@)
            },
    {
        proof {
            use_type_invariant(&*self);
        }
        let mut groups: Vec<Group<T>> = Vec::new();
        std::mem::swap(&mut groups, &mut self.groups);
        let ghost before = groups@;
        let found = position(&groups, key.as_str());
        let slot = match found {
            Some(i) => i,
            None => {
                groups.push(Group { key, values: Vec::new() });
                groups.len() - 1
            },
        };
        let ghost grown = groups@;
        proof {
            assert(keys_of(grown) =~= if found is Some {
                keys_of(before)
            } else {
                keys_of(before).push(key@)
            });
            if found is Some {
                lemma_slot(before, slot as int);
            }
            lemma_slot(grown, slot as int);
        }
        append_values(&mut groups[slot].values, values);
        proof {
            let after = groups@;
            let target = list_of(lists_of(before), key@) + values@;
            assert(after[slot as int].values@ == target);
            assert(keys_of(after) =~= keys_of(grown));
            lemma_slot(after, slot as int);
            assert forall|k: Seq<char>| #[trigger]
                lists_of(after).contains_key(k) && k != key@ implies lists_of(before).contains_key(
                k,
            ) && lists_of(after)[k] == lists_of(before)[k] by {
                let i = choose|i: int| 0 <= i < keys_of(after).len() && keys_of(after)[i] == k;
                lemma_slot(after, i);
                lemma_slot(before, i);
            }
            assert forall|k: Seq<char>| #[trigger]
                lists_of(before).contains_key(k) implies lists_of(after).contains_key(k) by {
                let i = choose|i: int| 0 <= i < keys_of(before).len() && keys_of(before)[i] == k;
                lemma_slot(after, i);
            }
            assert(lists_of(after) =~= lists_of(before).insert(key@, target));
        }
        self.groups = groups;
    }

    /// Appends one value to the list of `key`.
    pub fn add(&mut self, key: String, value: T)
        ensures
            final(self)@ == old(self)@.insert(key@, list_of(old(self)@, key@).push(value)),
            final(self).spec_keys() == if old(self)@.contains_key(key@) {
                old(self).spec_keys()
            } else {
                old(self).spec_keys().push(key@)
            },
    {
        let one = [value];
        assert(one@ =~= seq![value]);
        assert(list_of(old(self)@, key@) + seq![value] =~= list_of(old(self)@, key@).push(value));
        self.extend(key, one.as_slice());
    }

    /// The batch that holds what `entries` hold: repeated keys accumulate
    /// into one list, in the order of the entries.
    pub fn from_entries(entries: &Vec<(String, Vec<T>)>) -> (batch: Self)
        ensures
            batch@ == grouped(entries_view(entries@)),
            batch.spec_keys() == first_mentions(entries_view(entries@)),
    {
        let mut batch = Batch::new();
        let ghost all = entries_view(entries@);
        let mut i: usize = 0;
        proof {
            assert(all.subrange(0, 0) =~= Seq::<(Seq<char>, Seq<T>)>::empty());
            assert(grouped(Seq::<(Seq<char>, Seq<T>)>::empty()) =~= Map::<
                Seq<char>,
                Seq<T>,
            >::empty());
        }
        while i < entries.len()
            invariant
                i <= entries@.len(),
                all == entries_view(entries@),
                batch@ == grouped(all.subrange(0, i as int)),
                batch.spec_keys() == first_mentions(all.subrange(0, i as int)),
            decreases entries@.len() - i,
        {
            proof {
                use_type_invariant(&batch);
                let done = all.subrange(0, i as int);
                let next = all.subrange(0, i as int + 1);
                assert(next =~= done.push(all[i as int]));
                assert(next.drop_last() =~= done);
                lemma_grouped_push(done, all[i as int]);
            }
            batch.extend(entries[i].0.clone(), entries[i].1.as_slice());
            i += 1;
        }
        assert(all.subrange(0, i as int) =~= all);
        batch
    }

    /// The batch as a list of keys with their values, in arrival order; no
    /// key stands twice in it.
    pub fn entries(&self) -> (entries: Vec<(String, Vec<T>)>)
        ensures
            entries@.len() == self.spec_len(),
            self.spec_keys().no_duplicates(),
            forall|key: Seq<char>| self@.contains_key(key) <==> self.spec_keys().contains(key),
            forall|i: int|
                0 <= i < entries@.len() ==> (#[trigger] entries@[i]).0@ == self.spec_keys()[i]
                    && entries@[i].1@ == self@[self.spec_keys()[i]],
    {
        let mut entries: Vec<(String, Vec<T>)> = Vec::new();
        let mut i: usize = 0;
        while i < self.groups.len()
            invariant
                i <= self.groups@.len(),
                entries@.len() == i,
                forall|j: int|
                    0 <= j < i ==> (#[trigger] entries@[j]).0@ == self.groups@[j].key@
                        && entries@[j].1@ == self.groups@[j].values@,
            decreases self.groups@.len() - i,
        {
            let mut values: Vec<T> = Vec::new();
            append_values(&mut values, self.groups[i].values.as_slice());
            entries.push((self.groups[i].key.clone(), values));
            i += 1;
        }
        proof {
            use_type_invariant(&*self);
            assert forall|j: int| 0 <= j < entries@.len() implies (#[trigger] entries@[j]).0@
                == self.spec_keys()[j] && entries@[j].1@ == self@[self.spec_keys()[j]] by {
                lemma_slot(self.groups@, j);
            }
        }
        entries
    }
}

} // verus!
