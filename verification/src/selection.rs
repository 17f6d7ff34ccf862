//! The keys that a view shows, in the order in which they were chosen.

use crate::text::{names, same_text};
use vstd::prelude::*;

verus! {

/// Whether `place` is the first place at which `key` stands in `keys`.
pub open spec fn first_place(keys: Seq<Seq<char>>, key: Seq<char>, place: int) -> bool {
    &&& 0 <= place < keys.len()
    &&& keys[place] == key
    &&& forall|j: int| 0 <= j < place ==> keys[j] != key
}

/// Chooses `key` if it is not among `keys`, by putting it last, and drops it
/// if it is, by taking out its first occurrence. Returns whether the key is
/// chosen now.
pub fn toggle(keys: &mut Vec<String>, key: &str) -> (chosen: bool)
    ensures
        chosen == !names(old(keys)@).contains(key@),
        chosen ==> names(final(keys)@) == names(old(keys)@).push(key@),
        !chosen ==> exists|place: int|
            first_place(names(old(keys)@), key@, place) && names(final(keys)@) == names(
                old(keys)@,
            ).remove(place),
{
    let ghost before = names(keys@);
    let mut i: usize = 0;
    while i < keys.len()
        invariant
            i <= keys@.len(),
            keys@ == old(keys)@,
            before == names(keys@),
            forall|j: int| 0 <= j < i ==> before[j] != key@,
        decreases keys@.len() - i,
    {
        if same_text(keys[i].as_str(), key) {
            keys.remove(i);
            proof {
                assert(before[i as int] == key@);
                assert(first_place(before, key@, i as int));
                assert(names(keys@) =~= before.remove(i as int));
            }
            return false;
        }
        i += 1;
    }
    keys.push(key.to_owned());
    proof {
        assert(names(keys@) =~= before.push(key@));
    }
    true
}

} // verus!
