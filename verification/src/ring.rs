//! Bulk operations on the double-ended buffer behind every bounded series.

use crate::retention::retained;
use std::collections::VecDeque;
use vstd::prelude::*;

verus! {

/// `VecDeque::drain` over the range `0..count`, with the drained samples
/// dropped: removes the first `count` samples in one operation and keeps the
/// rest in order.
#[verifier::external_body]
fn drain_front<T>(samples: &mut VecDeque<T>, count: usize)
    requires
        count <= old(samples)@.len(),
    ensures
        final(samples)@ == old(samples)@.subrange(count as int, old(samples)@.len() as int),
{
    samples.drain(0..count);
}

/// Appends `values` to the back of `samples`, in order.
pub(crate) fn append_samples<T: Copy>(samples: &mut VecDeque<T>, values: &[T])
    ensures
        final(samples)@ == old(samples)@ + values@,
{
    let mut i: usize = 0;
    while i < values.len()
        invariant
            i <= values@.len(),
            samples@ == old(samples)@ + values@.subrange(0, i as int),
        decreases values@.len() - i,
    {
        samples.push_back(values[i]);
        i += 1;
    }
    assert(values@.subrange(0, values@.len() as int) =~= values@);
}

/// Evicts from the head of `samples`, in one bulk removal, whatever exceeds
/// `max_len`.
pub(crate) fn trim_front<T>(samples: &mut VecDeque<T>, max_len: usize)
    ensures
        final(samples)@ == retained(old(samples)@, max_len as nat),
{
    let len = samples.len();
    if len > max_len {
        drain_front(samples, len - max_len);
    }
}

/// The samples of a series as a vector, oldest first.
pub(crate) fn copy_samples<T: Copy>(samples: &VecDeque<T>) -> (copy: Vec<T>)
    ensures
        copy@ == samples@,
{
    let mut copy: Vec<T> = Vec::new();
    let mut i: usize = 0;
    while i < samples.len()
        invariant
            i <= samples@.len(),
            copy@ == samples@.subrange(0, i as int),
        decreases samples@.len() - i,
    {
        copy.push(samples[i]);
        i += 1;
    }
    assert(samples@.subrange(0, samples@.len() as int) =~= samples@);
    copy
}

} // verus!
