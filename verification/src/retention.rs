//! What a bounded series keeps: always the most recent samples, never more
//! than its capacity.

use vstd::prelude::*;

verus! {

/// The samples that a series of the given capacity keeps of `samples`: all of
/// them while they fit, otherwise the most recent `capacity`.
pub open spec fn retained<T>(samples: Seq<T>, capacity: nat) -> Seq<T> {
    if samples.len() <= capacity {
        samples
    } else {
        samples.subrange(samples.len() - capacity, samples.len() as int)
    }
}

/// The content of a series that started as `start` and then received each of
/// `pushes` in turn, trimming to `capacity` after every one.
pub open spec fn after_pushes<T>(start: Seq<T>, pushes: Seq<Seq<T>>, capacity: nat) -> Seq<T>
    decreases pushes.len(),
{
    if pushes.len() == 0 {
        retained(start, capacity)
    } else {
        retained(after_pushes(start, pushes.drop_last(), capacity) + pushes.last(), capacity)
    }
}

/// Every sample of `pushes`, in push order.
pub open spec fn all_pushed<T>(pushes: Seq<Seq<T>>) -> Seq<T>
    decreases pushes.len(),
{
    if pushes.len() == 0 {
        Seq::empty()
    } else {
        all_pushed(pushes.drop_last()) + pushes.last()
    }
}

/// Trimming before an append changes nothing once the result is trimmed again.
pub proof fn lemma_retained_append<T>(older: Seq<T>, newer: Seq<T>, capacity: nat)
    ensures
        retained(retained(older, capacity) + newer, capacity) == retained(older + newer, capacity),
{
    let trimmed = retained(older, capacity);
    let left = retained(trimmed + newer, capacity);
    let right = retained(older + newer, capacity);
    assert(left.len() == right.len());
    assert forall|i: int| 0 <= i < left.len() implies left[i] == right[i] by {
        let li = (trimmed + newer).len() - left.len() + i;
        let ri = (older + newer).len() - right.len() + i;
        assert(left[i] == (trimmed + newer)[li]);
        assert(right[i] == (older + newer)[ri]);
        if li < trimmed.len() {
            assert(trimmed[li] == older[older.len() - trimmed.len() + li]);
        }
    }
    assert(left =~= right);
}

/// Trimming twice is trimming once to the smaller capacity.
pub proof fn lemma_retained_twice<T>(samples: Seq<T>, first: nat, second: nat)
    ensures
        retained(retained(samples, first), second) == retained(
            samples,
            if first <= second {
                first
            } else {
                second
            },
        ),
{
    let smaller = if first <= second {
        first
    } else {
        second
    };
    assert(retained(retained(samples, first), second) =~= retained(samples, smaller));
}

/// After any sequence of pushes to one series, the series holds at most
/// `capacity` samples, and they are the last `capacity` samples pushed, in
/// push order.
pub proof fn law_pushes_keep_latest<T>(pushes: Seq<Seq<T>>, capacity: nat)
    ensures
        after_pushes(Seq::<T>::empty(), pushes, capacity).len() <= capacity,
        after_pushes(Seq::<T>::empty(), pushes, capacity) == retained(
            all_pushed(pushes),
            capacity,
        ),
    decreases pushes.len(),
{
    if pushes.len() > 0 {
        law_pushes_keep_latest(pushes.drop_last(), capacity);
        lemma_retained_append(all_pushed(pushes.drop_last()), pushes.last(), capacity);
    }
}

/// Shrinking the capacity of a series leaves exactly the most recent samples
/// that fit the new capacity: as many as the new capacity, or all that were
/// ever pushed if those are fewer.
pub proof fn law_shrink_keeps_most_recent<T>(pushed: Seq<T>, old_capacity: nat, new_capacity: nat)
    requires
        new_capacity < old_capacity,
    ensures
        retained(retained(pushed, old_capacity), new_capacity) == retained(pushed, new_capacity),
        retained(retained(pushed, old_capacity), new_capacity).len() == if new_capacity
            <= pushed.len() {
            new_capacity
        } else {
            pushed.len()
        },
{
    lemma_retained_twice(pushed, old_capacity, new_capacity);
}

/// Growing the capacity of a series discards nothing.
pub proof fn law_grow_keeps_everything<T>(pushed: Seq<T>, old_capacity: nat, new_capacity: nat)
    requires
        old_capacity <= new_capacity,
    ensures
        retained(retained(pushed, old_capacity), new_capacity) == retained(pushed, old_capacity),
{
    lemma_retained_twice(pushed, old_capacity, new_capacity);
}

/// How many samples a producer is taken to push per second when a length of
/// time is turned into a number of samples.
pub const SAMPLES_PER_SECOND: usize = 60;

/// The number of retention presets on offer.
pub const PRESET_COUNT: usize = 6;

/// The span of time, in seconds, of the preset at place `index`: ten seconds,
/// then one, five, ten, fifteen and thirty minutes.
pub open spec fn preset_seconds(index: int) -> int {
    if index == 0 {
        10
    } else if index == 1 {
        60
    } else if index == 2 {
        300
    } else if index == 3 {
        600
    } else if index == 4 {
        900
    } else {
        1800
    }
}

/// The label of the preset at place `index`.
pub open spec fn preset_name(index: int) -> Seq<char> {
    if index == 0 {
        "10sec"@
    } else if index == 1 {
        "1min"@
    } else if index == 2 {
        "5min"@
    } else if index == 3 {
        "10min"@
    } else if index == 4 {
        "15min"@
    } else {
        "30min"@
    }
}

/// The capacity that the preset at place `index` stands for: its span of
/// time in samples. There is none past the last preset.
pub fn preset_len(index: usize) -> (len: Option<usize>)
    ensures
        len == if index < PRESET_COUNT {
            Some((preset_seconds(index as int) * SAMPLES_PER_SECOND) as usize)
        } else {
            None
        },
{
    if index == 0 {
        Some(10 * SAMPLES_PER_SECOND)
    } else if index == 1 {
        Some(60 * SAMPLES_PER_SECOND)
    } else if index == 2 {
        Some(300 * SAMPLES_PER_SECOND)
    } else if index == 3 {
        Some(600 * SAMPLES_PER_SECOND)
    } else if index == 4 {
        Some(900 * SAMPLES_PER_SECOND)
    } else if index == 5 {
        Some(1800 * SAMPLES_PER_SECOND)
    } else {
        None
    }
}

/// The label of the preset at place `index`. There is none past the last
/// preset.
pub fn preset_label(index: usize) -> (label: Option<&'static str>)
    ensures
        match label {
            Some(text) => index < PRESET_COUNT && text@ == preset_name(index as int),
            None => index >= PRESET_COUNT,
        },
{
    if index == 0 {
        Some("10sec")
    } else if index == 1 {
        Some("1min")
    } else if index == 2 {
        Some("5min")
    } else if index == 3 {
        Some("10min")
    } else if index == 4 {
        Some("15min")
    } else if index == 5 {
        Some("30min")
    } else {
        None
    }
}

} // verus!
