//! Short-horizon smoothing: a window of the most recent accepted
//! detections, reduced to its upper median.

use vstd::prelude::*;
use vstd::relations::sorted_by;
use vstd::seq_lib::{lemma_sorted_unique, to_multiset_build, to_multiset_insert};
use crate::units::{NO_PITCH, WINDOW};

verus! {

/// The order by which a window is sorted before its median is read.
pub open spec fn ascending() -> spec_fn(u64, u64) -> bool {
    |a: u64, b: u64| a <= b
}

/// The window after `frequency` was appended and, if that made it longer
/// than `WINDOW`, its oldest entry dropped.
pub open spec fn pushed(window: Seq<u64>, frequency: u64) -> Seq<u64> {
    let extended = window.push(frequency);
    if extended.len() > WINDOW {
        extended.drop_first()
    } else {
        extended
    }
}

/// The element in the middle of the ascending order of `window`, at index
/// `len / 2`: for an even length the upper of the two central values.
pub open spec fn upper_median(window: Seq<u64>) -> u64 {
    window.sort_by(ascending())[window.len() as int / 2]
}

/// What smoothing reports for a window: its upper median, or no pitch for
/// an empty one.
pub open spec fn smoothed(window: Seq<u64>) -> u64 {
    if window.len() == 0 {
        NO_PITCH
    } else {
        upper_median(window)
    }
}

/// The window reached from `window` after the accepted detections `values`
/// were pushed one by one, oldest first.
pub open spec fn fed(window: Seq<u64>, values: Seq<u64>) -> Seq<u64>
    decreases values.len(),
{
    if values.len() == 0 {
        window
    } else {
        pushed(fed(window, values.drop_last()), values.last())
    }
}

/// The last `WINDOW` entries of `values`, or all of them if there are fewer.
pub open spec fn latest(values: Seq<u64>) -> Seq<u64> {
    if values.len() <= WINDOW {
        values
    } else {
        values.subrange(values.len() - WINDOW, values.len() as int)
    }
}

/// The upper median can be read off any ascending arrangement of the
/// window's entries.
pub proof fn lemma_upper_median_of_sorted(window: Seq<u64>, arranged: Seq<u64>)
    requires
        sorted_by(arranged, ascending()),
        arranged.to_multiset() == window.to_multiset(),
    ensures
        arranged.len() == window.len(),
        upper_median(window) == arranged[window.len() as int / 2],
{
    window.lemma_sort_by_ensures(ascending());
    lemma_sorted_unique(arranged, window.sort_by(ascending()), ascending());
    window.to_multiset_ensures();
    arranged.to_multiset_ensures();
}

/// The upper median of a non-empty window is one of its entries.
pub proof fn lemma_median_is_member(window: Seq<u64>)
    requires
        window.len() > 0,
    ensures
        window.contains(upper_median(window)),
{
    let sorted = window.sort_by(ascending());
    window.lemma_sort_by_ensures(ascending());
    window.to_multiset_ensures();
    sorted.to_multiset_ensures();
    assert(sorted.contains(sorted[window.len() as int / 2]));
}

/// Pushing onto a window of at most `WINDOW` entries keeps exactly the
/// latest `WINDOW` of the old entries followed by the new one.
pub proof fn lemma_pushed_keeps_latest(window: Seq<u64>, frequency: u64)
    requires
        window.len() <= WINDOW,
    ensures
        pushed(window, frequency) == latest(window.push(frequency)),
        pushed(window, frequency).len() <= WINDOW,
        pushed(window, frequency).last() == frequency,
{
    let extended = window.push(frequency);
    if extended.len() > WINDOW {
        assert(extended.drop_first() =~= extended.subrange(
            extended.len() - WINDOW,
            extended.len() as int,
        ));
    }
}

/// Only the latest `WINDOW` entries of a history matter for what is latest
/// after one more entry.
pub proof fn lemma_latest_of_extended(history: Seq<u64>, frequency: u64)
    ensures
        latest(latest(history).push(frequency)) == latest(history.push(frequency)),
        latest(history).len() <= WINDOW,
{
    assert(latest(latest(history).push(frequency)) =~= latest(history.push(frequency)));
}

/// After any run of accepted detections the window holds exactly the latest
/// `WINDOW` values of what it held before followed by the run.
pub proof fn lemma_window_holds_latest(window: Seq<u64>, values: Seq<u64>)
    requires
        window.len() <= WINDOW,
    ensures
        fed(window, values) == latest(window + values),
        fed(window, values).len() <= WINDOW,
    decreases values.len(),
{
    if values.len() == 0 {
        assert(window + values =~= window);
    } else {
        let earlier = values.drop_last();
        lemma_window_holds_latest(window, earlier);
        let before = fed(window, earlier);
        lemma_pushed_keeps_latest(before, values.last());
        lemma_latest_of_extended(window + earlier, values.last());
        assert((window + earlier).push(values.last()) =~= window + values);
    }
}

/// Starting from an empty window, the value reported after a run of
/// accepted detections is the upper median of exactly the latest `WINDOW`
/// of them (of all of them while there are at most `WINDOW`).
pub proof fn lemma_smoothed_after_accepted(values: Seq<u64>)
    requires
        values.len() > 0,
    ensures
        fed(Seq::<u64>::empty(), values) == latest(values),
        smoothed(fed(Seq::<u64>::empty(), values)) == upper_median(latest(values)),
        values.len() <= WINDOW ==> smoothed(fed(Seq::<u64>::empty(), values)) == upper_median(
            values,
        ),
{
    lemma_window_holds_latest(Seq::<u64>::empty(), values);
    assert(Seq::<u64>::empty() + values =~= values);
}

/// A full window of one repeated value is its own successor when that value
/// is pushed again, and reports that value.
pub proof fn lemma_full_window_is_stable(value: u64)
    ensures
        pushed(seq![value, value, value, value], value) == seq![value, value, value, value],
        smoothed(seq![value, value, value, value]) == value,
{
    let window = seq![value, value, value, value];
    assert(pushed(window, value) =~= window);
    lemma_median_is_member(window);
}

/// Whatever the window held, `WINDOW` or more accepted detections of one
/// frequency in a row fill it with that frequency, which is then reported.
pub proof fn lemma_repetition_fills_window(window: Seq<u64>, frequency: u64, count: nat)
    requires
        window.len() <= WINDOW,
        count >= WINDOW,
    ensures
        fed(window, Seq::new(count, |i: int| frequency)) == seq![
            frequency,
            frequency,
            frequency,
            frequency,
        ],
        smoothed(fed(window, Seq::new(count, |i: int| frequency))) == frequency,
{
    let run = Seq::new(count, |i: int| frequency);
    lemma_window_holds_latest(window, run);
    lemma_full_window_is_stable(frequency);
    assert(fed(window, run) =~= seq![frequency, frequency, frequency, frequency]);
}

/// Appends an accepted detection to the window and evicts the oldest entry
/// once more than `WINDOW` are held.
pub fn update_moving_average(window: &mut Vec<u64>, frequency: u64)
    ensures
        final(window)@ == pushed(old(window)@, frequency),
{
    window.push(frequency);
    if window.len() > WINDOW {
        window.remove(0);
    }
}

/// Returns the values of `values` in ascending order.
pub fn sorted_copy(values: &[u64]) -> (sorted: Vec<u64>)
    ensures
        sorted@ == values@.sort_by(ascending()),
{
    let mut sorted: Vec<u64> = Vec::with_capacity(values.len());
    let mut taken: usize = 0;
    assert(sorted@ =~= values@.take(0));
    while taken < values.len()
        invariant
            taken <= values@.len(),
            sorted@.len() == taken,
            sorted_by(sorted@, ascending()),
            sorted@.to_multiset() == values@.take(taken as int).to_multiset(),
        decreases values@.len() - taken,
    {
        let value: u64 = values[taken];
        let mut place: usize = 0;
        while place < sorted.len() && sorted[place] <= value
            invariant
                place <= sorted@.len(),
                forall|k: int| 0 <= k < place ==> sorted@[k] <= value,
            decreases sorted@.len() - place,
        {
            place = place + 1;
        }
        proof {
            let before = sorted@;
            let after = before.insert(place as int, value);
            to_multiset_insert(before, place as int, value);
            to_multiset_build(values@.take(taken as int), value);
            assert(values@.take(taken as int).push(value) =~= values@.take(taken as int + 1));
            assert forall|i: int, j: int| 0 <= i < j < after.len() implies #[trigger] ascending()(
                after[i],
                after[j],
            ) by {
                if j < place {
                    assert(ascending()(before[i], before[j]));
                } else if j == place {
                } else if i < place {
                    assert(ascending()(before[i], before[j - 1]));
                } else if i == place {
                    if place < j - 1 {
                        assert(ascending()(before[place as int], before[j - 1]));
                    }
                } else {
                    assert(ascending()(before[i - 1], before[j - 1]));
                }
            }
        }
        sorted.insert(place, value);
        taken = taken + 1;
    }
    proof {
        assert(values@.take(taken as int) =~= values@);
        values@.lemma_sort_by_ensures(ascending());
        lemma_sorted_unique(sorted@, values@.sort_by(ascending()), ascending());
    }
    sorted
}

/// Reports the upper median of the window, or no pitch for an empty window.
pub fn get_median_frequency(window: &[u64]) -> (median: u64)
    ensures
        median == smoothed(window@),
{
    if window.len() == 0 {
        return NO_PITCH;
    }
    let sorted: Vec<u64> = sorted_copy(window);
    proof {
        window@.lemma_sort_by_ensures(ascending());
        window@.to_multiset_ensures();
        sorted@.to_multiset_ensures();
    }
    sorted[sorted.len() / 2]
}

} // verus!
