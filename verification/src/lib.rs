//! Scheduling of jobs with due times on one machine, by the earliest-due-date
//! greedy rule that goes under the name of Moore and Hodgson.
//!
//! [`moore_hodgson`] rearranges a slice of jobs in place so that the jobs
//! that are completed on time come first, in the order in which they run, and
//! returns how many they are. What it computes is defined in [`model`]; what
//! follows from that definition is proved in [`laws`].

use core::ops::Add;
use vstd::prelude::*;

pub mod laws;
pub mod model;
pub mod sums;

use crate::laws::lemma_exchange_is_permutation;
use crate::laws::lemma_feasible_in_due_order_all_on_time;
use crate::laws::lemma_schedule_prefix_in_due_order;
use crate::laws::lemma_schedule_prefix_on_time;
use crate::laws::lemma_schedule_rejects_for_cause;
use crate::model::addition_is_total;
use crate::model::already_on_time;
use crate::model::due_order_is_strict;
use crate::model::earliest_due;
use crate::model::exact_time_ops;
use crate::model::is_schedule_of;
use crate::model::prefix_in_due_order;
use crate::model::prefix_on_time;
use crate::model::schedule;
use crate::model::sums_cannot_fail;
use crate::model::suffix_late_for_cause;
use crate::model::Partition;
use crate::sums::lemma_total_addition_defines_sums;

verus! {

/// `<[T]>::swap`: exchanges the elements at the two indices and leaves every
/// other element where it is. It panics on an index out of bounds, so both
/// must lie inside the slice.
pub assume_specification<E>[ <[E]>::swap ](slice: &mut [E], a: usize, b: usize)
    requires
        a < old(slice)@.len(),
        b < old(slice)@.len(),
    ensures
        final(slice)@ == old(slice)@.update(a as int, old(slice)@[b as int]).update(
            b as int,
            old(slice)@[a as int],
        ),
;

/// Schedules the jobs in `items`, each of the form
/// `(item, due_time, processing_time)`, and returns the number of jobs that
/// are on time.
///
/// The jobs are rearranged in place. Those that are on time come first, in
/// the order in which they run back to back from the time `P::default()`;
/// the late ones follow. Again and again the undecided job with the earliest
/// due time is taken, the leftmost of them on a tie: it joins the on-time
/// jobs if it would be completed by its due time after those already
/// accepted, and the late ones if not. A due time that does not compare,
/// such as a floating-point not-a-number, is never met.
///
/// The only thing asked of the caller is that no addition fails; for a
/// type whose `+` can overflow, [`sums::lemma_bounded_total_defines_sums`]
/// derives that from a bound on all processing times together. The jobs are
/// kept, whatever the operators do; where the operators are exact, the
/// outcome is the one that [`model::schedule`] defines.
///
/// # Complexity
/// This function runs in `O(n^2)` time and needs no space of its own.
pub fn moore_hodgson<T, D, P>(items: &mut [(T, D, P)]) -> (on_time: usize) where
    D: Clone + PartialOrd,
    P: Clone + Add<P, Output = P> + Default + PartialOrd<D>,

    requires
        sums_cannot_fail(old(items)@),
    ensures
        final(items)@.len() == old(items)@.len(),
        final(items)@.to_multiset() == old(items)@.to_multiset(),
        on_time <= old(items)@.len(),
        exact_time_ops::<D, P>() ==> is_schedule_of(final(items)@, on_time as int, old(items)@),
        exact_time_ops::<D, P>() ==> exists|zero: P|
            {
                &&& #[trigger] call_ensures(P::default, (), zero)
                &&& prefix_on_time(final(items)@, zero, on_time as int)
                &&& suffix_late_for_cause(final(items)@, zero, on_time as int)
            },
        exact_time_ops::<D, P>() && due_order_is_strict::<D>() ==> prefix_in_due_order(
            final(items)@,
            on_time as int,
        ),
        exact_time_ops::<D, P>() && already_on_time(old(items)@) ==> on_time == old(items)@.len()
            && final(items)@ == old(items)@,
{
    let ghost before = items@;
    let mut on_time_items_end: usize = 0;
    let mut late_items_start: usize = items.len();

    let mut completion_time = P::default();
    let ghost zero = completion_time;
    proof {
        if addition_is_total::<P>() {
            lemma_total_addition_defines_sums(Partition::<T, D, P>::initial(before, zero));
        }
    }

    while on_time_items_end != late_items_start
        invariant
            on_time_items_end <= late_items_start <= items@.len(),
            items@.len() == before.len(),
            items@.to_multiset() == before.to_multiset(),
            addition_is_total::<P>() || exact_time_ops::<D, P>(),
            exact_time_ops::<D, P>() ==> (Partition {
                jobs: items@,
                on_time_end: on_time_items_end as int,
                late_start: late_items_start as int,
                clock: completion_time,
            }).sums_defined(),
            exact_time_ops::<D, P>() ==> (Partition {
                jobs: items@,
                on_time_end: on_time_items_end as int,
                late_start: late_items_start as int,
                clock: completion_time,
            }).run() == schedule(before, zero),
        decreases late_items_start - on_time_items_end,
    {
        // The scan for the earliest due time among the undecided jobs.
        let mut min_index: usize = on_time_items_end;
        let mut min_due_time = &items[min_index].1;
        let mut min_processing_time = &items[min_index].2;
        for i in (on_time_items_end + 1)..late_items_start
            invariant
                on_time_items_end < late_items_start <= items@.len(),
                on_time_items_end <= min_index < i,
                exact_time_ops::<D, P>() ==> min_index == earliest_due(
                    items@,
                    on_time_items_end as int,
                    i as int,
                ),
                *min_due_time == items@[min_index as int].1,
                *min_processing_time == items@[min_index as int].2,
        {
            let due_time = &items[i].1;
            let processing_time = &items[i].2;

            if due_time < min_due_time {
                min_index = i;
                min_due_time = due_time;
                min_processing_time = processing_time;
            }
        }

        // The candidate joins the on-time jobs or the late ones.
        let end_time = completion_time.clone() + min_processing_time.clone();

        if end_time <= min_due_time.clone() {
            proof {
                lemma_exchange_is_permutation(items@, min_index as int, on_time_items_end as int);
            }
            items.swap(min_index, on_time_items_end);
            on_time_items_end += 1;
            completion_time = end_time;
        } else {
            late_items_start -= 1;
            proof {
                lemma_exchange_is_permutation(items@, min_index as int, late_items_start as int);
            }
            items.swap(min_index, late_items_start);
        }
    }

    proof {
        if exact_time_ops::<D, P>() {
            lemma_schedule_prefix_on_time(before, zero);
            lemma_schedule_rejects_for_cause(before, zero);
            if due_order_is_strict::<D>() {
                lemma_schedule_prefix_in_due_order(before, zero);
            }
            if already_on_time(before) {
                lemma_feasible_in_due_order_all_on_time(before, zero);
            }
        }
    }
    on_time_items_end
}

} // verus!
