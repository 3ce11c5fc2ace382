//! What holds of every schedule, proved from the model.

use core::ops::Add;
use vstd::prelude::*;
use vstd::seq_lib::to_multiset_contains;
use vstd::seq_lib::to_multiset_update;

use crate::model::completion_time;
use crate::model::due_before;
use crate::model::due_order_is_strict;
use crate::model::due_order_is_strict_weak;
use crate::model::earliest_due;
use crate::model::is_schedule_of;
use crate::model::exchange;
use crate::model::late_for_cause;
use crate::model::meets;
use crate::model::misses_after;
use crate::model::prefix_in_due_order;
use crate::model::prefix_on_time;
use crate::model::schedule;
use crate::model::start_is_unique;
use crate::model::suffix_late_for_cause;
use crate::model::Partition;

verus! {

/// The scan for the earliest due time ends inside the range that it scans.
pub proof fn lemma_earliest_due_in_range<T, D: PartialOrd, P>(jobs: Seq<(T, D, P)>, from: int, to: int)
    requires
        from < to,
    ensures
        from <= earliest_due(jobs, from, to) < to,
    decreases to - from,
{
    if to > from + 1 {
        lemma_earliest_due_in_range(jobs, from, to - 1);
    }
}

/// Exchanging two elements of a sequence changes neither its length nor
/// what it holds.
pub proof fn lemma_exchange_is_permutation<A>(s: Seq<A>, i: int, j: int)
    requires
        0 <= i < s.len(),
        0 <= j < s.len(),
    ensures
        exchange(s, i, j).len() == s.len(),
        exchange(s, i, j).to_multiset() == s.to_multiset(),
{
    broadcast use vstd::multiset::group_multiset_axioms;

    let half = s.update(i, s[j]);
    to_multiset_update(s, i, s[j]);
    to_multiset_update(half, j, s[i]);
    to_multiset_contains(s, s[i]);
    assert(s.contains(s[i]));
    assert(exchange(s, i, j).to_multiset() =~= s.to_multiset());
}

/// A step keeps the boundaries in order, decides exactly one job, and
/// neither adds, drops nor alters a job.
pub proof fn lemma_step_is_permutation<T, D: PartialOrd, P: Add<P, Output = P> + PartialOrd<D>>(
    state: Partition<T, D, P>,
)
    requires
        state.well_formed(),
        !state.decided(),
    ensures
        state.step().well_formed(),
        state.step().late_start - state.step().on_time_end == state.late_start - state.on_time_end - 1,
        state.on_time_end <= state.step().on_time_end,
        state.step().late_start <= state.late_start,
        state.step().jobs.len() == state.jobs.len(),
        state.step().jobs.to_multiset() == state.jobs.to_multiset(),
{
    lemma_earliest_due_in_range(state.jobs, state.on_time_end, state.late_start);
    lemma_exchange_is_permutation(state.jobs, state.candidate(), state.on_time_end);
    lemma_exchange_is_permutation(state.jobs, state.candidate(), state.late_start - 1);
}

/// A run ends with every job decided, the boundary between the on-time and
/// the late jobs somewhere between the two boundaries it began with, and
/// the same jobs as before.
pub proof fn lemma_run_is_permutation<T, D: PartialOrd, P: Add<P, Output = P> + PartialOrd<D>>(
    state: Partition<T, D, P>,
)
    requires
        state.well_formed(),
    ensures
        state.run().well_formed(),
        state.run().on_time_end == state.run().late_start,
        state.on_time_end <= state.run().on_time_end <= state.late_start,
        state.run().jobs.len() == state.jobs.len(),
        state.run().jobs.to_multiset() == state.jobs.to_multiset(),
    decreases state.late_start - state.on_time_end,
{
    if !state.decided() {
        lemma_step_is_permutation(state);
        lemma_run_is_permutation(state.step());
    }
}

/// Scheduling rearranges the jobs: the outcome has the length of the input
/// and holds the same jobs, each as often as the input does.
pub proof fn lemma_schedule_is_permutation<T, D: PartialOrd, P: Add<P, Output = P> + PartialOrd<D>>(
    jobs: Seq<(T, D, P)>,
    start: P,
)
    ensures
        schedule(jobs, start).jobs.len() == jobs.len(),
        schedule(jobs, start).jobs.to_multiset() == jobs.to_multiset(),
{
    lemma_run_is_permutation(Partition::initial(jobs, start));
}

/// The number of on-time jobs lies between zero and the number of jobs.
pub proof fn lemma_schedule_count_in_bounds<T, D: PartialOrd, P: Add<P, Output = P> + PartialOrd<D>>(
    jobs: Seq<(T, D, P)>,
    start: P,
)
    ensures
        0 <= schedule(jobs, start).on_time_end <= jobs.len(),
{
    lemma_run_is_permutation(Partition::initial(jobs, start));
}

/// The completion time of the `count`-th job depends on the first `count`
/// processing times alone.
pub proof fn lemma_completion_time_reads_prefix<T, D, P: Add<P, Output = P>>(
    a: Seq<(T, D, P)>,
    b: Seq<(T, D, P)>,
    start: P,
    count: int,
)
    requires
        forall|i: int| 0 <= i < count ==> a[i].2 == b[i].2,
    ensures
        completion_time(a, start, count) == completion_time(b, start, count),
    decreases count,
{
    if count > 0 {
        lemma_completion_time_reads_prefix(a, b, start, count - 1);
    }
}

/// The accepted jobs of `state` run back to back from `start` without one
/// of them missing its due time, and the clock stands at the completion of
/// the last of them.
pub open spec fn accepted_on_time<T, D: PartialOrd, P: Add<P, Output = P> + PartialOrd<D>>(
    state: Partition<T, D, P>,
    start: P,
) -> bool {
    &&& state.clock == completion_time(state.jobs, start, state.on_time_end)
    &&& prefix_on_time(state.jobs, start, state.on_time_end)
}

/// A step keeps the accepted jobs on time.
pub proof fn lemma_step_keeps_accepted_on_time<T, D: PartialOrd, P: Add<P, Output = P> + PartialOrd<D>>(
    state: Partition<T, D, P>,
    start: P,
)
    requires
        state.well_formed(),
        !state.decided(),
        accepted_on_time(state, start),
    ensures
        accepted_on_time(state.step(), start),
{
    let next = state.step();
    lemma_earliest_due_in_range(state.jobs, state.on_time_end, state.late_start);
    assert forall|k: int| 0 <= k <= state.on_time_end implies completion_time(next.jobs, start, k)
        == completion_time(state.jobs, start, k) by {
        lemma_completion_time_reads_prefix(next.jobs, state.jobs, start, k);
    }
    assert forall|i: int| 0 <= i < next.on_time_end implies meets(
        #[trigger] completion_time(next.jobs, start, i + 1),
        next.jobs[i].1,
    ) by {
        if i < state.on_time_end {
            assert(meets(completion_time(state.jobs, start, i + 1), state.jobs[i].1));
        }
    }
}

/// A run keeps the accepted jobs on time.
pub proof fn lemma_run_keeps_accepted_on_time<T, D: PartialOrd, P: Add<P, Output = P> + PartialOrd<D>>(
    state: Partition<T, D, P>,
    start: P,
)
    requires
        state.well_formed(),
        accepted_on_time(state, start),
    ensures
        accepted_on_time(state.run(), start),
    decreases state.late_start - state.on_time_end,
{
    if !state.decided() {
        lemma_step_is_permutation(state);
        lemma_step_keeps_accepted_on_time(state, start);
        lemma_run_keeps_accepted_on_time(state.step(), start);
    }
}

/// The on-time jobs of a schedule are feasible: run back to back from
/// `start` in the order in which they stand, each is completed by its own
/// due time.
pub proof fn lemma_schedule_prefix_on_time<T, D: PartialOrd, P: Add<P, Output = P> + PartialOrd<D>>(
    jobs: Seq<(T, D, P)>,
    start: P,
)
    ensures
        prefix_on_time(schedule(jobs, start).jobs, start, schedule(jobs, start).on_time_end),
{
    lemma_run_keeps_accepted_on_time(Partition::initial(jobs, start), start);
}

/// Where no job of the range is due strictly before the first one, the scan
/// for the earliest due time ends on the first one.
pub proof fn lemma_earliest_due_keeps_first<T, D: PartialOrd, P>(jobs: Seq<(T, D, P)>, from: int, to: int)
    requires
        forall|j: int| from < j < to ==> !due_before(#[trigger] jobs[j].1, jobs[from].1),
    ensures
        earliest_due(jobs, from, to) == from,
    decreases to - from,
{
    if to > from + 1 {
        lemma_earliest_due_keeps_first(jobs, from, to - 1);
    }
}

/// On jobs that stand in due order and are all on time as they stand, a run
/// that has accepted the first few of them accepts the others too and moves
/// none.
pub proof fn lemma_run_accepts_feasible_rest<T, D: PartialOrd, P: Add<P, Output = P> + PartialOrd<D>>(
    state: Partition<T, D, P>,
    start: P,
)
    requires
        state.well_formed(),
        state.late_start == state.jobs.len(),
        state.clock == completion_time(state.jobs, start, state.on_time_end),
        prefix_in_due_order(state.jobs, state.jobs.len() as int),
        prefix_on_time(state.jobs, start, state.jobs.len() as int),
    ensures
        state.run().jobs == state.jobs,
        state.run().on_time_end == state.jobs.len(),
    decreases state.late_start - state.on_time_end,
{
    if !state.decided() {
        let first = state.on_time_end;
        lemma_earliest_due_keeps_first(state.jobs, first, state.late_start);
        assert(meets(completion_time(state.jobs, start, first + 1), state.jobs[first].1));
        assert(exchange(state.jobs, first, first) =~= state.jobs);
        lemma_run_accepts_feasible_rest(state.step(), start);
    }
}

/// Jobs that already stand in due order, and are all on time when they run
/// as they stand, are all scheduled on time, and none of them is moved.
pub proof fn lemma_feasible_in_due_order_all_on_time<T, D: PartialOrd, P: Add<P, Output = P> + PartialOrd<D>>(
    jobs: Seq<(T, D, P)>,
    start: P,
)
    requires
        prefix_in_due_order(jobs, jobs.len() as int),
        prefix_on_time(jobs, start, jobs.len() as int),
    ensures
        schedule(jobs, start).on_time_end == jobs.len(),
        schedule(jobs, start).jobs == jobs,
{
    lemma_run_accepts_feasible_rest(Partition::initial(jobs, start), start);
}

/// No job to the right of the one that the scan ends on is due strictly
/// before it, whatever the order on due times is like.
pub proof fn lemma_earliest_due_beats_later<T, D: PartialOrd, P>(jobs: Seq<(T, D, P)>, from: int, to: int)
    requires
        from < to,
    ensures
        forall|j: int|
            earliest_due(jobs, from, to) < j < to ==> !due_before(
                #[trigger] jobs[j].1,
                jobs[earliest_due(jobs, from, to)].1,
            ),
    decreases to - from,
{
    if to > from + 1 {
        lemma_earliest_due_beats_later(jobs, from, to - 1);
        lemma_earliest_due_in_range(jobs, from, to - 1);
    }
}

/// Under a strict partial order on due times, no job of the range is due
/// strictly before the one that the scan ends on.
pub proof fn lemma_earliest_due_is_minimal<T, D: PartialOrd, P>(jobs: Seq<(T, D, P)>, from: int, to: int)
    requires
        from < to,
        due_order_is_strict::<D>(),
    ensures
        forall|j: int|
            from <= j < to ==> !due_before(#[trigger] jobs[j].1, jobs[earliest_due(jobs, from, to)].1),
    decreases to - from,
{
    let pick = earliest_due(jobs, from, to);
    if to > from + 1 {
        let earlier = earliest_due(jobs, from, to - 1);
        lemma_earliest_due_is_minimal(jobs, from, to - 1);
        assert forall|j: int| from <= j < to implies !due_before(#[trigger] jobs[j].1, jobs[pick].1) by {
            if due_before(jobs[j].1, jobs[pick].1) {
                if pick == to - 1 && j < to - 1 {
                    assert(due_before(jobs[pick].1, jobs[earlier].1));
                    assert(due_before(jobs[j].1, jobs[earlier].1));
                }
            }
        }
    } else {
        assert(!due_before(jobs[from].1, jobs[from].1));
    }
}

/// Under a strict weak order on due times, the scan ends on the leftmost job
/// with the earliest due time: the one it ends on is due strictly before
/// every job of the range to its left.
pub proof fn lemma_earliest_due_is_leftmost<T, D: PartialOrd, P>(jobs: Seq<(T, D, P)>, from: int, to: int)
    requires
        from < to,
        due_order_is_strict_weak::<D>(),
    ensures
        forall|j: int|
            from <= j < earliest_due(jobs, from, to) ==> due_before(
                jobs[earliest_due(jobs, from, to)].1,
                #[trigger] jobs[j].1,
            ),
    decreases to - from,
{
    let pick = earliest_due(jobs, from, to);
    if to > from + 1 {
        let earlier = earliest_due(jobs, from, to - 1);
        lemma_earliest_due_is_leftmost(jobs, from, to - 1);
        lemma_earliest_due_is_minimal(jobs, from, to - 1);
        lemma_earliest_due_in_range(jobs, from, to - 1);
        assert forall|j: int| from <= j < pick implies due_before(jobs[pick].1, #[trigger] jobs[j].1) by {
            if pick == to - 1 {
                assert(due_before(jobs[pick].1, jobs[earlier].1));
                assert(!due_before(jobs[j].1, jobs[earlier].1));
                assert(due_before(jobs[pick].1, jobs[j].1) || due_before(jobs[j].1, jobs[earlier].1));
            }
        }
    }
}

/// No accepted job of `state` has a job due strictly before it to its
/// right, among the accepted and the undecided jobs.
pub open spec fn accepted_in_due_order<T, D: PartialOrd, P>(state: Partition<T, D, P>) -> bool {
    forall|i: int, j: int|
        0 <= i < state.on_time_end && i < j < state.late_start ==> !due_before(
            #[trigger] state.jobs[j].1,
            #[trigger] state.jobs[i].1,
        )
}

/// Under a strict partial order on due times, a step keeps the accepted
/// jobs in due order.
pub proof fn lemma_step_keeps_due_order<T, D: PartialOrd, P: Add<P, Output = P> + PartialOrd<D>>(
    state: Partition<T, D, P>,
)
    requires
        state.well_formed(),
        !state.decided(),
        due_order_is_strict::<D>(),
        accepted_in_due_order(state),
    ensures
        accepted_in_due_order(state.step()),
{
    let next = state.step();
    let pick = state.candidate();
    lemma_earliest_due_in_range(state.jobs, state.on_time_end, state.late_start);
    lemma_earliest_due_is_minimal(state.jobs, state.on_time_end, state.late_start);
    assert forall|i: int, j: int| 0 <= i < next.on_time_end && i < j < next.late_start implies !due_before(
        #[trigger] next.jobs[j].1,
        #[trigger] next.jobs[i].1,
    ) by {
        // What stands at `j` after the step stood at `origin` before it.
        let partner = if state.accepts() {
            state.on_time_end
        } else {
            state.late_start - 1
        };
        let origin = if j == pick {
            partner
        } else if j == partner {
            pick
        } else {
            j
        };
        assert(next.jobs[j] == state.jobs[origin]);
        if i < state.on_time_end {
            assert(next.jobs[i] == state.jobs[i]);
            assert(!due_before(state.jobs[origin].1, state.jobs[i].1));
        } else {
            assert(next.jobs[i] == state.jobs[pick]);
            assert(!due_before(state.jobs[origin].1, state.jobs[pick].1));
        }
    }
}

/// Under a strict partial order on due times, a run keeps the accepted jobs
/// in due order.
pub proof fn lemma_run_keeps_due_order<T, D: PartialOrd, P: Add<P, Output = P> + PartialOrd<D>>(
    state: Partition<T, D, P>,
)
    requires
        state.well_formed(),
        due_order_is_strict::<D>(),
        accepted_in_due_order(state),
    ensures
        accepted_in_due_order(state.run()),
    decreases state.late_start - state.on_time_end,
{
    if !state.decided() {
        lemma_step_is_permutation(state);
        lemma_step_keeps_due_order(state);
        lemma_run_keeps_due_order(state.step());
    }
}

/// Under a strict partial order on due times, the on-time jobs of a
/// schedule stand in due order: none of them is due strictly before one to
/// its left.
pub proof fn lemma_schedule_prefix_in_due_order<T, D: PartialOrd, P: Add<P, Output = P> + PartialOrd<D>>(
    jobs: Seq<(T, D, P)>,
    start: P,
)
    requires
        due_order_is_strict::<D>(),
    ensures
        prefix_in_due_order(schedule(jobs, start).jobs, schedule(jobs, start).on_time_end),
{
    lemma_run_keeps_due_order(Partition::initial(jobs, start));
    lemma_run_is_permutation(Partition::initial(jobs, start));
}

/// Each rejected job of `state` would have missed its due time had it run
/// right after the first few of the accepted jobs.
pub open spec fn rejected_for_cause<T, D: PartialOrd, P: Add<P, Output = P> + PartialOrd<D>>(
    state: Partition<T, D, P>,
    start: P,
) -> bool {
    forall|j: int|
        state.late_start <= j < state.jobs.len() ==> #[trigger] late_for_cause(
            state.jobs,
            start,
            state.on_time_end,
            j,
        )
}

/// A step rejects for cause, and leaves the cause of each earlier rejection
/// in place.
pub proof fn lemma_step_rejects_for_cause<T, D: PartialOrd, P: Add<P, Output = P> + PartialOrd<D>>(
    state: Partition<T, D, P>,
    start: P,
)
    requires
        state.well_formed(),
        !state.decided(),
        state.clock == completion_time(state.jobs, start, state.on_time_end),
        rejected_for_cause(state, start),
    ensures
        rejected_for_cause(state.step(), start),
{
    let next = state.step();
    lemma_earliest_due_in_range(state.jobs, state.on_time_end, state.late_start);
    assert forall|k: int| 0 <= k <= state.on_time_end implies completion_time(next.jobs, start, k)
        == completion_time(state.jobs, start, k) by {
        lemma_completion_time_reads_prefix(next.jobs, state.jobs, start, k);
    }
    assert forall|j: int| next.late_start <= j < next.jobs.len() implies #[trigger] late_for_cause(
        next.jobs,
        start,
        next.on_time_end,
        j,
    ) by {
        if j >= state.late_start {
            assert(late_for_cause(state.jobs, start, state.on_time_end, j));
            let ahead = choose|ahead: int|
                0 <= ahead <= state.on_time_end && #[trigger] misses_after(state.jobs, start, ahead, j);
            assert(misses_after(next.jobs, start, ahead, j));
        } else {
            assert(misses_after(next.jobs, start, state.on_time_end, j));
        }
    }
}

/// A run rejects for cause.
pub proof fn lemma_run_rejects_for_cause<T, D: PartialOrd, P: Add<P, Output = P> + PartialOrd<D>>(
    state: Partition<T, D, P>,
    start: P,
)
    requires
        state.well_formed(),
        accepted_on_time(state, start),
        rejected_for_cause(state, start),
    ensures
        rejected_for_cause(state.run(), start),
    decreases state.late_start - state.on_time_end,
{
    if !state.decided() {
        lemma_step_is_permutation(state);
        lemma_step_keeps_accepted_on_time(state, start);
        lemma_step_rejects_for_cause(state, start);
        lemma_run_rejects_for_cause(state.step(), start);
    }
}

/// No job is rejected without cause: each late job of a schedule would have
/// missed its due time had it run right after the first few of the on-time
/// jobs.
pub proof fn lemma_schedule_rejects_for_cause<T, D: PartialOrd, P: Add<P, Output = P> + PartialOrd<D>>(
    jobs: Seq<(T, D, P)>,
    start: P,
)
    ensures
        suffix_late_for_cause(schedule(jobs, start).jobs, start, schedule(jobs, start).on_time_end),
{
    lemma_run_rejects_for_cause(Partition::initial(jobs, start), start);
    lemma_run_is_permutation(Partition::initial(jobs, start));
}

/// Scheduling the on-time jobs of a schedule once more changes nothing:
/// under a strict partial order on due times, all of them are on time
/// again, each in its place.
pub proof fn lemma_on_time_jobs_stay_on_time<T, D: PartialOrd, P: Add<P, Output = P> + PartialOrd<D>>(
    jobs: Seq<(T, D, P)>,
    start: P,
)
    requires
        due_order_is_strict::<D>(),
    ensures
        ({
            let on_time_jobs = schedule(jobs, start).jobs.take(schedule(jobs, start).on_time_end);
            &&& schedule(on_time_jobs, start).jobs == on_time_jobs
            &&& schedule(on_time_jobs, start).on_time_end == on_time_jobs.len()
        }),
{
    let first = schedule(jobs, start);
    let on_time_jobs = first.jobs.take(first.on_time_end);
    lemma_run_is_permutation(Partition::initial(jobs, start));
    lemma_schedule_prefix_on_time(jobs, start);
    lemma_schedule_prefix_in_due_order(jobs, start);
    assert forall|i: int| 0 <= i < on_time_jobs.len() implies meets(
        #[trigger] completion_time(on_time_jobs, start, i + 1),
        on_time_jobs[i].1,
    ) by {
        lemma_completion_time_reads_prefix(on_time_jobs, first.jobs, start, i + 1);
        assert(meets(completion_time(first.jobs, start, i + 1), first.jobs[i].1));
    }
    lemma_feasible_in_due_order_all_on_time(on_time_jobs, start);
}

/// The scheduler is deterministic: where the clock can start at one value
/// only, one input has one outcome. Two calls on equal inputs leave equal
/// sequences and return equal counts.
pub proof fn lemma_outcome_unique<T, D: PartialOrd, P: Add<P, Output = P> + Default + PartialOrd<D>>(
    before: Seq<(T, D, P)>,
    first: Seq<(T, D, P)>,
    first_on_time: int,
    second: Seq<(T, D, P)>,
    second_on_time: int,
)
    requires
        start_is_unique::<P>(),
        is_schedule_of(first, first_on_time, before),
        is_schedule_of(second, second_on_time, before),
    ensures
        first == second,
        first_on_time == second_on_time,
{
}

} // verus!
