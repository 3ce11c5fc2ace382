//! When the additions of a run cannot fail.
//!
//! The scheduler adds processing times with `+`, which for a machine integer
//! fails on overflow. [`Partition::sums_defined`] says of a run that none of
//! its additions fails; the lemmas here derive that from conditions that
//! are easier to establish.

use core::ops::Add;
use vstd::prelude::*;
use vstd::std_specs::ops::AddSpec;

use crate::laws::lemma_earliest_due_in_range;
use crate::model::addition_is_total;
use crate::model::exchange;
use crate::model::plus;
use crate::model::Partition;

verus! {

/// Where `+` admits every pair of arguments, it admits the additions of
/// every run.
pub proof fn lemma_total_addition_defines_sums<T, D: PartialOrd, P: Add<P, Output = P> + PartialOrd<D>>(
    state: Partition<T, D, P>,
)
    requires
        addition_is_total::<P>(),
    ensures
        state.sums_defined(),
    decreases state.late_start - state.on_time_end,
{
    if !state.decided() {
        assert(state.clock.add_req(state.jobs[state.candidate()].2));
        lemma_total_addition_defines_sums(state.step());
    }
}

/// `size` measures times in such a way that `+` admits two of them whenever
/// their sizes add up to `bound` at most, and their sum then has the size
/// that the two sizes add up to.
///
/// For an unsigned integer type, the value itself is such a size, with the
/// type's largest value for `bound`.
pub open spec fn sizes_add_up_to<P: Add<P, Output = P>>(size: spec_fn(P) -> nat, bound: nat) -> bool {
    forall|a: P, b: P|
        size(a) + size(b) <= bound ==> #[trigger] a.add_req(b) && size(plus(a, b)) == size(a) + size(b)
}

/// The sizes of the processing times of `jobs[from..to]`, added up.
pub open spec fn total_size<T, D, P>(
    jobs: Seq<(T, D, P)>,
    size: spec_fn(P) -> nat,
    from: int,
    to: int,
) -> nat
    decreases to - from,
{
    if to <= from {
        0
    } else {
        total_size(jobs, size, from, to - 1) + size(jobs[to - 1].2)
    }
}

/// The total size of a range is the size of its first job and the total
/// size of the others.
pub proof fn lemma_total_size_from_first<T, D, P>(
    jobs: Seq<(T, D, P)>,
    size: spec_fn(P) -> nat,
    from: int,
    to: int,
)
    requires
        from < to,
    ensures
        total_size(jobs, size, from, to) == size(jobs[from].2) + total_size(jobs, size, from + 1, to),
    decreases to - from,
{
    if to > from + 1 {
        lemma_total_size_from_first(jobs, size, from, to - 1);
    } else {
        assert(total_size(jobs, size, from, to - 1) == 0);
    }
}

/// Replacing one job of a range changes the total size by the difference
/// between the two jobs' sizes.
pub proof fn lemma_total_size_after_update<T, D, P>(
    jobs: Seq<(T, D, P)>,
    size: spec_fn(P) -> nat,
    from: int,
    to: int,
    index: int,
    job: (T, D, P),
)
    requires
        0 <= from <= index < to <= jobs.len(),
    ensures
        total_size(jobs.update(index, job), size, from, to) + size(jobs[index].2) == total_size(
            jobs,
            size,
            from,
            to,
        ) + size(job.2),
    decreases to - from,
{
    if index < to - 1 {
        lemma_total_size_after_update(jobs, size, from, to - 1, index, job);
    } else {
        lemma_total_size_reads_range(jobs.update(index, job), jobs, size, from, to - 1);
    }
}

/// The total size of a range depends on the jobs of that range alone.
pub proof fn lemma_total_size_reads_range<T, D, P>(
    a: Seq<(T, D, P)>,
    b: Seq<(T, D, P)>,
    size: spec_fn(P) -> nat,
    from: int,
    to: int,
)
    requires
        forall|i: int| from <= i < to ==> a[i].2 == b[i].2,
    ensures
        total_size(a, size, from, to) == total_size(b, size, from, to),
    decreases to - from,
{
    if to > from {
        lemma_total_size_reads_range(a, b, size, from, to - 1);
    }
}

/// Exchanging two jobs of a range leaves its total size as it is.
pub proof fn lemma_total_size_after_exchange<T, D, P>(
    jobs: Seq<(T, D, P)>,
    size: spec_fn(P) -> nat,
    from: int,
    to: int,
    i: int,
    j: int,
)
    requires
        0 <= from <= i < to <= jobs.len(),
        from <= j < to,
    ensures
        total_size(exchange(jobs, i, j), size, from, to) == total_size(jobs, size, from, to),
{
    let half = jobs.update(i, jobs[j]);
    lemma_total_size_after_update(jobs, size, from, to, i, jobs[j]);
    lemma_total_size_after_update(half, size, from, to, j, jobs[i]);
}

/// Where the size of the clock and the sizes of the undecided jobs'
/// processing times add up to `bound` at most, `+` admits every addition of
/// the run.
pub proof fn lemma_bounded_run_defines_sums<T, D: PartialOrd, P: Add<P, Output = P> + PartialOrd<D>>(
    state: Partition<T, D, P>,
    size: spec_fn(P) -> nat,
    bound: nat,
)
    requires
        state.well_formed(),
        sizes_add_up_to(size, bound),
        size(state.clock) + total_size(state.jobs, size, state.on_time_end, state.late_start) <= bound,
    ensures
        state.sums_defined(),
    decreases state.late_start - state.on_time_end,
{
    if !state.decided() {
        let first = state.on_time_end;
        let last = state.late_start - 1;
        let pick = state.candidate();
        let next = state.step();
        lemma_earliest_due_in_range(state.jobs, first, state.late_start);
        if state.accepts() {
            lemma_total_size_after_exchange(state.jobs, size, first, state.late_start, pick, first);
            lemma_total_size_from_first(next.jobs, size, first, state.late_start);
        } else {
            lemma_total_size_after_exchange(state.jobs, size, first, state.late_start, pick, last);
        }
        assert(size(state.jobs[pick].2) <= total_size(state.jobs, size, first, state.late_start));
        assert(state.clock.add_req(state.jobs[pick].2));
        lemma_bounded_run_defines_sums(next, size, bound);
    }
}

/// Where the size of `start` and the sizes of all processing times add up
/// to `bound` at most, `+` admits every addition that scheduling `jobs`
/// from `start` makes.
pub proof fn lemma_bounded_total_defines_sums<T, D: PartialOrd, P: Add<P, Output = P> + PartialOrd<D>>(
    jobs: Seq<(T, D, P)>,
    start: P,
    size: spec_fn(P) -> nat,
    bound: nat,
)
    requires
        sizes_add_up_to(size, bound),
        size(start) + total_size(jobs, size, 0, jobs.len() as int) <= bound,
    ensures
        Partition::initial(jobs, start).sums_defined(),
{
    lemma_bounded_run_defines_sums(Partition::initial(jobs, start), size, bound);
}

} // verus!
