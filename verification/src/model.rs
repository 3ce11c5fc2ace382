//! The mathematical model of the scheduler.
//!
//! A job is a triple `(payload, due_time, processing_time)`, and a job
//! sequence is a `Seq` of such triples. The scheduler is modelled as a run of
//! single steps on a [`Partition`]: the job sequence together with the two
//! moving boundaries and the clock. Everything here is specification; the
//! executable code in the crate root is proved against it.
//!
//! The two time domains are generic. Their comparison and addition enter the
//! model through the specifications that `vstd` attaches to `PartialOrd` and
//! `Add`: a comparison of incomparable values (a not-a-number due time, for
//! example) is simply not `Less` and not `Equal`, so it counts as false.

use core::ops::Add;
use vstd::prelude::*;
use vstd::std_specs::cmp::PartialOrdIs;
use vstd::std_specs::cmp::PartialOrdSpec;
use vstd::std_specs::ops::AddSpec;

verus! {

/// The due time `a` lies strictly before the due time `b`.
///
/// False whenever the two are equal or incomparable.
pub open spec fn due_before<D: PartialOrd>(a: D, b: D) -> bool {
    a.is_lt(&b)
}

/// A job that is completed at `finish` is on time for the due time `due`,
/// that is `finish <= due`.
///
/// False whenever the two are incomparable.
pub open spec fn meets<D, P: PartialOrd<D>>(finish: P, due: D) -> bool {
    finish.is_le(&due)
}

/// The sum `a + b` of two processing times, or of a completion time and a
/// processing time.
pub open spec fn plus<P: Add<P, Output = P>>(a: P, b: P) -> P {
    a.add_spec(b)
}

/// The operators of the two time domains are functions of their arguments,
/// namely the ones that their specifications name: `<` on due times, `<=`
/// between a completion time and a due time, `+` on processing times, and
/// `clone`, which hands back a value equal to the one it was given.
pub open spec fn exact_time_ops<
    D: Clone + PartialOrd,
    P: Clone + Add<P, Output = P> + PartialOrd<D>,
>() -> bool {
    &&& D::obeys_partial_cmp_spec()
    &&& P::obeys_partial_cmp_spec()
    &&& P::obeys_add_spec()
    &&& forall|d: D, e: D| call_ensures(D::clone, (&d,), e) ==> e == d
    &&& forall|p: P, q: P| call_ensures(P::clone, (&p,), q) ==> q == p
}

/// `P::default()`, at which the clock starts, can return one value only.
pub open spec fn start_is_unique<P: Default>() -> bool {
    forall|a: P, b: P|
        #[trigger] call_ensures(P::default, (), a) && #[trigger] call_ensures(P::default, (), b)
            ==> a == b
}

/// `+` on processing times admits every pair of arguments: it has no
/// overflow to guard against.
pub open spec fn addition_is_total<P: Add<P, Output = P>>() -> bool {
    forall|a: P, b: P| #[trigger] a.add_req(b)
}

/// `<` on due times is a strict partial order: no due time lies before
/// itself, and what lies before an earlier one lies before the later one.
pub open spec fn due_order_is_strict<D: PartialOrd>() -> bool {
    &&& forall|a: D| !#[trigger] due_before(a, a)
    &&& forall|a: D, b: D, c: D|
        #[trigger] due_before(a, b) && #[trigger] due_before(b, c) ==> due_before(a, c)
}

/// `<` on due times is a strict weak order: a strict partial order in which
/// a due time that lies before another lies before every third one that
/// does not itself lie before that other. No two due times are incomparable
/// but those that count as equal.
pub open spec fn due_order_is_strict_weak<D: PartialOrd>() -> bool {
    &&& due_order_is_strict::<D>()
    &&& forall|a: D, b: D, c: D|
        #![trigger due_before(a, b), due_before(a, c)]
        #![trigger due_before(a, b), due_before(c, b)]
        due_before(a, b) ==> due_before(a, c) || due_before(c, b)
}

/// The sequence `s` with the elements at `i` and `j` exchanged.
pub open spec fn exchange<A>(s: Seq<A>, i: int, j: int) -> Seq<A>
    recommends
        0 <= i < s.len(),
        0 <= j < s.len(),
{
    s.update(i, s[j]).update(j, s[i])
}

/// The index that a left-to-right scan of `jobs[from..to]` for the earliest
/// due time ends on.
///
/// The scan starts with `from` as its pick, whatever that job's due time is,
/// and a later job replaces the pick only if its due time is strictly before
/// the pick's. On a tie, and on an incomparable pair, the earlier job stays.
pub open spec fn earliest_due<T, D: PartialOrd, P>(jobs: Seq<(T, D, P)>, from: int, to: int) -> int
    recommends
        0 <= from < to <= jobs.len(),
    decreases to - from,
{
    if to <= from + 1 {
        from
    } else {
        let pick = earliest_due(jobs, from, to - 1);
        if due_before(jobs[to - 1].1, jobs[pick].1) {
            to - 1
        } else {
            pick
        }
    }
}

/// The time at which the `count`-th job of `jobs` is completed when the jobs
/// run back to back, in sequence order, from the time `start`.
///
/// The processing times are added from left to right, one at a time.
pub open spec fn completion_time<T, D, P: Add<P, Output = P>>(
    jobs: Seq<(T, D, P)>,
    start: P,
    count: int,
) -> P
    recommends
        0 <= count <= jobs.len(),
    decreases count,
{
    if count <= 0 {
        start
    } else {
        plus(completion_time(jobs, start, count - 1), jobs[count - 1].2)
    }
}

/// Each of the first `count` jobs of `jobs` is completed by its own due
/// time when the jobs run back to back from the time `start`.
pub open spec fn prefix_on_time<T, D, P: Add<P, Output = P> + PartialOrd<D>>(
    jobs: Seq<(T, D, P)>,
    start: P,
    count: int,
) -> bool {
    forall|i: int| 0 <= i < count ==> meets(#[trigger] completion_time(jobs, start, i + 1), jobs[i].1)
}

/// The job at `index` would miss its due time if it ran right after the
/// first `ahead` jobs of `jobs`, those running back to back from `start`.
pub open spec fn misses_after<T, D, P: Add<P, Output = P> + PartialOrd<D>>(
    jobs: Seq<(T, D, P)>,
    start: P,
    ahead: int,
    index: int,
) -> bool {
    !meets(plus(completion_time(jobs, start, ahead), jobs[index].2), jobs[index].1)
}

/// The job at `index` would miss its due time if it ran right after the
/// first few of the first `on_time` jobs of `jobs`: after none of them,
/// after all of them, or after some in between.
pub open spec fn late_for_cause<T, D, P: Add<P, Output = P> + PartialOrd<D>>(
    jobs: Seq<(T, D, P)>,
    start: P,
    on_time: int,
    index: int,
) -> bool {
    exists|ahead: int| 0 <= ahead <= on_time && #[trigger] misses_after(jobs, start, ahead, index)
}

/// Each job of `jobs` from the index `on_time` on is late for cause: it
/// would miss its due time if it ran right after the first few of the
/// `on_time` jobs before them.
pub open spec fn suffix_late_for_cause<T, D, P: Add<P, Output = P> + PartialOrd<D>>(
    jobs: Seq<(T, D, P)>,
    start: P,
    on_time: int,
) -> bool {
    forall|j: int| on_time <= j < jobs.len() ==> #[trigger] late_for_cause(jobs, start, on_time, j)
}

/// No job among the first `count` of `jobs` is due strictly before a job
/// that stands to its left.
pub open spec fn prefix_in_due_order<T, D: PartialOrd, P>(jobs: Seq<(T, D, P)>, count: int) -> bool {
    forall|i: int, j: int| 0 <= i < j < count ==> !due_before(#[trigger] jobs[j].1, #[trigger] jobs[i].1)
}

/// The state of the scheduler between two steps.
///
/// `jobs[..on_time_end]` are the jobs accepted so far, in the order in which
/// they run; `jobs[late_start..]` are the jobs rejected so far;
/// `jobs[on_time_end..late_start]` are undecided. `clock` is the time at
/// which the last accepted job is completed.
pub struct Partition<T, D, P> {
    pub jobs: Seq<(T, D, P)>,
    pub on_time_end: int,
    pub late_start: int,
    pub clock: P,
}

impl<T, D: PartialOrd, P: Add<P, Output = P> + PartialOrd<D>> Partition<T, D, P> {
    /// The state before the first step: every job undecided, the clock at
    /// `start`.
    pub open spec fn initial(jobs: Seq<(T, D, P)>, start: P) -> Self {
        Partition { jobs, on_time_end: 0, late_start: jobs.len() as int, clock: start }
    }

    /// The boundaries are in order and inside the sequence.
    pub open spec fn well_formed(self) -> bool {
        0 <= self.on_time_end <= self.late_start <= self.jobs.len()
    }

    /// No job is undecided.
    pub open spec fn decided(self) -> bool {
        self.on_time_end >= self.late_start
    }

    /// The index of the undecided job that the next step decides: the one
    /// that the scan for the earliest due time ends on.
    pub open spec fn candidate(self) -> int {
        earliest_due(self.jobs, self.on_time_end, self.late_start)
    }

    /// The time at which the candidate would be completed if it ran next.
    pub open spec fn candidate_finish(self) -> P {
        plus(self.clock, self.jobs[self.candidate()].2)
    }

    /// The candidate would be completed by its due time.
    pub open spec fn accepts(self) -> bool {
        meets(self.candidate_finish(), self.jobs[self.candidate()].1)
    }

    /// One step. A candidate that would be on time changes places with the
    /// first undecided job, joins the accepted jobs and advances the clock;
    /// any other candidate changes places with the last undecided job and
    /// joins the rejected ones, the clock staying as it is.
    pub open spec fn step(self) -> Self {
        if self.accepts() {
            Partition {
                jobs: exchange(self.jobs, self.candidate(), self.on_time_end),
                on_time_end: self.on_time_end + 1,
                late_start: self.late_start,
                clock: self.candidate_finish(),
            }
        } else {
            Partition {
                jobs: exchange(self.jobs, self.candidate(), self.late_start - 1),
                on_time_end: self.on_time_end,
                late_start: self.late_start - 1,
                clock: self.clock,
            }
        }
    }

    /// The state after as many steps as it takes to decide every job.
    pub open spec fn run(self) -> Self
        decreases self.late_start - self.on_time_end,
    {
        if self.decided() {
            self
        } else {
            self.step().run()
        }
    }

    /// Every addition that the run from this state makes is one that `+`
    /// admits: for a machine integer, one that does not overflow.
    pub open spec fn sums_defined(self) -> bool
        decreases self.late_start - self.on_time_end,
    {
        self.decided() || {
            &&& self.clock.add_req(self.jobs[self.candidate()].2)
            &&& self.step().sums_defined()
        }
    }
}

/// The outcome of scheduling `jobs` from the time `start`: the rearranged
/// sequence in `jobs`, the number of on-time jobs in `on_time_end`.
pub open spec fn schedule<T, D: PartialOrd, P: Add<P, Output = P> + PartialOrd<D>>(
    jobs: Seq<(T, D, P)>,
    start: P,
) -> Partition<T, D, P> {
    Partition::initial(jobs, start).run()
}

/// No addition that the scheduler makes on `jobs` can fail. Either `+`
/// admits every pair of arguments; or the operators are exact, so that the
/// scheduler makes the additions of the model's run, and `+` admits each of
/// those, whichever value `P::default()` returns for the clock to start at.
pub open spec fn sums_cannot_fail<
    T,
    D: Clone + PartialOrd,
    P: Clone + Add<P, Output = P> + Default + PartialOrd<D>,
>(jobs: Seq<(T, D, P)>) -> bool {
    ||| addition_is_total::<P>()
    ||| {
        &&& exact_time_ops::<D, P>()
        &&& forall|zero: P| #[trigger]
            call_ensures(P::default, (), zero) ==> Partition::initial(jobs, zero).sums_defined()
    }
}

/// The jobs stand in due order and, run as they stand, are all on time,
/// whichever value `P::default()` returns for the clock to start at.
pub open spec fn already_on_time<T, D: PartialOrd, P: Add<P, Output = P> + Default + PartialOrd<D>>(
    jobs: Seq<(T, D, P)>,
) -> bool {
    &&& prefix_in_due_order(jobs, jobs.len() as int)
    &&& forall|zero: P| #[trigger]
        call_ensures(P::default, (), zero) ==> prefix_on_time(jobs, zero, jobs.len() as int)
}

/// `after` and `on_time` are what the scheduler makes of `before`, the clock
/// starting at a value that `P::default()` can return.
pub open spec fn is_schedule_of<T, D: PartialOrd, P: Add<P, Output = P> + Default + PartialOrd<D>>(
    after: Seq<(T, D, P)>,
    on_time: int,
    before: Seq<(T, D, P)>,
) -> bool {
    exists|zero: P|
        {
            &&& #[trigger] call_ensures(P::default, (), zero)
            &&& after == schedule(before, zero).jobs
            &&& on_time == schedule(before, zero).on_time_end
        }
}

} // verus!
