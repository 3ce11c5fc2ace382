//! Worked examples: inputs with the schedule that is expected for each.

use core::fmt::Debug;
use core::ops::Add;

use moore_hodgson::moore_hodgson;

/// Schedules a copy of `input` and compares the count with `on_time_items`
/// and the leading jobs with `output`.
fn tst_combination<T, D, P>(input: &[(T, D, P)], output: &[(T, D, P)], on_time_items: usize)
where
    T: Clone + PartialEq + Debug,
    D: Clone + PartialOrd + Debug,
    P: Clone + Add<P, Output = P> + Default + PartialOrd<D> + PartialEq + Debug,
{
    let mut scheduled_jobs = input.to_vec();

    assert_eq!(moore_hodgson(&mut scheduled_jobs), on_time_items);

    assert_eq!(scheduled_jobs.len(), input.len(), "Moore-Hudgson changed size of array");
    for i in 0..output.len() {
        assert_eq!(scheduled_jobs[i], output[i], "Item {} is not equal", i);
    }
}

#[test]
fn bsraya_examples() {
    // https://www.bsraya.com/portfolio/moore-hodgson-algorithm/
    let jobs = [(1, 6, 4), (2, 7, 3), (5, 11, 6), (4, 9, 5), (3, 8, 2)];

    tst_combination(&jobs, &jobs, 2);
    tst_combination(
        &[
            (1, 6, 4),
            (2, 8, 1),
            (3, 9, 6),
            (4, 11, 3),
            (5, 20, 6),
            (7, 25, 8),
            (6, 28, 7),
            (8, 35, 10),
        ],
        &[
            (1, 6, 4),
            (2, 8, 1),
            (4, 11, 3),
            (5, 20, 6),
            (7, 25, 8),
            (8, 35, 10),
            (6, 28, 7),
            (3, 9, 6),
        ],
        6,
    );
}

#[test]
fn bsraya_unordered() {
    tst_combination(
        &[
            (6, 28, 7),
            (1, 6, 4),
            (7, 25, 8),
            (2, 8, 1),
            (5, 20, 6),
            (3, 9, 6),
            (8, 35, 10),
            (4, 11, 3),
        ],
        &[
            (1, 6, 4),
            (2, 8, 1),
            (4, 11, 3),
            (5, 20, 6),
            (7, 25, 8),
            (8, 35, 10),
            (6, 28, 7),
            (3, 9, 6),
        ],
        6,
    );
    tst_combination(
        &[
            (4, 11, 3),
            (5, 20, 6),
            (7, 25, 8),
            (1, 6, 4),
            (6, 28, 7),
            (3, 9, 6),
            (8, 35, 10),
            (2, 8, 1),
        ],
        &[
            (1, 6, 4),
            (2, 8, 1),
            (4, 11, 3),
            (5, 20, 6),
            (7, 25, 8),
            (8, 35, 10),
            (6, 28, 7),
            (3, 9, 6),
        ],
        6,
    );
}

#[test]
fn nan_in_after() {
    let empty_output: [(usize, f32, f32); 0] = [];
    tst_combination(&[(1, f32::NAN, 3.)], &empty_output, 0);
    tst_combination(&[(1, f32::NAN, 3.), (2, 7., 6.)], &[(2, 7., 6.)], 1);
}

#[test]
fn infinity() {
    let empty_output: [(usize, f32, f32); 0] = [];
    tst_combination(&[(1, f32::INFINITY, 3.)], &empty_output, 1);
    tst_combination(&[(1, f32::NEG_INFINITY, 0.)], &empty_output, 0);
}

#[test]
fn zero_due_time() {
    tst_combination(&[(1, 0, 3)], &[(1, 0, 3)], 0);
    tst_combination(&[(1, 0, 0)], &[(1, 0, 0)], 1);
    tst_combination(&[(1, 0, 0), (2, 5, 5), (3, 6, 2)], &[(1, 0, 0), (2, 5, 5), (3, 6, 2)], 2);
}

#[test]
fn zero_processing_time() {
    tst_combination(&[(1, 5, 0)], &[(1, 5, 0)], 1);
    tst_combination(&[(1, 5, 0), (2, 5, 5)], &[(1, 5, 0), (2, 5, 5)], 2);
    tst_combination(&[(1, 0, 0), (2, 5, 5), (3, 6, 2)], &[(1, 0, 0), (2, 5, 5), (3, 6, 2)], 2);
}

#[test]
fn errands_example() {
    let mut jobs = [
        ("ApplyForJob", 6, 5),
        ("FileTaxes", 7, 1),
        ("BuyPresentForMom", 4, 1),
        ("SolveUrgentProblem", 6, 4),
        ("ApplyForLoan", 8, 3),
    ];

    let nr_of_on_time_jobs = moore_hodgson(&mut jobs);

    assert_eq!(nr_of_on_time_jobs, 3);
    assert_eq!(
        jobs,
        [
            ("BuyPresentForMom", 4, 1),
            ("ApplyForJob", 6, 5),
            ("FileTaxes", 7, 1),
            ("ApplyForLoan", 8, 3),
            ("SolveUrgentProblem", 6, 4),
        ]
    );
}

#[test]
fn empty_input() {
    let mut jobs: [(u8, u32, u32); 0] = [];
    assert_eq!(moore_hodgson(&mut jobs), 0);
    assert_eq!(jobs.len(), 0);
}

#[test]
fn single_job_with_nan_due_time_is_late() {
    let mut jobs = [("X", f64::NAN, 3.0)];
    assert_eq!(moore_hodgson(&mut jobs), 0);
    assert_eq!(jobs[0].0, "X");
    assert!(jobs[0].1.is_nan());
    assert_eq!(jobs[0].2, 3.0);
}

#[test]
fn single_job_with_infinite_due_time_is_on_time() {
    let mut jobs = [("X", f64::INFINITY, 3.0)];
    assert_eq!(moore_hodgson(&mut jobs), 1);
    assert_eq!(jobs, [("X", f64::INFINITY, 3.0)]);
}

#[test]
fn single_job_with_zero_due_and_zero_processing_time_is_on_time() {
    let mut jobs = [("X", 0u64, 0u64)];
    assert_eq!(moore_hodgson(&mut jobs), 1);
    assert_eq!(jobs, [("X", 0, 0)]);
}
