//! What holds of every schedule, tried on chosen inputs, and the corner
//! cases of the scheduling rule.

use core::cmp::Ordering;
use core::ops::Add;

use moore_hodgson::moore_hodgson;

/// A handful of job lists over unsigned integers.
fn sample_inputs() -> Vec<Vec<(u32, u64, u64)>> {
    vec![
        vec![],
        vec![(1, 0, 0)],
        vec![(1, 0, 1)],
        vec![(1, 6, 4), (2, 7, 3), (5, 11, 6), (4, 9, 5), (3, 8, 2)],
        vec![
            (6, 28, 7),
            (1, 6, 4),
            (7, 25, 8),
            (2, 8, 1),
            (5, 20, 6),
            (3, 9, 6),
            (8, 35, 10),
            (4, 11, 3),
        ],
        vec![(1, 3, 3), (2, 3, 3), (3, 3, 3), (4, 3, 3)],
        vec![(1, 10, 2), (2, 10, 2), (1, 10, 2), (2, 10, 2), (1, 10, 2), (9, 10, 2)],
        vec![(1, 5, 9), (2, 4, 9), (3, 3, 9), (4, 2, 9), (5, 1, 9)],
        vec![(5, 50, 10), (4, 40, 10), (3, 30, 10), (2, 20, 10), (1, 10, 10)],
    ]
}

#[test]
fn length_is_preserved() {
    for input in sample_inputs() {
        let mut jobs = input.clone();
        moore_hodgson(&mut jobs);
        assert_eq!(jobs.len(), input.len());
    }
}

#[test]
fn output_is_a_permutation_of_the_input() {
    for input in sample_inputs() {
        let mut jobs = input.clone();
        moore_hodgson(&mut jobs);
        let mut expected = input.clone();
        expected.sort();
        jobs.sort();
        assert_eq!(jobs, expected);
    }
}

#[test]
fn count_is_at_most_the_length() {
    for input in sample_inputs() {
        let mut jobs = input.clone();
        let on_time = moore_hodgson(&mut jobs);
        assert!(on_time <= input.len());
    }
}

#[test]
fn on_time_jobs_meet_their_due_times() {
    for input in sample_inputs() {
        let mut jobs = input.clone();
        let on_time = moore_hodgson(&mut jobs);
        let mut clock: u64 = 0;
        for job in &jobs[..on_time] {
            clock += job.2;
            assert!(clock <= job.1, "{:?} ends at {}", job, clock);
        }
    }
}

#[test]
fn on_time_jobs_stand_in_due_order() {
    for input in sample_inputs() {
        let mut jobs = input.clone();
        let on_time = moore_hodgson(&mut jobs);
        for pair in jobs[..on_time].windows(2) {
            assert!(pair[0].1 <= pair[1].1);
        }
    }
}

#[test]
fn late_jobs_would_miss_their_due_times() {
    for input in sample_inputs() {
        let mut jobs = input.clone();
        let on_time = moore_hodgson(&mut jobs);
        for late in &jobs[on_time..] {
            let mut clock: u64 = 0;
            let mut misses = clock + late.2 > late.1;
            for job in &jobs[..on_time] {
                clock += job.2;
                misses = misses || clock + late.2 > late.1;
            }
            assert!(misses, "{:?} was rejected without cause", late);
        }
    }
}

#[test]
fn feasible_jobs_in_due_order_are_all_on_time() {
    let input = [(1, 2u64, 2u64), (2, 4, 2), (3, 4, 0), (4, 9, 5), (5, 9, 0), (6, 20, 10)];
    let mut jobs = input;
    assert_eq!(moore_hodgson(&mut jobs), input.len());
    assert_eq!(jobs, input);
}

#[test]
fn scheduling_the_on_time_jobs_again_keeps_them() {
    for input in sample_inputs() {
        let mut jobs = input.clone();
        let on_time = moore_hodgson(&mut jobs);
        let mut again = jobs[..on_time].to_vec();
        assert_eq!(moore_hodgson(&mut again), on_time);
        assert_eq!(&again[..], &jobs[..on_time]);
    }
}

#[test]
fn equal_inputs_give_equal_outcomes() {
    for input in sample_inputs() {
        let mut first = input.clone();
        let mut second = input.clone();
        let first_on_time = moore_hodgson(&mut first);
        let second_on_time = moore_hodgson(&mut second);
        assert_eq!(first_on_time, second_on_time);
        assert_eq!(first, second);
    }
}

#[test]
fn job_that_ends_exactly_at_its_due_time_is_on_time() {
    let mut jobs = [(1, 4u8, 4u8), (2, 9, 5), (3, 10, 1)];
    assert_eq!(moore_hodgson(&mut jobs), 3);
    assert_eq!(jobs, [(1, 4, 4), (2, 9, 5), (3, 10, 1)]);
}

#[test]
fn job_that_ends_one_past_its_due_time_is_late() {
    let mut jobs = [(1, 4u8, 4u8), (2, 8, 5), (3, 10, 1)];
    assert_eq!(moore_hodgson(&mut jobs), 2);
    assert_eq!(jobs, [(1, 4, 4), (3, 10, 1), (2, 8, 5)]);
}

#[test]
fn rejected_job_does_not_advance_the_clock() {
    // The second job would end at 12; were its time counted, the third would
    // end at 15.
    let mut jobs = [(1, 5i64, 5i64), (2, 6, 7), (3, 8, 3)];
    assert_eq!(moore_hodgson(&mut jobs), 2);
    assert_eq!(jobs, [(1, 5, 5), (3, 8, 3), (2, 6, 7)]);
}

#[test]
fn earliest_due_time_is_tried_first() {
    let mut jobs = [("late", 9u16, 9u16), ("early", 1, 1)];
    assert_eq!(moore_hodgson(&mut jobs), 1);
    assert_eq!(jobs, [("early", 1, 1), ("late", 9, 9)]);
}

#[test]
fn leftmost_job_wins_a_tie_in_due_time() {
    let mut jobs = [("a", 5, 3), ("b", 5, 3), ("c", 5, 2)];
    assert_eq!(moore_hodgson(&mut jobs), 2);
    assert_eq!(jobs, [("a", 5, 3), ("c", 5, 2), ("b", 5, 3)]);
}

#[test]
fn zero_processing_time_leaves_the_clock() {
    let mut jobs = [(1, 3, 3), (2, 3, 0), (3, 3, 0), (4, 4, 1), (5, 4, 1)];
    assert_eq!(moore_hodgson(&mut jobs), 4);
    assert_eq!(jobs, [(1, 3, 3), (2, 3, 0), (3, 3, 0), (4, 4, 1), (5, 4, 1)]);
}

#[test]
fn negative_times_are_ordinary_values() {
    let mut jobs = [(1, -1, 0), (2, -5, -6), (3, -5, 2)];
    assert_eq!(moore_hodgson(&mut jobs), 2);
    assert_eq!(jobs, [(2, -5, -6), (1, -1, 0), (3, -5, 2)]);
}

#[test]
fn incomparable_due_times_are_all_late() {
    let mut pair = [(1, f32::NAN, 1.0f32), (2, f32::NAN, 1.0)];
    assert_eq!(moore_hodgson(&mut pair), 0);
    assert_eq!(pair[0].0, 2);
    assert_eq!(pair[1].0, 1);

    let mut triple = [(1, f64::NAN, 0.0f64), (2, f64::NAN, 0.0), (3, f64::NAN, 0.0)];
    assert_eq!(moore_hodgson(&mut triple), 0);
    let mut items: Vec<i32> = triple.iter().map(|job| job.0).collect();
    items.sort();
    assert_eq!(items, [1, 2, 3]);
    assert!(triple.iter().all(|job| job.1.is_nan() && job.2 == 0.0));
}

#[test]
fn first_job_scanned_stays_the_pick_against_incomparable_ones() {
    // NaN is the pick and is rejected; 1.0 is never less than NaN.
    let mut jobs = [("nan", f32::NAN, 0.0f32), ("one", 1.0, 1.0), ("two", 2.0, 1.0)];
    assert_eq!(moore_hodgson(&mut jobs), 2);
    assert_eq!(jobs[0], ("one", 1.0, 1.0));
    assert_eq!(jobs[1], ("two", 2.0, 1.0));
    assert_eq!(jobs[2].0, "nan");
}

#[test]
fn payloads_need_not_be_comparable_or_cloneable() {
    struct Opaque(&'static str);
    let mut jobs = [(Opaque("x"), 1, 2), (Opaque("y"), 2, 2), (Opaque("z"), 1, 1)];
    assert_eq!(moore_hodgson(&mut jobs), 1);
    let order: Vec<&str> = jobs.iter().map(|job| job.0 .0).collect();
    assert_eq!(order, ["z", "y", "x"]);
}

/// A point in time, and a span of time that is compared against one.
#[derive(Clone, Debug, PartialEq, PartialOrd)]
struct Instant(u32);

#[derive(Clone, Debug, Default, PartialEq)]
struct Span(u32);

impl Add for Span {
    type Output = Span;

    fn add(self, other: Span) -> Span {
        Span(self.0 + other.0)
    }
}

impl PartialEq<Instant> for Span {
    fn eq(&self, other: &Instant) -> bool {
        self.0 == other.0
    }
}

impl PartialOrd<Instant> for Span {
    fn partial_cmp(&self, other: &Instant) -> Option<Ordering> {
        self.0.partial_cmp(&other.0)
    }
}

#[test]
fn due_and_processing_times_may_differ_in_type() {
    let mut jobs = [
        ('a', Instant(6), Span(5)),
        ('b', Instant(7), Span(1)),
        ('c', Instant(4), Span(1)),
        ('d', Instant(6), Span(4)),
        ('e', Instant(8), Span(3)),
    ];
    assert_eq!(moore_hodgson(&mut jobs), 3);
    let order: Vec<char> = jobs.iter().map(|job| job.0).collect();
    assert_eq!(order, ['c', 'a', 'b', 'e', 'd']);
}

#[test]
fn slices_of_a_vector_are_scheduled_in_place() {
    let mut jobs = vec![(0, 0, 9), (1, 9, 1), (2, 3, 1), (3, 0, 9)];
    assert_eq!(moore_hodgson(&mut jobs[1..3]), 2);
    assert_eq!(jobs, [(0, 0, 9), (2, 3, 1), (1, 9, 1), (3, 0, 9)]);
}
