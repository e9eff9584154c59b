use std::cell::Cell;

use fractal_core::escape::{escape_time, EscapeResult};
use num::Complex;

fn iterate_point(c: Complex<f64>, num_iter: usize) -> Option<usize> {
    escape_time(
        Complex::new(0.0, 0.0),
        num_iter,
        |z: &Complex<f64>| z.norm_sqr() > 4.0,
        |z: Complex<f64>| z.powf(2.0) + c,
    )
    .escape_count()
}

/// Squares and adds one, on whole numbers: 1, 2, 5, 26, ...
fn square_plus_one(state: u64) -> u64 {
    state.saturating_mul(state).saturating_add(1)
}

#[test]
fn iterate_point_test() {
    let num_iter = 1000;

    let result1 = iterate_point(Complex::new(0.0, 0.0), num_iter);
    assert!(result1.is_none());

    let result2 = iterate_point(Complex::new(1.0, 0.0), num_iter);
    assert_eq!(result2.unwrap(), 3);
}

#[test]
fn unit_point_escapes_at_three_under_any_cap_from_four() {
    for cap in 4..64 {
        assert_eq!(iterate_point(Complex::new(1.0, 0.0), cap), Some(3));
    }
}

#[test]
fn unit_point_is_a_member_under_caps_up_to_three() {
    for cap in 0..=3 {
        assert_eq!(iterate_point(Complex::new(1.0, 0.0), cap), None);
    }
}

#[test]
fn origin_is_a_member_under_every_cap() {
    for cap in [0, 1, 2, 10, 1000, 100_000] {
        assert_eq!(iterate_point(Complex::new(0.0, 0.0), cap), None);
        assert_eq!(iterate_point(Complex::new(-0.0, 0.0), cap), None);
        assert_eq!(iterate_point(Complex::new(0.0, -0.0), cap), None);
    }
}

#[test]
fn points_far_outside_escape_at_one() {
    assert_eq!(iterate_point(Complex::new(3.0, 0.0), 1000), Some(1));
    assert_eq!(iterate_point(Complex::new(0.0, -2.5), 1000), Some(1));
}

#[test]
fn points_of_the_main_bulbs_are_members() {
    assert_eq!(iterate_point(Complex::new(-1.0, 0.0), 1000), None);
    assert_eq!(iterate_point(Complex::new(-0.5, 0.0), 1000), None);
    assert_eq!(iterate_point(Complex::new(0.25, 0.0), 1000), None);
}

#[test]
fn escape_is_the_first_step_at_which_the_test_holds() {
    let result = escape_time(1u64, 10, |s: &u64| *s > 4, square_plus_one);
    assert_eq!(result, EscapeResult::Escaped(2));
    let result = escape_time(1u64, 10, |s: &u64| *s > 5, square_plus_one);
    assert_eq!(result, EscapeResult::Escaped(3));
}

#[test]
fn a_start_outside_the_region_escapes_at_zero() {
    let result = escape_time(7u64, 10, |s: &u64| *s > 4, square_plus_one);
    assert_eq!(result, EscapeResult::Escaped(0));
    assert_eq!(result.escape_count(), Some(0));
    assert!(!result.is_member());
}

#[test]
fn zero_cap_makes_everything_a_member() {
    let result = escape_time(7u64, 0, |s: &u64| *s > 4, square_plus_one);
    assert_eq!(result, EscapeResult::Member);
    assert_eq!(result.escape_count(), None);
    assert!(result.is_member());
}

#[test]
fn escape_count_is_strictly_below_the_cap() {
    // The state first exceeds 4 at step 2.
    assert_eq!(
        escape_time(1u64, 3, |s: &u64| *s > 4, square_plus_one),
        EscapeResult::Escaped(2)
    );
    assert_eq!(
        escape_time(1u64, 2, |s: &u64| *s > 4, square_plus_one),
        EscapeResult::Member
    );
    for cap in 0..40usize {
        for start in 0..6u64 {
            match escape_time(start, cap, |s: &u64| *s > 1000, square_plus_one) {
                EscapeResult::Escaped(step) => assert!(step < cap),
                EscapeResult::Member => {}
            }
        }
    }
}

#[test]
fn a_resting_state_inside_is_a_member() {
    let result = escape_time(0u64, 1000, |s: &u64| *s > 4, |s: u64| s * s);
    assert_eq!(result, EscapeResult::Member);
    let result = escape_time(1u64, 1000, |s: &u64| *s > 4, |s: u64| s * s);
    assert_eq!(result, EscapeResult::Member);
}

#[test]
fn the_test_comes_before_each_step() {
    let tests = Cell::new(0usize);
    let steps = Cell::new(0usize);
    let result = escape_time(
        1u64,
        10,
        |s: &u64| {
            tests.set(tests.get() + 1);
            *s > 4
        },
        |s: u64| {
            steps.set(steps.get() + 1);
            square_plus_one(s)
        },
    );
    assert_eq!(result, EscapeResult::Escaped(2));
    assert_eq!(tests.get(), 3);
    assert_eq!(steps.get(), 2);
}

#[test]
fn a_member_is_tested_and_stepped_once_per_iteration() {
    let tests = Cell::new(0usize);
    let steps = Cell::new(0usize);
    let result = escape_time(
        0u64,
        25,
        |s: &u64| {
            tests.set(tests.get() + 1);
            *s > 4
        },
        |s: u64| {
            steps.set(steps.get() + 1);
            s
        },
    );
    assert_eq!(result, EscapeResult::Member);
    assert_eq!(tests.get(), 25);
    assert_eq!(steps.get(), 25);
}

#[test]
fn evaluating_again_gives_the_same_verdict() {
    for re in -20..=20 {
        for im in -20..=20 {
            let c = Complex::new(re as f64 / 10.0, im as f64 / 10.0);
            let first = iterate_point(c, 200);
            for _ in 0..3 {
                assert_eq!(iterate_point(c, 200), first);
            }
        }
    }
}
