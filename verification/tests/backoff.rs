use orengine_utils::backoff::{Backoff, SPIN_LIMIT};
use std::cell::Cell;

#[test]
fn backoff_counts_its_steps() {
    let mut backoff = Backoff::new();
    assert_eq!(backoff.step(), 0);
    assert!(!backoff.is_completed());
    for expected in 1..=SPIN_LIMIT {
        backoff.spin();
        assert_eq!(backoff.step(), expected);
    }
    assert!(backoff.is_completed());
    backoff.spin();
    assert_eq!(backoff.step(), SPIN_LIMIT + 1);
    backoff.reset();
    assert_eq!(backoff.step(), 0);
    assert!(!backoff.is_completed());
    assert_eq!(Backoff::default().step(), 0);
}

#[test]
fn backoff_is_completed_from_the_spin_limit_on() {
    assert_eq!(SPIN_LIMIT, 6);
    let mut backoff = Backoff::new();
    for _ in 0..5 {
        backoff.spin();
    }
    assert!(!backoff.is_completed());
    backoff.spin();
    assert!(backoff.is_completed());
}

#[test]
fn backoff_spins_twice_as_often_with_each_step() {
    assert_eq!(Backoff::spins_for(0), 1);
    assert_eq!(Backoff::spins_for(1), 2);
    assert_eq!(Backoff::spins_for(2), 4);
    assert_eq!(Backoff::spins_for(3), 8);
    assert_eq!(Backoff::spins_for(4), 16);
    assert_eq!(Backoff::spins_for(5), 32);
    assert_eq!(Backoff::spins_for(6), 64);
    assert_eq!(Backoff::spins_for(7), 64);
    assert_eq!(Backoff::spins_for(u32::MAX), 64);
}

#[test]
fn backoff_spin_or_calls_the_function_once_completed() {
    let calls = Cell::new(0u32);
    let mut backoff = Backoff::new();
    for step in 0..SPIN_LIMIT {
        backoff.spin_or(|| calls.set(calls.get() + 1));
        assert_eq!(calls.get(), 0);
        assert_eq!(backoff.step(), step + 1);
    }
    backoff.spin_or(|| calls.set(calls.get() + 1));
    assert_eq!(calls.get(), 1);
    backoff.spin_or(|| calls.set(calls.get() + 1));
    assert_eq!(calls.get(), 2);
    assert_eq!(backoff.step(), SPIN_LIMIT + 2);
}
