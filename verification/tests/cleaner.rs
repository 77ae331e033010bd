use state_keeper::prover_setup::{
    check_setup_power, SetupPowerOutOfRange, SETUP_MAX_POW2, SETUP_MIN_POW2,
};
use state_keeper::rejected_tx_cleaner::{
    rejected_transactions_max_age, MAX_DELTA_NANOS, MAX_DELTA_SECS, NANOS_PER_SEC,
};

#[test]
fn two_weeks_fit() {
    let age = rejected_transactions_max_age(14 * 24 * 60 * 60, 0);
    assert_eq!(age, Some(chrono::TimeDelta::weeks(2)));
}

#[test]
fn age_keeps_its_nanoseconds() {
    let age = rejected_transactions_max_age(3, 500).unwrap();
    assert_eq!(age.num_seconds(), 3);
    assert_eq!(age.subsec_nanos(), 500);
}

#[test]
fn longest_age_is_the_largest_number_of_milliseconds() {
    assert_eq!(MAX_DELTA_SECS as i64, i64::MAX / 1000);
    assert_eq!(MAX_DELTA_NANOS as i64, (i64::MAX % 1000) * 1_000_000);
    let longest = rejected_transactions_max_age(MAX_DELTA_SECS, MAX_DELTA_NANOS).unwrap();
    assert_eq!(longest.num_milliseconds(), i64::MAX);
    assert_eq!(longest, chrono::TimeDelta::MAX);
    assert!(rejected_transactions_max_age(MAX_DELTA_SECS, MAX_DELTA_NANOS + 1).is_none());
    assert!(rejected_transactions_max_age(MAX_DELTA_SECS, NANOS_PER_SEC - 1).is_none());
    assert!(rejected_transactions_max_age(MAX_DELTA_SECS - 1, NANOS_PER_SEC - 1).is_some());
    assert!(rejected_transactions_max_age(MAX_DELTA_SECS + 1, 0).is_none());
    assert!(rejected_transactions_max_age(u64::MAX, 0).is_none());
}

#[test]
fn a_second_of_nanoseconds_is_refused() {
    assert!(rejected_transactions_max_age(1, NANOS_PER_SEC).is_none());
    assert!(rejected_transactions_max_age(u64::MAX, u32::MAX).is_none());
    assert!(rejected_transactions_max_age(0, 0).is_some());
}

#[test]
fn setup_power_is_checked() {
    assert_eq!((SETUP_MIN_POW2, SETUP_MAX_POW2), (20, 26));
    for power in 20u32..=26 {
        assert_eq!(check_setup_power(power), Ok(()));
    }
    assert_eq!(check_setup_power(19), Err(SetupPowerOutOfRange { power_of_two: 19 }));
    assert_eq!(check_setup_power(27), Err(SetupPowerOutOfRange { power_of_two: 27 }));
    assert_eq!(check_setup_power(0), Err(SetupPowerOutOfRange { power_of_two: 0 }));
    assert_eq!(
        check_setup_power(u32::MAX),
        Err(SetupPowerOutOfRange { power_of_two: u32::MAX })
    );
}
