use orengine_utils::OrengineInstant;
use std::time::Duration;

#[test]
fn test_instant_ordering() {
    let instant1: OrengineInstant = OrengineInstant::from_u64(1_700_000_000_000);
    let instant2 = instant1;

    assert_eq!(instant1, instant2);

    let instant3 = instant1 + Duration::from_millis(1);
    let instant4 = instant1 + Duration::from_millis(2);

    assert!(instant1 < instant3);
    assert!(instant3 < instant4);

    let mut btree = std::collections::BTreeSet::new();

    assert!(btree.insert(instant1));
    assert!(btree.insert(instant3));
    assert!(btree.insert(instant4));

    assert_eq!(btree.pop_first(), Some(instant1));
    assert_eq!(btree.pop_first(), Some(instant3));
    assert_eq!(btree.pop_first(), Some(instant4));
}

#[test]
fn instant_is_its_nanoseconds() {
    assert_eq!(OrengineInstant::from_u64(0).into_u64(), 0);
    assert_eq!(OrengineInstant::from_u64(123_456).into_u64(), 123_456);
    assert_eq!(OrengineInstant::from_u64(u64::MAX).into_u64(), u64::MAX);
}

#[test]
fn instant_checked_add_counts_nanoseconds() {
    let start = OrengineInstant::from_u64(1_000);
    assert_eq!(
        start.checked_add(Duration::from_nanos(234)),
        Some(OrengineInstant::from_u64(1_234))
    );
    assert_eq!(
        start.checked_add(Duration::from_secs(2)),
        Some(OrengineInstant::from_u64(2_000_001_000))
    );
    assert_eq!(start.checked_add(Duration::ZERO), Some(start));
    assert_eq!(
        start.checked_add(Duration::from_nanos(u64::MAX - 1_000)),
        Some(OrengineInstant::from_u64(u64::MAX))
    );
    assert_eq!(start.checked_add(Duration::from_nanos(u64::MAX - 999)), None);
    assert_eq!(start.checked_add(Duration::MAX), None);
    assert_eq!(OrengineInstant::from_u64(0).checked_add(Duration::from_secs(u64::MAX)), None);
}

#[test]
fn instant_checked_sub_counts_nanoseconds() {
    let start = OrengineInstant::from_u64(5_000_000_000);
    assert_eq!(
        start.checked_sub(Duration::from_secs(2)),
        Some(OrengineInstant::from_u64(3_000_000_000))
    );
    assert_eq!(
        start.checked_sub(Duration::from_nanos(5_000_000_000)),
        Some(OrengineInstant::from_u64(0))
    );
    assert_eq!(start.checked_sub(Duration::from_nanos(5_000_000_001)), None);
    assert_eq!(start.checked_sub(Duration::MAX), None);
    assert_eq!(start - Duration::from_millis(1), OrengineInstant::from_u64(4_999_000_000));
}

#[test]
fn instant_durations_since() {
    let early = OrengineInstant::from_u64(1_000);
    let late = OrengineInstant::from_u64(4_500);
    assert_eq!(late.checked_duration_since(early), Some(Duration::from_nanos(3_500)));
    assert_eq!(early.checked_duration_since(late), None);
    assert_eq!(late.checked_duration_since(late), Some(Duration::ZERO));
    assert_eq!(late.saturating_duration_since(early), Duration::from_nanos(3_500));
    assert_eq!(early.saturating_duration_since(late), Duration::ZERO);
    assert_eq!(late.duration_since(early), Duration::from_nanos(3_500));
    assert_eq!(early.duration_since(late), Duration::ZERO);
    assert_eq!(late - early, Duration::from_nanos(3_500));
    assert_eq!(early - late, Duration::ZERO);
    assert_eq!(early.elapsed(late), Duration::from_nanos(3_500));
    assert_eq!(late.elapsed(early), Duration::ZERO);
}

#[test]
fn instant_moves_in_place() {
    let mut instant = OrengineInstant::from_u64(10_000);
    instant += Duration::from_micros(3);
    assert_eq!(instant.into_u64(), 13_000);
    instant -= Duration::from_nanos(1);
    assert_eq!(instant.into_u64(), 12_999);
}

#[test]
fn instant_from_and_into_parts() {
    assert_eq!(
        OrengineInstant::from_parts(3, 250),
        Some(OrengineInstant::from_u64(3_000_000_250))
    );
    assert_eq!(OrengineInstant::from_parts(0, 0), Some(OrengineInstant::from_u64(0)));
    assert_eq!(
        OrengineInstant::from_parts(18_446_744_073, 709_551_615),
        Some(OrengineInstant::from_u64(u64::MAX))
    );
    assert_eq!(OrengineInstant::from_parts(18_446_744_073, 709_551_616), None);
    assert_eq!(OrengineInstant::from_parts(18_446_744_074, 0), None);
    assert_eq!(OrengineInstant::from_parts(u64::MAX, 5), None);
    assert_eq!(OrengineInstant::from_u64(3_000_000_250).into_parts(), (3, 250));
    assert_eq!(OrengineInstant::from_u64(999_999_999).into_parts(), (0, 999_999_999));
    assert_eq!(OrengineInstant::from_u64(u64::MAX).into_parts(), (18_446_744_073, 709_551_615));
}
