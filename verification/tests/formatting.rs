use epoch_tail::format::{format_epoch, MAX_FORMATTABLE_EPOCH};

#[test]
fn formats_known_timestamp() {
    assert_eq!(format_epoch(1700000000).unwrap(), "2023-11-14 22:13:20");
}

#[test]
fn formats_epoch_zero() {
    assert_eq!(format_epoch(0).unwrap(), "1970-01-01 00:00:00");
}

#[test]
fn formatting_is_repeatable() {
    let a = format_epoch(1700000000).unwrap();
    let b = format_epoch(42).unwrap();
    let c = format_epoch(1700000000).unwrap();
    assert_eq!(a, c);
    assert_eq!(b, "1970-01-01 00:00:42");
}

#[test]
fn out_of_range_is_rejected_not_fatal() {
    assert!(format_epoch(u64::MAX).is_none());
    assert!(format_epoch(MAX_FORMATTABLE_EPOCH + 1).is_none());
    assert!(format_epoch(MAX_FORMATTABLE_EPOCH).is_some());
}
