use photo_archiver::date::{date_of_timestamp, Date, MAX_BUCKET_SECS};

// 2024-03-05 12:00:00 UTC
const T_2024_03_05: i64 = 1709640000;

#[test]
fn every_timestamp_up_to_the_four_digit_bound_maps_to_a_date() {
    assert!(date_of_timestamp(0).is_some());
    assert!(date_of_timestamp(T_2024_03_05).is_some());
    assert!(date_of_timestamp(MAX_BUCKET_SECS).is_some());
}

#[test]
fn a_timestamp_beyond_chronos_range_maps_to_no_date() {
    assert_eq!(date_of_timestamp(i64::MAX), None);
}

#[test]
fn a_known_timestamp_maps_to_its_local_date() {
    assert_eq!(
        date_of_timestamp(T_2024_03_05),
        Some(Date { year: 2024, month: 3, day: 5 })
    );
}
