use diaryx::timestamp::{civil_time_at, decimal_text, entry_id_at, leap_year, month_length, CivilTime};

#[test]
fn epoch_is_first_of_january_1970() {
    let t = civil_time_at(0);
    assert_eq!(
        t,
        CivilTime { year: 1970, month: 1, day: 1, hour: 0, minute: 0, second: 0 }
    );
    assert_eq!(entry_id_at(0), "1970-01-01_00-00-00");
}

#[test]
fn id_of_known_moments() {
    assert_eq!(entry_id_at(1_234_567_890), "2009-02-13_23-31-30");
    assert_eq!(entry_id_at(1_700_000_000), "2023-11-14_22-13-20");
    assert_eq!(entry_id_at(951_782_400), "2000-02-29_00-00-00");
    assert_eq!(entry_id_at(1_709_251_199), "2024-02-29_23-59-59");
}

#[test]
fn id_at_end_of_year_9999() {
    assert_eq!(entry_id_at(253_402_300_799), "9999-12-31_23-59-59");
}

#[test]
fn year_beyond_four_digits_is_written_in_full() {
    assert_eq!(entry_id_at(253_402_300_800), "10000-01-01_00-00-00");
}

#[test]
fn civil_time_fields() {
    let t = civil_time_at(1_709_251_199);
    assert_eq!((t.year, t.month, t.day), (2024, 2, 29));
    assert_eq!((t.hour, t.minute, t.second), (23, 59, 59));
    assert_eq!(t.entry_id(), "2024-02-29_23-59-59");
}

#[test]
fn decimal_padding() {
    assert_eq!(decimal_text(7, 2), "07");
    assert_eq!(decimal_text(0, 4), "0000");
    assert_eq!(decimal_text(12345, 4), "12345");
    assert_eq!(decimal_text(0, 0), "0");
}

#[test]
fn leap_years_and_month_lengths() {
    assert!(leap_year(2000));
    assert!(leap_year(2024));
    assert!(!leap_year(1900));
    assert!(!leap_year(2023));
    assert_eq!(month_length(2024, 2), 29);
    assert_eq!(month_length(2023, 2), 28);
    assert_eq!(month_length(2023, 4), 30);
    assert_eq!(month_length(2023, 12), 31);
}
