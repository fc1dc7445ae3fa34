use webserver::date::{write_day, write_padded};

#[test]
fn day_is_written_in_ten_characters() {
    assert_eq!(write_day(2024, 2, 29), "2024-02-29");
    assert_eq!(write_day(1970, 1, 1), "1970-01-01");
    assert_eq!(write_day(1999, 12, 31), "1999-12-31");
    assert_eq!(write_day(9999, 10, 9), "9999-10-09");
}

#[test]
fn early_and_late_years_are_padded_and_signed() {
    assert_eq!(write_day(0, 1, 1), "0000-01-01");
    assert_eq!(write_day(7, 3, 4), "0007-03-04");
    assert_eq!(write_day(999, 11, 30), "0999-11-30");
    assert_eq!(write_day(10000, 1, 1), "+10000-01-01");
    assert_eq!(write_day(262142, 12, 31), "+262142-12-31");
    assert_eq!(write_day(-1, 5, 6), "-0001-05-06");
    assert_eq!(write_day(-12345, 5, 6), "-12345-05-06");
    assert_eq!(write_day(i32::MIN, 1, 1), "-2147483648-01-01");
    assert_eq!(write_day(i32::MAX, 1, 1), "+2147483647-01-01");
}

#[test]
fn day_is_written_as_chrono_formats_it() {
    for year in [-262143, -10000, -9999, -1000, -999, -1, 0, 1, 9, 10, 99, 100, 999, 1000, 1969, 1970, 2000, 2024, 9999, 10000, 99999, 262142] {
        for (month, day) in [(1, 1), (2, 28), (9, 9), (10, 10), (12, 31)] {
            let date = chrono::NaiveDate::from_ymd_opt(year, month, day).unwrap();
            assert_eq!(write_day(year, month, day), date.format("%Y-%m-%d").to_string());
        }
    }
}

#[test]
fn padded_numbers_have_zeros_in_front() {
    assert_eq!(write_padded(0, 0), "0");
    assert_eq!(write_padded(0, 1), "0");
    assert_eq!(write_padded(0, 3), "000");
    assert_eq!(write_padded(7, 2), "07");
    assert_eq!(write_padded(42, 2), "42");
    assert_eq!(write_padded(123, 2), "123");
    assert_eq!(write_padded(5, 6), "000005");
}
