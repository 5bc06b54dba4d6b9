use calgrid::date::{
    add_days, day_number, leap_year, month_length_of, month_year_of, pred, succ, sub_days, today,
    weekday, Date,
};

fn d(y: u16, m: u8, day: u8) -> Date {
    Date::new(y, m, day)
}

#[test]
fn leap_years() {
    assert!(leap_year(2000));
    assert!(leap_year(2024));
    assert!(leap_year(2020));
    assert!(!leap_year(1900));
    assert!(!leap_year(2021));
    assert!(!leap_year(9999));
}

#[test]
fn month_lengths() {
    assert_eq!(month_length_of(2021, 1), 31);
    assert_eq!(month_length_of(2021, 2), 28);
    assert_eq!(month_length_of(2020, 2), 29);
    assert_eq!(month_length_of(1900, 2), 28);
    assert_eq!(month_length_of(2000, 2), 29);
    assert_eq!(month_length_of(2021, 4), 30);
    assert_eq!(month_length_of(2021, 12), 31);
}

#[test]
fn weekdays_match_chrono() {
    let cases = [
        (2021u16, 1u8, 1u8),
        (2021, 3, 1),
        (2000, 1, 1),
        (1970, 1, 1),
        (2024, 2, 29),
        (1999, 12, 31),
        (2100, 3, 15),
        (1582, 10, 4),
        (1, 1, 1),
    ];
    for &(y, m, day) in cases.iter() {
        let ours = weekday(&d(y, m, day));
        let chron = chrono::NaiveDate::from_ymd_opt(y as i32, m as u32, day as u32)
            .unwrap()
            .format("%w")
            .to_string();
        assert_eq!(ours.to_string(), chron, "weekday mismatch at {}-{}-{}", y, m, day);
    }
}

#[test]
fn successor_steps() {
    assert_eq!(succ(&d(2021, 1, 31)), d(2021, 2, 1));
    assert_eq!(succ(&d(2021, 12, 31)), d(2022, 1, 1));
    assert_eq!(succ(&d(2020, 2, 28)), d(2020, 2, 29));
    assert_eq!(succ(&d(2021, 2, 28)), d(2021, 3, 1));
    assert_eq!(pred(&d(2022, 1, 1)), d(2021, 12, 31));
    assert_eq!(pred(&d(2021, 3, 1)), d(2021, 2, 28));
}

#[test]
fn day_numbers_are_consecutive() {
    let a = day_number(&d(2021, 2, 28));
    let b = day_number(&succ(&d(2021, 2, 28)));
    assert_eq!(b, a + 1);
    assert_eq!(day_number(&d(1, 1, 1)), 0);
    assert_eq!(day_number(&d(1, 1, 2)), 1);
    assert_eq!(day_number(&d(2, 1, 1)), 365);
}

#[test]
fn adding_and_subtracting_days() {
    assert_eq!(add_days(&d(2021, 1, 1), 31), d(2021, 2, 1));
    assert_eq!(sub_days(&d(2021, 1, 1), 1), d(2020, 12, 31));
    // Clamped at the supported range.
    assert_eq!(sub_days(&d(1, 1, 3), 10), Date::min());
    assert_eq!(add_days(&d(9999, 12, 30), 10), Date::max());
}

#[test]
fn month_header_text() {
    assert_eq!(month_year_of(&d(2021, 1, 1)), "January 2021");
    assert_eq!(month_year_of(&d(1999, 12, 25)), "December 1999");
    assert_eq!(month_year_of(&d(800, 6, 1)), "June 0800");
}

#[test]
fn today_is_a_valid_date() {
    let t = today();
    assert!(t.month >= 1 && t.month <= 12);
    assert!(t.day >= 1 && t.day <= month_length_of(t.year, t.month));
    let now = chrono::Datelike::year(&chrono::Local::now().date_naive());
    assert_eq!(t.year as i32, now);
}
