use task_intent::dates::{
    add_days, date_to_chars, day_index, days_from_monday, leap_year, month_length, parse_iso_date,
    pred_date, sub_days, succ_date, Date,
};

fn d(y: u32, m: u32, day: u32) -> Date {
    Date::new(y, m, day)
}

#[test]
fn leap_year_rules() {
    assert!(leap_year(2024));
    assert!(!leap_year(2023));
    assert!(!leap_year(1900));
    assert!(leap_year(2000));
}

#[test]
fn month_lengths() {
    assert_eq!(month_length(2024, 2), 29);
    assert_eq!(month_length(2023, 2), 28);
    assert_eq!(month_length(2024, 11), 30);
    assert_eq!(month_length(2024, 12), 31);
}

#[test]
fn successor_and_predecessor() {
    assert_eq!(succ_date(&d(2024, 12, 31)), d(2025, 1, 1));
    assert_eq!(succ_date(&d(2024, 2, 28)), d(2024, 2, 29));
    assert_eq!(succ_date(&d(2023, 2, 28)), d(2023, 3, 1));
    assert_eq!(pred_date(&d(2025, 1, 1)), d(2024, 12, 31));
    assert_eq!(pred_date(&d(2024, 3, 1)), d(2024, 2, 29));
}

#[test]
fn day_arithmetic() {
    assert_eq!(add_days(&d(2024, 12, 28), 7), d(2025, 1, 4));
    assert_eq!(sub_days(&d(2025, 1, 4), 7), d(2024, 12, 28));
    assert_eq!(add_days(&d(2024, 2, 27), 3), d(2024, 3, 1));
}

#[test]
fn weekday_is_monday_based() {
    // 2024-12-02 was a Monday.
    assert_eq!(days_from_monday(&d(2024, 12, 2)), 0);
    assert_eq!(days_from_monday(&d(2024, 12, 4)), 2);
    assert_eq!(days_from_monday(&d(2024, 12, 8)), 6);
    // 2000-01-01 was a Saturday.
    assert_eq!(days_from_monday(&d(2000, 1, 1)), 5);
}

#[test]
fn day_number_anchors() {
    assert_eq!(day_index(&d(0, 1, 1)), 0);
    assert_eq!(day_index(&d(0, 12, 31)), 365);
    assert_eq!(day_index(&d(1, 1, 1)), 366);
    // 730485 days separate 0000-01-01 and 2000-01-01; both were Saturdays.
    assert_eq!(day_index(&d(2000, 1, 1)), 730485);
    assert_eq!(day_index(&d(2000, 1, 1)) % 7, 0);
}

#[test]
fn day_numbers_are_consecutive() {
    let a = day_index(&d(2024, 2, 28));
    let b = day_index(&d(2024, 2, 29));
    let c = day_index(&d(2024, 3, 1));
    assert_eq!(b, a + 1);
    assert_eq!(c, b + 1);
}

#[test]
fn rendering_is_zero_padded() {
    let v = date_to_chars(&d(2024, 12, 1));
    let s: String = v.into_iter().collect();
    assert_eq!(s, "2024-12-01");
    let v2 = date_to_chars(&d(7, 1, 31));
    let s2: String = v2.into_iter().collect();
    assert_eq!(s2, "0007-01-31");
}

#[test]
fn parsing_accepts_only_the_exact_shape() {
    let ok: Vec<char> = "2024-12-01".chars().collect();
    assert_eq!(parse_iso_date(&ok), Some(d(2024, 12, 1)));
    for bad in ["2024-12-1", "2024/12/01", "2024-13-01", "2024-00-10", "2024-02-30", "24-12-01",
        "2024-12-01x", ""] {
        let v: Vec<char> = bad.chars().collect();
        assert_eq!(parse_iso_date(&v), None, "{bad}");
    }
}

#[test]
fn parse_render_round_trip() {
    for date in [d(2024, 2, 29), d(0, 1, 1), d(9999, 12, 31), d(1987, 6, 5)] {
        let v = date_to_chars(&date);
        assert_eq!(parse_iso_date(&v), Some(date));
    }
}
