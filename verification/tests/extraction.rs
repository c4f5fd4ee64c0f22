use task_intent::dates::Date;
use task_intent::extract::{extract_first_date, extract_title_and_range};

fn d(y: u32, m: u32, day: u32) -> Date {
    Date::new(y, m, day)
}

#[test]
fn explicit_date_becomes_both_bounds() {
    let today = d(2025, 6, 15);
    let (title, start, end) = extract_title_and_range("업무 등록: 회의 준비 2024-12-01", &today);
    assert_eq!(title, "회의 준비");
    assert_eq!(start, Some(d(2024, 12, 1)));
    assert_eq!(end, Some(d(2024, 12, 1)));
}

#[test]
fn separator_range() {
    let today = d(2025, 6, 15);
    let (title, start, end) = extract_title_and_range("2024-12-01 ~ 2024-12-05 휴가", &today);
    assert_eq!(title, "휴가");
    assert_eq!(start, Some(d(2024, 12, 1)));
    assert_eq!(end, Some(d(2024, 12, 5)));
}

#[test]
fn today_keyword_seeds_both_bounds() {
    let today = d(2024, 12, 2);
    let (title, start, end) = extract_title_and_range("오늘 일정 등록: 점심 약속", &today);
    assert_eq!(title, "점심 약속");
    assert_eq!(start, Some(today));
    assert_eq!(end, Some(today));
}

#[test]
fn tomorrow_rolls_over_year_end() {
    let today = d(2024, 12, 31);
    let (_, start, end) = extract_title_and_range("내일 일정 등록: 새해 준비", &today);
    assert_eq!(start, Some(d(2025, 1, 1)));
    assert_eq!(end, Some(d(2025, 1, 1)));
}

#[test]
fn this_week_is_monday_aligned() {
    // 2024-12-04 was a Wednesday.
    let today = d(2024, 12, 4);
    let (title, start, end) = extract_title_and_range("이번주 업무 등록: 보고서", &today);
    assert_eq!(title, "보고서");
    assert_eq!(start, Some(d(2024, 12, 2)));
    assert_eq!(end, Some(d(2024, 12, 8)));
}

#[test]
fn next_week_is_the_following_monday_span() {
    let today = d(2024, 12, 4);
    let (_, start, end) = extract_title_and_range("다음주 업무 등록: 출장", &today);
    assert_eq!(start, Some(d(2024, 12, 9)));
    assert_eq!(end, Some(d(2024, 12, 15)));
}

#[test]
fn this_month_spans_the_calendar_month() {
    let today = d(2024, 12, 15);
    let (_, start, end) = extract_title_and_range("이번달 업무 등록: 결산", &today);
    assert_eq!(start, Some(d(2024, 12, 1)));
    assert_eq!(end, Some(d(2024, 12, 31)));
}

#[test]
fn next_month_rolls_over_december() {
    let today = d(2024, 12, 15);
    let (_, start, end) = extract_title_and_range("다음달 업무 등록: 계획", &today);
    assert_eq!(start, Some(d(2025, 1, 1)));
    assert_eq!(end, Some(d(2025, 1, 31)));
}

#[test]
fn next_month_in_february_of_leap_year() {
    let today = d(2024, 1, 20);
    let (_, start, end) = extract_title_and_range("다음달 일정 등록: 점검", &today);
    assert_eq!(start, Some(d(2024, 2, 1)));
    assert_eq!(end, Some(d(2024, 2, 29)));
}

#[test]
fn keyword_outranks_explicit_date() {
    let today = d(2024, 12, 2);
    let (_, start, end) = extract_title_and_range("오늘 업무 등록: 회의 2024-12-25", &today);
    assert_eq!(start, Some(today));
    assert_eq!(end, Some(today));
}

#[test]
fn lone_date_next_to_separator_is_replicated() {
    let today = d(2025, 6, 15);
    let (title, start, end) = extract_title_and_range("2024-12-01 ~ 휴식", &today);
    assert_eq!(title, "휴식");
    assert_eq!(start, Some(d(2024, 12, 1)));
    assert_eq!(end, Some(d(2024, 12, 1)));
}

#[test]
fn malformed_dates_stay_in_the_title() {
    let today = d(2025, 6, 15);
    let (title, start, end) = extract_title_and_range("업무 등록: 점검 2024-13-01", &today);
    assert_eq!(title, "점검 2024-13-01");
    assert_eq!(start, None);
    assert_eq!(end, None);
    let (title2, s2, e2) = extract_title_and_range("업무 등록: 점검 2024-02-30", &today);
    assert_eq!(title2, "점검 2024-02-30");
    assert_eq!(s2, None);
    assert_eq!(e2, None);
}

#[test]
fn dates_beyond_the_first_two_are_title_tokens() {
    let today = d(2025, 6, 15);
    let (title, start, end) = extract_title_and_range(
        "등록 2024-01-01 2024-01-02 2024-01-03",
        &today,
    );
    assert_eq!(title, "2024-01-03");
    assert_eq!(start, Some(d(2024, 1, 1)));
    assert_eq!(end, Some(d(2024, 1, 2)));
}

#[test]
fn empty_title_when_only_keywords() {
    let today = d(2025, 6, 15);
    let (title, start, end) = extract_title_and_range("업무 등록", &today);
    assert_eq!(title, "");
    assert_eq!(start, None);
    assert_eq!(end, None);
}

#[test]
fn bounds_are_both_or_neither() {
    let today = d(2025, 6, 15);
    for msg in [
        "업무 등록: 회의",
        "업무 등록: 회의 2024-12-01",
        "2024-12-01 ~ 2024-12-05 휴가",
        "abc ~ def",
        "오늘 일정 등록: 점심",
    ] {
        let (_, start, end) = extract_title_and_range(msg, &today);
        assert_eq!(start.is_some(), end.is_some());
    }
}

#[test]
fn extraction_is_idempotent_on_the_title() {
    let today = d(2025, 6, 15);
    let (title, _, _) = extract_title_and_range("업무 등록: 회의 준비 2024-12-01", &today);
    let (title2, s2, e2) = extract_title_and_range(&title, &today);
    assert_eq!(title2, title);
    assert_eq!(s2, None);
    assert_eq!(e2, None);
}

#[test]
fn separator_without_dates_resolves_nothing() {
    let today = d(2025, 6, 15);
    let (title, start, end) = extract_title_and_range("abc ~ def", &today);
    assert_eq!(title, "abc def");
    assert_eq!(start, None);
    assert_eq!(end, None);
}

#[test]
fn keyword_precedence_is_first_match() {
    let today = d(2024, 12, 4);
    // `오늘` is tried before `내일`.
    let (_, start, end) = extract_title_and_range("오늘 내일 등록 준비", &today);
    assert_eq!(start, Some(today));
    assert_eq!(end, Some(today));
}

#[test]
fn date_hidden_beside_separator_is_found_in_the_half() {
    let today = d(2025, 6, 15);
    // The date sits inside a separator token, so only the half-split sees it.
    let (title, start, end) = extract_title_and_range("등록 2024-12-01~ 휴가", &today);
    assert_eq!(title, "휴가");
    assert_eq!(start, Some(d(2024, 12, 1)));
    assert_eq!(end, Some(d(2024, 12, 1)));
}

#[test]
fn first_date_scans_tokens_in_order() {
    assert_eq!(extract_first_date("자리 2024-12-01 뒤 2024-12-05"), Some(d(2024, 12, 1)));
    assert_eq!(extract_first_date("아무 날짜 없음"), None);
    assert_eq!(extract_first_date("2024-12-1"), None);
    assert_eq!(extract_first_date("0000-01-01"), Some(d(0, 1, 1)));
}
