use task_intent::api::{
    bearer_token, note_create_check, page_window, split_origins, task_create_dates,
    task_update_dates,
};
use task_intent::dates::Date;

fn d(y: u32, m: u32, day: u32) -> Date {
    Date::new(y, m, day)
}

#[test]
fn bearer_token_extraction() {
    assert_eq!(bearer_token("Bearer abc.def"), Some("abc.def".to_string()));
    assert_eq!(bearer_token("Bearer   spaced  "), Some("spaced".to_string()));
    assert_eq!(bearer_token("Bearer Bearer twice"), Some("twice".to_string()));
    assert_eq!(bearer_token("Token abc"), None);
    assert_eq!(bearer_token(""), None);
    assert_eq!(bearer_token("bearer abc"), None);
}

#[test]
fn paging_defaults_and_clamps() {
    assert_eq!(page_window(None, None), (1, 20, 0));
    assert_eq!(page_window(Some(3), Some(50)), (3, 50, 100));
    assert_eq!(page_window(Some(0), Some(1000)), (1, 100, 0));
    assert_eq!(page_window(Some(-5), Some(-1)), (1, 1, 0));
    assert_eq!(page_window(Some(i64::MAX), Some(100)), (i64::MAX, 100, i64::MAX));
}

#[test]
fn origin_splitting() {
    assert_eq!(
        split_origins("http://a.example, http://b.example ,,  "),
        vec!["http://a.example".to_string(), "http://b.example".to_string()]
    );
    assert_eq!(split_origins(""), Vec::<String>::new());
    assert_eq!(split_origins(" , , "), Vec::<String>::new());
    assert_eq!(split_origins("*"), vec!["*".to_string()]);
}

#[test]
fn note_payload_validation() {
    assert_eq!(note_create_check("  ", "body"), None);
    assert_eq!(note_create_check("title", "   "), None);
    assert_eq!(
        note_create_check(" 제목 ", " 내용 "),
        Some(("제목".to_string(), "내용".to_string()))
    );
}

#[test]
fn task_creation_date_defaults() {
    let due = Some(d(2024, 12, 5));
    assert_eq!(task_create_dates(None, None, due), (due, due, due));
    let s = Some(d(2024, 12, 1));
    assert_eq!(task_create_dates(s, None, due), (s, due, due));
    assert_eq!(task_create_dates(None, None, None), (None, None, None));
    let e = Some(d(2024, 12, 9));
    assert_eq!(task_create_dates(s, e, None), (s, e, e));
}

#[test]
fn task_update_date_defaults() {
    let s = Some(d(2024, 12, 1));
    let e = Some(d(2024, 12, 9));
    assert_eq!(task_update_dates(s, None, None), (s, s, s));
    assert_eq!(task_update_dates(None, e, None), (e, e, e));
    assert_eq!(task_update_dates(s, e, None), (s, e, e));
    assert_eq!(task_update_dates(None, None, None), (None, None, None));
}
