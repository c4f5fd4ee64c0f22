use task_intent::dates::Date;
use task_intent::digest::{
    build_context, format_date_range, truncate_context, NoteRecord, TaskRecord,
};

fn d(y: u32, m: u32, day: u32) -> Date {
    Date::new(y, m, day)
}

#[test]
fn empty_store_renders_fixed_sentence() {
    let out = build_context(&Vec::new(), &Vec::new());
    assert_eq!(out, "등록된 업무나 노트가 없습니다.");
}

#[test]
fn task_line_format() {
    let tasks = vec![TaskRecord {
        title: "보고서".to_string(),
        status: "todo".to_string(),
        priority: "high".to_string(),
        tags: vec!["work".to_string(), "q4".to_string()],
        start_date: Some(d(2024, 12, 1)),
        end_date: Some(d(2024, 12, 5)),
    }];
    let out = build_context(&tasks, &Vec::new());
    assert_eq!(out, "업무: - [todo][high][2024-12-01~2024-12-05] 보고서 #work #q4");
}

#[test]
fn single_date_renders_as_deadline() {
    let tasks = vec![TaskRecord {
        title: "회의".to_string(),
        status: "doing".to_string(),
        priority: "medium".to_string(),
        tags: Vec::new(),
        start_date: Some(d(2024, 12, 1)),
        end_date: Some(d(2024, 12, 1)),
    }];
    let out = build_context(&tasks, &Vec::new());
    assert_eq!(out, "업무: - [doing][medium][마감 2024-12-01] 회의");
}

#[test]
fn dateless_task_says_so() {
    let tasks = vec![TaskRecord {
        title: "정리".to_string(),
        status: "todo".to_string(),
        priority: "low".to_string(),
        tags: Vec::new(),
        start_date: None,
        end_date: None,
    }];
    let out = build_context(&tasks, &Vec::new());
    assert_eq!(out, "업무: - [todo][low][마감 없음] 정리");
}

#[test]
fn sections_and_separators() {
    let tasks = vec![
        TaskRecord {
            title: "a".to_string(),
            status: "todo".to_string(),
            priority: "low".to_string(),
            tags: Vec::new(),
            start_date: None,
            end_date: None,
        },
        TaskRecord {
            title: "b".to_string(),
            status: "done".to_string(),
            priority: "high".to_string(),
            tags: Vec::new(),
            start_date: None,
            end_date: None,
        },
    ];
    let notes = vec![
        NoteRecord { title: "n1".to_string(), tags: vec!["x".to_string()] },
        NoteRecord { title: "n2".to_string(), tags: Vec::new() },
    ];
    let out = build_context(&tasks, &notes);
    assert_eq!(
        out,
        "업무: - [todo][low][마감 없음] a | - [done][high][마감 없음] b ; 노트: - n1 #x | - n2"
    );
}

#[test]
fn notes_alone() {
    let notes = vec![NoteRecord { title: "메모".to_string(), tags: Vec::new() }];
    let out = build_context(&Vec::new(), &notes);
    assert_eq!(out, "노트: - 메모");
}

#[test]
fn truncation_is_exact_and_prefixing() {
    let long: String = "가".repeat(4100);
    let out = truncate_context(&long);
    assert_eq!(out.chars().count(), 4003);
    let kept: String = long.chars().take(4000).collect();
    assert!(out.starts_with(&kept));
    assert!(out.ends_with("..."));
}

#[test]
fn short_input_is_untouched() {
    let short: String = "나".repeat(4000);
    let out = truncate_context(&short);
    assert_eq!(out, short);
    assert_eq!(truncate_context(""), "");
}

#[test]
fn date_range_labels() {
    assert_eq!(
        format_date_range(&Some(d(2024, 12, 1)), &Some(d(2024, 12, 1))),
        " (마감 2024-12-01)"
    );
    assert_eq!(
        format_date_range(&Some(d(2024, 12, 1)), &Some(d(2024, 12, 5))),
        " (2024-12-01 ~ 2024-12-05)"
    );
    assert_eq!(format_date_range(&Some(d(2024, 12, 1)), &None), " (마감 2024-12-01)");
    assert_eq!(format_date_range(&None, &None), "");
    assert_eq!(format_date_range(&Some(d(987, 6, 5)), &None), " (마감 0987-06-05)");
}
