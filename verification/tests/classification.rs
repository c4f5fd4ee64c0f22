use task_intent::classify::{classify, is_brief_request, is_task_create_request, IntentKind};

#[test]
fn create_verb_wins() {
    assert!(is_task_create_request("업무 등록: 회의 준비 2024-12-01"));
    assert!(is_task_create_request("추가 장보기"));
    assert!(is_task_create_request("회의 생성"));
    assert!(is_task_create_request("보고서 만들어줘"));
}

#[test]
fn explicit_phrases_with_task_noun() {
    assert!(is_task_create_request("task: buy milk"));
    assert!(is_task_create_request("TASK: buy milk"));
    assert!(is_task_create_request("add task call mom"));
    assert!(is_task_create_request("please create task report"));
}

#[test]
fn phrase_without_task_noun_is_not_creation() {
    // A creation phrase alone is not enough without a verb or a task noun.
    assert!(!is_task_create_request("hello world"));
    assert!(!is_task_create_request("무엇을 할까"));
}

#[test]
fn note_mention_blocks_creation() {
    // A note word without a task noun is never task creation, verb or not.
    assert!(!is_task_create_request("노트 등록"));
    assert!(!is_task_create_request("메모 추가해줘"));
    // With a task noun back in, the guard does not fire.
    assert!(is_task_create_request("노트 말고 업무 등록"));
}

#[test]
fn brief_keywords() {
    assert!(is_brief_request("오늘 브리핑"));
    assert!(is_brief_request("업무 요약 부탁"));
    assert!(is_brief_request("정리 좀"));
    assert!(is_brief_request("우선순위 알려줘"));
    assert!(is_brief_request("brief me"));
    assert!(is_brief_request("weekly summary"));
    assert!(is_brief_request("what are my priorities"));
    assert!(!is_brief_request("점심 뭐 먹지"));
}

#[test]
fn classification_is_total_and_ordered() {
    assert_eq!(classify("업무 등록: 회의"), IntentKind::CreateTask);
    assert_eq!(classify("오늘 브리핑"), IntentKind::Brief);
    assert_eq!(classify("안녕"), IntentKind::Unsupported);
    assert_eq!(classify(""), IntentKind::Unsupported);
    // Creation outranks briefing when both could match.
    assert_eq!(classify("업무 등록하고 요약"), IntentKind::CreateTask);
}

#[test]
fn note_guard_falls_through_to_brief() {
    // The note guard only blocks creation; briefing keywords still win.
    assert_eq!(classify("메모 등록 정리"), IntentKind::Brief);
    assert_eq!(classify("메모 등록"), IntentKind::Unsupported);
}
