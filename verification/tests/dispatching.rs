use task_intent::dates::Date;
use task_intent::dispatch::{
    brief_system_prompt, creation_reply, first_step, gateway_failure_reply, intent_of,
    persistence_failure_reply, reply_from_model, transport_failure_reply, Action, Intent,
};

fn d(y: u32, m: u32, day: u32) -> Date {
    Date::new(y, m, day)
}

#[test]
fn creation_flows_into_an_insertion() {
    let today = d(2024, 12, 2);
    match first_step("업무 등록: 회의 준비 2024-12-01", &today) {
        Action::InsertTask { title, start_date, end_date } => {
            assert_eq!(title, "회의 준비");
            assert_eq!(start_date, Some(d(2024, 12, 1)));
            assert_eq!(end_date, Some(d(2024, 12, 1)));
        },
        _ => panic!("expected an insertion"),
    }
}

#[test]
fn empty_title_asks_for_one() {
    let today = d(2024, 12, 2);
    match first_step("업무 등록", &today) {
        Action::Respond(s) => {
            assert_eq!(s, "업무 제목을 알려주세요. 예) \"업무 등록: 회의 준비 2024-12-01\"");
        },
        _ => panic!("expected a fixed reply, no insertion"),
    }
}

#[test]
fn briefing_requests_the_brief_flow() {
    let today = d(2024, 12, 2);
    assert!(matches!(first_step("오늘 브리핑", &today), Action::RequestBrief));
}

#[test]
fn unsupported_gets_the_usage_hint() {
    let today = d(2024, 12, 2);
    match first_step("날씨 알려줘", &today) {
        Action::Respond(s) => {
            assert_eq!(
                s,
                "저는 업무 등록과 브리핑만 도와드려요. 예) \"업무 등록: 회의 준비 2024-12-01\" 또는 \"오늘 브리핑\""
            );
        },
        _ => panic!("expected the usage hint"),
    }
}

#[test]
fn intent_carries_extraction() {
    let today = d(2024, 12, 2);
    match intent_of("오늘 일정 등록: 점심 약속", &today) {
        Intent::CreateTask { title, start_date, end_date } => {
            assert_eq!(title, "점심 약속");
            assert_eq!(start_date, Some(today));
            assert_eq!(end_date, Some(today));
        },
        _ => panic!("expected a creation intent"),
    }
    assert!(matches!(intent_of("요약 좀", &today), Intent::Brief));
    assert!(matches!(intent_of("abc", &today), Intent::Unsupported));
}

#[test]
fn confirmation_reply() {
    let r = creation_reply("회의 준비", &Some(d(2024, 12, 1)), &Some(d(2024, 12, 1)));
    assert_eq!(r, "업무가 등록됐어요: 회의 준비 (마감 2024-12-01)");
    let r2 = creation_reply("휴가", &Some(d(2024, 12, 1)), &Some(d(2024, 12, 5)));
    assert_eq!(r2, "업무가 등록됐어요: 휴가 (2024-12-01 ~ 2024-12-05)");
    let r3 = creation_reply("무기한", &None, &None);
    assert_eq!(r3, "업무가 등록됐어요: 무기한");
}

#[test]
fn persistence_failure_is_generic() {
    assert_eq!(persistence_failure_reply(), "db 오류");
}

#[test]
fn system_prompt_embeds_the_digest() {
    let p = brief_system_prompt("등록된 업무나 노트가 없습니다.");
    assert!(p.starts_with("당신은 데일리 업무 비서입니다."));
    assert!(p.ends_with("컨텍스트: 등록된 업무나 노트가 없습니다."));
}

#[test]
fn model_reply_selection() {
    assert_eq!(
        reply_from_model(Some("내용".to_string()), Some("대안".to_string())),
        "내용"
    );
    assert_eq!(reply_from_model(None, Some("대안".to_string())), "대안");
    assert_eq!(reply_from_model(None, None), "모델 응답이 비어 있습니다.");
}

#[test]
fn gateway_failure_names_status_and_body() {
    let r = gateway_failure_reply(500, "internal error");
    assert_eq!(r, "모델 호출 실패 (500): internal error");
    assert!(r.contains("500"));
    let r2 = gateway_failure_reply(404, "");
    assert_eq!(r2, "모델 호출 실패 (404): ");
}

#[test]
fn transport_failure_names_the_error() {
    let r = transport_failure_reply("connection refused");
    assert_eq!(r, "모델 서버 오류: connection refused (ollama 실행 여부 확인)");
}
