use vstd::prelude::*;

verus! {

use crate::dates::{Date, digit_char};
use crate::classify::{IntentKind, classify, classify_spec};
use crate::extract::{extract_title_and_range, extract_post, title_spec};
use crate::text::{chars_vec, push_all, string_of};
use crate::digest::{date_range_label, format_date_range};

/// A classified utterance: a creation request with what was extracted
/// from it, a briefing request, or something this assistant cannot do.
pub enum Intent {
    CreateTask { title: String, start_date: Option<Date>, end_date: Option<Date> },
    Brief,
    Unsupported,
}

/// Classifies an utterance and, for task creation, extracts its title
/// and date range in one pass.
pub fn intent_of(message: &str, today: &Date) -> (r: Intent)
    requires
        today.valid(),
        1 <= today.year <= 9998,
    ensures
        classify_spec(message@) is CreateTask ==> (r matches Intent::CreateTask {
            title,
            start_date,
            end_date,
        } && extract_post(message@, *today, title@, start_date, end_date)),
        classify_spec(message@) is Brief ==> r is Brief,
        classify_spec(message@) is Unsupported ==> r is Unsupported,
{
    match classify(message) {
        IntentKind::CreateTask => {
            let (title, start_date, end_date) = extract_title_and_range(message, today);
            Intent::CreateTask { title, start_date, end_date }
        },
        IntentKind::Brief => Intent::Brief,
        IntentKind::Unsupported => Intent::Unsupported,
    }
}

/// What the dispatcher decides to do first with an utterance: answer at
/// once, ask the store to insert a task, or assemble a briefing.
pub enum Action {
    Respond(String),
    InsertTask { title: String, start_date: Option<Date>, end_date: Option<Date> },
    RequestBrief,
}

pub open spec fn usage_reply_seq() -> Seq<char> {
    "저는 업무 등록과 브리핑만 도와드려요. 예) \"업무 등록: 회의 준비 2024-12-01\" 또는 \"오늘 브리핑\""@
}

pub open spec fn missing_title_seq() -> Seq<char> {
    "업무 제목을 알려주세요. 예) \"업무 등록: 회의 준비 2024-12-01\""@
}

/// The single dispatch step: an unsupported message gets the usage hint,
/// a creation request without a title gets the fixed prompt for one, a
/// titled creation request becomes an insertion, and a briefing request
/// asks for the briefing flow.
pub fn first_step(message: &str, today: &Date) -> (a: Action)
    requires
        today.valid(),
        1 <= today.year <= 9998,
    ensures
        classify_spec(message@) is CreateTask && title_spec(message@).len() == 0 ==> (a
            matches Action::Respond(s) && s@ == missing_title_seq()),
        classify_spec(message@) is CreateTask && title_spec(message@).len() > 0 ==> (a
            matches Action::InsertTask { title, start_date, end_date } && extract_post(
            message@,
            *today,
            title@,
            start_date,
            end_date,
        )),
        classify_spec(message@) is Brief ==> a is RequestBrief,
        classify_spec(message@) is Unsupported ==> (a matches Action::Respond(s) && s@
            == usage_reply_seq()),
{
    match intent_of(message, today) {
        Intent::CreateTask { title, start_date, end_date } => {
            if title.as_str().is_empty() {
                let m = chars_vec("업무 제목을 알려주세요. 예) \"업무 등록: 회의 준비 2024-12-01\"");
                Action::Respond(string_of(&m))
            } else {
                Action::InsertTask { title, start_date, end_date }
            }
        },
        Intent::Brief => Action::RequestBrief,
        Intent::Unsupported => {
            let m = chars_vec(
                "저는 업무 등록과 브리핑만 도와드려요. 예) \"업무 등록: 회의 준비 2024-12-01\" 또는 \"오늘 브리핑\"",
            );
            Action::Respond(string_of(&m))
        },
    }
}

/// The confirmation after a task was stored: the stored title and its
/// date or range.
pub open spec fn creation_reply_seq(title: Seq<char>, s: Option<Date>, e: Option<Date>) -> Seq<
    char,
> {
    "업무가 등록됐어요: "@ + title + date_range_label(s, e)
}

/// Renders the confirmation for a stored task.
pub fn creation_reply(title: &str, start: &Option<Date>, end: &Option<Date>) -> (r: String)
    requires
        start is Some ==> start->0.valid(),
        end is Some ==> end->0.valid(),
    ensures
        r@ == creation_reply_seq(title@, *start, *end),
{
    let mut out = chars_vec("업무가 등록됐어요: ");
    let t = chars_vec(title);
    push_all(&mut out, &t);
    let label = format_date_range(start, end);
    let lc = chars_vec(label.as_str());
    push_all(&mut out, &lc);
    proof {
        assert(out@ =~= creation_reply_seq(title@, *start, *end));
    }
    string_of(&out)
}

/// The reply when the store refused the insertion; it leaks no detail.
pub fn persistence_failure_reply() -> (r: String)
    ensures
        r@ == "db 오류"@,
{
    let m = chars_vec("db 오류");
    string_of(&m)
}

pub open spec fn brief_prompt_prefix() -> Seq<char> {
    "당신은 데일리 업무 비서입니다. 브리핑/요약만 처리합니다. 간결한 불릿 포인트로 답하세요. 마감일이 없으면 \"마감 없음\"이라고 표기하세요. 제공된 컨텍스트만 사용하세요.\n컨텍스트: "@
}

/// The system prompt handed to the model gateway: the fixed briefing
/// instructions with the rendered context appended.
pub fn brief_system_prompt(context: &str) -> (r: String)
    ensures
        r@ == brief_prompt_prefix() + context@,
{
    let mut out = chars_vec(
        "당신은 데일리 업무 비서입니다. 브리핑/요약만 처리합니다. 간결한 불릿 포인트로 답하세요. 마감일이 없으면 \"마감 없음\"이라고 표기하세요. 제공된 컨텍스트만 사용하세요.\n컨텍스트: ",
    );
    let c = chars_vec(context);
    push_all(&mut out, &c);
    string_of(&out)
}

pub open spec fn empty_model_reply_seq() -> Seq<char> {
    "모델 응답이 비어 있습니다."@
}

/// Picks the reply out of what the gateway answered: the primary message
/// content, else the named fallback field, else the fixed empty-response
/// sentence. A caller that could not parse the response at all passes
/// two empty sides.
pub fn reply_from_model(content: Option<String>, fallback: Option<String>) -> (r: String)
    ensures
        content is Some ==> r == content->0,
        content is None && fallback is Some ==> r == fallback->0,
        content is None && fallback is None ==> r@ == empty_model_reply_seq(),
{
    match content {
        Some(c) => c,
        None => match fallback {
            Some(f) => f,
            None => {
                let m = chars_vec("모델 응답이 비어 있습니다.");
                string_of(&m)
            },
        },
    }
}

/// The decimal digits of `n`, most significant first.
pub open spec fn dec_digits(n: int) -> Seq<char>
    decreases n,
{
    if n < 10 {
        seq![digit_char(if n >= 0 {
            n
        } else {
            0
        })]
    } else {
        dec_digits(n / 10) + seq![digit_char(n % 10)]
    }
}

fn push_decimal(out: &mut Vec<char>, n: u16)
    ensures
        final(out)@ == old(out)@ + dec_digits(n as int),
    decreases n,
{
    if n < 10 {
        out.push((48 + n as u8) as char);
        proof {
            assert(out@ =~= old(out)@ + dec_digits(n as int));
        }
    } else {
        push_decimal(out, n / 10);
        out.push((48 + (n % 10) as u8) as char);
        proof {
            assert(out@ =~= old(out)@ + dec_digits(n as int));
        }
    }
}

/// The reply when the gateway answered with a failure status: the fixed
/// diagnostic with the numeric status and the body the gateway sent.
pub open spec fn gateway_failure_seq(status: int, body: Seq<char>) -> Seq<char> {
    "모델 호출 실패 ("@ + dec_digits(status) + "): "@ + body
}

pub fn gateway_failure_reply(status: u16, body: &str) -> (r: String)
    ensures
        r@ == gateway_failure_seq(status as int, body@),
{
    let mut out = chars_vec("모델 호출 실패 (");
    push_decimal(&mut out, status);
    let mid = chars_vec("): ");
    push_all(&mut out, &mid);
    let b = chars_vec(body);
    push_all(&mut out, &b);
    proof {
        assert(out@ =~= gateway_failure_seq(status as int, body@));
    }
    string_of(&out)
}

/// The reply when the gateway could not be reached at all.
pub open spec fn transport_failure_seq(err: Seq<char>) -> Seq<char> {
    "모델 서버 오류: "@ + err + " (ollama 실행 여부 확인)"@
}

pub fn transport_failure_reply(err: &str) -> (r: String)
    ensures
        r@ == transport_failure_seq(err@),
{
    let mut out = chars_vec("모델 서버 오류: ");
    let e = chars_vec(err);
    push_all(&mut out, &e);
    let tail = chars_vec(" (ollama 실행 여부 확인)");
    push_all(&mut out, &tail);
    proof {
        assert(out@ =~= transport_failure_seq(err@));
    }
    string_of(&out)
}

} // verus!
