use vstd::prelude::*;

verus! {

use crate::text::{contains_seq, lower_seq, occurs_at, chars_vec, lower_vec, contains_vec};

/// What kind of request an utterance is.
#[derive(Clone, Copy, PartialEq, Eq, Structural, Debug)]
pub enum IntentKind {
    CreateTask,
    Brief,
    Unsupported,
}

/// The message, case-folded, holds a creation verb.
pub open spec fn has_create_verb(m: Seq<char>) -> bool {
    let l = lower_seq(m);
    ||| contains_seq(l, "등록"@)
    ||| contains_seq(l, "추가"@)
    ||| contains_seq(l, "생성"@)
    ||| contains_seq(l, "만들"@)
}

/// The message, case-folded, holds a task or schedule noun.
pub open spec fn has_task_noun(m: Seq<char>) -> bool {
    let l = lower_seq(m);
    ||| contains_seq(l, "업무"@)
    ||| contains_seq(l, "일정"@)
    ||| contains_seq(l, "task"@)
}

/// The message, case-folded, holds a note or memo noun.
pub open spec fn mentions_note(m: Seq<char>) -> bool {
    let l = lower_seq(m);
    ||| contains_seq(l, "노트"@)
    ||| contains_seq(l, "메모"@)
}

/// The message, case-folded, holds one of the fixed explicit creation
/// phrases, or opens with the `task:` prefix.
pub open spec fn has_explicit_create_phrase(m: Seq<char>) -> bool {
    let l = lower_seq(m);
    ||| contains_seq(l, "업무등록"@)
    ||| contains_seq(l, "업무 등록"@)
    ||| contains_seq(l, "일정등록"@)
    ||| contains_seq(l, "일정 등록"@)
    ||| contains_seq(l, "add task"@)
    ||| contains_seq(l, "create task"@)
    ||| occurs_at(l, "task:"@, 0)
}

/// An utterance asks to create a task when it carries a creation verb, or
/// a task noun together with an explicit creation phrase — unless it
/// mentions notes without any task noun, which is never task creation.
pub open spec fn is_task_create_spec(m: Seq<char>) -> bool {
    if mentions_note(m) && !has_task_noun(m) {
        false
    } else {
        has_create_verb(m) || (has_task_noun(m) && has_explicit_create_phrase(m))
    }
}

/// An utterance asks for a briefing when it carries any briefing keyword.
pub open spec fn is_brief_spec(m: Seq<char>) -> bool {
    let l = lower_seq(m);
    ||| contains_seq(l, "브리핑"@)
    ||| contains_seq(l, "요약"@)
    ||| contains_seq(l, "정리"@)
    ||| contains_seq(l, "우선순위"@)
    ||| contains_seq(l, "brief"@)
    ||| contains_seq(l, "summary"@)
    ||| contains_seq(l, "priorities"@)
}

/// The ordered classification rules: task creation first, then briefing,
/// else unsupported.
pub open spec fn classify_spec(m: Seq<char>) -> IntentKind {
    if is_task_create_spec(m) {
        IntentKind::CreateTask
    } else if is_brief_spec(m) {
        IntentKind::Brief
    } else {
        IntentKind::Unsupported
    }
}

fn contains_lit(l: &Vec<char>, lit: &str) -> (b: bool)
    ensures
        b == contains_seq(l@, lit@),
{
    let pat = chars_vec(lit);
    contains_vec(l, &pat)
}

/// Whether the message asks to create a task.
pub fn is_task_create_request(message: &str) -> (b: bool)
    ensures
        b == is_task_create_spec(message@),
{
    let m = chars_vec(message);
    let l = lower_vec(&m);
    let note = contains_lit(&l, "노트") || contains_lit(&l, "메모");
    let noun = contains_lit(&l, "업무") || contains_lit(&l, "일정") || contains_lit(&l, "task");
    if note && !noun {
        return false;
    }
    let verb = contains_lit(&l, "등록") || contains_lit(&l, "추가") || contains_lit(&l, "생성")
        || contains_lit(&l, "만들");
    if verb {
        return true;
    }
    if !noun {
        return false;
    }
    let phrase = contains_lit(&l, "업무등록") || contains_lit(&l, "업무 등록") || contains_lit(
        &l,
        "일정등록",
    ) || contains_lit(&l, "일정 등록") || contains_lit(&l, "add task") || contains_lit(
        &l,
        "create task",
    );
    if phrase {
        return true;
    }
    let prefix = chars_vec("task:");
    if prefix.len() <= l.len() {
        crate::text::matches_at(&l, &prefix, 0)
    } else {
        proof {
            assert(!occurs_at(l@, "task:"@, 0));
        }
        false
    }
}

/// Whether the message asks for a briefing.
pub fn is_brief_request(message: &str) -> (b: bool)
    ensures
        b == is_brief_spec(message@),
{
    let m = chars_vec(message);
    let l = lower_vec(&m);
    contains_lit(&l, "브리핑") || contains_lit(&l, "요약") || contains_lit(&l, "정리")
        || contains_lit(&l, "우선순위") || contains_lit(&l, "brief") || contains_lit(
        &l,
        "summary",
    ) || contains_lit(&l, "priorities")
}

/// Classifies an utterance by the ordered rules.
pub fn classify(message: &str) -> (k: IntentKind)
    ensures
        k == classify_spec(message@),
{
    if is_task_create_request(message) {
        IntentKind::CreateTask
    } else if is_brief_request(message) {
        IntentKind::Brief
    } else {
        IntentKind::Unsupported
    }
}

/// Classification is total: every message falls in exactly one of the
/// three kinds, and the outcome is a function of the message alone.
pub proof fn lemma_classification_total(m: Seq<char>)
    ensures
        classify_spec(m) is CreateTask || classify_spec(m) is Brief || classify_spec(
            m,
        ) is Unsupported,
        classify_spec(m) is CreateTask <==> is_task_create_spec(m),
        classify_spec(m) is Brief <==> !is_task_create_spec(m) && is_brief_spec(m),
        classify_spec(m) is Unsupported <==> !is_task_create_spec(m) && !is_brief_spec(m),
{
}

/// A message that mentions notes or memos without any task noun is never
/// classified as task creation.
pub proof fn lemma_note_never_creates(m: Seq<char>)
    requires
        mentions_note(m),
        !has_task_noun(m),
    ensures
        classify_spec(m) != IntentKind::CreateTask,
{
}

} // verus!
