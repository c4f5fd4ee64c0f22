use vstd::prelude::*;

verus! {

use crate::dates::{Date, date_chars, date_to_chars};
use crate::text::{join_with, push_all, chars_vec, string_of};

/// What the digest reads of a stored task. The caller that loads tasks
/// hands them over in this shape, most recently relevant first.
pub struct TaskRecord {
    pub title: String,
    pub status: String,
    pub priority: String,
    pub tags: Vec<String>,
    pub start_date: Option<Date>,
    pub end_date: Option<Date>,
}

/// What the digest reads of a stored note.
pub struct NoteRecord {
    pub title: String,
    pub tags: Vec<String>,
}

impl TaskRecord {
    pub open spec fn valid(self) -> bool {
        &&& (self.start_date is Some ==> self.start_date->0.valid())
        &&& (self.end_date is Some ==> self.end_date->0.valid())
    }
}

/// The due marker of a task line: a single date as a deadline, a true
/// range as `start~end`, absence spelled out.
pub open spec fn due_seq(s: Option<Date>, e: Option<Date>) -> Seq<char> {
    if s is Some && e is Some {
        if s->0 == e->0 {
            "마감 "@ + date_chars(s->0)
        } else {
            date_chars(s->0) + "~"@ + date_chars(e->0)
        }
    } else if s is Some {
        "마감 "@ + date_chars(s->0)
    } else {
        "마감 없음"@
    }
}

/// Tags rendered as ` #a #b`; nothing when there are none.
pub open spec fn tags_seq(tags: Seq<Seq<char>>) -> Seq<char> {
    if tags.len() == 0 {
        Seq::empty()
    } else {
        " #"@ + join_with(tags, " #"@)
    }
}

pub open spec fn task_line(t: TaskRecord) -> Seq<char> {
    "- ["@ + t.status@ + "]["@ + t.priority@ + "]["@ + due_seq(t.start_date, t.end_date) + "] "@
        + t.title@ + tags_seq(t.tags.deep_view())
}

pub open spec fn note_line(n: NoteRecord) -> Seq<char> {
    "- "@ + n.title@ + tags_seq(n.tags.deep_view())
}

pub open spec fn task_lines(ts: Seq<TaskRecord>) -> Seq<Seq<char>> {
    ts.map_values(|t: TaskRecord| task_line(t))
}

pub open spec fn note_lines(ns: Seq<NoteRecord>) -> Seq<Seq<char>> {
    ns.map_values(|n: NoteRecord| note_line(n))
}

/// The rendered digest: a task section and a note section joined by
/// `;`, or a fixed sentence when both are empty.
pub open spec fn digest_spec(ts: Seq<TaskRecord>, ns: Seq<NoteRecord>) -> Seq<char> {
    if ts.len() == 0 && ns.len() == 0 {
        "등록된 업무나 노트가 없습니다."@
    } else if ns.len() == 0 {
        "업무: "@ + join_with(task_lines(ts), " | "@)
    } else if ts.len() == 0 {
        "노트: "@ + join_with(note_lines(ns), " | "@)
    } else {
        "업무: "@ + join_with(task_lines(ts), " | "@) + " ; "@ + "노트: "@ + join_with(
            note_lines(ns),
            " | "@,
        )
    }
}

fn append_tags(out: &mut Vec<char>, tags: &Vec<String>)
    ensures
        final(out)@ == old(out)@ + tags_seq(tags.deep_view()),
{
    if tags.len() == 0 {
        proof {
            assert(out@ + Seq::<char>::empty() =~= out@);
        }
        return ;
    }
    let mut i: usize = 0;
    let ghost base = out@;
    while i < tags.len()
        invariant
            1 <= tags@.len(),
            i <= tags@.len(),
            i == 0 ==> out@ == base,
            i >= 1 ==> out@ == base + " #"@ + join_with(tags.deep_view().take(i as int), " #"@),
        decreases tags@.len() - i,
    {
        let sep = chars_vec(" #");
        push_all(out, &sep);
        let piece = chars_vec(tags[i].as_str());
        push_all(out, &piece);
        proof {
            let dv = tags.deep_view();
            assert(dv.take(i + 1).drop_last() =~~= dv.take(i as int));
            assert(dv.take(i + 1).last() == dv[i as int]);
            assert(dv[i as int] == tags@[i as int]@);
            if i == 0 {
                assert(join_with(dv.take(1), " #"@) == dv[0]);
            }
        }
        i = i + 1;
    }
    proof {
        assert(tags.deep_view().take(tags.deep_view().len() as int) =~~= tags.deep_view());
        assert(out@ =~= old(out)@ + tags_seq(tags.deep_view()));
    }
}

fn append_due(out: &mut Vec<char>, s: &Option<Date>, e: &Option<Date>)
    requires
        s is Some ==> s->0.valid(),
        e is Some ==> e->0.valid(),
    ensures
        final(out)@ == old(out)@ + due_seq(*s, *e),
{
    match (s, e) {
        (Some(a), Some(b)) => {
            if a.year == b.year && a.month == b.month && a.day == b.day {
                let lab = chars_vec("마감 ");
                push_all(out, &lab);
                let dc = date_to_chars(a);
                push_all(out, &dc);
            } else {
                let dc = date_to_chars(a);
                push_all(out, &dc);
                let t = chars_vec("~");
                push_all(out, &t);
                let dc2 = date_to_chars(b);
                push_all(out, &dc2);
            }
        },
        (Some(a), None) => {
            let lab = chars_vec("마감 ");
            push_all(out, &lab);
            let dc = date_to_chars(a);
            push_all(out, &dc);
        },
        _ => {
            let lab = chars_vec("마감 없음");
            push_all(out, &lab);
        },
    }
    proof {
        assert(out@ =~= old(out)@ + due_seq(*s, *e));
    }
}

fn append_task_line(out: &mut Vec<char>, t: &TaskRecord)
    requires
        t.valid(),
    ensures
        final(out)@ == old(out)@ + task_line(*t),
{
    let open = chars_vec("- [");
    push_all(out, &open);
    let st = chars_vec(t.status.as_str());
    push_all(out, &st);
    let mid = chars_vec("][");
    push_all(out, &mid);
    let pr = chars_vec(t.priority.as_str());
    push_all(out, &pr);
    let mid2 = chars_vec("][");
    push_all(out, &mid2);
    append_due(out, &t.start_date, &t.end_date);
    let close = chars_vec("] ");
    push_all(out, &close);
    let ti = chars_vec(t.title.as_str());
    push_all(out, &ti);
    append_tags(out, &t.tags);
    proof {
        assert(out@ =~= old(out)@ + task_line(*t));
    }
}

fn append_note_line(out: &mut Vec<char>, n: &NoteRecord)
    ensures
        final(out)@ == old(out)@ + note_line(*n),
{
    let open = chars_vec("- ");
    push_all(out, &open);
    let ti = chars_vec(n.title.as_str());
    push_all(out, &ti);
    append_tags(out, &n.tags);
    proof {
        assert(out@ =~= old(out)@ + note_line(*n));
    }
}

/// Renders the digest of the given tasks and notes. Callers hand over at
/// most what they want rendered; nothing is re-sorted or dropped here.
pub fn build_context(tasks: &Vec<TaskRecord>, notes: &Vec<NoteRecord>) -> (r: String)
    requires
        forall|i: int| 0 <= i < tasks@.len() ==> (#[trigger] tasks@[i]).valid(),
    ensures
        r@ == digest_spec(tasks@, notes@),
{
    if tasks.len() == 0 && notes.len() == 0 {
        let msg = chars_vec("등록된 업무나 노트가 없습니다.");
        return string_of(&msg);
    }
    let mut out: Vec<char> = Vec::new();
    if tasks.len() > 0 {
        let head = chars_vec("업무: ");
        push_all(&mut out, &head);
        let mut i: usize = 0;
        while i < tasks.len()
            invariant
                1 <= tasks@.len(),
                i <= tasks@.len(),
                forall|k: int| 0 <= k < tasks@.len() ==> (#[trigger] tasks@[k]).valid(),
                i == 0 ==> out@ == "업무: "@,
                i >= 1 ==> out@ == "업무: "@ + join_with(task_lines(tasks@.take(i as int)), " | "@),
            decreases tasks@.len() - i,
        {
            if i > 0 {
                let sep = chars_vec(" | ");
                push_all(&mut out, &sep);
            }
            append_task_line(&mut out, &tasks[i]);
            proof {
                let lines = task_lines(tasks@.take(i + 1));
                assert(lines.drop_last() =~~= task_lines(tasks@.take(i as int)));
                assert(lines.last() == task_line(tasks@[i as int]));
                if i == 0 {
                    assert(join_with(lines, " | "@) == task_line(tasks@[0]));
                    assert(out@ =~= "업무: "@ + join_with(lines, " | "@));
                } else {
                    assert(out@ =~= "업무: "@ + join_with(lines, " | "@));
                }
            }
            i = i + 1;
        }
        proof {
            assert(tasks@.take(tasks@.len() as int) =~~= tasks@);
        }
    }
    if notes.len() > 0 {
        let ghost tpart = out@;
        if tasks.len() > 0 {
            let sep = chars_vec(" ; ");
            push_all(&mut out, &sep);
        }
        let head = chars_vec("노트: ");
        push_all(&mut out, &head);
        let ghost base = out@;
        let mut i: usize = 0;
        while i < notes.len()
            invariant
                1 <= notes@.len(),
                i <= notes@.len(),
                i == 0 ==> out@ == base,
                i >= 1 ==> out@ == base + join_with(note_lines(notes@.take(i as int)), " | "@),
            decreases notes@.len() - i,
        {
            if i > 0 {
                let sep = chars_vec(" | ");
                push_all(&mut out, &sep);
            }
            append_note_line(&mut out, &notes[i]);
            proof {
                let lines = note_lines(notes@.take(i + 1));
                assert(lines.drop_last() =~~= note_lines(notes@.take(i as int)));
                assert(lines.last() == note_line(notes@[i as int]));
                if i == 0 {
                    assert(join_with(lines, " | "@) == note_line(notes@[0]));
                    assert(out@ =~= base + join_with(lines, " | "@));
                } else {
                    assert(out@ =~= base + join_with(lines, " | "@));
                }
            }
            i = i + 1;
        }
        proof {
            assert(notes@.take(notes@.len() as int) =~~= notes@);
            assert(out@ =~= digest_spec(tasks@, notes@));
        }
    }
    proof {
        assert(out@ =~= digest_spec(tasks@, notes@));
    }
    string_of(&out)
}

/// The digest, capped at 4000 characters with an ellipsis appended when
/// anything was cut.
pub open spec fn truncate_spec(s: Seq<char>) -> Seq<char> {
    if s.len() <= 4000 {
        s
    } else {
        s.take(4000) + "..."@
    }
}

/// Caps a rendered digest at 4000 characters, counted by codepoint.
pub fn truncate_context(input: &str) -> (r: String)
    ensures
        r@ == truncate_spec(input@),
{
    let v = chars_vec(input);
    if v.len() <= 4000 {
        return string_of(&v);
    }
    let mut cut = crate::text::copy_range(&v, 0, 4000);
    let dots = chars_vec("...");
    push_all(&mut cut, &dots);
    proof {
        assert(cut@ =~= truncate_spec(input@));
    }
    string_of(&cut)
}

/// A digest longer than the cap is truncated to exactly 4000 characters
/// plus the three-character ellipsis, and what remains is a prefix of the
/// untruncated rendering.
pub proof fn lemma_truncation(s: Seq<char>)
    requires
        s.len() > 4000,
    ensures
        truncate_spec(s).len() == 4003,
        truncate_spec(s).take(4000) == s.take(4000),
        forall|j: int| 0 <= j < 4000 ==> truncate_spec(s)[j] == s[j],
{
    reveal_strlit("...");
    assert(truncate_spec(s).take(4000) =~= s.take(4000));
}

/// The label a creation confirmation carries after the title: a deadline
/// for a single date, the pair for a true range, nothing when dateless.
pub open spec fn date_range_label(s: Option<Date>, e: Option<Date>) -> Seq<char> {
    if s is Some && e is Some {
        if s->0 == e->0 {
            " (마감 "@ + date_chars(s->0) + ")"@
        } else {
            " ("@ + date_chars(s->0) + " ~ "@ + date_chars(e->0) + ")"@
        }
    } else if s is Some {
        " (마감 "@ + date_chars(s->0) + ")"@
    } else {
        Seq::empty()
    }
}

/// Renders the date or range suffix of a creation confirmation.
pub fn format_date_range(start: &Option<Date>, end: &Option<Date>) -> (r: String)
    requires
        start is Some ==> start->0.valid(),
        end is Some ==> end->0.valid(),
    ensures
        r@ == date_range_label(*start, *end),
{
    let mut out: Vec<char> = Vec::new();
    match (start, end) {
        (Some(a), Some(b)) => {
            if a.year == b.year && a.month == b.month && a.day == b.day {
                let open = chars_vec(" (마감 ");
                push_all(&mut out, &open);
                let dc = date_to_chars(a);
                push_all(&mut out, &dc);
                let close = chars_vec(")");
                push_all(&mut out, &close);
            } else {
                let open = chars_vec(" (");
                push_all(&mut out, &open);
                let dc = date_to_chars(a);
                push_all(&mut out, &dc);
                let mid = chars_vec(" ~ ");
                push_all(&mut out, &mid);
                let dc2 = date_to_chars(b);
                push_all(&mut out, &dc2);
                let close = chars_vec(")");
                push_all(&mut out, &close);
            }
        },
        (Some(a), None) => {
            let open = chars_vec(" (마감 ");
            push_all(&mut out, &open);
            let dc = date_to_chars(a);
            push_all(&mut out, &dc);
            let close = chars_vec(")");
            push_all(&mut out, &close);
        },
        _ => {},
    }
    proof {
        assert(out@ =~= date_range_label(*start, *end));
    }
    string_of(&out)
}

} // verus!
