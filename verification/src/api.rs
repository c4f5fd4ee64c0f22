use vstd::prelude::*;

verus! {

use crate::dates::Date;
use crate::text::{
    trim_seq, first_sep, occurs_at, chars_vec, trim_vec, find_char, copy_range, string_of,
    matches_at, lemma_first_sep_found,
};

/// The claims carried in an access token.
pub struct Claims {
    pub sub: String,
    pub exp: usize,
}

/// The service configuration, read from the environment by the caller.
pub struct Config {
    pub database_url: String,
    pub jwt_secret: String,
    pub port: u16,
    pub ai_base_url: String,
    pub ai_model: String,
    pub cors_origins: Vec<String>,
}

/// A chat request: one free-text utterance.
pub struct ChatRequest {
    pub message: String,
}

/// A chat reply: one string, never streamed.
pub struct ChatResponse {
    pub reply: String,
}

pub struct SignupPayload {
    pub email: String,
    pub password: String,
}

pub struct LoginPayload {
    pub email: String,
    pub password: String,
}

pub struct AuthResponse {
    pub token: String,
}

pub struct NoteCreate {
    pub title: String,
    pub content: String,
    pub tags: Option<Vec<String>>,
}

pub struct NoteUpdate {
    pub title: Option<String>,
    pub content: Option<String>,
    pub tags: Option<Vec<String>>,
}

pub struct TaskListQuery {
    pub q: Option<String>,
    pub status: Option<String>,
    pub priority: Option<String>,
    pub tag: Option<String>,
    pub sort: Option<String>,
    pub order: Option<String>,
    pub page: Option<i64>,
    pub limit: Option<i64>,
}

pub struct NoteListQuery {
    pub q: Option<String>,
    pub tag: Option<String>,
    pub sort: Option<String>,
    pub order: Option<String>,
    pub page: Option<i64>,
    pub limit: Option<i64>,
}

/// `s` with every leading `Bearer ` prefix removed, one after the other.
pub open spec fn strip_bearer(s: Seq<char>) -> Seq<char>
    decreases s.len(),
    via strip_bearer_decreases
{
    if s.len() >= "Bearer "@.len() && s.take("Bearer "@.len() as int) == "Bearer "@ {
        strip_bearer(s.skip("Bearer "@.len() as int))
    } else {
        s
    }
}

#[via_fn]
proof fn strip_bearer_decreases(s: Seq<char>) {
    reveal_strlit("Bearer ");
}

/// The token of an `Authorization` header: present exactly when the
/// header opens with `Bearer `, with the prefixes and surrounding white
/// space removed.
pub open spec fn bearer_token_spec(h: Seq<char>) -> Option<Seq<char>> {
    if occurs_at(h, "Bearer "@, 0) {
        Some(trim_seq(strip_bearer(h)))
    } else {
        None
    }
}

/// Extracts the bearer token from an `Authorization` header value.
pub fn bearer_token(header: &str) -> (r: Option<String>)
    ensures
        r is Some <==> bearer_token_spec(header@) is Some,
        r is Some ==> r->0@ == bearer_token_spec(header@)->0,
{
    let v = chars_vec(header);
    let pat = chars_vec("Bearer ");
    proof {
        reveal_strlit("Bearer ");
    }
    if !(pat.len() <= v.len() && matches_at(&v, &pat, 0)) {
        proof {
            assert(!occurs_at(header@, "Bearer "@, 0));
        }
        return None;
    }
    let mut cur = v;
    while pat.len() <= cur.len() && matches_at(&cur, &pat, 0)
        invariant
            pat@ == "Bearer "@,
            pat@.len() == 7,
            strip_bearer(header@) == strip_bearer(cur@),
        decreases cur@.len(),
    {
        let next = copy_range(&cur, pat.len(), cur.len());
        proof {
            assert(cur@.subrange(0, pat@.len() as int) =~= cur@.take(pat@.len() as int));
            assert(next@ =~= cur@.skip(pat@.len() as int));
        }
        cur = next;
    }
    proof {
        if cur@.len() >= pat@.len() {
            assert(cur@.subrange(0, pat@.len() as int) =~= cur@.take(pat@.len() as int));
        }
        assert(strip_bearer(cur@) == cur@);
    }
    let trimmed = trim_vec(&cur);
    Some(string_of(&trimmed))
}

pub open spec fn page_of(page: Option<i64>) -> int {
    if page is Some && page->0 > 1 {
        page->0 as int
    } else {
        1
    }
}

pub open spec fn limit_of(limit: Option<i64>) -> int {
    let l = if limit is Some {
        limit->0 as int
    } else {
        20
    };
    if l < 1 {
        1
    } else if l > 100 {
        100
    } else {
        l
    }
}

pub open spec fn offset_of(page: Option<i64>, limit: Option<i64>) -> int {
    let wide = (page_of(page) - 1) * limit_of(limit);
    if wide > i64::MAX {
        i64::MAX as int
    } else {
        wide
    }
}

/// Resolves a listing query's page and limit to the window actually
/// fetched: page at least 1, limit clamped to 1 through 100, and the
/// offset saturated rather than overflowing.
pub fn page_window(page: Option<i64>, limit: Option<i64>) -> (r: (i64, i64, i64))
    ensures
        r.0 == page_of(page),
        r.1 == limit_of(limit),
        r.2 == offset_of(page, limit),
{
    let p: i64 = match page {
        Some(p) => if p > 1 {
            p
        } else {
            1
        },
        None => 1,
    };
    let l0: i64 = match limit {
        Some(l) => l,
        None => 20,
    };
    let l: i64 = if l0 < 1 {
        1
    } else if l0 > 100 {
        100
    } else {
        l0
    };
    let pm1: i128 = (p - 1) as i128;
    let lw: i128 = l as i128;
    proof {
        assert(0 <= pm1 * lw && pm1 * lw <= 0x7fffffffffffffffi128 * 100) by (nonlinear_arith)
            requires
                0 <= pm1 <= 0x7fffffffffffffffi128,
                1 <= lw <= 100,
        ;
    }
    let wide: i128 = pm1 * lw;
    let off: i64 = if wide > i64::MAX as i128 {
        i64::MAX
    } else {
        wide as i64
    };
    proof {
        assert(pm1 * lw == (page_of(page) - 1) * limit_of(limit)) by (nonlinear_arith)
            requires
                pm1 == page_of(page) - 1,
                lw == limit_of(limit),
        ;
    }
    (p, l, off)
}

/// A raw origins string cut at every comma, empties kept.
pub open spec fn comma_parts(s: Seq<char>) -> Seq<Seq<char>>
    decreases s.len(),
    via comma_parts_decreases
{
    if first_sep(s, ',') < 0 {
        seq![s]
    } else {
        seq![s.take(first_sep(s, ','))] + comma_parts(s.skip(first_sep(s, ',') + 1))
    }
}

#[via_fn]
proof fn comma_parts_decreases(s: Seq<char>) {
    lemma_first_sep_found(s, ',');
}

/// The comma-separated pieces, trimmed, with empties dropped.
pub open spec fn kept_origins(ps: Seq<Seq<char>>) -> Seq<Seq<char>>
    decreases ps.len(),
{
    if ps.len() == 0 {
        Seq::empty()
    } else {
        (if trim_seq(ps[0]).len() > 0 {
            seq![trim_seq(ps[0])]
        } else {
            Seq::<Seq<char>>::empty()
        }) + kept_origins(ps.drop_first())
    }
}

pub open spec fn origins_spec(raw: Seq<char>) -> Seq<Seq<char>> {
    kept_origins(comma_parts(raw))
}

/// Splits a configured origins string on commas, trimming each entry and
/// dropping empty ones.
pub fn split_origins(raw: &str) -> (r: Vec<String>)
    ensures
        r.deep_view() == origins_spec(raw@),
{
    let mut rem = chars_vec(raw);
    let mut out: Vec<String> = Vec::new();
    proof {
        assert(out.deep_view() + origins_spec(raw@) =~~= origins_spec(raw@));
    }
    loop
        invariant
            origins_spec(raw@) == out.deep_view() + kept_origins(comma_parts(rem@)),
        decreases rem@.len(),
    {
        let ghost pre_out = out.deep_view();
        match find_char(&rem, ',') {
            Some(i) => {
                proof {
                    lemma_first_sep_found(rem@, ',');
                }
                let n = rem.len();
                let piece = copy_range(&rem, 0, i);
                let next = copy_range(&rem, i + 1, n);
                proof {
                    assert(piece@ =~= rem@.take(i as int));
                    assert(next@ =~= rem@.skip(i + 1));
                    let parts = comma_parts(rem@);
                    assert(parts[0] == piece@);
                    assert(parts.drop_first() =~~= comma_parts(next@));
                }
                let t = trim_vec(&piece);
                if t.len() > 0 {
                    out.push(string_of(&t));
                    proof {
                        assert(out.deep_view() =~~= pre_out + seq![trim_seq(piece@)]);
                        assert((pre_out + seq![trim_seq(piece@)]) + kept_origins(
                            comma_parts(next@),
                        ) =~~= pre_out + (seq![trim_seq(piece@)] + kept_origins(
                            comma_parts(next@),
                        )));
                    }
                } else {
                    proof {
                        assert(pre_out + (Seq::<Seq<char>>::empty() + kept_origins(
                            comma_parts(next@),
                        )) =~~= pre_out + kept_origins(comma_parts(next@)));
                    }
                }
                rem = next;
            },
            None => {
                proof {
                    let parts = comma_parts(rem@);
                    assert(parts[0] == rem@);
                    assert(parts.drop_first() =~~= Seq::<Seq<char>>::empty());
                    assert(kept_origins(Seq::<Seq<char>>::empty())
                        =~~= Seq::<Seq<char>>::empty());
                }
                let t = trim_vec(&rem);
                if t.len() > 0 {
                    out.push(string_of(&t));
                    proof {
                        assert(out.deep_view() =~~= pre_out + seq![trim_seq(rem@)]);
                        assert(pre_out + (seq![trim_seq(rem@)] + Seq::<Seq<char>>::empty())
                            =~~= pre_out + seq![trim_seq(rem@)]);
                    }
                } else {
                    proof {
                        assert(pre_out + (Seq::<Seq<char>>::empty() + Seq::<Seq<char>>::empty())
                            =~~= pre_out);
                    }
                }
                proof {
                    assert(out.deep_view() =~~= origins_spec(raw@));
                }
                return out;
            },
        }
    }
}

/// Checks a note creation payload: both the title and the content must be
/// non-empty once trimmed, and the trimmed forms are what is stored.
pub fn note_create_check(title: &str, content: &str) -> (r: Option<(String, String)>)
    ensures
        r is Some <==> trim_seq(title@).len() > 0 && trim_seq(content@).len() > 0,
        r is Some ==> ({
            let p = r->0;
            p.0@ == trim_seq(title@) && p.1@ == trim_seq(content@)
        }),
{
    let tv = chars_vec(title);
    let t = trim_vec(&tv);
    if t.len() == 0 {
        return None;
    }
    let cv = chars_vec(content);
    let c = trim_vec(&cv);
    if c.len() == 0 {
        return None;
    }
    Some((string_of(&t), string_of(&c)))
}

/// The stored dates of a freshly created task: missing bounds default to
/// the due date, and the stored due date falls back to the resolved end.
pub fn task_create_dates(start: Option<Date>, end: Option<Date>, due: Option<Date>) -> (r: (
    Option<Date>,
    Option<Date>,
    Option<Date>,
))
    ensures
        r.0 == (if start is Some {
            start
        } else {
            due
        }),
        r.1 == (if end is Some {
            end
        } else {
            due
        }),
        r.2 == (if due is Some {
            due
        } else {
            r.1
        }),
{
    let s = match (start, due) {
        (Some(a), _) => Some(a),
        (None, d) => d,
    };
    let e = match (end, due) {
        (Some(b), _) => Some(b),
        (None, d) => d,
    };
    let d = match due {
        Some(x) => Some(x),
        None => e,
    };
    (s, e, d)
}

/// The stored dates of a task update: a lone bound is replicated to the
/// other side, and the due date falls back to the resolved end.
pub fn task_update_dates(start: Option<Date>, end: Option<Date>, due: Option<Date>) -> (r: (
    Option<Date>,
    Option<Date>,
    Option<Date>,
))
    ensures
        r.0 == (if start is Some {
            start
        } else {
            end
        }),
        r.1 == (if end is Some {
            end
        } else {
            start
        }),
        r.2 == (if due is Some {
            due
        } else {
            r.1
        }),
{
    let s = match (start, end) {
        (Some(a), _) => Some(a),
        (None, b) => b,
    };
    let e = match (end, start) {
        (Some(b), _) => Some(b),
        (None, a) => a,
    };
    let d = match due {
        Some(x) => Some(x),
        None => e,
    };
    (s, e, d)
}

} // verus!
