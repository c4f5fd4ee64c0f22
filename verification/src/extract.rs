use vstd::prelude::*;

verus! {

use crate::dates::{
    Date, is_iso_date, iso_date_of, parse_iso_date, day_number, weekday_from_monday, days_in_month,
    succ_date, sub_days, add_days, days_from_monday, month_length, lemma_day_number_bounds,
};
use crate::text::{
    contains_seq, first_sep, part_before, part_after, tokens, join_space, trim_seq, remove_all,
    chars_vec, contains_vec, tokens_vec, join_space_vec, trim_vec, find_char, copy_range,
};

/// The relative date keywords, in the precedence order they are tried.
#[derive(Clone, Copy, PartialEq, Eq, Structural, Debug)]
pub enum RelKeyword {
    Today,
    Tomorrow,
    ThisWeek,
    NextWeek,
    ThisMonth,
    NextMonth,
    Absent,
}

/// The first relative keyword the message contains, in precedence order.
pub open spec fn which_keyword(m: Seq<char>) -> RelKeyword {
    if contains_seq(m, "오늘"@) {
        RelKeyword::Today
    } else if contains_seq(m, "내일"@) {
        RelKeyword::Tomorrow
    } else if contains_seq(m, "이번주"@) {
        RelKeyword::ThisWeek
    } else if contains_seq(m, "다음주"@) {
        RelKeyword::NextWeek
    } else if contains_seq(m, "이번달"@) {
        RelKeyword::ThisMonth
    } else if contains_seq(m, "다음달"@) {
        RelKeyword::NextMonth
    } else {
        RelKeyword::Absent
    }
}

/// Finds the first relative keyword of the message.
pub fn find_keyword(m: &Vec<char>) -> (k: RelKeyword)
    ensures
        k == which_keyword(m@),
{
    let kw = chars_vec("오늘");
    if contains_vec(m, &kw) {
        return RelKeyword::Today;
    }
    let kw = chars_vec("내일");
    if contains_vec(m, &kw) {
        return RelKeyword::Tomorrow;
    }
    let kw = chars_vec("이번주");
    if contains_vec(m, &kw) {
        return RelKeyword::ThisWeek;
    }
    let kw = chars_vec("다음주");
    if contains_vec(m, &kw) {
        return RelKeyword::NextWeek;
    }
    let kw = chars_vec("이번달");
    if contains_vec(m, &kw) {
        return RelKeyword::ThisMonth;
    }
    let kw = chars_vec("다음달");
    if contains_vec(m, &kw) {
        return RelKeyword::NextMonth;
    }
    RelKeyword::Absent
}

/// The ISO date tokens of a token list, in order.
pub open spec fn date_toks(ts: Seq<Seq<char>>) -> Seq<Seq<char>>
    decreases ts.len(),
{
    if ts.len() == 0 {
        Seq::empty()
    } else {
        date_toks(ts.drop_last()) + if is_iso_date(ts.last()) {
            seq![ts.last()]
        } else {
            Seq::<Seq<char>>::empty()
        }
    }
}

/// What one token contributes to the reconstructed title. Tokens holding
/// the range separator are always dropped; the first two ISO date tokens
/// are consumed as dates; everything else is kept.
pub open spec fn title_contrib(t: Seq<char>, dates_seen: int) -> Seq<Seq<char>> {
    if first_sep(t, '~') >= 0 {
        Seq::empty()
    } else if is_iso_date(t) && dates_seen < 2 {
        Seq::empty()
    } else {
        seq![t]
    }
}

/// The tokens retained for the reconstructed title.
pub open spec fn retained(ts: Seq<Seq<char>>) -> Seq<Seq<char>>
    decreases ts.len(),
{
    if ts.len() == 0 {
        Seq::empty()
    } else {
        retained(ts.drop_last()) + title_contrib(ts.last(), date_toks(ts.drop_last()).len() as int)
    }
}

/// Fills the empty sides of a date pair from the date tokens, start first,
/// then end, in token order.
pub open spec fn fill_dates(seed: (Option<Date>, Option<Date>), ds: Seq<Seq<char>>) -> (
    Option<Date>,
    Option<Date>,
)
    decreases ds.len(),
{
    if ds.len() == 0 {
        seed
    } else {
        let prev = fill_dates(seed, ds.drop_last());
        if prev.0 is None {
            (Some(iso_date_of(ds.last())), prev.1)
        } else if prev.1 is None {
            (prev.0, Some(iso_date_of(ds.last())))
        } else {
            prev
        }
    }
}

/// A single resolved date is replicated to both bounds.
pub open spec fn norm_pair(p: (Option<Date>, Option<Date>)) -> (Option<Date>, Option<Date>) {
    if p.0 is Some && p.1 is None {
        (p.0, p.0)
    } else if p.0 is None && p.1 is Some {
        (p.1, p.1)
    } else {
        p
    }
}

/// The first ISO date token of a message part, as a date.
pub open spec fn first_date_of(part: Seq<char>) -> Option<Date> {
    let ds = date_toks(tokens(part));
    if ds.len() == 0 {
        None
    } else {
        Some(iso_date_of(ds[0]))
    }
}

/// The date pair seeded by the range separator: the first date before the
/// first `~` and the first date after it, each side independently.
pub open spec fn range_seed(m: Seq<char>) -> (Option<Date>, Option<Date>) {
    if first_sep(m, '~') >= 0 {
        (
            first_date_of(part_before(m, '~')),
            first_date_of(part_before(part_after(m, '~'), '~')),
        )
    } else {
        (None, None)
    }
}

/// The dates a message without any relative keyword resolves to.
pub open spec fn absent_dates(m: Seq<char>) -> (Option<Date>, Option<Date>) {
    norm_pair(fill_dates(range_seed(m), date_toks(tokens(m))))
}

/// The ordered table of phrases stripped from a reconstructed title:
/// creation phrases first, longer variants before their prefixes, then
/// the relative date keywords.
pub open spec fn strip_phrase(i: int) -> Seq<char> {
    if i == 0 {
        "업무 등록:"@
    } else if i == 1 {
        "업무등록:"@
    } else if i == 2 {
        "일정 등록:"@
    } else if i == 3 {
        "일정등록:"@
    } else if i == 4 {
        "업무등록"@
    } else if i == 5 {
        "업무 등록"@
    } else if i == 6 {
        "일정등록"@
    } else if i == 7 {
        "일정 등록"@
    } else if i == 8 {
        "등록해줘요"@
    } else if i == 9 {
        "등록해줘"@
    } else if i == 10 {
        "추가해줘요"@
    } else if i == 11 {
        "추가해줘"@
    } else if i == 12 {
        "추가"@
    } else if i == 13 {
        "해줘요"@
    } else if i == 14 {
        "해줘"@
    } else if i == 15 {
        "등록:"@
    } else if i == 16 {
        "등록"@
    } else if i == 17 {
        "task:"@
    } else if i == 18 {
        "add task"@
    } else if i == 19 {
        "create task"@
    } else if i == 20 {
        "오늘"@
    } else if i == 21 {
        "내일"@
    } else if i == 22 {
        "이번주"@
    } else if i == 23 {
        "다음주"@
    } else if i == 24 {
        "이번달"@
    } else {
        "다음달"@
    }
}

pub open spec fn strip_from(s: Seq<char>, i: int) -> Seq<char>
    decreases 26 - i,
{
    if i < 0 || i >= 26 {
        s
    } else {
        strip_from(remove_all(s, strip_phrase(i)), i + 1)
    }
}

/// The reconstructed title: retained tokens joined by single spaces, the
/// phrase table stripped in order, surrounding white space removed.
pub open spec fn title_spec(m: Seq<char>) -> Seq<char> {
    trim_seq(strip_from(join_space(retained(tokens(m))), 0))
}

fn phrase_vec(i: usize) -> (r: Vec<char>)
    requires
        i < 26,
    ensures
        r@ == strip_phrase(i as int),
{
    if i == 0 {
        chars_vec("업무 등록:")
    } else if i == 1 {
        chars_vec("업무등록:")
    } else if i == 2 {
        chars_vec("일정 등록:")
    } else if i == 3 {
        chars_vec("일정등록:")
    } else if i == 4 {
        chars_vec("업무등록")
    } else if i == 5 {
        chars_vec("업무 등록")
    } else if i == 6 {
        chars_vec("일정등록")
    } else if i == 7 {
        chars_vec("일정 등록")
    } else if i == 8 {
        chars_vec("등록해줘요")
    } else if i == 9 {
        chars_vec("등록해줘")
    } else if i == 10 {
        chars_vec("추가해줘요")
    } else if i == 11 {
        chars_vec("추가해줘")
    } else if i == 12 {
        chars_vec("추가")
    } else if i == 13 {
        chars_vec("해줘요")
    } else if i == 14 {
        chars_vec("해줘")
    } else if i == 15 {
        chars_vec("등록:")
    } else if i == 16 {
        chars_vec("등록")
    } else if i == 17 {
        chars_vec("task:")
    } else if i == 18 {
        chars_vec("add task")
    } else if i == 19 {
        chars_vec("create task")
    } else if i == 20 {
        chars_vec("오늘")
    } else if i == 21 {
        chars_vec("내일")
    } else if i == 22 {
        chars_vec("이번주")
    } else if i == 23 {
        chars_vec("다음주")
    } else if i == 24 {
        chars_vec("이번달")
    } else {
        chars_vec("다음달")
    }
}

/// Strips every phrase of the table, in order.
fn strip_all(s: Vec<char>) -> (r: Vec<char>)
    ensures
        r@ == strip_from(s@, 0),
{
    let ghost orig = s@;
    let mut cur = s;
    let mut i: usize = 0;
    while i < 26
        invariant
            i <= 26,
            strip_from(orig, 0) == strip_from(cur@, i as int),
        decreases 26 - i,
    {
        let pat = phrase_vec(i);
        cur = crate::text::remove_all_vec(&cur, &pat);
        i = i + 1;
    }
    cur
}

/// The first-of-month of the month after `d`'s.
pub open spec fn next_month_first(d: Date) -> Date {
    if d.month == 12 {
        Date { year: (d.year + 1) as u32, month: 1, day: 1 }
    } else {
        Date { year: d.year, month: (d.month + 1) as u32, day: 1 }
    }
}

/// The last day of the month after `d`'s.
pub open spec fn next_month_last(d: Date) -> Date {
    let f = next_month_first(d);
    Date {
        year: f.year,
        month: f.month,
        day: days_in_month(f.year as int, f.month as int) as u32,
    }
}

/// What the resolved range must be for each relative keyword: the day
/// itself for today/tomorrow, the Monday-aligned week, the calendar
/// month. Says nothing about a message without a keyword.
pub open spec fn keyword_range_ok(
    m: Seq<char>,
    today: Date,
    s: Option<Date>,
    e: Option<Date>,
) -> bool {
    let k = which_keyword(m);
    &&& (k is Today ==> s == Some(today) && e == Some(today))
    &&& (k is Tomorrow ==> s is Some && s->0.valid() && day_number(s->0) == day_number(today) + 1
        && e == s)
    &&& (k is ThisWeek ==> s is Some && e is Some && s->0.valid() && e->0.valid() && day_number(
        s->0,
    ) == day_number(today) - weekday_from_monday(today) && day_number(e->0) == day_number(s->0)
        + 6)
    &&& (k is NextWeek ==> s is Some && e is Some && s->0.valid() && e->0.valid() && day_number(
        s->0,
    ) == day_number(today) - weekday_from_monday(today) + 7 && day_number(e->0) == day_number(s->0)
        + 6)
    &&& (k is ThisMonth ==> s == Some(
        Date { year: today.year, month: today.month, day: 1 },
    ) && e == Some(
        Date {
            year: today.year,
            month: today.month,
            day: days_in_month(today.year as int, today.month as int) as u32,
        },
    ))
    &&& (k is NextMonth ==> s == Some(next_month_first(today)) && e == Some(
        next_month_last(today),
    ))
}

/// Resolves a relative keyword to a concrete date range seeded from
/// `today`; no keyword leaves both sides empty.
pub fn infer_range_from_keywords(m: &Vec<char>, today: &Date) -> (r: (Option<Date>, Option<Date>))
    requires
        today.valid(),
        1 <= today.year <= 9998,
    ensures
        keyword_range_ok(m@, *today, r.0, r.1),
        which_keyword(m@) is Absent ==> r.0 is None && r.1 is None,
        r.0 is Some <==> r.1 is Some,
        r.0 is Some <==> !(which_keyword(m@) is Absent),
{
    proof {
        lemma_day_number_bounds(*today);
    }
    match find_keyword(m) {
        RelKeyword::Today => (Some(*today), Some(*today)),
        RelKeyword::Tomorrow => {
            let next = succ_date(today);
            (Some(next), Some(next))
        },
        RelKeyword::ThisWeek => {
            let w = days_from_monday(today);
            let start = sub_days(today, w);
            proof {
                lemma_day_number_bounds(start);
            }
            let end = add_days(&start, 6);
            (Some(start), Some(end))
        },
        RelKeyword::NextWeek => {
            let w = days_from_monday(today);
            let base = sub_days(today, w);
            let start = add_days(&base, 7);
            let end = add_days(&start, 6);
            (Some(start), Some(end))
        },
        RelKeyword::ThisMonth => {
            let first = Date::new(today.year, today.month, 1);
            let last = Date::new(today.year, today.month, month_length(today.year, today.month));
            (Some(first), Some(last))
        },
        RelKeyword::NextMonth => {
            let (y, mo) = if today.month == 12 {
                (today.year + 1, 1)
            } else {
                (today.year, today.month + 1)
            };
            let first = Date::new(y, mo, 1);
            let last = Date::new(y, mo, month_length(y, mo));
            (Some(first), Some(last))
        },
        RelKeyword::Absent => (None, None),
    }
}

/// The first ISO date among the whitespace tokens of `part`, if any.
fn first_date_in(part: &Vec<char>) -> (r: Option<Date>)
    ensures
        r == first_date_of(part@),
        r is Some ==> r->0.valid(),
{
    let ts = tokens_vec(part);
    let ghost full = tokens(part@);
    let mut found: Option<Date> = None;
    let mut i: usize = 0;
    while i < ts.len()
        invariant
            i <= ts@.len(),
            ts.deep_view() == full,
            full == tokens(part@),
            found == (if date_toks(full.take(i as int)).len() == 0 {
                None
            } else {
                Some(iso_date_of(date_toks(full.take(i as int))[0]))
            }),
            found is Some ==> found->0.valid(),
        decreases ts@.len() - i,
    {
        let parsed = parse_iso_date(&ts[i]);
        proof {
            let pre = full.take(i as int);
            let cur = full.take(i + 1);
            assert(cur.drop_last() =~~= pre);
            assert(cur.last() == ts@[i as int]@);
            if is_iso_date(ts@[i as int]@) {
                assert(date_toks(cur) == date_toks(pre) + seq![ts@[i as int]@]);
                if date_toks(pre).len() > 0 {
                    assert(date_toks(cur)[0] == date_toks(pre)[0]);
                }
            } else {
                assert(date_toks(cur) =~~= date_toks(pre) + Seq::<Seq<char>>::empty());
                assert(date_toks(cur) =~~= date_toks(pre));
            }
        }
        match parsed {
            Some(d) => {
                if found.is_none() {
                    found = Some(d);
                }
            },
            None => {},
        }
        i = i + 1;
    }
    proof {
        assert(full.take(full.len() as int) =~~= full);
    }
    found
}

/// The first ISO date token of a message, if any: dates hidden in
/// range-separator tokens are not seen here.
pub fn extract_first_date(input: &str) -> (r: Option<Date>)
    ensures
        r == first_date_of(input@),
        r is Some ==> r->0.valid(),
{
    let m = chars_vec(input);
    first_date_in(&m)
}

proof fn lemma_fill_saturated(seed: (Option<Date>, Option<Date>), ds: Seq<Seq<char>>)
    requires
        seed.0 is Some,
        seed.1 is Some,
    ensures
        fill_dates(seed, ds) == seed,
    decreases ds.len(),
{
    if ds.len() > 0 {
        lemma_fill_saturated(seed, ds.drop_last());
    }
}

proof fn lemma_iso_no_tilde(t: Seq<char>)
    requires
        is_iso_date(t),
    ensures
        first_sep(t, '~') == -1,
{
    assert(forall|j: int| 0 <= j < t.len() ==> t[j] != '~');
    crate::text::lemma_first_sep_found(t, '~');
}

/// What `extract_title_and_range` promises: the reconstructed title is
/// exactly `title_spec`; a relative keyword resolves the range from
/// `today` as `keyword_range_ok` says; otherwise the range comes from the
/// separator halves and the first two ISO date tokens; and the two bounds
/// are always both present or both absent.
pub open spec fn extract_post(
    m: Seq<char>,
    today: Date,
    title: Seq<char>,
    s: Option<Date>,
    e: Option<Date>,
) -> bool {
    &&& title == title_spec(m)
    &&& (s is Some <==> e is Some)
    &&& (s is Some ==> s->0.valid())
    &&& (e is Some ==> e->0.valid())
    &&& keyword_range_ok(m, today, s, e)
    &&& (which_keyword(m) is Absent ==> (s, e) == absent_dates(m))
}

/// Extracts a task title and a date range from a free-text message.
/// A relative keyword wins; else an explicit `~` range; else the first
/// two ISO date tokens. A lone bound is replicated to both sides.
pub fn extract_title_and_range(message: &str, today: &Date) -> (r: (
    String,
    Option<Date>,
    Option<Date>,
))
    requires
        today.valid(),
        1 <= today.year <= 9998,
    ensures
        extract_post(message@, *today, r.0@, r.1, r.2),
{
    let m = chars_vec(message);
    let (ks, ke) = infer_range_from_keywords(&m, today);
    let mut start = ks;
    let mut end = ke;
    if start.is_none() && end.is_none() {
        match find_char(&m, '~') {
            Some(i) => {
                proof {
                    crate::text::lemma_first_sep_found(m@, '~');
                }
                let p0 = copy_range(&m, 0, i);
                let rest = copy_range(&m, i + 1, m.len());
                proof {
                    assert(p0@ =~= part_before(m@, '~'));
                    assert(rest@ =~= part_after(m@, '~'));
                }
                let p1 = match find_char(&rest, '~') {
                    Some(j) => {
                        proof {
                            crate::text::lemma_first_sep_found(rest@, '~');
                        }
                        let h = copy_range(&rest, 0, j);
                        proof {
                            assert(h@ =~= part_before(rest@, '~'));
                        }
                        h
                    },
                    None => rest,
                };
                start = first_date_in(&p0);
                end = first_date_in(&p1);
            },
            None => {},
        }
    }
    proof {
        if which_keyword(m@) is Absent {
            assert((start, end) == range_seed(m@));
        }
    }
    let ghost seed_g = (start, end);
    let ts = tokens_vec(&m);
    let ghost full = tokens(m@);
    let mut kept: Vec<Vec<char>> = Vec::new();
    let mut seen: usize = 0;
    let mut idx: usize = 0;
    proof {
        assert(full.take(0) =~~= Seq::<Seq<char>>::empty());
    }
    while idx < ts.len()
        invariant
            idx <= ts@.len(),
            ts.deep_view() == full,
            full == tokens(m@),
            kept.deep_view() == retained(full.take(idx as int)),
            seen as int == (if date_toks(full.take(idx as int)).len() < 2 {
                date_toks(full.take(idx as int)).len() as int
            } else {
                2int
            }),
            (start, end) == fill_dates(seed_g, date_toks(full.take(idx as int))),
            start is Some ==> start->0.valid(),
            end is Some ==> end->0.valid(),
            seed_g.0 is Some ==> seed_g.0->0.valid(),
            seed_g.1 is Some ==> seed_g.1->0.valid(),
        decreases ts@.len() - idx,
    {
        let ghost pre = full.take(idx as int);
        let ghost cur = full.take(idx + 1);
        proof {
            assert(cur.drop_last() =~~= pre);
            assert(cur.last() == ts@[idx as int]@);
        }
        let tok = &ts[idx];
        let tilde = find_char(tok, '~');
        match tilde {
            Some(_) => {
                proof {
                    assert(!is_iso_date(tok@)) by {
                        if is_iso_date(tok@) {
                            lemma_iso_no_tilde(tok@);
                        }
                    }
                    assert(date_toks(cur) =~~= date_toks(pre));
                    assert(title_contrib(tok@, date_toks(pre).len() as int)
                        =~~= Seq::<Seq<char>>::empty());
                    assert(kept.deep_view() + Seq::<Seq<char>>::empty() =~~= kept.deep_view());
                }
            },
            None => {
                let parsed = parse_iso_date(tok);
                match parsed {
                    Some(d) => {
                        proof {
                            assert(date_toks(cur) == date_toks(pre) + seq![tok@]);
                            assert(date_toks(cur).drop_last() =~~= date_toks(pre));
                            assert(date_toks(cur).last() == tok@);
                            assert(date_toks(cur).len() > 0);
                        }
                        if start.is_none() {
                            start = Some(d);
                        } else if end.is_none() {
                            end = Some(d);
                        }
                        if seen < 2 {
                            seen = seen + 1;
                            proof {
                                assert(title_contrib(tok@, date_toks(pre).len() as int)
                                    =~~= Seq::<Seq<char>>::empty());
                                assert(kept.deep_view() + Seq::<Seq<char>>::empty()
                                    =~~= kept.deep_view());
                            }
                        } else {
                            let keep = copy_range(tok, 0, tok.len());
                            proof {
                                assert(keep@ =~= tok@);
                            }
                            kept.push(keep);
                            proof {
                                assert(title_contrib(tok@, date_toks(pre).len() as int)
                                    =~~= seq![tok@]);
                                assert(kept.deep_view() =~~= retained(pre) + seq![tok@]);
                            }
                        }
                    },
                    None => {
                        proof {
                            assert(date_toks(cur) =~~= date_toks(pre));
                        }
                        let keep = copy_range(tok, 0, tok.len());
                        proof {
                            assert(keep@ =~= tok@);
                        }
                        kept.push(keep);
                        proof {
                            assert(title_contrib(tok@, date_toks(pre).len() as int)
                                =~~= seq![tok@]);
                            assert(kept.deep_view() =~~= retained(pre) + seq![tok@]);
                        }
                    },
                }
            },
        }
        idx = idx + 1;
    }
    proof {
        assert(full.take(full.len() as int) =~~= full);
    }
    if start.is_some() && end.is_none() {
        end = start;
    }
    if end.is_some() && start.is_none() {
        start = end;
    }
    proof {
        if !(which_keyword(m@) is Absent) {
            lemma_fill_saturated(seed_g, date_toks(full));
        }
    }
    let joined = join_space_vec(&kept);
    let stripped = strip_all(joined);
    let title = trim_vec(&stripped);
    let title_s = crate::text::string_of(&title);
    (title_s, start, end)
}

/// `c` does not occur in `s`.
pub open spec fn lacks_char(s: Seq<char>, c: char) -> bool {
    forall|j: int| 0 <= j < s.len() ==> s[j] != c
}

proof fn lemma_retained_lack_tilde(ts: Seq<Seq<char>>)
    ensures
        forall|k: int|
            0 <= k < retained(ts).len() ==> #[trigger] lacks_char(retained(ts)[k], '~'),
    decreases ts.len(),
{
    if ts.len() > 0 {
        lemma_retained_lack_tilde(ts.drop_last());
        let t = ts.last();
        let piece = title_contrib(t, date_toks(ts.drop_last()).len() as int);
        if piece.len() > 0 {
            crate::text::lemma_first_sep_found(t, '~');
            assert(lacks_char(t, '~'));
        }
        assert(forall|k: int|
            0 <= k < retained(ts.drop_last()).len() ==> retained(ts)[k] == retained(
                ts.drop_last(),
            )[k]);
    }
}

proof fn lemma_join_lacks(ts: Seq<Seq<char>>, c: char)
    requires
        c != ' ',
        forall|k: int| 0 <= k < ts.len() ==> #[trigger] lacks_char(ts[k], c),
    ensures
        lacks_char(join_space(ts), c),
    decreases ts.len(),
{
    if ts.len() == 0 {
    } else if ts.len() == 1 {
        assert(lacks_char(ts[0], c));
    } else {
        assert(forall|k: int|
            0 <= k < ts.drop_last().len() ==> ts.drop_last()[k] == ts[k]);
        lemma_join_lacks(ts.drop_last(), c);
        assert(lacks_char(ts.last(), c));
        assert(forall|j: int|
            0 <= j < join_space(ts).len() ==> join_space(ts)[j] != c) by {
            let pre = join_space(ts.drop_last());
            assert(forall|j: int| 0 <= j < pre.len() ==> pre[j] != c);
        }
    }
}

proof fn lemma_remove_all_lacks(s: Seq<char>, pat: Seq<char>, c: char)
    requires
        lacks_char(s, c),
    ensures
        lacks_char(remove_all(s, pat), c),
    decreases s.len(),
{
    if pat.len() == 0 || s.len() == 0 {
    } else if s.len() >= pat.len() && s.take(pat.len() as int) == pat {
        assert(lacks_char(s.skip(pat.len() as int), c));
        lemma_remove_all_lacks(s.skip(pat.len() as int), pat, c);
    } else {
        assert(lacks_char(s.drop_first(), c));
        lemma_remove_all_lacks(s.drop_first(), pat, c);
        assert(s[0] != c);
    }
}

proof fn lemma_strip_from_lacks(s: Seq<char>, i: int, c: char)
    requires
        lacks_char(s, c),
    ensures
        lacks_char(strip_from(s, i), c),
    decreases 26 - i,
{
    if 0 <= i < 26 {
        lemma_remove_all_lacks(s, strip_phrase(i), c);
        lemma_strip_from_lacks(remove_all(s, strip_phrase(i)), i + 1, c);
    }
}

/// A reconstructed title never holds the range separator: every token
/// that carried one was dropped before the title was joined.
pub proof fn lemma_title_no_separator(m: Seq<char>)
    ensures
        first_sep(title_spec(m), '~') == -1,
{
    let ts = retained(tokens(m));
    lemma_retained_lack_tilde(tokens(m));
    lemma_join_lacks(ts, '~');
    lemma_strip_from_lacks(join_space(ts), 0, '~');
    let stripped = strip_from(join_space(ts), 0);
    crate::text::lemma_trim_bounds(stripped);
    assert(lacks_char(trim_seq(stripped), '~'));
    crate::text::lemma_first_sep_found(title_spec(m), '~');
    if first_sep(title_spec(m), '~') >= 0 {
        assert(false);
    }
}

/// Extraction is idempotent on the titles it builds: a reconstructed
/// title keeps no range separator, so when phrase stripping has left it
/// with no relative keyword and no ISO date token, extracting from the
/// title again resolves no dates at all.
pub proof fn lemma_extraction_idempotent(m: Seq<char>)
    requires
        which_keyword(title_spec(m)) is Absent,
        date_toks(tokens(title_spec(m))).len() == 0,
    ensures
        absent_dates(title_spec(m)) == (None::<Date>, None::<Date>),
{
    lemma_title_no_separator(m);
    let t = title_spec(m);
    assert(range_seed(t) == (None::<Date>, None::<Date>));
    assert(fill_dates((None::<Date>, None::<Date>), date_toks(tokens(t))) == (
        None::<Date>,
        None::<Date>,
    ));
}

} // verus!
