use vstd::prelude::*;

verus! {

use vstd::std_specs::iter::IteratorSpec;

/// The Unicode white-space characters, the set `str::split_whitespace`
/// separates on.
pub open spec fn is_space(c: char) -> bool {
    ||| c as u32 == 0x9
    ||| c as u32 == 0xA
    ||| c as u32 == 0xB
    ||| c as u32 == 0xC
    ||| c as u32 == 0xD
    ||| c as u32 == 0x20
    ||| c as u32 == 0x85
    ||| c as u32 == 0xA0
    ||| c as u32 == 0x1680
    ||| 0x2000 <= c as u32 <= 0x200A
    ||| c as u32 == 0x2028
    ||| c as u32 == 0x2029
    ||| c as u32 == 0x202F
    ||| c as u32 == 0x205F
    ||| c as u32 == 0x3000
}

pub fn is_space_char(c: char) -> (b: bool)
    ensures
        b == is_space(c),
{
    let n = c as u32;
    n == 0x9 || n == 0xA || n == 0xB || n == 0xC || n == 0xD || n == 0x20 || n == 0x85 || n == 0xA0
        || n == 0x1680 || (0x2000 <= n && n <= 0x200A) || n == 0x2028 || n == 0x2029 || n == 0x202F
        || n == 0x205F || n == 0x3000
}

/// ASCII lower-casing of one character; everything else is unchanged.
pub open spec fn lower_char(c: char) -> char {
    if 65 <= c as u32 <= 90 {
        ((c as u32 + 32) as u8) as char
    } else {
        c
    }
}

pub open spec fn lower_seq(s: Seq<char>) -> Seq<char> {
    s.map_values(|c: char| lower_char(c))
}

pub fn lower_vec(s: &Vec<char>) -> (r: Vec<char>)
    ensures
        r@ == lower_seq(s@),
{
    let mut r: Vec<char> = Vec::new();
    let mut i: usize = 0;
    while i < s.len()
        invariant
            i <= s.len(),
            r@ == lower_seq(s@.take(i as int)),
        decreases s.len() - i,
    {
        let c = s[i];
        let n = c as u32;
        if 65 <= n && n <= 90 {
            r.push(((n + 32) as u8) as char);
        } else {
            r.push(c);
        }
        proof {
            assert(s@.take(i + 1 as int).map_values(|c: char| lower_char(c)) =~= s@.take(
                i as int,
            ).map_values(|c: char| lower_char(c)) + seq![lower_char(s@[i as int])]);
        }
        i = i + 1;
    }
    proof {
        assert(s@.take(s@.len() as int) =~= s@);
    }
    r
}

/// `needle` occurs in `hay` starting at position `i`.
pub open spec fn occurs_at(hay: Seq<char>, needle: Seq<char>, i: int) -> bool {
    0 <= i && i + needle.len() <= hay.len() && hay.subrange(i, i + needle.len()) == needle
}

/// `needle` occurs somewhere in `hay`.
pub open spec fn contains_seq(hay: Seq<char>, needle: Seq<char>) -> bool {
    exists|i: int| occurs_at(hay, needle, i)
}

/// Whether `needle` occurs in `hay` starting exactly at `at`.
pub(crate) fn matches_at(hay: &Vec<char>, needle: &Vec<char>, at: usize) -> (b: bool)
    requires
        at + needle@.len() <= hay@.len(),
    ensures
        b == occurs_at(hay@, needle@, at as int),
{
    let hlen = hay.len();
    let mut j: usize = 0;
    while j < needle.len()
        invariant
            j <= needle.len(),
            at + needle@.len() <= hay@.len(),
            hlen == hay@.len(),
            forall|k: int| 0 <= k < j ==> hay@[at + k] == needle@[k],
        decreases needle.len() - j,
    {
        if hay[at + j] != needle[j] {
            proof {
                assert(hay@.subrange(at as int, at + needle@.len())[j as int] != needle@[j as int]);
            }
            return false;
        }
        j = j + 1;
    }
    proof {
        assert(hay@.subrange(at as int, at + needle@.len()) =~= needle@);
    }
    true
}

/// Whether `needle` occurs anywhere in `hay`.
pub fn contains_vec(hay: &Vec<char>, needle: &Vec<char>) -> (b: bool)
    ensures
        b == contains_seq(hay@, needle@),
{
    if needle.len() == 0 {
        proof {
            assert(occurs_at(hay@, needle@, 0)) by {
                assert(hay@.subrange(0, 0) =~= needle@);
            }
        }
        return true;
    }
    if needle.len() > hay.len() {
        proof {
            assert(forall|i: int| !occurs_at(hay@, needle@, i));
        }
        return false;
    }
    let last = hay.len() - needle.len();
    let mut i: usize = 0;
    while i <= last
        invariant
            last == hay@.len() - needle@.len(),
            last < usize::MAX,
            i <= last + 1,
            forall|k: int| 0 <= k < i ==> !occurs_at(hay@, needle@, k),
        decreases last - i + 1,
    {
        if matches_at(hay, needle, i) {
            return true;
        }
        i = i + 1;
    }
    proof {
        assert(forall|k: int| occurs_at(hay@, needle@, k) ==> 0 <= k <= last);
    }
    false
}

/// Deletes every occurrence of `pat` from `s`, scanning left to right and
/// never rescanning text before a deletion: the behaviour of
/// `str::replace(pat, "")`.
pub open spec fn remove_all(s: Seq<char>, pat: Seq<char>) -> Seq<char>
    decreases s.len(),
{
    if pat.len() == 0 || s.len() == 0 {
        s
    } else if s.len() >= pat.len() && s.take(pat.len() as int) == pat {
        remove_all(s.skip(pat.len() as int), pat)
    } else {
        seq![s[0]] + remove_all(s.drop_first(), pat)
    }
}

/// Deletes every occurrence of `pat` from `s`.
pub fn remove_all_vec(s: &Vec<char>, pat: &Vec<char>) -> (r: Vec<char>)
    ensures
        r@ == remove_all(s@, pat@),
{
    if pat.len() == 0 {
        let r = copy_range(s, 0, s.len());
        proof {
            assert(s@.subrange(0, s@.len() as int) =~= s@);
        }
        return r;
    }
    let mut r: Vec<char> = Vec::new();
    let mut p: usize = 0;
    proof {
        assert(s@.skip(0) =~= s@);
        assert(r@ + remove_all(s@, pat@) =~= remove_all(s@, pat@));
    }
    while p < s.len()
        invariant
            p <= s@.len(),
            pat@.len() >= 1,
            remove_all(s@, pat@) == r@ + remove_all(s@.skip(p as int), pat@),
        decreases s@.len() - p,
    {
        let matched = if pat.len() <= s.len() && p <= s.len() - pat.len() {
            matches_at(s, pat, p)
        } else {
            false
        };
        if matched {
            proof {
                let rest = s@.skip(p as int);
                assert(rest.take(pat@.len() as int) =~= s@.subrange(p as int, p + pat@.len()));
                assert(rest.skip(pat@.len() as int) =~= s@.skip(p + pat@.len()));
            }
            p = p + pat.len();
        } else {
            proof {
                let rest = s@.skip(p as int);
                if rest.len() >= pat@.len() {
                    assert(rest.take(pat@.len() as int) =~= s@.subrange(p as int, p + pat@.len()));
                }
                assert(rest.drop_first() =~= s@.skip(p + 1));
                assert(rest[0] == s@[p as int]);
                assert((r@ + seq![s@[p as int]]) + remove_all(s@.skip(p + 1), pat@) =~= r@ + (
                seq![s@[p as int]] + remove_all(s@.skip(p + 1), pat@)));
            }
            r.push(s[p]);
            p = p + 1;
        }
    }
    proof {
        assert(s@.skip(s@.len() as int) =~= Seq::<char>::empty());
        assert(r@ + Seq::<char>::empty() =~= r@);
    }
    r
}

/// Index of the first `sep` in `s`, or -1 when `s` has none.
pub open spec fn first_sep(s: Seq<char>, sep: char) -> int
    decreases s.len(),
{
    if s.len() == 0 {
        -1
    } else if s[0] == sep {
        0
    } else {
        let r = first_sep(s.drop_first(), sep);
        if r < 0 {
            -1
        } else {
            1 + r
        }
    }
}

proof fn lemma_first_sep_at(s: Seq<char>, sep: char, k: int)
    requires
        0 <= k <= s.len(),
        forall|j: int| 0 <= j < k ==> s[j] != sep,
        k == s.len() || s[k] == sep,
    ensures
        k < s.len() ==> first_sep(s, sep) == k,
        k == s.len() ==> first_sep(s, sep) == -1,
    decreases k,
{
    if s.len() == 0 {
    } else if k == 0 {
    } else {
        lemma_first_sep_at(s.drop_first(), sep, k - 1);
    }
}

/// What a first-separator position means: a found position holds `sep`
/// and nothing before it does; -1 means `sep` is absent.
pub proof fn lemma_first_sep_found(s: Seq<char>, sep: char)
    ensures
        first_sep(s, sep) >= 0 ==> 0 <= first_sep(s, sep) < s.len() && s[first_sep(s, sep)] == sep,
        first_sep(s, sep) == -1 ==> forall|j: int| 0 <= j < s.len() ==> s[j] != sep,
        first_sep(s, sep) >= 0 || first_sep(s, sep) == -1,
    decreases s.len(),
{
    if s.len() == 0 {
    } else if s[0] == sep {
    } else {
        lemma_first_sep_found(s.drop_first(), sep);
        assert(forall|j: int| 1 <= j < s.len() ==> s[j] == s.drop_first()[j - 1]);
    }
}

/// The characters before the first `sep`; all of `s` when there is none.
pub open spec fn part_before(s: Seq<char>, sep: char) -> Seq<char> {
    if first_sep(s, sep) < 0 {
        s
    } else {
        s.take(first_sep(s, sep))
    }
}

/// The characters after the first `sep`; empty when there is none.
pub open spec fn part_after(s: Seq<char>, sep: char) -> Seq<char> {
    if first_sep(s, sep) < 0 {
        Seq::empty()
    } else {
        s.skip(first_sep(s, sep) + 1)
    }
}

/// Position of the first `sep` in `s`, if any.
pub fn find_char(s: &Vec<char>, sep: char) -> (r: Option<usize>)
    ensures
        r is Some ==> first_sep(s@, sep) == r->0 as int,
        r is None ==> first_sep(s@, sep) == -1,
{
    let mut i: usize = 0;
    while i < s.len()
        invariant
            i <= s@.len(),
            forall|j: int| 0 <= j < i ==> s@[j] != sep,
        decreases s@.len() - i,
    {
        if s[i] == sep {
            proof {
                lemma_first_sep_at(s@, sep, i as int);
            }
            return Some(i);
        }
        i = i + 1;
    }
    proof {
        lemma_first_sep_at(s@, sep, s@.len() as int);
    }
    None
}

/// Copies `s[from..to]` into a fresh vector.
pub fn copy_range(s: &Vec<char>, from: usize, to: usize) -> (r: Vec<char>)
    requires
        from <= to <= s@.len(),
    ensures
        r@ == s@.subrange(from as int, to as int),
{
    let mut r: Vec<char> = Vec::new();
    let mut i: usize = from;
    while i < to
        invariant
            from <= i <= to <= s@.len(),
            r@ == s@.subrange(from as int, i as int),
        decreases to - i,
    {
        r.push(s[i]);
        proof {
            assert(s@.subrange(from as int, i + 1 as int) =~= s@.subrange(from as int, i as int)
                + seq![s@[i as int]]);
        }
        i = i + 1;
    }
    r
}

/// Appends all of `src` to `out`.
pub fn push_all(out: &mut Vec<char>, src: &Vec<char>)
    ensures
        final(out)@ == old(out)@ + src@,
{
    let mut i: usize = 0;
    while i < src.len()
        invariant
            i <= src@.len(),
            out@ == old(out)@ + src@.take(i as int),
        decreases src@.len() - i,
    {
        out.push(src[i]);
        proof {
            assert(old(out)@ + src@.take(i + 1 as int) =~= (old(out)@ + src@.take(i as int))
                + seq![src@[i as int]]);
        }
        i = i + 1;
    }
    proof {
        assert(old(out)@ + src@.take(src@.len() as int) =~= old(out)@ + src@);
    }
}

/// Length of the maximal non-space prefix of `s`.
pub open spec fn token_len(s: Seq<char>) -> int
    decreases s.len(),
{
    if s.len() == 0 || is_space(s[0]) {
        0
    } else {
        1 + token_len(s.drop_first())
    }
}

pub proof fn lemma_token_len_bounds(s: Seq<char>)
    ensures
        0 <= token_len(s) <= s.len(),
    decreases s.len(),
{
    if s.len() == 0 || is_space(s[0]) {
    } else {
        lemma_token_len_bounds(s.drop_first());
    }
}

proof fn lemma_token_len_at(s: Seq<char>, k: int)
    requires
        0 <= k <= s.len(),
        forall|j: int| 0 <= j < k ==> !is_space(s[j]),
        k == s.len() || is_space(s[k]),
    ensures
        token_len(s) == k,
    decreases k,
{
    if k == 0 {
    } else {
        lemma_token_len_at(s.drop_first(), k - 1);
    }
}

/// The whitespace-delimited tokens of `s`, in order, without empties:
/// what `str::split_whitespace` yields.
pub open spec fn tokens(s: Seq<char>) -> Seq<Seq<char>>
    decreases s.len(),
    via tokens_decreases
{
    if s.len() == 0 {
        Seq::empty()
    } else if is_space(s[0]) {
        tokens(s.drop_first())
    } else {
        seq![s.take(token_len(s))] + tokens(s.skip(token_len(s)))
    }
}

#[via_fn]
proof fn tokens_decreases(s: Seq<char>) {
    lemma_token_len_bounds(s);
    if s.len() > 0 && !is_space(s[0]) {
        lemma_token_len_bounds(s.drop_first());
    }
}

/// The whitespace-delimited tokens of `s`.
pub fn tokens_vec(s: &Vec<char>) -> (r: Vec<Vec<char>>)
    ensures
        r.deep_view() == tokens(s@),
{
    let mut r: Vec<Vec<char>> = Vec::new();
    let mut p: usize = 0;
    proof {
        assert(s@.skip(0) =~= s@);
        assert(r.deep_view() + tokens(s@) =~~= tokens(s@));
    }
    while p < s.len()
        invariant
            p <= s@.len(),
            tokens(s@) == r.deep_view() + tokens(s@.skip(p as int)),
        decreases s@.len() - p,
    {
        if is_space_char(s[p]) {
            proof {
                let rest = s@.skip(p as int);
                assert(rest.drop_first() =~= s@.skip(p + 1));
                assert(tokens(rest) == tokens(s@.skip(p + 1)));
            }
            p = p + 1;
        } else {
            let ghost prev = r.deep_view();
            let start = p;
            let mut q: usize = p;
            while q < s.len() && !is_space_char(s[q])
                invariant
                    p <= q <= s@.len(),
                    forall|j: int| p <= j < q ==> !is_space(s@[j]),
                    q < s@.len() ==> !is_space(s@[p as int]),
                decreases s@.len() - q,
            {
                q = q + 1;
            }
            let tok = copy_range(s, start, q);
            r.push(tok);
            proof {
                let rest = s@.skip(p as int);
                assert(forall|j: int|
                    0 <= j < q - p ==> rest[j] == s@[p + j] && !is_space(rest[j]));
                if q < s@.len() {
                    assert(rest[q - p] == s@[q as int]);
                }
                lemma_token_len_at(rest, q - p);
                assert(rest.take(q - p) =~= s@.subrange(p as int, q as int));
                assert(rest.skip(q - p) =~= s@.skip(q as int));
                assert(tokens(rest) == seq![tok@] + tokens(s@.skip(q as int)));
                assert(r.deep_view() =~~= prev + seq![tok@]);
                assert((prev + seq![tok@]) + tokens(s@.skip(q as int)) =~~= prev + (seq![tok@]
                    + tokens(s@.skip(q as int))));
            }
            p = q;
        }
    }
    proof {
        assert(s@.skip(s@.len() as int) =~= Seq::<char>::empty());
        assert(r.deep_view() + Seq::<Seq<char>>::empty() =~~= r.deep_view());
    }
    r
}

/// Tokens joined by a single space.
pub open spec fn join_space(ts: Seq<Seq<char>>) -> Seq<char>
    decreases ts.len(),
{
    if ts.len() == 0 {
        Seq::empty()
    } else if ts.len() == 1 {
        ts[0]
    } else {
        join_space(ts.drop_last()) + seq![' '] + ts.last()
    }
}

/// Joins tokens with single spaces.
pub fn join_space_vec(ts: &Vec<Vec<char>>) -> (r: Vec<char>)
    ensures
        r@ == join_space(ts.deep_view()),
{
    let mut r: Vec<char> = Vec::new();
    let mut i: usize = 0;
    while i < ts.len()
        invariant
            i <= ts@.len(),
            r@ == join_space(ts.deep_view().take(i as int)),
        decreases ts@.len() - i,
    {
        if i > 0 {
            r.push(' ');
        }
        push_all(&mut r, &ts[i]);
        proof {
            let dv = ts.deep_view();
            assert(dv.take(i + 1).drop_last() =~~= dv.take(i as int));
            assert(dv.take(i + 1).last() == dv[i as int]);
            assert(dv[i as int] == ts@[i as int]@);
            if i == 0 {
                assert(join_space(dv.take(1)) == dv[0]);
                assert(r@ =~= Seq::<char>::empty() + ts@[0]@);
            }
        }
        i = i + 1;
    }
    proof {
        assert(ts.deep_view().take(ts.deep_view().len() as int) =~~= ts.deep_view());
    }
    r
}

/// Pieces joined by a fixed separator.
pub open spec fn join_with(ts: Seq<Seq<char>>, sep: Seq<char>) -> Seq<char>
    decreases ts.len(),
{
    if ts.len() == 0 {
        Seq::empty()
    } else if ts.len() == 1 {
        ts[0]
    } else {
        join_with(ts.drop_last(), sep) + sep + ts.last()
    }
}

/// Count of leading white-space characters.
pub open spec fn lead_spaces(s: Seq<char>) -> int
    decreases s.len(),
{
    if s.len() == 0 || !is_space(s[0]) {
        0
    } else {
        1 + lead_spaces(s.drop_first())
    }
}

/// Count of trailing white-space characters.
pub open spec fn trail_spaces(s: Seq<char>) -> int
    decreases s.len(),
{
    if s.len() == 0 || !is_space(s.last()) {
        0
    } else {
        1 + trail_spaces(s.drop_last())
    }
}

proof fn lemma_lead_spaces_at(s: Seq<char>, k: int)
    requires
        0 <= k <= s.len(),
        forall|j: int| 0 <= j < k ==> is_space(s[j]),
        k == s.len() || !is_space(s[k]),
    ensures
        lead_spaces(s) == k,
    decreases k,
{
    if k == 0 {
    } else {
        lemma_lead_spaces_at(s.drop_first(), k - 1);
    }
}

proof fn lemma_trail_spaces_at(s: Seq<char>, k: int)
    requires
        0 <= k <= s.len(),
        forall|j: int| s.len() - k <= j < s.len() ==> is_space(s[j]),
        k == s.len() || !is_space(s[s.len() - k - 1]),
    ensures
        trail_spaces(s) == k,
    decreases k,
{
    if k == 0 {
    } else {
        assert(forall|j: int|
            s.drop_last().len() - (k - 1) <= j < s.drop_last().len() ==> is_space(
                s.drop_last()[j],
            ));
        lemma_trail_spaces_at(s.drop_last(), k - 1);
    }
}

/// The leading white-space count is a count of leading spaces: everything
/// before it is space, and the character at it, if any, is not.
pub proof fn lemma_lead_spaces_props(s: Seq<char>)
    ensures
        0 <= lead_spaces(s) <= s.len(),
        forall|j: int| 0 <= j < lead_spaces(s) ==> is_space(s[j]),
        lead_spaces(s) < s.len() ==> !is_space(s[lead_spaces(s)]),
    decreases s.len(),
{
    if s.len() == 0 || !is_space(s[0]) {
    } else {
        lemma_lead_spaces_props(s.drop_first());
        assert(forall|j: int| 1 <= j < s.len() ==> s[j] == s.drop_first()[j - 1]);
    }
}

/// The trailing white-space count counts trailing spaces likewise.
pub proof fn lemma_trail_spaces_props(s: Seq<char>)
    ensures
        0 <= trail_spaces(s) <= s.len(),
        forall|j: int| s.len() - trail_spaces(s) <= j < s.len() ==> is_space(s[j]),
        trail_spaces(s) < s.len() ==> !is_space(s[s.len() - trail_spaces(s) - 1]),
    decreases s.len(),
{
    if s.len() == 0 || !is_space(s.last()) {
    } else {
        lemma_trail_spaces_props(s.drop_last());
        assert(forall|j: int| 0 <= j < s.len() - 1 ==> s[j] == s.drop_last()[j]);
    }
}

/// When the string is not all white space, the two counts leave a
/// non-empty well-formed middle.
pub proof fn lemma_trim_bounds(s: Seq<char>)
    ensures
        0 <= lead_spaces(s) <= s.len(),
        0 <= trail_spaces(s) <= s.len(),
        lead_spaces(s) < s.len() ==> lead_spaces(s) + trail_spaces(s) <= s.len(),
{
    lemma_lead_spaces_props(s);
    lemma_trail_spaces_props(s);
    if lead_spaces(s) < s.len() {
        if lead_spaces(s) + trail_spaces(s) > s.len() {
            assert(is_space(s[lead_spaces(s)]));
        }
    }
}

/// `s` with surrounding white space removed: the behaviour of `str::trim`
/// on the white-space characters above.
pub open spec fn trim_seq(s: Seq<char>) -> Seq<char> {
    if lead_spaces(s) == s.len() {
        Seq::empty()
    } else {
        s.subrange(lead_spaces(s), s.len() - trail_spaces(s))
    }
}

/// Removes surrounding white space.
pub fn trim_vec(s: &Vec<char>) -> (r: Vec<char>)
    ensures
        r@ == trim_seq(s@),
{
    let mut a: usize = 0;
    while a < s.len() && is_space_char(s[a])
        invariant
            a <= s@.len(),
            forall|j: int| 0 <= j < a ==> is_space(s@[j]),
        decreases s@.len() - a,
    {
        a = a + 1;
    }
    proof {
        lemma_lead_spaces_at(s@, a as int);
    }
    if a == s.len() {
        return Vec::new();
    }
    let mut b: usize = s.len();
    while b > a && is_space_char(s[b - 1])
        invariant
            a <= b <= s@.len(),
            forall|j: int| b <= j < s@.len() ==> is_space(s@[j]),
        decreases b,
    {
        b = b - 1;
    }
    proof {
        if b == a {
            assert(!is_space(s@[a as int]));
            assert(false);
        }
        assert(!is_space(s@[b - 1]));
        lemma_trail_spaces_at(s@, s@.len() - b);
    }
    copy_range(s, a, b)
}

/// Collects the characters of a string slice into a vector.
pub fn chars_vec(s: &str) -> (r: Vec<char>)
    ensures
        r@ == s@,
{
    broadcast use vstd::string::next_postcondition;
    broadcast use vstd::string::axiom_spec_iter;

    let mut r: Vec<char> = Vec::new();
    let mut it = s.chars();
    loop
        invariant
            it.obeys_prophetic_iter_laws(),
            it.decrease() is Some,
            r@ + it.remaining() == s@,
        ensures
            r@ + it.remaining() == s@,
            it.remaining().len() == 0,
        decreases it.decrease()->0,
    {
        match it.next() {
            Some(c) => {
                r.push(c);
            },
            None => {
                break ;
            },
        }
    }
    proof {
        assert(r@ =~= s@);
    }
    r
}

/// Relies on `String: FromIterator<char>`: collecting characters builds
/// the string of exactly those characters, in order.
#[verifier::external_body]
pub fn string_of(v: &Vec<char>) -> (r: String)
    ensures
        r@ == v@,
{
    v.iter().collect()
}

} // verus!
