//! Trimming, splitting and joining of character sequences, with the same
//! meaning as `str::trim`, `str::split_whitespace`, `str::split(char)` and
//! `[&str]::join(" ")`.
use vstd::prelude::*;
use crate::text::{
    contains_run, extend_chars, is_alpha_char, is_ascii_alpha, is_ascii_digit, is_whitespace,
    is_whitespace_char, no_ascii_digit, no_whitespace,
};

verus! {

// ---------------------------------------------------------------------------
// Trimming
// ---------------------------------------------------------------------------

/// Drop leading characters for which `is_whitespace` holds.
pub open spec fn trim_start_ws(s: Seq<char>) -> Seq<char>
    decreases s.len(),
{
    if s.len() > 0 && is_whitespace(s[0]) {
        trim_start_ws(s.drop_first())
    } else {
        s
    }
}

/// Drop trailing characters for which `is_whitespace` holds.
pub open spec fn trim_end_ws(s: Seq<char>) -> Seq<char>
    decreases s.len(),
{
    if s.len() > 0 && is_whitespace(s.last()) {
        trim_end_ws(s.drop_last())
    } else {
        s
    }
}

/// `str::trim`: white space removed from both ends.
pub open spec fn trim_ws(s: Seq<char>) -> Seq<char> {
    trim_end_ws(trim_start_ws(s))
}

/// Drop leading characters that are not ASCII letters.
pub open spec fn trim_start_nonalpha(s: Seq<char>) -> Seq<char>
    decreases s.len(),
{
    if s.len() > 0 && !is_ascii_alpha(s[0]) {
        trim_start_nonalpha(s.drop_first())
    } else {
        s
    }
}

/// Drop trailing characters that are not ASCII letters.
pub open spec fn trim_end_nonalpha(s: Seq<char>) -> Seq<char>
    decreases s.len(),
{
    if s.len() > 0 && !is_ascii_alpha(s.last()) {
        trim_end_nonalpha(s.drop_last())
    } else {
        s
    }
}

/// `str::trim_matches(|c| !c.is_ascii_alphabetic())`.
pub open spec fn trim_nonalpha(s: Seq<char>) -> Seq<char> {
    trim_end_nonalpha(trim_start_nonalpha(s))
}

proof fn lemma_trim_start_ws_skip(s: Seq<char>, i: int)
    requires
        0 <= i <= s.len(),
        forall|j: int| 0 <= j < i ==> is_whitespace(#[trigger] s[j]),
    ensures
        trim_start_ws(s) == trim_start_ws(s.skip(i)),
    decreases i,
{
    if i > 0 {
        assert(s.skip(1) =~= s.drop_first());
        lemma_trim_start_ws_skip(s.drop_first(), i - 1);
        assert(s.drop_first().skip(i - 1) =~= s.skip(i));
    } else {
        assert(s.skip(0) =~= s);
    }
}

proof fn lemma_trim_end_ws_take(s: Seq<char>, j: int)
    requires
        0 <= j <= s.len(),
        forall|k: int| j <= k < s.len() ==> is_whitespace(#[trigger] s[k]),
    ensures
        trim_end_ws(s) == trim_end_ws(s.take(j)),
    decreases s.len() - j,
{
    if j < s.len() {
        assert(s.drop_last().take(j) =~= s.take(j));
        lemma_trim_end_ws_take(s.drop_last(), j);
    } else {
        assert(s.take(j) =~= s);
    }
}

/// `str::trim`.
pub fn trim_chars(s: &Vec<char>) -> (out: Vec<char>)
    ensures
        out@ == trim_ws(s@),
{
    let mut i: usize = 0;
    while i < s.len() && is_whitespace_char(s[i])
        invariant
            i <= s.len(),
            forall|j: int| 0 <= j < i ==> is_whitespace(#[trigger] s@[j]),
        decreases s.len() - i,
    {
        i = i + 1;
    }
    proof {
        lemma_trim_start_ws_skip(s@, i as int);
    }
    let mut j: usize = s.len();
    while j > i && is_whitespace_char(s[j - 1])
        invariant
            i <= j <= s.len(),
            forall|k: int| j <= k < s.len() ==> is_whitespace(#[trigger] s@[k]),
        decreases j,
    {
        j = j - 1;
    }
    let ghost rest = s@.skip(i as int);
    proof {
        if i < s.len() {
            assert(!is_whitespace(rest[0]));
        }
        assert(trim_start_ws(rest) == rest);
        let m = (j - i) as int;
        assert forall|k: int| m <= k < rest.len() implies is_whitespace(#[trigger] rest[k]) by {
            assert(rest[k] == s@[k + i]);
        }
        lemma_trim_end_ws_take(rest, m);
        if m > 0 {
            assert(rest.take(m).last() == s@[j - 1]);
        }
        assert(trim_end_ws(rest.take(m)) == rest.take(m));
    }
    let mut out: Vec<char> = Vec::new();
    let mut k: usize = i;
    while k < j
        invariant
            i <= k <= j <= s.len(),
            out@ == s@.subrange(i as int, k as int),
        decreases j - k,
    {
        out.push(s[k]);
        k = k + 1;
        assert(out@ =~= s@.subrange(i as int, k as int));
    }
    assert(out@ =~= rest.take((j - i) as int));
    out
}

proof fn lemma_trim_start_nonalpha_skip(s: Seq<char>, i: int)
    requires
        0 <= i <= s.len(),
        forall|j: int| 0 <= j < i ==> !is_ascii_alpha(#[trigger] s[j]),
    ensures
        trim_start_nonalpha(s) == trim_start_nonalpha(s.skip(i)),
    decreases i,
{
    if i > 0 {
        assert(s.skip(1) =~= s.drop_first());
        lemma_trim_start_nonalpha_skip(s.drop_first(), i - 1);
        assert(s.drop_first().skip(i - 1) =~= s.skip(i));
    } else {
        assert(s.skip(0) =~= s);
    }
}

proof fn lemma_trim_end_nonalpha_take(s: Seq<char>, j: int)
    requires
        0 <= j <= s.len(),
        forall|k: int| j <= k < s.len() ==> !is_ascii_alpha(#[trigger] s[k]),
    ensures
        trim_end_nonalpha(s) == trim_end_nonalpha(s.take(j)),
    decreases s.len() - j,
{
    if j < s.len() {
        assert(s.drop_last().take(j) =~= s.take(j));
        lemma_trim_end_nonalpha_take(s.drop_last(), j);
    } else {
        assert(s.take(j) =~= s);
    }
}

/// `str::trim_matches(|c| !c.is_ascii_alphabetic())`.
pub fn trim_nonalpha_chars(s: &Vec<char>) -> (out: Vec<char>)
    ensures
        out@ == trim_nonalpha(s@),
{
    let mut i: usize = 0;
    while i < s.len() && !is_alpha_char(s[i])
        invariant
            i <= s.len(),
            forall|j: int| 0 <= j < i ==> !is_ascii_alpha(#[trigger] s@[j]),
        decreases s.len() - i,
    {
        i = i + 1;
    }
    proof {
        lemma_trim_start_nonalpha_skip(s@, i as int);
    }
    let mut j: usize = s.len();
    while j > i && !is_alpha_char(s[j - 1])
        invariant
            i <= j <= s.len(),
            forall|k: int| j <= k < s.len() ==> !is_ascii_alpha(#[trigger] s@[k]),
        decreases j,
    {
        j = j - 1;
    }
    let ghost rest = s@.skip(i as int);
    proof {
        if i < s.len() {
            assert(is_ascii_alpha(rest[0]));
        }
        assert(trim_start_nonalpha(rest) == rest);
        let m = (j - i) as int;
        assert forall|k: int| m <= k < rest.len() implies !is_ascii_alpha(#[trigger] rest[k]) by {
            assert(rest[k] == s@[k + i]);
        }
        lemma_trim_end_nonalpha_take(rest, m);
        if m > 0 {
            assert(rest.take(m).last() == s@[j - 1]);
        }
        assert(trim_end_nonalpha(rest.take(m)) == rest.take(m));
    }
    let mut out: Vec<char> = Vec::new();
    let mut k: usize = i;
    while k < j
        invariant
            i <= k <= j <= s.len(),
            out@ == s@.subrange(i as int, k as int),
        decreases j - k,
    {
        out.push(s[k]);
        k = k + 1;
        assert(out@ =~= s@.subrange(i as int, k as int));
    }
    assert(out@ =~= rest.take((j - i) as int));
    out
}

// ---------------------------------------------------------------------------
// Splitting on white space
// ---------------------------------------------------------------------------

/// The pending token `cur`, if it is not empty, as a one-element sequence.
pub open spec fn flush(cur: Seq<char>) -> Seq<Seq<char>> {
    if cur.len() > 0 {
        seq![cur]
    } else {
        seq![]
    }
}

/// Tokens of `cur + s` when `cur` holds no white space: the maximal runs of
/// non-white-space characters, in order.
pub open spec fn split_ws_from(cur: Seq<char>, s: Seq<char>) -> Seq<Seq<char>>
    decreases s.len(),
{
    if s.len() == 0 {
        flush(cur)
    } else if is_whitespace(s[0]) {
        flush(cur) + split_ws_from(seq![], s.drop_first())
    } else {
        split_ws_from(cur.push(s[0]), s.drop_first())
    }
}

/// `str::split_whitespace`.
pub open spec fn split_ws(s: Seq<char>) -> Seq<Seq<char>> {
    split_ws_from(seq![], s)
}

/// `str::split_whitespace`.
pub fn split_whitespace_chars(s: &Vec<char>) -> (out: Vec<Vec<char>>)
    ensures
        out@.map_values(|t: Vec<char>| t@) == split_ws(s@),
{
    let mut out: Vec<Vec<char>> = Vec::new();
    let mut cur: Vec<char> = Vec::new();
    let mut i: usize = 0;
    assert(s@.skip(0) =~= s@);
    assert(out@.map_values(|t: Vec<char>| t@) =~= Seq::<Seq<char>>::empty());
    while i < s.len()
        invariant
            i <= s.len(),
            out@.map_values(|t: Vec<char>| t@) + split_ws_from(cur@, s@.skip(i as int))
                == split_ws(s@),
        decreases s.len() - i,
    {
        let ghost old_out = out@.map_values(|t: Vec<char>| t@);
        let ghost prev_cur = cur@;
        let ghost rest = s@.skip(i as int);
        assert(rest.drop_first() =~= s@.skip(i + 1));
        let c = s[i];
        if is_whitespace_char(c) {
            if cur.len() > 0 {
                let tok = cur;
                cur = Vec::new();
                out.push(tok);
                assert(out@.map_values(|t: Vec<char>| t@) =~= old_out + flush(prev_cur));
            } else {
                assert(out@.map_values(|t: Vec<char>| t@) =~= old_out + flush(prev_cur));
            }
            assert(split_ws_from(prev_cur, rest) == flush(prev_cur) + split_ws_from(
                seq![],
                rest.drop_first(),
            ));
            assert(cur@ =~= Seq::<char>::empty());
            assert(old_out + (flush(prev_cur) + split_ws_from(cur@, rest.drop_first())) =~= (
            old_out + flush(prev_cur)) + split_ws_from(cur@, rest.drop_first()));
        } else {
            cur.push(c);
            assert(split_ws_from(prev_cur, rest) == split_ws_from(prev_cur.push(c), rest.drop_first()));
        }
        i = i + 1;
    }
    let ghost old_out = out@.map_values(|t: Vec<char>| t@);
    assert(s@.skip(i as int) =~= Seq::<char>::empty());
    if cur.len() > 0 {
        let ghost prev_cur = cur@;
        out.push(cur);
        assert(out@.map_values(|t: Vec<char>| t@) =~= old_out + flush(prev_cur));
    } else {
        assert(old_out + flush(cur@) =~= old_out);
    }
    out
}

pub proof fn lemma_split_ws_at_space(cur: Seq<char>, a: Seq<char>, c: char, b: Seq<char>)
    requires
        is_whitespace(c),
    ensures
        split_ws_from(cur, a + seq![c] + b) == split_ws_from(cur, a) + split_ws(b),
    decreases a.len(),
{
    let whole = a + seq![c] + b;
    if a.len() == 0 {
        assert(whole.drop_first() =~= b);
        assert(split_ws_from(cur, a) == flush(cur));
    } else {
        assert(whole.drop_first() =~= a.drop_first() + seq![c] + b);
        assert(whole[0] == a[0]);
        if is_whitespace(a[0]) {
            lemma_split_ws_at_space(seq![], a.drop_first(), c, b);
            assert(flush(cur) + (split_ws_from(seq![], a.drop_first()) + split_ws(b)) =~= (flush(
                cur,
            ) + split_ws_from(seq![], a.drop_first())) + split_ws(b));
        } else {
            lemma_split_ws_at_space(cur.push(a[0]), a.drop_first(), c, b);
        }
    }
}

pub proof fn lemma_split_ws_no_space(cur: Seq<char>, t: Seq<char>)
    requires
        no_whitespace(t),
    ensures
        split_ws_from(cur, t) == flush(cur + t),
    decreases t.len(),
{
    if t.len() == 0 {
        assert(cur + t =~= cur);
    } else {
        assert(!is_whitespace(t[0]));
        assert(no_whitespace(t.drop_first())) by {
            assert forall|i: int| 0 <= i < t.drop_first().len() implies !is_whitespace(
                #[trigger] t.drop_first()[i],
            ) by {
                assert(t.drop_first()[i] == t[i + 1]);
            }
        }
        lemma_split_ws_no_space(cur.push(t[0]), t.drop_first());
        assert(cur.push(t[0]) + t.drop_first() =~= cur + t);
    }
}

/// Splitting `a + " " + t + " " + b`, where `t` is a non-empty run without
/// white space, yields `t` as a token right after the tokens of `a`.
pub proof fn lemma_split_ws_isolated_token(a: Seq<char>, t: Seq<char>, b: Seq<char>)
    requires
        t.len() > 0,
        no_whitespace(t),
    ensures
        split_ws(a + seq![' '] + t + seq![' '] + b) == split_ws(a) + seq![t] + split_ws(b),
{
    let rest = t + seq![' '] + b;
    assert(a + seq![' '] + t + seq![' '] + b =~= a + seq![' '] + rest);
    lemma_split_ws_at_space(seq![], a, ' ', rest);
    lemma_split_ws_at_space(seq![], t, ' ', b);
    lemma_split_ws_no_space(seq![], t);
    assert(Seq::<char>::empty() + t =~= t);
    assert(split_ws(a) + (seq![t] + split_ws(b)) =~= split_ws(a) + seq![t] + split_ws(b));
}

/// Every token of a digit-free text is digit-free.
pub proof fn lemma_split_ws_no_digit(cur: Seq<char>, s: Seq<char>)
    requires
        no_ascii_digit(cur),
        no_ascii_digit(s),
    ensures
        forall|k: int|
            0 <= k < split_ws_from(cur, s).len() ==> no_ascii_digit(
                #[trigger] split_ws_from(cur, s)[k],
            ),
    decreases s.len(),
{
    if s.len() == 0 {
        assert forall|k: int| 0 <= k < split_ws_from(cur, s).len() implies no_ascii_digit(
            #[trigger] split_ws_from(cur, s)[k],
        ) by {
            assert(split_ws_from(cur, s)[k] == cur);
        }
    } else {
        assert(no_ascii_digit(s.drop_first())) by {
            assert forall|i: int| 0 <= i < s.drop_first().len() implies !is_ascii_digit(
                #[trigger] s.drop_first()[i],
            ) by {
                assert(s.drop_first()[i] == s[i + 1]);
            }
        }
        if is_whitespace(s[0]) {
            lemma_split_ws_no_digit(seq![], s.drop_first());
            let tail = split_ws_from(seq![], s.drop_first());
            assert(split_ws_from(cur, s) == flush(cur) + tail);
            assert forall|k: int|
                0 <= k < split_ws_from(cur, s).len() implies no_ascii_digit(
                #[trigger] split_ws_from(cur, s)[k],
            ) by {
                if k < flush(cur).len() {
                    assert(split_ws_from(cur, s)[k] == cur);
                } else {
                    assert(split_ws_from(cur, s)[k] == tail[k - flush(cur).len()]);
                }
            }
        } else {
            assert(no_ascii_digit(cur.push(s[0]))) by {
                assert forall|i: int| 0 <= i < cur.push(s[0]).len() implies !is_ascii_digit(
                    #[trigger] cur.push(s[0])[i],
                ) by {
                    if i < cur.len() {
                        assert(cur.push(s[0])[i] == cur[i]);
                    }
                }
            }
            lemma_split_ws_no_digit(cur.push(s[0]), s.drop_first());
            assert(split_ws_from(cur, s) == split_ws_from(cur.push(s[0]), s.drop_first()));
        }
    }
}

// ---------------------------------------------------------------------------
// Splitting on a separator character
// ---------------------------------------------------------------------------

/// `str::split(sep)`: the pieces between occurrences of `sep`; there is one
/// more piece than there are separators.
pub open spec fn split_on(s: Seq<char>, sep: char) -> Seq<Seq<char>>
    decreases s.len(),
{
    if s.len() == 0 {
        seq![Seq::<char>::empty()]
    } else {
        let p = split_on(s.drop_last(), sep);
        if s.last() == sep {
            p.push(Seq::<char>::empty())
        } else {
            p.update(p.len() - 1, p.last().push(s.last()))
        }
    }
}

pub proof fn lemma_split_on_nonempty(s: Seq<char>, sep: char)
    ensures
        split_on(s, sep).len() >= 1,
    decreases s.len(),
{
    if s.len() > 0 {
        lemma_split_on_nonempty(s.drop_last(), sep);
    }
}

/// `str::split(sep)`.
pub fn split_on_chars(s: &Vec<char>, sep: char) -> (out: Vec<Vec<char>>)
    ensures
        out@.map_values(|t: Vec<char>| t@) == split_on(s@, sep),
{
    let mut done: Vec<Vec<char>> = Vec::new();
    let mut cur: Vec<char> = Vec::new();
    let mut i: usize = 0;
    assert(s@.take(0) =~= Seq::<char>::empty());
    assert(done@.map_values(|t: Vec<char>| t@).push(cur@) =~= split_on(s@.take(0), sep));
    while i < s.len()
        invariant
            i <= s.len(),
            done@.map_values(|t: Vec<char>| t@).push(cur@) == split_on(s@.take(i as int), sep),
        decreases s.len() - i,
    {
        let ghost prev = done@.map_values(|t: Vec<char>| t@);
        let ghost prev_cur = cur@;
        let c = s[i];
        assert(s@.take(i + 1).drop_last() =~= s@.take(i as int));
        if c == sep {
            let tok = cur;
            cur = Vec::new();
            done.push(tok);
            assert(done@.map_values(|t: Vec<char>| t@) =~= prev.push(prev_cur));
            assert(done@.map_values(|t: Vec<char>| t@).push(cur@) =~= prev.push(prev_cur).push(
                Seq::<char>::empty(),
            ));
        } else {
            cur.push(c);
            assert(done@.map_values(|t: Vec<char>| t@).push(cur@) =~= prev.push(prev_cur).update(
                prev.len() as int,
                prev_cur.push(c),
            ));
        }
        i = i + 1;
    }
    assert(s@.take(s.len() as int) =~= s@);
    let ghost prev = done@.map_values(|t: Vec<char>| t@);
    let ghost last = cur@;
    done.push(cur);
    assert(done@.map_values(|t: Vec<char>| t@) =~= prev.push(last));
    done
}

// ---------------------------------------------------------------------------
// Joining with a single space
// ---------------------------------------------------------------------------

/// `words.join(" ")`.
pub open spec fn join_ws(ws: Seq<Seq<char>>) -> Seq<char>
    decreases ws.len(),
{
    if ws.len() == 0 {
        seq![]
    } else if ws.len() == 1 {
        ws[0]
    } else {
        join_ws(ws.drop_last()) + seq![' '] + ws.last()
    }
}

/// `words.join(" ")`.
pub fn join_space(ws: &Vec<Vec<char>>) -> (out: Vec<char>)
    ensures
        out@ == join_ws(ws@.map_values(|t: Vec<char>| t@)),
{
    let ghost all = ws@.map_values(|t: Vec<char>| t@);
    let mut out: Vec<char> = Vec::new();
    if ws.len() == 0 {
        return out;
    }
    extend_chars(&mut out, &ws[0]);
    let mut i: usize = 1;
    assert(all.take(1).drop_last() =~= Seq::<Seq<char>>::empty());
    assert(out@ =~= join_ws(all.take(1)));
    while i < ws.len()
        invariant
            1 <= i <= ws.len(),
            all == ws@.map_values(|t: Vec<char>| t@),
            out@ == join_ws(all.take(i as int)),
        decreases ws.len() - i,
    {
        out.push(' ');
        extend_chars(&mut out, &ws[i]);
        assert(all.take(i + 1).drop_last() =~= all.take(i as int));
        i = i + 1;
    }
    assert(all.take(ws.len() as int) =~= all);
    out
}

pub proof fn lemma_join_no_digit(ws: Seq<Seq<char>>)
    requires
        forall|k: int| 0 <= k < ws.len() ==> no_ascii_digit(#[trigger] ws[k]),
    ensures
        no_ascii_digit(join_ws(ws)),
    decreases ws.len(),
{
    if ws.len() > 1 {
        let init = ws.drop_last();
        assert forall|k: int| 0 <= k < init.len() implies no_ascii_digit(#[trigger] init[k]) by {
            assert(init[k] == ws[k]);
        }
        lemma_join_no_digit(init);
        let j = join_ws(ws);
        let a = join_ws(init);
        assert(no_ascii_digit(ws[ws.len() - 1]));
        assert forall|i: int| 0 <= i < j.len() implies !is_ascii_digit(#[trigger] j[i]) by {
            if i < a.len() {
                assert(j[i] == a[i]);
            } else if i == a.len() {
                assert(j[i] == ' ');
            } else {
                assert(j[i] == ws.last()[i - a.len() - 1]);
            }
        }
    } else if ws.len() == 1 {
        assert(no_ascii_digit(ws[0]));
    }
}

/// Every word occurs, as a contiguous run, in the joined text.
pub proof fn lemma_join_contains(ws: Seq<Seq<char>>, k: int)
    requires
        0 <= k < ws.len(),
    ensures
        contains_run(join_ws(ws), ws[k]),
    decreases ws.len(),
{
    let j = join_ws(ws);
    if ws.len() == 1 {
        let p: int = 0;
        assert(j.subrange(p, p + ws[k].len()) =~= ws[k]);
        assert(contains_run(j, ws[k]));
    } else if k == ws.len() - 1 {
        let p = j.len() - ws[k].len();
        assert(j.subrange(p, p + ws[k].len()) =~= ws[k]);
        assert(contains_run(j, ws[k]));
    } else {
        let init = ws.drop_last();
        lemma_join_contains(init, k);
        assert(init[k] == ws[k]);
        let a = join_ws(init);
        let p = choose|p: int|
            0 <= p && p + ws[k].len() <= a.len() && #[trigger] a.subrange(p, p + ws[k].len())
                == ws[k];
        assert(j.subrange(p, p + ws[k].len()) =~= a.subrange(p, p + ws[k].len()));
        assert(contains_run(j, ws[k]));
    }
}

/// A run that contains `t + u` contains `t`.
pub proof fn lemma_contains_prefix(h: Seq<char>, t: Seq<char>, u: Seq<char>)
    requires
        contains_run(h, t + u),
    ensures
        contains_run(h, t),
{
    let p = choose|p: int|
        0 <= p && p + (t + u).len() <= h.len() && #[trigger] h.subrange(p, p + (t + u).len()) == t
            + u;
    assert(h.subrange(p, p + t.len()) =~= (t + u).subrange(0, t.len() as int));
    assert((t + u).subrange(0, t.len() as int) =~= t);
}

} // verus!
