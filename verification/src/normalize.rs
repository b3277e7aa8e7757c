//! Trailing-comma normalization and the cross-line comma fix: the two final
//! cleanup steps of the Content rewrite pipeline, together with line
//! splitting and trimming helpers shared with the Inspect translator.

use vstd::prelude::*;
use crate::chars::{is_ws, ws_run, scan_ws, ws_char, chars_eq, push_all, copy_range};
use crate::rewrite::step_to;

verus! {

// ---------------------------------------------------------------------------
// Comma-before-close collapse: `,` + whitespace + a closing delimiter
// becomes the bare delimiter.
// ---------------------------------------------------------------------------

/// Position of the candidate closing delimiter after the `,` at `i`.
pub open spec fn cc_end(s: Seq<char>, i: int) -> int {
    i + 1 + ws_run(s, i + 1)
}

/// Whether `,` + whitespace + `close` stands at `i`.
pub open spec fn cc_match(s: Seq<char>, close: char, i: int) -> bool {
    0 <= i < s.len() && s[i] == ',' && cc_end(s, i) < s.len() && s[cc_end(s, i)] == close
}

/// The text from `i` on, with every `,` + whitespace + `close` collapsed to
/// `close`.
pub open spec fn cc_from(s: Seq<char>, close: char, i: int) -> Seq<char>
    decreases s.len() - i,
{
    if !(0 <= i < s.len()) {
        Seq::empty()
    } else if cc_match(s, close, i) {
        seq![close] + cc_from(s, close, step_to(s, i, cc_end(s, i) + 1))
    } else {
        seq![s[i]] + cc_from(s, close, i + 1)
    }
}

pub open spec fn cc_spec(s: Seq<char>, close: char) -> Seq<char> {
    cc_from(s, close, 0)
}

/// Collapses every `,` + whitespace + `close` to the bare `close`.
pub fn collapse_comma_close(s: &Vec<char>, close: char) -> (r: Vec<char>)
    ensures
        r@ == cc_spec(s@, close),
{
    let slen: usize = s.len();
    let mut out: Vec<char> = Vec::new();
    let mut i: usize = 0;
    while i < slen
        invariant
            slen == s@.len(),
            0 <= i <= slen,
            cc_spec(s@, close) == out@ + cc_from(s@, close, i as int),
        decreases slen - i,
    {
        let ghost prev = out@;
        let mut matched: bool = false;
        let mut nxt: usize = i + 1;
        if s[i] == ',' {
            let e: usize = i + 1 + scan_ws(s, i + 1);
            if e < slen && s[e] == close {
                matched = true;
                nxt = e + 1;
                assert(e == cc_end(s@, i as int));
                assert(nxt == step_to(s@, i as int, cc_end(s@, i as int) + 1));
            }
        }
        if matched {
            assert(cc_match(s@, close, i as int));
            out.push(close);
            proof {
                assert(prev.push(close) =~= prev + seq![close]);
                assert(prev + (seq![close] + cc_from(s@, close, nxt as int)) =~= (prev
                    + seq![close]) + cc_from(s@, close, nxt as int));
            }
        } else {
            assert(!cc_match(s@, close, i as int));
            out.push(s[i]);
            proof {
                assert(prev.push(s@[i as int]) =~= prev + seq![s@[i as int]]);
                assert(prev + (seq![s@[i as int]] + cc_from(s@, close, i + 1)) =~= (prev
                    + seq![s@[i as int]]) + cc_from(s@, close, i + 1));
            }
            nxt = i + 1;
        }
        i = nxt;
    }
    proof {
        assert(out@ + Seq::<char>::empty() =~= out@);
    }
    out
}

// ---------------------------------------------------------------------------
// Comma-only line deletion: a line break, whitespace, a lone comma and the
// whitespace up to the last following line break collapse to one line break.
// ---------------------------------------------------------------------------

/// Position after the last line break inside the whitespace run starting at
/// `p`, or -1 when that run holds no line break.
pub open spec fn last_nl_end(s: Seq<char>, p: int) -> int
    decreases s.len() - p,
{
    if 0 <= p < s.len() && is_ws(s[p]) {
        let rest = last_nl_end(s, p + 1);
        if rest >= 0 {
            rest
        } else if s[p] == '\n' {
            p + 1
        } else {
            -1
        }
    } else {
        -1
    }
}

pub proof fn lemma_last_nl_end_bounds(s: Seq<char>, p: int)
    requires
        0 <= p,
    ensures
        last_nl_end(s, p) == -1 || (p + 1 <= last_nl_end(s, p) <= s.len()),
    decreases s.len() - p,
{
    if 0 <= p < s.len() && is_ws(s[p]) {
        lemma_last_nl_end_bounds(s, p + 1);
    }
}

/// Position of the candidate comma after the line break at `i`.
pub open spec fn cl_comma(s: Seq<char>, i: int) -> int {
    i + 1 + ws_run(s, i + 1)
}

/// Whether a line holding only a comma starts at the line break at `i`.
pub open spec fn cl_match(s: Seq<char>, i: int) -> bool {
    &&& 0 <= i < s.len()
    &&& s[i] == '\n'
    &&& cl_comma(s, i) < s.len()
    &&& s[cl_comma(s, i)] == ','
    &&& last_nl_end(s, cl_comma(s, i) + 1) >= 0
}

/// The text from `i` on, with every comma-only line deleted.
pub open spec fn cl_from(s: Seq<char>, i: int) -> Seq<char>
    decreases s.len() - i,
{
    if !(0 <= i < s.len()) {
        Seq::empty()
    } else if cl_match(s, i) {
        seq!['\n'] + cl_from(s, step_to(s, i, last_nl_end(s, cl_comma(s, i) + 1)))
    } else {
        seq![s[i]] + cl_from(s, i + 1)
    }
}

pub open spec fn cl_spec(s: Seq<char>) -> Seq<char> {
    cl_from(s, 0)
}

/// Finds the position after the last line break in the whitespace run at `p`.
fn scan_last_nl(s: &Vec<char>, p: usize) -> (r: Option<usize>)
    requires
        p <= s@.len(),
    ensures
        match r {
            Some(q) => q == last_nl_end(s@, p as int) && p < q <= s@.len(),
            None => last_nl_end(s@, p as int) == -1,
        },
{
    let slen: usize = s.len();
    let mut j: usize = p;
    let mut last: Option<usize> = None;
    while j < slen && ws_char(s[j])
        invariant
            slen == s@.len(),
            p <= j <= slen,
            match last {
                Some(q) => p < q <= j && last_nl_end(s@, p as int) == if last_nl_end(
                    s@,
                    j as int,
                ) >= 0 {
                    last_nl_end(s@, j as int)
                } else {
                    q as int
                },
                None => last_nl_end(s@, p as int) == last_nl_end(s@, j as int),
            },
        decreases slen - j,
    {
        if s[j] == '\n' {
            last = Some(j + 1);
        }
        j = j + 1;
    }
    proof {
        assert(last_nl_end(s@, j as int) == -1);
    }
    last
}

/// Deletes every line that holds only a comma.
pub fn delete_comma_lines(s: &Vec<char>) -> (r: Vec<char>)
    ensures
        r@ == cl_spec(s@),
{
    let slen: usize = s.len();
    let mut out: Vec<char> = Vec::new();
    let mut i: usize = 0;
    while i < slen
        invariant
            slen == s@.len(),
            0 <= i <= slen,
            cl_spec(s@) == out@ + cl_from(s@, i as int),
        decreases slen - i,
    {
        let ghost prev = out@;
        let mut matched: bool = false;
        let mut nxt: usize = i + 1;
        if s[i] == '\n' {
            let k: usize = i + 1 + scan_ws(s, i + 1);
            if k < slen && s[k] == ',' {
                match scan_last_nl(s, k + 1) {
                    Some(q) => {
                        matched = true;
                        nxt = q;
                        assert(k == cl_comma(s@, i as int));
                        assert(nxt == step_to(
                            s@,
                            i as int,
                            last_nl_end(s@, cl_comma(s@, i as int) + 1),
                        ));
                    },
                    None => {
                    },
                }
            }
        }
        if matched {
            assert(cl_match(s@, i as int));
            out.push('\n');
            proof {
                assert(prev.push('\n') =~= prev + seq!['\n']);
                assert(prev + (seq!['\n'] + cl_from(s@, nxt as int)) =~= (prev + seq!['\n'])
                    + cl_from(s@, nxt as int));
            }
        } else {
            assert(!cl_match(s@, i as int));
            out.push(s[i]);
            proof {
                assert(prev.push(s@[i as int]) =~= prev + seq![s@[i as int]]);
                assert(prev + (seq![s@[i as int]] + cl_from(s@, i + 1)) =~= (prev
                    + seq![s@[i as int]]) + cl_from(s@, i + 1));
            }
            nxt = i + 1;
        }
        i = nxt;
    }
    proof {
        assert(out@ + Seq::<char>::empty() =~= out@);
    }
    out
}

// ---------------------------------------------------------------------------
// Pass 9: the three collapses above, repeated until nothing changes.
// ---------------------------------------------------------------------------

/// One round of trailing-comma cleanup: collapse before `}`, before `]`, then
/// delete comma-only lines.
pub open spec fn p9_step(s: Seq<char>) -> Seq<char> {
    cl_spec(cc_spec(cc_spec(s, '}'), ']'))
}

/// One round never lengthens the text, and a round that changed it shortened
/// it.
pub proof fn lemma_cc_len(s: Seq<char>, close: char, i: int)
    requires
        0 <= i <= s.len(),
    ensures
        cc_from(s, close, i).len() <= s.len() - i,
        cc_from(s, close, i) == s.subrange(i, s.len() as int) || cc_from(s, close, i).len() < s.len()
            - i,
    decreases s.len() - i,
{
    if !(0 <= i < s.len()) {
        assert(s.subrange(i, s.len() as int) =~= Seq::<char>::empty());
    } else if cc_match(s, close, i) {
        let nxt = step_to(s, i, cc_end(s, i) + 1);
        lemma_cc_len(s, close, nxt);
    } else {
        lemma_cc_len(s, close, i + 1);
        if cc_from(s, close, i + 1) == s.subrange(i + 1, s.len() as int) {
            assert(seq![s[i]] + s.subrange(i + 1, s.len() as int) =~= s.subrange(
                i,
                s.len() as int,
            ));
        }
    }
}

pub proof fn lemma_cl_len(s: Seq<char>, i: int)
    requires
        0 <= i <= s.len(),
    ensures
        cl_from(s, i).len() <= s.len() - i,
        cl_from(s, i) == s.subrange(i, s.len() as int) || cl_from(s, i).len() < s.len() - i,
    decreases s.len() - i,
{
    if !(0 <= i < s.len())  {
        assert(s.subrange(i, s.len() as int) =~= Seq::<char>::empty());
    } else if cl_match(s, i) {
        lemma_last_nl_end_bounds(s, cl_comma(s, i) + 1);
        let nxt = step_to(s, i, last_nl_end(s, cl_comma(s, i) + 1));
        lemma_cl_len(s, nxt);
    } else {
        lemma_cl_len(s, i + 1);
        if cl_from(s, i + 1) == s.subrange(i + 1, s.len() as int) {
            assert(seq![s[i]] + s.subrange(i + 1, s.len() as int) =~= s.subrange(
                i,
                s.len() as int,
            ));
        }
    }
}

pub proof fn lemma_p9_step_len(s: Seq<char>)
    ensures
        p9_step(s).len() <= s.len(),
        p9_step(s) != s ==> p9_step(s).len() < s.len(),
{
    let t1 = cc_spec(s, '}');
    let t2 = cc_spec(t1, ']');
    let t3 = cl_spec(t2);
    lemma_cc_len(s, '}', 0);
    lemma_cc_len(t1, ']', 0);
    lemma_cl_len(t2, 0);
    assert(s.subrange(0, s.len() as int) =~= s);
    assert(t1.subrange(0, t1.len() as int) =~= t1);
    assert(t2.subrange(0, t2.len() as int) =~= t2);
}

/// Trailing-comma normalization: one round of cleanup, repeated until the
/// text no longer changes.
pub open spec fn p9_spec(s: Seq<char>) -> Seq<char>
    decreases s.len(),
    via p9_dec
{
    if p9_step(s) == s {
        s
    } else {
        p9_spec(p9_step(s))
    }
}

#[via_fn]
proof fn p9_dec(s: Seq<char>) {
    lemma_p9_step_len(s);
}

/// The result of trailing-comma normalization is a fixed point: running the
/// normalization again changes nothing. This is the idempotence law for the
/// pass.
pub proof fn lemma_p9_idempotent(s: Seq<char>)
    ensures
        p9_spec(p9_spec(s)) == p9_spec(s),
    decreases s.len(),
{
    if p9_step(s) == s {
    } else {
        lemma_p9_step_len(s);
        lemma_p9_idempotent(p9_step(s));
    }
}

/// Applies one round of trailing-comma cleanup.
pub fn p9_round(s: &Vec<char>) -> (r: Vec<char>)
    ensures
        r@ == p9_step(s@),
{
    let t1 = collapse_comma_close(s, '}');
    let t2 = collapse_comma_close(&t1, ']');
    delete_comma_lines(&t2)
}

/// Normalizes trailing commas: repeats the cleanup round until the text no
/// longer changes.
pub fn normalize_commas(s: &Vec<char>) -> (r: Vec<char>)
    ensures
        r@ == p9_spec(s@),
{
    let mut cur = copy_range(s, 0, s.len());
    proof {
        assert(s@.subrange(0, s@.len() as int) =~= s@);
    }
    loop
        invariant
            p9_spec(s@) == p9_spec(cur@),
        decreases cur@.len(),
    {
        let t = p9_round(&cur);
        if chars_eq(&t, &cur) {
            return cur;
        }
        proof {
            lemma_p9_step_len(cur@);
        }
        cur = t;
    }
}

// ---------------------------------------------------------------------------
// Lines: splitting at line breaks, and trimming.
// ---------------------------------------------------------------------------

/// Distance from `i` to the next line break (or to the end of the text).
pub open spec fn nl_dist(s: Seq<char>, i: int) -> nat
    decreases s.len() - i,
{
    if 0 <= i < s.len() && s[i] != '\n' {
        1 + nl_dist(s, i + 1)
    } else {
        0
    }
}

/// The lines of the text from `i` on, split at `\n`; the final line break, if
/// any, ends the last line rather than opening an empty one.
pub open spec fn line_split(s: Seq<char>, i: int) -> Seq<Seq<char>>
    decreases s.len() - i + 1,
{
    if !(0 <= i < s.len()) {
        Seq::empty()
    } else {
        let e = if i + nl_dist(s, i) <= s.len() {
            i + nl_dist(s, i) as int
        } else {
            s.len() as int
        };
        seq![s.subrange(i, e)] + line_split(s, e + 1)
    }
}

/// The line with its trailing whitespace removed.
pub open spec fn trim_end_sp(l: Seq<char>) -> Seq<char>
    decreases l.len(),
{
    if l.len() > 0 && is_ws(l[l.len() - 1]) {
        trim_end_sp(l.drop_last())
    } else {
        l
    }
}

/// The line with its leading whitespace removed.
pub open spec fn trim_start_sp(l: Seq<char>) -> Seq<char>
    decreases l.len(),
{
    if l.len() > 0 && is_ws(l[0]) {
        trim_start_sp(l.subrange(1, l.len() as int))
    } else {
        l
    }
}

/// The line with surrounding whitespace removed.
pub open spec fn trim_sp(l: Seq<char>) -> Seq<char> {
    trim_end_sp(trim_start_sp(l))
}

/// Measures the line without its trailing whitespace.
pub fn trim_end_idx(l: &Vec<char>) -> (j: usize)
    ensures
        j <= l@.len(),
        l@.subrange(0, j as int) == trim_end_sp(l@),
        j > 0 ==> !is_ws(l@[j - 1]),
{
    let mut j: usize = l.len();
    proof {
        assert(l@.subrange(0, l@.len() as int) =~= l@);
    }
    while j > 0 && ws_char(l[j - 1])
        invariant
            0 <= j <= l@.len(),
            trim_end_sp(l@) == trim_end_sp(l@.subrange(0, j as int)),
        decreases j,
    {
        proof {
            assert(l@.subrange(0, j as int).drop_last() =~= l@.subrange(0, j - 1));
        }
        j = j - 1;
    }
    proof {
        if j > 0 {
            assert(l@.subrange(0, j as int)[j - 1] == l@[j - 1]);
        }
        assert(trim_end_sp(l@.subrange(0, j as int)) == l@.subrange(0, j as int));
    }
    j
}

/// Measures the trimmed span of the line: `l[a..b]` is the line without
/// surrounding whitespace.
pub fn trim_idx(l: &Vec<char>) -> (r: (usize, usize))
    ensures
        r.0 <= r.1 <= l@.len(),
        l@.subrange(r.0 as int, r.1 as int) == trim_sp(l@),
{
    let mut a: usize = 0;
    let llen: usize = l.len();
    proof {
        assert(l@.subrange(0, l@.len() as int) =~= l@);
    }
    while a < llen && ws_char(l[a])
        invariant
            llen == l@.len(),
            0 <= a <= llen,
            trim_start_sp(l@) == trim_start_sp(l@.subrange(a as int, llen as int)),
        decreases llen - a,
    {
        proof {
            assert(l@.subrange(a as int, llen as int).subrange(
                1,
                l@.subrange(a as int, llen as int).len() as int,
            ) =~= l@.subrange(a + 1, llen as int));
        }
        a = a + 1;
    }
    proof {
        if a < llen {
            assert(l@.subrange(a as int, llen as int)[0] == l@[a as int]);
        }
        assert(trim_start_sp(l@.subrange(a as int, llen as int)) == l@.subrange(
            a as int,
            llen as int,
        ));
    }
    let mut b: usize = llen;
    while b > a && ws_char(l[b - 1])
        invariant
            llen == l@.len(),
            0 <= a <= b <= llen,
            trim_end_sp(l@.subrange(a as int, llen as int)) == trim_end_sp(
                l@.subrange(a as int, b as int),
            ),
        decreases b,
    {
        proof {
            assert(l@.subrange(a as int, b as int).drop_last() =~= l@.subrange(a as int, b - 1));
            assert(l@.subrange(a as int, b as int)[b - a - 1] == l@[b - 1]);
        }
        b = b - 1;
    }
    proof {
        if b > a {
            assert(l@.subrange(a as int, b as int)[b - a - 1] == l@[b - 1]);
        }
        assert(trim_end_sp(l@.subrange(a as int, b as int)) == l@.subrange(a as int, b as int));
    }
    (a, b)
}

/// Measures the distance from `i` to the next line break.
pub fn scan_to_nl(s: &Vec<char>, i: usize) -> (r: usize)
    requires
        i <= s@.len(),
    ensures
        r == nl_dist(s@, i as int),
        i + r <= s@.len(),
{
    let mut j: usize = i;
    while j < s.len() && s[j] != '\n'
        invariant
            i <= j <= s@.len(),
            nl_dist(s@, i as int) == (j - i) + nl_dist(s@, j as int),
        decreases s@.len() - j,
    {
        j = j + 1;
    }
    j - i
}

/// The views of a vector of lines.
pub open spec fn views_of(q: Seq<Vec<char>>) -> Seq<Seq<char>> {
    Seq::new(q.len(), |k: int| q[k]@)
}

/// Splits the text into its lines.
pub fn split_lines(s: &Vec<char>) -> (r: Vec<Vec<char>>)
    ensures
        views_of(r@) == line_split(s@, 0),
{
    let slen: usize = s.len();
    let mut out: Vec<Vec<char>> = Vec::new();
    let mut i: usize = 0;
    while i < slen
        invariant
            slen == s@.len(),
            0 <= i <= slen,
            line_split(s@, 0) == views_of(out@) + line_split(s@, i as int),
        decreases slen - i,
    {
        let ghost prev = out@;
        let d: usize = scan_to_nl(s, i);
        let e: usize = i + d;
        let line = copy_range(s, i, e);
        out.push(line);
        proof {
            assert(views_of(out@) =~= views_of(prev).push(s@.subrange(i as int, e as int)));
            assert(views_of(prev).push(s@.subrange(i as int, e as int)) =~= views_of(prev)
                + seq![s@.subrange(i as int, e as int)]);
            assert(views_of(prev) + (seq![s@.subrange(i as int, e as int)] + line_split(
                s@,
                e + 1,
            )) =~= (views_of(prev) + seq![s@.subrange(i as int, e as int)]) + line_split(
                s@,
                e + 1,
            ));
        }
        if e == slen {
            proof {
                assert(line_split(s@, e + 1) =~= Seq::<Seq<char>>::empty());
                assert(line_split(s@, slen as int) =~= Seq::<Seq<char>>::empty());
            }
            i = slen;
        } else {
            i = e + 1;
        }
    }
    proof {
        assert(views_of(out@) + Seq::<Seq<char>>::empty() =~= views_of(out@));
    }
    out
}

// ---------------------------------------------------------------------------
// Pass 10: cross-line trailing-comma fix.
// ---------------------------------------------------------------------------

/// Whether the trimmed line ends with `},` or `],`.
pub open spec fn ends_close_comma(l: Seq<char>) -> bool {
    l.len() >= 2 && l[l.len() - 1] == ',' && (l[l.len() - 2] == '}' || l[l.len() - 2] == ']')
}

/// Index of the first line at or after `j` that is not blank after trimming;
/// the line count when all are blank.
pub open spec fn next_nonblank(ls: Seq<Seq<char>>, j: int) -> int
    decreases ls.len() - j,
{
    if !(0 <= j < ls.len()) {
        ls.len() as int
    } else if trim_sp(ls[j]).len() > 0 {
        j
    } else {
        next_nonblank(ls, j + 1)
    }
}

/// Whether the next non-blank line at or after `j` begins with `}` or `]`.
pub open spec fn next_line_closes(ls: Seq<Seq<char>>, j: int) -> bool {
    let k = next_nonblank(ls, j);
    0 <= k < ls.len() && (trim_sp(ls[k])[0] == '}' || trim_sp(ls[k])[0] == ']')
}

/// The output of the cross-line fix from line `i` on: every line is emitted
/// without trailing whitespace and with a final line break; a line ending
/// `},` or `],` whose next non-blank line begins with a closing delimiter
/// loses the comma.
pub open spec fn p10_lines(ls: Seq<Seq<char>>, i: int) -> Seq<char>
    decreases ls.len() - i,
{
    if !(0 <= i < ls.len()) {
        Seq::empty()
    } else {
        let l = trim_end_sp(ls[i]);
        let body = if ends_close_comma(l) && next_line_closes(ls, i + 1) {
            l.drop_last()
        } else {
            l
        };
        body + seq!['\n'] + p10_lines(ls, i + 1)
    }
}

/// The whole cross-line trailing-comma fix.
pub open spec fn p10_spec(s: Seq<char>) -> Seq<char> {
    p10_lines(line_split(s, 0), 0)
}

/// Finds the first non-blank line at or after `j`.
fn find_nonblank(ls: &Vec<Vec<char>>, j: usize) -> (r: usize)
    requires
        j <= ls@.len(),
    ensures
        r == next_nonblank(views_of(ls@), j as int),
        j <= r <= ls@.len(),
        r < ls@.len() ==> trim_sp(views_of(ls@)[r as int]).len() > 0,
{
    let n: usize = ls.len();
    let mut k: usize = j;
    while k < n
        invariant
            n == ls@.len(),
            j <= k <= n,
            next_nonblank(views_of(ls@), j as int) == next_nonblank(views_of(ls@), k as int),
        decreases n - k,
    {
        let (a, b) = trim_idx(&ls[k]);
        if b > a {
            assert(trim_sp(views_of(ls@)[k as int]).len() > 0);
            return k;
        }
        assert(trim_sp(views_of(ls@)[k as int]).len() == 0);
        k = k + 1;
    }
    n
}

/// Applies the cross-line trailing-comma fix.
pub fn cross_line_fix(s: &Vec<char>) -> (r: Vec<char>)
    ensures
        r@ == p10_spec(s@),
{
    let lines = split_lines(s);
    let n: usize = lines.len();
    proof {
        assert(views_of(lines@).len() == n);
    }
    let mut out: Vec<char> = Vec::new();
    let mut i: usize = 0;
    while i < n
        invariant
            n == lines@.len(),
            views_of(lines@) == line_split(s@, 0),
            0 <= i <= n,
            p10_spec(s@) == out@ + p10_lines(views_of(lines@), i as int),
        decreases n - i,
    {
        let ghost prev = out@;
        let ghost ls = views_of(lines@);
        let te: usize = trim_end_idx(&lines[i]);
        assert(ls[i as int] == lines@[i as int]@);
        assert(lines@[i as int]@.subrange(0, te as int) == trim_end_sp(ls[i as int]));
        let mut cut: bool = false;
        if te >= 2 {
            let c1 = lines[i][te - 1];
            let c2 = lines[i][te - 2];
            if c1 == ',' && (c2 == '}' || c2 == ']') {
                proof {
                    assert(trim_end_sp(ls[i as int])[te - 1] == lines@[i as int]@[te - 1]);
                    assert(trim_end_sp(ls[i as int])[te - 2] == lines@[i as int]@[te - 2]);
                }
                let k: usize = find_nonblank(&lines, i + 1);
                if k < n {
                    let (a, b) = trim_idx(&lines[k]);
                    if b > a {
                        let c0 = lines[k][a];
                        proof {
                            assert(trim_sp(ls[k as int])[0] == lines@[k as int]@[a as int]);
                        }
                        if c0 == '{' || c0 == '[' {
                            cut = false;
                        }
                        if c0 == '}' || c0 == ']' {
                            cut = true;
                            assert(next_line_closes(ls, i + 1));
                        } else {
                            assert(!next_line_closes(ls, i + 1));
                        }
                    } else {
                        assert(false);
                    }
                } else {
                    assert(!next_line_closes(ls, i + 1));
                }
            } else {
                assert(!ends_close_comma(trim_end_sp(ls[i as int])));
            }
        } else {
            assert(!ends_close_comma(trim_end_sp(ls[i as int])));
        }
        let stop: usize = if cut {
            te - 1
        } else {
            te
        };
        let body = copy_range(&lines[i], 0, stop);
        push_all(&mut out, &body);
        out.push('\n');
        proof {
            let l = trim_end_sp(ls[i as int]);
            if cut {
                assert(lines@[i as int]@.subrange(0, stop as int) =~= l.drop_last());
            }
            let bdy = if ends_close_comma(l) && next_line_closes(ls, i + 1) {
                l.drop_last()
            } else {
                l
            };
            assert(out@ =~= prev + (bdy + seq!['\n']));
            assert(prev + (bdy + seq!['\n'] + p10_lines(ls, i + 1)) =~= (prev + (bdy + seq!['\n']))
                + p10_lines(ls, i + 1));
        }
        i = i + 1;
    }
    proof {
        assert(out@ + Seq::<char>::empty() =~= out@);
    }
    out
}

} // verus!
