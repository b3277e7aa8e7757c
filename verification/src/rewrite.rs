//! Single text-rewrite scanners. Each scanner walks the text once, left to
//! right; at every position it either recognizes its pattern, emits the
//! replacement and continues after the match, or copies one character. The
//! executable functions return exactly the sequence their specification
//! function describes.

use vstd::prelude::*;
use crate::chars::{
    is_word, is_hex, is_digit, is_upper, ws_run, hex_run, digit_run, alnum_run,
    match_at, check_match, scan_ws, scan_hex, scan_digits, scan_alnum, word_char,
    digit_char, upper_char, push_all, copy_range,
};

verus! {

/// Clamps a continuation position into `i + 1 ..= s.len()`, so that every
/// scanner makes progress and stays inside the text. Scanners only ever pass
/// positions that are already in that range; the clamp makes the bound
/// evident to the termination checker.
pub open spec fn step_to(s: Seq<char>, i: int, e: int) -> int {
    let e2 = if e <= i {
        i + 1
    } else {
        e
    };
    if e2 <= s.len() {
        e2
    } else {
        s.len() as int
    }
}

// ---------------------------------------------------------------------------
// Literal replacement: every occurrence of `pat` becomes `rep`.
// ---------------------------------------------------------------------------

/// The text from position `i` on, with every occurrence of `pat` replaced by
/// `rep`, scanning left to right over non-overlapping matches.
pub open spec fn replace_from(s: Seq<char>, pat: Seq<char>, rep: Seq<char>, i: int) -> Seq<char>
    decreases s.len() - i,
{
    if !(0 <= i < s.len()) {
        Seq::empty()
    } else if pat.len() > 0 && match_at(s, pat, i) {
        rep + replace_from(s, pat, rep, step_to(s, i, i + pat.len() as int))
    } else {
        seq![s[i]] + replace_from(s, pat, rep, i + 1)
    }
}

/// The whole text with every occurrence of `pat` replaced by `rep`.
pub open spec fn replace_spec(s: Seq<char>, pat: Seq<char>, rep: Seq<char>) -> Seq<char> {
    replace_from(s, pat, rep, 0)
}

/// Replaces every occurrence of `pat` in `s` by `rep`.
pub fn replace_all(s: &Vec<char>, pat: &Vec<char>, rep: &Vec<char>) -> (r: Vec<char>)
    ensures
        r@ == replace_spec(s@, pat@, rep@),
{
    let slen: usize = s.len();
    let mut out: Vec<char> = Vec::new();
    let mut i: usize = 0;
    while i < slen
        invariant
            slen == s@.len(),
            0 <= i <= slen,
            replace_spec(s@, pat@, rep@) == out@ + replace_from(s@, pat@, rep@, i as int),
        decreases slen - i,
    {
        let ghost prev = out@;
        if pat.len() > 0 && pat.len() <= slen - i && check_match(s, pat, i) {
            push_all(&mut out, rep);
            proof {
                assert(step_to(s@, i as int, i + pat@.len()) == i + pat@.len());
                assert(prev + (rep@ + replace_from(s@, pat@, rep@, i + pat@.len())) =~= (prev
                    + rep@) + replace_from(s@, pat@, rep@, i + pat@.len()));
            }
            i = i + pat.len();
        } else {
            out.push(s[i]);
            proof {
                assert(prev + (seq![s@[i as int]] + replace_from(s@, pat@, rep@, i + 1)) =~= (prev
                    + seq![s@[i as int]]) + replace_from(s@, pat@, rep@, i + 1));
                assert(prev.push(s@[i as int]) =~= prev + seq![s@[i as int]]);
            }
            i = i + 1;
        }
    }
    proof {
        assert(out@ + Seq::<char>::empty() =~= out@);
    }
    out
}

/// A leading occurrence of the pattern is always rewritten, whatever follows:
/// the head step of the wrapper round trip. Erasing a wrapper tag that stands
/// at the front of the text leaves the replacement and the rewrite of the
/// remainder, so a tag can never survive at the position where it was
/// written.
pub proof fn lemma_replace_head(pat: Seq<char>, rep: Seq<char>, rest: Seq<char>)
    requires
        pat.len() > 0,
    ensures
        replace_spec(pat + rest, pat, rep) == rep + replace_from(
            pat + rest,
            pat,
            rep,
            pat.len() as int,
        ),
{
    let s = pat + rest;
    assert(s.subrange(0, pat.len() as int) =~= pat);
    assert(match_at(s, pat, 0));
    assert(step_to(s, 0, pat.len() as int) == pat.len());
}

/// The number of occurrences of `pat` from `i` on, counted over the same
/// non-overlapping left-to-right matches that replacement rewrites.
pub open spec fn count_from(s: Seq<char>, pat: Seq<char>, i: int) -> nat
    decreases s.len() - i,
{
    if !(0 <= i < s.len()) {
        0
    } else if pat.len() > 0 && match_at(s, pat, i) {
        1 + count_from(s, pat, step_to(s, i, i + pat.len() as int))
    } else {
        count_from(s, pat, i + 1)
    }
}

/// Counts the occurrences of `pat` in `s`: the per-pattern match counts that
/// a telemetry sink records beside a translation.
pub fn count_matches(s: &Vec<char>, pat: &Vec<char>) -> (r: usize)
    ensures
        r == count_from(s@, pat@, 0),
{
    let slen: usize = s.len();
    let mut n: usize = 0;
    let mut i: usize = 0;
    while i < slen
        invariant
            slen == s@.len(),
            0 <= i <= slen,
            n <= i,
            count_from(s@, pat@, 0) == n + count_from(s@, pat@, i as int),
        decreases slen - i,
    {
        if pat.len() > 0 && pat.len() <= slen - i && check_match(s, pat, i) {
            proof {
                assert(step_to(s@, i as int, i + pat@.len()) == i + pat@.len());
            }
            n = n + 1;
            i = i + pat.len();
        } else {
            i = i + 1;
        }
    }
    n
}

// ---------------------------------------------------------------------------
// Wrapper-tag erasure with optional whitespace: `Name` + whitespace + `{`
// becomes `{`.
// ---------------------------------------------------------------------------

/// Position of the candidate `{` after `name` at `i`: past the name and any
/// following whitespace.
pub open spec fn ews_end(s: Seq<char>, name: Seq<char>, i: int) -> int {
    i + name.len() + ws_run(s, i + name.len() as int)
}

/// Whether `name`, optional whitespace and `{` stand at position `i`.
pub open spec fn ews_match(s: Seq<char>, name: Seq<char>, i: int) -> bool {
    name.len() > 0 && match_at(s, name, i) && ews_end(s, name, i) < s.len() && s[ews_end(
        s,
        name,
        i,
    )] == '{'
}

/// The text from `i` on, with every `name` + whitespace + `{` collapsed to `{`.
pub open spec fn ews_from(s: Seq<char>, name: Seq<char>, i: int) -> Seq<char>
    decreases s.len() - i,
{
    if !(0 <= i < s.len()) {
        Seq::empty()
    } else if ews_match(s, name, i) {
        seq!['{'] + ews_from(s, name, step_to(s, i, ews_end(s, name, i) + 1))
    } else {
        seq![s[i]] + ews_from(s, name, i + 1)
    }
}

pub open spec fn ews_spec(s: Seq<char>, name: Seq<char>) -> Seq<char> {
    ews_from(s, name, 0)
}

/// Collapses every `name` + whitespace + `{` in `s` to `{`.
pub fn erase_name_brace(s: &Vec<char>, name: &Vec<char>) -> (r: Vec<char>)
    ensures
        r@ == ews_spec(s@, name@),
{
    let slen: usize = s.len();
    let mut out: Vec<char> = Vec::new();
    let mut i: usize = 0;
    while i < slen
        invariant
            slen == s@.len(),
            0 <= i <= slen,
            ews_spec(s@, name@) == out@ + ews_from(s@, name@, i as int),
        decreases slen - i,
    {
        let ghost prev = out@;
        let mut matched: bool = false;
        let mut nxt: usize = i + 1;
        if name.len() > 0 && name.len() <= slen - i && check_match(s, name, i) {
            let e: usize = i + name.len() + scan_ws(s, i + name.len());
            if e < slen && s[e] == '{' {
                matched = true;
                nxt = e + 1;
                assert(e == ews_end(s@, name@, i as int));
                assert(nxt == step_to(s@, i as int, ews_end(s@, name@, i as int) + 1));
            }
        }
        if matched {
            assert(ews_match(s@, name@, i as int));
            out.push('{');
            proof {
                assert(prev.push('{') =~= prev + seq!['{']);
                assert(prev + (seq!['{'] + ews_from(s@, name@, nxt as int)) =~= (prev + seq!['{'])
                    + ews_from(s@, name@, nxt as int));
            }
        } else {
            assert(!ews_match(s@, name@, i as int));
            out.push(s[i]);
            proof {
                assert(prev.push(s@[i as int]) =~= prev + seq![s@[i as int]]);
                assert(prev + (seq![s@[i as int]] + ews_from(s@, name@, i + 1)) =~= (prev
                    + seq![s@[i as int]]) + ews_from(s@, name@, i + 1));
            }
            nxt = i + 1;
        }
        i = nxt;
    }
    proof {
        assert(out@ + Seq::<char>::empty() =~= out@);
    }
    out
}

// ---------------------------------------------------------------------------
// Field-name quoting: word-bounded `name` + whitespace + `:` becomes
// `"name":`.
// ---------------------------------------------------------------------------

/// Position of the candidate `:` after `name` at `i`.
pub open spec fn qf_end(s: Seq<char>, name: Seq<char>, i: int) -> int {
    i + name.len() + ws_run(s, i + name.len() as int)
}

/// Whether a word-bounded `name`, optional whitespace and `:` stand at `i`.
pub open spec fn qf_match(s: Seq<char>, name: Seq<char>, i: int) -> bool {
    name.len() > 0 && (i == 0 || !is_word(s[i - 1])) && match_at(s, name, i) && qf_end(s, name, i)
        < s.len() && s[qf_end(s, name, i)] == ':'
}

/// The text from `i` on, with every word-bounded `name:` quoted.
pub open spec fn qf_from(s: Seq<char>, name: Seq<char>, i: int) -> Seq<char>
    decreases s.len() - i,
{
    if !(0 <= i < s.len()) {
        Seq::empty()
    } else if qf_match(s, name, i) {
        seq!['"'] + name + seq!['"', ':'] + qf_from(s, name, step_to(s, i, qf_end(s, name, i) + 1))
    } else {
        seq![s[i]] + qf_from(s, name, i + 1)
    }
}

pub open spec fn qf_spec(s: Seq<char>, name: Seq<char>) -> Seq<char> {
    qf_from(s, name, 0)
}

/// Rewrites every word-bounded bare `name` + whitespace + `:` into `"name":`.
pub fn quote_field(s: &Vec<char>, name: &Vec<char>) -> (r: Vec<char>)
    ensures
        r@ == qf_spec(s@, name@),
{
    let slen: usize = s.len();
    let mut out: Vec<char> = Vec::new();
    let mut i: usize = 0;
    while i < slen
        invariant
            slen == s@.len(),
            0 <= i <= slen,
            qf_spec(s@, name@) == out@ + qf_from(s@, name@, i as int),
        decreases slen - i,
    {
        let ghost prev = out@;
        let mut matched: bool = false;
        let mut nxt: usize = i + 1;
        if name.len() > 0 && name.len() <= slen - i && (i == 0 || !word_char(s[i - 1]))
            && check_match(s, name, i) {
            let e: usize = i + name.len() + scan_ws(s, i + name.len());
            if e < slen && s[e] == ':' {
                matched = true;
                nxt = e + 1;
                assert(e == qf_end(s@, name@, i as int));
                assert(nxt == step_to(s@, i as int, qf_end(s@, name@, i as int) + 1));
            }
        }
        if matched {
            assert(qf_match(s@, name@, i as int));
            out.push('"');
            push_all(&mut out, name);
            out.push('"');
            out.push(':');
            proof {
                assert(out@ =~= prev + (seq!['"'] + name@ + seq!['"', ':']));
                assert(prev + (seq!['"'] + name@ + seq!['"', ':'] + qf_from(s@, name@, nxt as int))
                    =~= (prev + (seq!['"'] + name@ + seq!['"', ':'])) + qf_from(
                    s@,
                    name@,
                    nxt as int,
                ));
            }
        } else {
            assert(!qf_match(s@, name@, i as int));
            out.push(s[i]);
            proof {
                assert(prev.push(s@[i as int]) =~= prev + seq![s@[i as int]]);
                assert(prev + (seq![s@[i as int]] + qf_from(s@, name@, i + 1)) =~= (prev
                    + seq![s@[i as int]]) + qf_from(s@, name@, i + 1));
            }
            nxt = i + 1;
        }
        i = nxt;
    }
    proof {
        assert(out@ + Seq::<char>::empty() =~= out@);
    }
    out
}

// ---------------------------------------------------------------------------
// Colon-parenthesis cleanup: `:` + whitespace + `(` becomes `: `.
// ---------------------------------------------------------------------------

/// Position of the candidate `(` after the `:` at `i`.
pub open spec fn cp_end(s: Seq<char>, i: int) -> int {
    i + 1 + ws_run(s, i + 1)
}

/// Whether `:` + whitespace + `(` stands at `i`.
pub open spec fn cp_match(s: Seq<char>, i: int) -> bool {
    0 <= i < s.len() && s[i] == ':' && cp_end(s, i) < s.len() && s[cp_end(s, i)] == '('
}

/// The text from `i` on, with every `:` + whitespace + `(` rewritten to `: `.
pub open spec fn cp_from(s: Seq<char>, i: int) -> Seq<char>
    decreases s.len() - i,
{
    if !(0 <= i < s.len()) {
        Seq::empty()
    } else if cp_match(s, i) {
        seq![':', ' '] + cp_from(s, step_to(s, i, cp_end(s, i) + 1))
    } else {
        seq![s[i]] + cp_from(s, i + 1)
    }
}

pub open spec fn cp_spec(s: Seq<char>) -> Seq<char> {
    cp_from(s, 0)
}

/// Rewrites every `:` + whitespace + `(` into `: `.
pub fn colon_paren(s: &Vec<char>) -> (r: Vec<char>)
    ensures
        r@ == cp_spec(s@),
{
    let slen: usize = s.len();
    let mut out: Vec<char> = Vec::new();
    let mut i: usize = 0;
    while i < slen
        invariant
            slen == s@.len(),
            0 <= i <= slen,
            cp_spec(s@) == out@ + cp_from(s@, i as int),
        decreases slen - i,
    {
        let ghost prev = out@;
        let mut matched: bool = false;
        let mut nxt: usize = i + 1;
        if s[i] == ':' {
            let e: usize = i + 1 + scan_ws(s, i + 1);
            if e < slen && s[e] == '(' {
                matched = true;
                nxt = e + 1;
                assert(e == cp_end(s@, i as int));
                assert(nxt == step_to(s@, i as int, cp_end(s@, i as int) + 1));
            }
        }
        if matched {
            assert(cp_match(s@, i as int));
            out.push(':');
            out.push(' ');
            proof {
                assert(out@ =~= prev + seq![':', ' ']);
                assert(prev + (seq![':', ' '] + cp_from(s@, nxt as int)) =~= (prev + seq![':', ' '])
                    + cp_from(s@, nxt as int));
            }
        } else {
            assert(!cp_match(s@, i as int));
            out.push(s[i]);
            proof {
                assert(prev.push(s@[i as int]) =~= prev + seq![s@[i as int]]);
                assert(prev + (seq![s@[i as int]] + cp_from(s@, i + 1)) =~= (prev
                    + seq![s@[i as int]]) + cp_from(s@, i + 1));
            }
            nxt = i + 1;
        }
        i = nxt;
    }
    proof {
        assert(out@ + Seq::<char>::empty() =~= out@);
    }
    out
}

// ---------------------------------------------------------------------------
// Hex-literal quoting: a word-bounded `0x` plus any run of hex digits becomes
// a quoted string, the zero-digit case included.
// ---------------------------------------------------------------------------

/// Position just past the hex token starting at `i`.
pub open spec fn hx_end(s: Seq<char>, i: int) -> int {
    i + 2 + hex_run(s, i + 2)
}

/// Whether a word-bounded hex token stands at `i`: `0x`, then the maximal run
/// of hex digits, then a word boundary.
pub open spec fn hx_match(s: Seq<char>, i: int) -> bool {
    &&& 0 <= i
    &&& i + 2 <= s.len()
    &&& (i == 0 || !is_word(s[i - 1]))
    &&& s[i] == '0'
    &&& s[i + 1] == 'x'
    &&& (hx_end(s, i) == s.len() || (hx_end(s, i) < s.len() && !is_word(s[hx_end(s, i)])))
}

/// The text from `i` on, with every word-bounded hex token quoted.
pub open spec fn hx_from(s: Seq<char>, i: int) -> Seq<char>
    decreases s.len() - i,
{
    if !(0 <= i < s.len()) {
        Seq::empty()
    } else if hx_match(s, i) {
        seq!['"'] + s.subrange(i, hx_end(s, i)) + seq!['"'] + hx_from(
            s,
            step_to(s, i, hx_end(s, i)),
        )
    } else {
        seq![s[i]] + hx_from(s, i + 1)
    }
}

pub open spec fn hx_spec(s: Seq<char>) -> Seq<char> {
    hx_from(s, 0)
}

/// Quotes every word-bounded hex token, `"0x"` for the empty run included.
pub fn hex_quote(s: &Vec<char>) -> (r: Vec<char>)
    ensures
        r@ == hx_spec(s@),
{
    let slen: usize = s.len();
    let mut out: Vec<char> = Vec::new();
    let mut i: usize = 0;
    while i < slen
        invariant
            slen == s@.len(),
            0 <= i <= slen,
            hx_spec(s@) == out@ + hx_from(s@, i as int),
        decreases slen - i,
    {
        let ghost prev = out@;
        let mut matched: bool = false;
        let mut nxt: usize = i + 1;
        if 2 <= slen - i && (i == 0 || !word_char(s[i - 1])) && s[i] == '0' && s[i + 1] == 'x' {
            let e: usize = i + 2 + scan_hex(s, i + 2);
            if e == slen || !word_char(s[e]) {
                matched = true;
                nxt = e;
                assert(e == hx_end(s@, i as int));
                assert(nxt == step_to(s@, i as int, hx_end(s@, i as int)));
            }
        }
        if matched {
            assert(hx_match(s@, i as int));
            out.push('"');
            let tok = copy_range(s, i, nxt);
            push_all(&mut out, &tok);
            out.push('"');
            proof {
                assert(out@ =~= prev + (seq!['"'] + s@.subrange(i as int, nxt as int)
                    + seq!['"']));
                assert(prev + (seq!['"'] + s@.subrange(i as int, nxt as int) + seq!['"'] + hx_from(
                    s@,
                    nxt as int,
                )) =~= (prev + (seq!['"'] + s@.subrange(i as int, nxt as int) + seq!['"']))
                    + hx_from(s@, nxt as int));
            }
        } else {
            assert(!hx_match(s@, i as int));
            out.push(s[i]);
            proof {
                assert(prev.push(s@[i as int]) =~= prev + seq![s@[i as int]]);
                assert(prev + (seq![s@[i as int]] + hx_from(s@, i + 1)) =~= (prev
                    + seq![s@[i as int]]) + hx_from(s@, i + 1));
            }
            nxt = i + 1;
        }
        i = nxt;
    }
    proof {
        assert(out@ + Seq::<char>::empty() =~= out@);
    }
    out
}

/// A bare empty hex literal is rewritten to a quoted string, never left as a
/// bare token: for every tail that keeps the literal word-bounded, the text
/// `0x` + tail is rewritten to `"0x"` followed by the rewrite of the tail.
pub proof fn lemma_empty_hex_quoted(t: Seq<char>)
    requires
        t.len() == 0 || !is_word(t[0]),
    ensures
        hx_spec(seq!['0', 'x'] + t) == seq!['"', '0', 'x', '"'] + hx_from(seq!['0', 'x'] + t, 2),
{
    let s = seq!['0', 'x'] + t;
    assert(s[0] == '0');
    assert(s[1] == 'x');
    if t.len() > 0 {
        assert(s[2] == t[0]);
        assert(!is_hex(t[0]));
    }
    assert(hex_run(s, 2) == 0);
    assert(hx_end(s, 0) == 2);
    assert(hx_match(s, 0));
    assert(step_to(s, 0, 2) == 2);
    assert(s.subrange(0, 2) =~= seq!['0', 'x']);
    assert(seq!['"'] + s.subrange(0, 2) + seq!['"'] =~= seq!['"', '0', 'x', '"']);
}

// ---------------------------------------------------------------------------
// Residual-tag removal: a capitalized identifier immediately before `{` is
// deleted together with the identifier's characters.
// ---------------------------------------------------------------------------

/// Position just past the capitalized identifier starting at `i`.
pub open spec fn rt_end(s: Seq<char>, i: int) -> int {
    i + 1 + alnum_run(s, i + 1)
}

/// Whether a capitalized identifier immediately followed by `{` stands at `i`.
pub open spec fn rt_match(s: Seq<char>, i: int) -> bool {
    0 <= i < s.len() && is_upper(s[i]) && rt_end(s, i) < s.len() && s[rt_end(s, i)] == '{'
}

/// The text from `i` on, with every capitalized identifier before `{` erased.
pub open spec fn rt_from(s: Seq<char>, i: int) -> Seq<char>
    decreases s.len() - i,
{
    if !(0 <= i < s.len()) {
        Seq::empty()
    } else if rt_match(s, i) {
        seq!['{'] + rt_from(s, step_to(s, i, rt_end(s, i) + 1))
    } else {
        seq![s[i]] + rt_from(s, i + 1)
    }
}

pub open spec fn rt_spec(s: Seq<char>) -> Seq<char> {
    rt_from(s, 0)
}

/// Deletes every capitalized identifier that stands immediately before `{`.
pub fn residual_tag(s: &Vec<char>) -> (r: Vec<char>)
    ensures
        r@ == rt_spec(s@),
{
    let slen: usize = s.len();
    let mut out: Vec<char> = Vec::new();
    let mut i: usize = 0;
    while i < slen
        invariant
            slen == s@.len(),
            0 <= i <= slen,
            rt_spec(s@) == out@ + rt_from(s@, i as int),
        decreases slen - i,
    {
        let ghost prev = out@;
        let mut matched: bool = false;
        let mut nxt: usize = i + 1;
        if upper_char(s[i]) {
            let e: usize = i + 1 + scan_alnum(s, i + 1);
            if e < slen && s[e] == '{' {
                matched = true;
                nxt = e + 1;
                assert(e == rt_end(s@, i as int));
                assert(nxt == step_to(s@, i as int, rt_end(s@, i as int) + 1));
            }
        }
        if matched {
            assert(rt_match(s@, i as int));
            out.push('{');
            proof {
                assert(prev.push('{') =~= prev + seq!['{']);
                assert(prev + (seq!['{'] + rt_from(s@, nxt as int)) =~= (prev + seq!['{'])
                    + rt_from(s@, nxt as int));
            }
        } else {
            assert(!rt_match(s@, i as int));
            out.push(s[i]);
            proof {
                assert(prev.push(s@[i as int]) =~= prev + seq![s@[i as int]]);
                assert(prev + (seq![s@[i as int]] + rt_from(s@, i + 1)) =~= (prev
                    + seq![s@[i as int]]) + rt_from(s@, i + 1));
            }
            nxt = i + 1;
        }
        i = nxt;
    }
    proof {
        assert(out@ + Seq::<char>::empty() =~= out@);
    }
    out
}

// ---------------------------------------------------------------------------
// Residual tag on its own line: `:` + whitespace + capitalized identifier +
// whitespace containing a line break + `{` becomes `: {`.
// ---------------------------------------------------------------------------

/// Start of the candidate identifier after the `:` at `i`.
pub open spec fn rtnl_id(s: Seq<char>, i: int) -> int {
    i + 1 + ws_run(s, i + 1)
}

/// Position just past the candidate identifier.
pub open spec fn rtnl_mid(s: Seq<char>, i: int) -> int {
    rtnl_id(s, i) + 1 + alnum_run(s, rtnl_id(s, i) + 1)
}

/// Position of the candidate `{` after the identifier and whitespace.
pub open spec fn rtnl_end(s: Seq<char>, i: int) -> int {
    rtnl_mid(s, i) + ws_run(s, rtnl_mid(s, i))
}

/// Whether a colon, a capitalized identifier and a `{` on a later line stand
/// at `i`.
pub open spec fn rtnl_match(s: Seq<char>, i: int) -> bool {
    &&& 0 <= i < s.len()
    &&& s[i] == ':'
    &&& rtnl_id(s, i) < s.len()
    &&& is_upper(s[rtnl_id(s, i)])
    &&& rtnl_end(s, i) < s.len()
    &&& s[rtnl_end(s, i)] == '{'
    &&& exists|p: int| rtnl_mid(s, i) <= p < rtnl_end(s, i) && s[p] == '\n'
}

/// The text from `i` on, with every such sequence rewritten to `: {`.
pub open spec fn rtnl_from(s: Seq<char>, i: int) -> Seq<char>
    decreases s.len() - i,
{
    if !(0 <= i < s.len()) {
        Seq::empty()
    } else if rtnl_match(s, i) {
        seq![':', ' ', '{'] + rtnl_from(s, step_to(s, i, rtnl_end(s, i) + 1))
    } else {
        seq![s[i]] + rtnl_from(s, i + 1)
    }
}

pub open spec fn rtnl_spec(s: Seq<char>) -> Seq<char> {
    rtnl_from(s, 0)
}

/// Tests whether `s[from..to]` contains a line break.
fn has_nl(s: &Vec<char>, from: usize, to: usize) -> (r: bool)
    requires
        from <= to <= s@.len(),
    ensures
        r == exists|p: int| from <= p < to && s@[p] == '\n',
{
    let mut k: usize = from;
    while k < to
        invariant
            from <= k <= to <= s@.len(),
            forall|p: int| from <= p < k ==> s@[p] != '\n',
        decreases to - k,
    {
        if s[k] == '\n' {
            assert(s@[k as int] == '\n');
            return true;
        }
        k = k + 1;
    }
    false
}

/// Rewrites `:` + whitespace + capitalized identifier + line break +
/// whitespace + `{` into `: {`.
pub fn residual_tag_line(s: &Vec<char>) -> (r: Vec<char>)
    ensures
        r@ == rtnl_spec(s@),
{
    let slen: usize = s.len();
    let mut out: Vec<char> = Vec::new();
    let mut i: usize = 0;
    while i < slen
        invariant
            slen == s@.len(),
            0 <= i <= slen,
            rtnl_spec(s@) == out@ + rtnl_from(s@, i as int),
        decreases slen - i,
    {
        let ghost prev = out@;
        let mut matched: bool = false;
        let mut nxt: usize = i + 1;
        if s[i] == ':' {
            let k: usize = i + 1 + scan_ws(s, i + 1);
            if k < slen && upper_char(s[k]) {
                let m: usize = k + 1 + scan_alnum(s, k + 1);
                let e: usize = m + scan_ws(s, m);
                if e < slen && s[e] == '{' && has_nl(s, m, e) {
                    matched = true;
                    nxt = e + 1;
                    assert(k == rtnl_id(s@, i as int));
                    assert(m == rtnl_mid(s@, i as int));
                    assert(e == rtnl_end(s@, i as int));
                    assert(nxt == step_to(s@, i as int, rtnl_end(s@, i as int) + 1));
                }
            }
        }
        if matched {
            assert(rtnl_match(s@, i as int));
            out.push(':');
            out.push(' ');
            out.push('{');
            proof {
                assert(out@ =~= prev + seq![':', ' ', '{']);
                assert(prev + (seq![':', ' ', '{'] + rtnl_from(s@, nxt as int)) =~= (prev
                    + seq![':', ' ', '{']) + rtnl_from(s@, nxt as int));
            }
        } else {
            assert(!rtnl_match(s@, i as int));
            out.push(s[i]);
            proof {
                assert(prev.push(s@[i as int]) =~= prev + seq![s@[i as int]]);
                assert(prev + (seq![s@[i as int]] + rtnl_from(s@, i + 1)) =~= (prev
                    + seq![s@[i as int]]) + rtnl_from(s@, i + 1));
            }
            nxt = i + 1;
        }
        i = nxt;
    }
    proof {
        assert(out@ + Seq::<char>::empty() =~= out@);
    }
    out
}

// ---------------------------------------------------------------------------
// Digit-group separator removal: after `:` and whitespace, a figure written
// as digit groups joined by underscores becomes one plain digit run.
// ---------------------------------------------------------------------------

/// Position just past the digit groups starting at `p`: the digit run, and
/// every further `_` + digit-run continuation.
pub open spec fn dg_end(s: Seq<char>, p: int) -> int
    decreases s.len() - p,
{
    if !(0 <= p < s.len()) {
        p
    } else {
        let d = digit_run(s, p);
        let e = if p + d <= s.len() {
            p + d as int
        } else {
            s.len() as int
        };
        if d > 0 && e + 1 < s.len() && s[e] == '_' && is_digit(s[e + 1]) {
            dg_end(s, e + 1)
        } else {
            e
        }
    }
}

/// The digits of the groups starting at `p`, underscores between digit groups
/// dropped.
pub open spec fn dg_digits(s: Seq<char>, p: int) -> Seq<char>
    decreases s.len() - p,
{
    if !(0 <= p < s.len()) {
        Seq::empty()
    } else {
        let d = digit_run(s, p);
        let e = if p + d <= s.len() {
            p + d as int
        } else {
            s.len() as int
        };
        if d > 0 && e + 1 < s.len() && s[e] == '_' && is_digit(s[e + 1]) {
            s.subrange(p, e) + dg_digits(s, e + 1)
        } else {
            s.subrange(p, e)
        }
    }
}

/// Start of the candidate figure after the `:` at `i`.
pub open spec fn us_fig(s: Seq<char>, i: int) -> int {
    i + 1 + ws_run(s, i + 1)
}

/// Whether `:` + whitespace + digits + `_` + digit stands at `i`.
pub open spec fn us_match(s: Seq<char>, i: int) -> bool {
    &&& 0 <= i < s.len()
    &&& s[i] == ':'
    &&& us_fig(s, i) < s.len()
    &&& is_digit(s[us_fig(s, i)])
    &&& {
        let p = us_fig(s, i);
        let d = digit_run(s, p);
        let e = if p + d <= s.len() {
            p + d as int
        } else {
            s.len() as int
        };
        e + 1 < s.len() && s[e] == '_' && is_digit(s[e + 1])
    }
}

/// The text from `i` on, with every grouped figure after a colon rewritten to
/// `: ` and one plain digit run.
pub open spec fn us_from(s: Seq<char>, i: int) -> Seq<char>
    decreases s.len() - i,
{
    if !(0 <= i < s.len()) {
        Seq::empty()
    } else if us_match(s, i) {
        seq![':', ' '] + dg_digits(s, us_fig(s, i)) + us_from(
            s,
            step_to(s, i, dg_end(s, us_fig(s, i))),
        )
    } else {
        seq![s[i]] + us_from(s, i + 1)
    }
}

pub open spec fn us_spec(s: Seq<char>) -> Seq<char> {
    us_from(s, 0)
}

/// Scans the digit groups starting at `p`, appending the digits without the
/// joining underscores to `out`.
fn scan_groups(s: &Vec<char>, p: usize, out: &mut Vec<char>) -> (e: usize)
    requires
        p <= s@.len(),
    ensures
        e == dg_end(s@, p as int),
        p <= e <= s@.len(),
        final(out)@ == old(out)@ + dg_digits(s@, p as int),
    decreases s@.len() - p,
{
    let slen: usize = s.len();
    if p >= slen {
        proof {
            assert(old(out)@ + Seq::<char>::empty() =~= old(out)@);
        }
        return p;
    }
    let d: usize = scan_digits(s, p);
    let e: usize = p + d;
    let ghost prev = out@;
    let grp = copy_range(s, p, e);
    push_all(out, &grp);
    proof {
        assert(out@ =~= prev + s@.subrange(p as int, e as int));
    }
    if d > 0 && slen - e > 1 && s[e] == '_' && digit_char(s[e + 1]) {
        let r = scan_groups(s, e + 1, out);
        proof {
            assert((prev + s@.subrange(p as int, e as int)) + dg_digits(s@, e + 1) =~= prev + (
            s@.subrange(p as int, e as int) + dg_digits(s@, e + 1)));
        }
        r
    } else {
        e
    }
}

/// Strips the underscores that join digit groups in a figure after a colon,
/// collapsing the whitespace after the colon to one space.
pub fn strip_separators(s: &Vec<char>) -> (r: Vec<char>)
    ensures
        r@ == us_spec(s@),
{
    let slen: usize = s.len();
    let mut out: Vec<char> = Vec::new();
    let mut i: usize = 0;
    while i < slen
        invariant
            slen == s@.len(),
            0 <= i <= slen,
            us_spec(s@) == out@ + us_from(s@, i as int),
        decreases slen - i,
    {
        let ghost prev = out@;
        let mut matched: bool = false;
        let mut nxt: usize = i + 1;
        if s[i] == ':' {
            let p: usize = i + 1 + scan_ws(s, i + 1);
            if p < slen && digit_char(s[p]) {
                let d: usize = scan_digits(s, p);
                let e: usize = p + d;
                if slen - e > 1 && s[e] == '_' && digit_char(s[e + 1]) {
                    matched = true;
                    assert(p == us_fig(s@, i as int));
                    assert(us_match(s@, i as int));
                    out.push(':');
                    out.push(' ');
                    proof {
                        assert(out@ =~= prev + seq![':', ' ']);
                    }
                    let ghost mid = out@;
                    let fin: usize = scan_groups(s, p, &mut out);
                    nxt = fin;
                    proof {
                        assert(out@ =~= prev + (seq![':', ' '] + dg_digits(s@, p as int)));
                        assert(nxt == step_to(s@, i as int, dg_end(s@, us_fig(s@, i as int))));
                        assert(prev + (seq![':', ' '] + dg_digits(s@, p as int) + us_from(
                            s@,
                            nxt as int,
                        )) =~= (prev + (seq![':', ' '] + dg_digits(s@, p as int))) + us_from(
                            s@,
                            nxt as int,
                        ));
                    }
                }
            }
        }
        if !matched {
            assert(!us_match(s@, i as int));
            out.push(s[i]);
            proof {
                assert(prev.push(s@[i as int]) =~= prev + seq![s@[i as int]]);
                assert(prev + (seq![s@[i as int]] + us_from(s@, i + 1)) =~= (prev
                    + seq![s@[i as int]]) + us_from(s@, i + 1));
            }
            nxt = i + 1;
        }
        i = nxt;
    }
    proof {
        assert(out@ + Seq::<char>::empty() =~= out@);
    }
    out
}

} // verus!
