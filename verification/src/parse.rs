//! A JSON parser over character sequences, producing the library's JSON
//! value. It reads the subset of JSON that the rewrite pipeline emits: null,
//! the booleans, strings, non-negative integer numbers of any length (held
//! as their digit runs), arrays and objects. In a string the parser accepts
//! the simple escapes (quote, backslash, slash, n, t, r, b, f) and rejects
//! a four-hex-digit escape, which a standard JSON reader would accept but
//! which the rewrite passes never emit; fractions, exponents and negative
//! numbers are rejected the same way. A later duplicate of an object key
//! overwrites the earlier member's value. Errors carry the character
//! position at which parsing stopped; a helper turns a position into a
//! one-based line and column.

use vstd::prelude::*;
use crate::chars::{is_digit, ws_run, digit_run, scan_ws, scan_digits, match_at, check_match,
    chars_eq, to_chars, digit_char, copy_range};
use crate::json::{Json, JsonSpec};

verus! {

// ---------------------------------------------------------------------------
// Decimal values.
// ---------------------------------------------------------------------------

/// Numeric value of one decimal digit.
pub open spec fn digit_of(c: char) -> int {
    c as int - '0' as int
}

/// Value of a run of decimal digits.
pub open spec fn dec_val(s: Seq<char>) -> int
    decreases s.len(),
{
    if s.len() == 0 {
        0
    } else {
        dec_val(s.drop_last()) * 10 + digit_of(s.last())
    }
}

/// Every character of a digit run is a digit.
pub proof fn lemma_digit_run_char_at(s: Seq<char>, i: int, k: int)
    requires
        0 <= i <= k,
        k < i + digit_run(s, i),
    ensures
        0 <= k < s.len() && is_digit(s[k]),
    decreases k - i,
{
    if k > i {
        lemma_digit_run_char_at(s, i + 1, k);
    }
}

/// A digit string's value is non-negative.
pub proof fn lemma_dec_val_nonneg(t: Seq<char>)
    requires
        forall|k: int| 0 <= k < t.len() ==> is_digit(#[trigger] t[k]),
    ensures
        dec_val(t) >= 0,
    decreases t.len(),
{
    if t.len() > 0 {
        lemma_dec_val_nonneg(t.drop_last());
        assert(dec_val(t.drop_last()) * 10 >= 0);
    }
}

/// A digit run's value only grows as the run extends.
pub proof fn lemma_dec_val_grows(s: Seq<char>, i: int, j: int, e: int)
    requires
        0 <= i <= j <= e <= s.len(),
        forall|k: int| i <= k < e ==> is_digit(#[trigger] s[k]),
    ensures
        dec_val(s.subrange(i, j)) <= dec_val(s.subrange(i, e)),
    decreases e - j,
{
    assert forall|k: int| 0 <= k < s.subrange(i, j).len() implies is_digit(
        #[trigger] s.subrange(i, j)[k],
    ) by {
        assert(s.subrange(i, j)[k] == s[i + k]);
    }
    if j < e {
        lemma_dec_val_nonneg(s.subrange(i, j));
        assert(s.subrange(i, j + 1).drop_last() =~= s.subrange(i, j));
        assert(s.subrange(i, j + 1).last() == s[j]);
        assert(dec_val(s.subrange(i, j + 1)) == dec_val(s.subrange(i, j)) * 10 + digit_of(s[j]));
        assert(dec_val(s.subrange(i, j)) * 10 >= dec_val(s.subrange(i, j)));
        lemma_dec_val_grows(s, i, j + 1, e);
    }
}

// ---------------------------------------------------------------------------
// Specification of the parser.
// ---------------------------------------------------------------------------

/// The escapes the parser understands after a backslash.
pub open spec fn is_simple_escape(c: char) -> bool {
    c == '"' || c == '\\' || c == '/' || c == 'n' || c == 't' || c == 'r' || c == 'b' || c == 'f'
}

/// The character an escape stands for.
pub open spec fn unescape(c: char) -> char {
    if c == 'n' {
        '\n'
    } else if c == 't' {
        '\t'
    } else if c == 'r' {
        '\r'
    } else if c == 'b' {
        '\u{8}'
    } else if c == 'f' {
        '\u{c}'
    } else {
        c
    }
}

/// Parses the body of a string from `i` (just after the opening quote) to the
/// closing quote. Returns the decoded text and the position after the quote,
/// or the position of the offending character. Only the simple escapes are
/// accepted: a backslash before anything else, the four-hex-digit form
/// included, is an error, a narrowing against standard JSON that the rewrite
/// passes never exercise since they introduce no backslash.
pub open spec fn p_string(s: Seq<char>, i: int) -> Result<(Seq<char>, int), int>
    decreases s.len() - i,
{
    if !(0 <= i < s.len()) {
        Err(s.len() as int)
    } else if s[i] == '"' {
        Ok((Seq::empty(), i + 1))
    } else if s[i] == '\\' {
        if i + 1 < s.len() && is_simple_escape(s[i + 1]) {
            match p_string(s, i + 2) {
                Ok((t, n)) => Ok((seq![unescape(s[i + 1])] + t, n)),
                Err(e) => Err(e),
            }
        } else {
            Err(i)
        }
    } else {
        match p_string(s, i + 1) {
            Ok((t, n)) => Ok((seq![s[i]] + t, n)),
            Err(e) => Err(e),
        }
    }
}

/// Parses a number at `i` (which must hold a digit): the maximal digit run,
/// of any length, rejecting a redundant leading zero. The digit run itself
/// is the value.
pub open spec fn p_number(s: Seq<char>, i: int) -> Result<(JsonSpec, int), int> {
    let d = digit_run(s, i);
    let e = if i + d <= s.len() {
        i + d as int
    } else {
        s.len() as int
    };
    if d == 0 {
        Err(i)
    } else if s[i] == '0' && d >= 2 {
        Err(i)
    } else {
        Ok((JsonSpec::Num(s.subrange(i, e)), e))
    }
}

/// Replaces the member with key `k`, or appends a new member.
pub open spec fn obj_put(m: Seq<(Seq<char>, JsonSpec)>, k: Seq<char>, v: JsonSpec) -> Seq<
    (Seq<char>, JsonSpec),
>
    decreases m.len(),
{
    if m.len() == 0 {
        seq![(k, v)]
    } else if m[0].0 == k {
        seq![(k, v)] + m.subrange(1, m.len() as int)
    } else {
        seq![m[0]] + obj_put(m.subrange(1, m.len() as int), k, v)
    }
}

/// Parses a value starting at `i`, leading whitespace allowed. `fuel` bounds
/// the recursion; the library always supplies the text's length, which the
/// nesting of any text it accepts never exhausts.
pub open spec fn p_value(s: Seq<char>, i: int, fuel: nat) -> Result<(JsonSpec, int), int>
    decreases fuel,
{
    if fuel == 0 {
        Err(i)
    } else {
        let j = i + ws_run(s, i);
        if !(0 <= j < s.len()) {
            Err(s.len() as int)
        } else if match_at(s, "null"@, j) {
            Ok((JsonSpec::Null, j + "null"@.len()))
        } else if match_at(s, "true"@, j) {
            Ok((JsonSpec::Bool(true), j + "true"@.len()))
        } else if match_at(s, "false"@, j) {
            Ok((JsonSpec::Bool(false), j + "false"@.len()))
        } else if s[j] == '"' {
            match p_string(s, j + 1) {
                Ok((t, n)) => Ok((JsonSpec::Str(t), n)),
                Err(e) => Err(e),
            }
        } else if is_digit(s[j]) {
            p_number(s, j)
        } else if s[j] == '[' {
            p_elems(s, j + 1, true, Seq::empty(), (fuel - 1) as nat)
        } else if s[j] == '{' {
            p_members(s, j + 1, true, Seq::empty(), (fuel - 1) as nat)
        } else {
            Err(j)
        }
    }
}

/// Parses the remainder of an array from `i`: on the first round a closing
/// bracket makes the empty array; otherwise an element, then a comma to
/// continue or a bracket to close.
pub open spec fn p_elems(s: Seq<char>, i: int, first: bool, acc: Seq<JsonSpec>, fuel: nat) -> Result<
    (JsonSpec, int),
    int,
>
    decreases fuel,
{
    if fuel == 0 {
        Err(i)
    } else {
        let j = i + ws_run(s, i);
        if !(0 <= j < s.len())  {
            Err(s.len() as int)
        } else if first && s[j] == ']' {
            Ok((JsonSpec::Arr(acc), j + 1))
        } else {
            match p_value(s, j, (fuel - 1) as nat) {
                Ok((v, n)) => {
                    let k = n + ws_run(s, n);
                    if !(0 <= k < s.len()) {
                        Err(s.len() as int)
                    } else if s[k] == ',' {
                        p_elems(s, k + 1, false, acc.push(v), (fuel - 1) as nat)
                    } else if s[k] == ']' {
                        Ok((JsonSpec::Arr(acc.push(v)), k + 1))
                    } else {
                        Err(k)
                    }
                },
                Err(e) => Err(e),
            }
        }
    }
}

/// Parses the remainder of an object from `i`: on the first round a closing
/// brace makes the empty object; otherwise a quoted key, a colon, a value,
/// then a comma to continue or a brace to close.
pub open spec fn p_members(
    s: Seq<char>,
    i: int,
    first: bool,
    acc: Seq<(Seq<char>, JsonSpec)>,
    fuel: nat,
) -> Result<(JsonSpec, int), int>
    decreases fuel,
{
    if fuel == 0 {
        Err(i)
    } else {
        let j = i + ws_run(s, i);
        if !(0 <= j < s.len()) {
            Err(s.len() as int)
        } else if first && s[j] == '}' {
            Ok((JsonSpec::Obj(acc), j + 1))
        } else if s[j] != '"' {
            Err(j)
        } else {
            match p_string(s, j + 1) {
                Ok((key, n)) => {
                    let c = n + ws_run(s, n);
                    if !(0 <= c < s.len()) {
                        Err(s.len() as int)
                    } else if s[c] != ':' {
                        Err(c)
                    } else {
                        match p_value(s, c + 1, (fuel - 1) as nat) {
                            Ok((v, m)) => {
                                let k = m + ws_run(s, m);
                                if !(0 <= k < s.len()) {
                                    Err(s.len() as int)
                                } else if s[k] == ',' {
                                    p_members(s, k + 1, false, obj_put(acc, key, v), (fuel - 1) as nat)
                                } else if s[k] == '}' {
                                    Ok((JsonSpec::Obj(obj_put(acc, key, v)), k + 1))
                                } else {
                                    Err(k)
                                }
                            },
                            Err(e) => Err(e),
                        }
                    }
                },
                Err(e) => Err(e),
            }
        }
    }
}

/// Parses a whole document: one value, then only whitespace to the end.
pub open spec fn parse_doc(s: Seq<char>) -> Result<JsonSpec, int> {
    match p_value(s, 0, s.len()) {
        Ok((v, n)) => {
            let e = n + ws_run(s, n);
            if e == s.len() {
                Ok(v)
            } else {
                Err(e)
            }
        },
        Err(a) => Err(a),
    }
}

// ---------------------------------------------------------------------------
// The executable parser.
// ---------------------------------------------------------------------------

/// Correspondence between an executable outcome and the specification's.
pub open spec fn out_matches(r: Result<(Json, usize), usize>, sp: Result<(JsonSpec, int), int>) -> bool {
    match (r, sp) {
        (Ok((v, n)), Ok((t, m))) => v@ == t && n == m,
        (Err(a), Err(b)) => a == b,
        _ => false,
    }
}

/// Scans a string body, decoding escapes.
fn scan_string(s: &Vec<char>, i0: usize) -> (r: Result<(Vec<char>, usize), usize>)
    requires
        i0 <= s@.len(),
    ensures
        match (r, p_string(s@, i0 as int)) {
            (Ok((v, n)), Ok((t, m))) => v@ == t && n == m && n <= s@.len(),
            (Err(a), Err(b)) => a == b && a <= s@.len(),
            _ => false,
        },
{
    let slen: usize = s.len();
    let mut out: Vec<char> = Vec::new();
    let mut j: usize = i0;
    loop
        invariant
            i0 <= j <= slen,
            slen == s@.len(),
            match p_string(s@, j as int) {
                Ok((t, n)) => p_string(s@, i0 as int) == Ok::<(Seq<char>, int), int>((out@ + t, n)),
                Err(e) => p_string(s@, i0 as int) == Err::<(Seq<char>, int), int>(e),
            },
        decreases slen - j,
    {
        if j >= slen {
            return Err(slen);
        }
        let c = s[j];
        if c == '"' {
            proof {
                assert(out@ + Seq::<char>::empty() =~= out@);
            }
            return Ok((out, j + 1));
        }
        let ghost prev = out@;
        if c == '\\' {
            if j + 1 < slen {
                let e = s[j + 1];
                let dec: char = if e == 'n' {
                    '\n'
                } else if e == 't' {
                    '\t'
                } else if e == 'r' {
                    '\r'
                } else if e == 'b' {
                    '\u{8}'
                } else if e == 'f' {
                    '\u{c}'
                } else {
                    e
                };
                if e == '"' || e == '\\' || e == '/' || e == 'n' || e == 't' || e == 'r' || e == 'b'
                    || e == 'f' {
                    out.push(dec);
                    proof {
                        assert(prev.push(unescape(s@[j + 1])) =~= prev + seq![unescape(s@[j + 1])]);
                        if let Ok((t, n)) = p_string(s@, j + 2) {
                            assert(prev + (seq![unescape(s@[j + 1])] + t) =~= (prev
                                + seq![unescape(s@[j + 1])]) + t);
                        }
                    }
                    j = j + 2;
                } else {
                    return Err(j);
                }
            } else {
                return Err(j);
            }
        } else {
            out.push(c);
            proof {
                assert(prev.push(s@[j as int]) =~= prev + seq![s@[j as int]]);
                if let Ok((t, n)) = p_string(s@, j + 1) {
                    assert(prev + (seq![s@[j as int]] + t) =~= (prev + seq![s@[j as int]]) + t);
                }
            }
            j = j + 1;
        }
    }
}

/// Scans a number, accumulating its value with an overflow check.
fn scan_number(s: &Vec<char>, i: usize) -> (r: Result<(Vec<char>, usize), usize>)
    requires
        i <= s@.len(),
    ensures
        match (r, p_number(s@, i as int)) {
            (Ok((v, n)), Ok((t, m))) => t == JsonSpec::Num(v@) && n == m && n <= s@.len(),
            (Err(a), Err(b)) => a == b && a <= s@.len(),
            _ => false,
        },
{
    let slen: usize = s.len();
    let d: usize = scan_digits(s, i);
    let e: usize = i + d;
    if d == 0 {
        return Err(i);
    }
    if s[i] == '0' && d >= 2 {
        return Err(i);
    }
    let digits = copy_range(s, i, e);
    Ok((digits, e))
}

/// Replaces the member of `m` keyed `key`, or appends one.
pub fn exec_obj_put(m: &mut Vec<(Vec<char>, Json)>, key: Vec<char>, val: Json)
    ensures
        Json::model_members(final(m)@) == obj_put(Json::model_members(old(m)@), key@, val@),
{
    let n: usize = m.len();
    let mut k: usize = 0;
    while k < n
        invariant
            n == m@.len(),
            0 <= k <= n,
            m@ == old(m)@,
            forall|q: int| 0 <= q < k ==> old(m)@[q].0@ != key@,
        decreases n - k,
    {
        if chars_eq(&m[k].0, &key) {
            let _ = m.remove(k);
            m.insert(k, (key, val));
            proof {
                assert(old(m)@.remove(k as int).insert(k as int, (key, val)) =~= old(m)@.update(
                    k as int,
                    (key, val),
                ));
                lemma_obj_put_update(old(m)@, key@, val@, k as int);
                lemma_model_members_update(old(m)@, k as int, (key, val));
            }
            return ;
        }
        k = k + 1;
    }
    m.push((key, val));
    proof {
        lemma_obj_put_append(old(m)@, key@, val@);
        lemma_model_members_push(old(m)@, (key, val));
    }
}

/// When `m[k]` holds the key and no earlier member does, the put is an
/// in-place update.
pub proof fn lemma_obj_put_update(m: Seq<(Vec<char>, Json)>, key: Seq<char>, v: JsonSpec, k: int)
    requires
        0 <= k < m.len(),
        m[k].0@ == key,
        forall|q: int| 0 <= q < k ==> m[q].0@ != key,
    ensures
        obj_put(Json::model_members(m), key, v) == Json::model_members(m).update(k, (key, v)),
    decreases k,
{
    let mm = Json::model_members(m);
    lemma_model_members_index(m);
    if k == 0 {
        assert(mm[0].0 == key);
        assert(seq![(key, v)] + mm.subrange(1, mm.len() as int) =~= mm.update(0, (key, v)));
    } else {
        let tail = m.subrange(1, m.len() as int);
        lemma_model_members_index(tail);
        assert(forall|q: int| 0 <= q < k - 1 ==> tail[q].0@ != key);
        assert(tail[k - 1].0@ == key);
        lemma_obj_put_update(tail, key, v, k - 1);
        assert(mm[0].0 != key);
        assert(Json::model_members(tail) =~= mm.subrange(1, mm.len() as int));
        assert(seq![mm[0]] + mm.subrange(1, mm.len() as int).update(k - 1, (key, v)) =~= mm.update(
            k,
            (key, v),
        ));
    }
}

/// When no member holds the key, the put appends.
pub proof fn lemma_obj_put_append(m: Seq<(Vec<char>, Json)>, key: Seq<char>, v: JsonSpec)
    requires
        forall|q: int| 0 <= q < m.len() ==> m[q].0@ != key,
    ensures
        obj_put(Json::model_members(m), key, v) == Json::model_members(m).push((key, v)),
    decreases m.len(),
{
    let mm = Json::model_members(m);
    lemma_model_members_index(m);
    if m.len() == 0 {
        assert(seq![(key, v)] =~= mm.push((key, v)));
    } else {
        let tail = m.subrange(1, m.len() as int);
        lemma_obj_put_append(tail, key, v);
        assert(Json::model_members(tail) =~= mm.subrange(1, mm.len() as int));
        assert(mm[0].0 != key);
        assert(seq![mm[0]] + mm.subrange(1, mm.len() as int).push((key, v)) =~= mm.push((key, v)));
    }
}

/// The members' models, member by member.
pub proof fn lemma_model_members_index(m: Seq<(Vec<char>, Json)>)
    ensures
        Json::model_members(m).len() == m.len(),
        forall|q: int|
            0 <= q < m.len() ==> Json::model_members(m)[q] == (m[q].0@, m[q].1@),
    decreases m.len(),
{
    if m.len() > 0 {
        lemma_model_members_index(m.subrange(1, m.len() as int));
    }
}

/// The elements' models, element by element.
pub proof fn lemma_model_elems_index(m: Seq<Json>)
    ensures
        Json::model_elems(m).len() == m.len(),
        forall|q: int| 0 <= q < m.len() ==> Json::model_elems(m)[q] == m[q]@,
    decreases m.len(),
{
    if m.len() > 0 {
        lemma_model_elems_index(m.subrange(1, m.len() as int));
    }
}

pub proof fn lemma_model_members_update(m: Seq<(Vec<char>, Json)>, k: int, x: (Vec<char>, Json))
    requires
        0 <= k < m.len(),
    ensures
        Json::model_members(m.update(k, x)) == Json::model_members(m).update(k, (x.0@, x.1@)),
{
    lemma_model_members_index(m);
    lemma_model_members_index(m.update(k, x));
    assert(Json::model_members(m.update(k, x)) =~= Json::model_members(m).update(k, (x.0@, x.1@)));
}

pub proof fn lemma_model_members_push(m: Seq<(Vec<char>, Json)>, x: (Vec<char>, Json))
    ensures
        Json::model_members(m.push(x)) == Json::model_members(m).push((x.0@, x.1@)),
{
    lemma_model_members_index(m);
    lemma_model_members_index(m.push(x));
    assert(Json::model_members(m.push(x)) =~= Json::model_members(m).push((x.0@, x.1@)));
}

pub proof fn lemma_model_elems_push(m: Seq<Json>, x: Json)
    ensures
        Json::model_elems(m.push(x)) == Json::model_elems(m).push(x@),
{
    lemma_model_elems_index(m);
    lemma_model_elems_index(m.push(x));
    assert(Json::model_elems(m.push(x)) =~= Json::model_elems(m).push(x@));
}

/// Parses a value starting at `i`.
fn pv(s: &Vec<char>, i: usize, fuel: usize) -> (r: Result<(Json, usize), usize>)
    requires
        i <= s@.len(),
    ensures
        out_matches(r, p_value(s@, i as int, fuel as nat)),
        match r {
            Ok((v, n)) => n <= s@.len(),
            Err(a) => a <= s@.len(),
        },
    decreases fuel,
{
    let slen: usize = s.len();
    if fuel == 0 {
        return Err(i);
    }
    let j: usize = i + scan_ws(s, i);
    if j >= slen {
        return Err(slen);
    }
    let lit_null = to_chars("null");
    let lit_true = to_chars("true");
    let lit_false = to_chars("false");
    if lit_null.len() <= slen - j && check_match(s, &lit_null, j) {
        return Ok((Json::Null, j + lit_null.len()));
    }
    assert(!match_at(s@, "null"@, j as int));
    if lit_true.len() <= slen - j && check_match(s, &lit_true, j) {
        return Ok((Json::Bool(true), j + lit_true.len()));
    }
    assert(!match_at(s@, "true"@, j as int));
    if lit_false.len() <= slen - j && check_match(s, &lit_false, j) {
        return Ok((Json::Bool(false), j + lit_false.len()));
    }
    assert(!match_at(s@, "false"@, j as int));
    let c = s[j];
    if c == '"' {
        match scan_string(s, j + 1) {
            Ok((t, n)) => Ok((Json::Str(t), n)),
            Err(e) => Err(e),
        }
    } else if digit_char(c) {
        match scan_number(s, j) {
            Ok((v, n)) => Ok((Json::Num(v), n)),
            Err(e) => Err(e),
        }
    } else if c == '[' {
        let acc: Vec<Json> = Vec::new();
        proof {
            assert(Json::model_elems(acc@) =~= Seq::<JsonSpec>::empty());
        }
        pe(s, j + 1, true, acc, fuel - 1)
    } else if c == '{' {
        let acc: Vec<(Vec<char>, Json)> = Vec::new();
        proof {
            assert(Json::model_members(acc@) =~= Seq::<(Seq<char>, JsonSpec)>::empty());
        }
        pm(s, j + 1, true, acc, fuel - 1)
    } else {
        Err(j)
    }
}

/// Parses the remainder of an array.
fn pe(s: &Vec<char>, i: usize, first: bool, acc: Vec<Json>, fuel: usize) -> (r: Result<
    (Json, usize),
    usize,
>)
    requires
        i <= s@.len(),
    ensures
        out_matches(r, p_elems(s@, i as int, first, Json::model_elems(acc@), fuel as nat)),
        match r {
            Ok((v, n)) => n <= s@.len(),
            Err(a) => a <= s@.len(),
        },
    decreases fuel,
{
    let slen: usize = s.len();
    if fuel == 0 {
        return Err(i);
    }
    let j: usize = i + scan_ws(s, i);
    if j >= slen {
        return Err(slen);
    }
    if first && s[j] == ']' {
        return Ok((Json::Arr(acc), j + 1));
    }
    match pv(s, j, fuel - 1) {
        Ok((v, n)) => {
            let k: usize = n + scan_ws(s, n);
            if k >= slen {
                return Err(slen);
            }
            if s[k] == ',' {
                let ghost acc0 = acc@;
                let mut acc2 = acc;
                acc2.push(v);
                proof {
                    lemma_model_elems_push(acc0, v);
                }
                pe(s, k + 1, false, acc2, fuel - 1)
            } else if s[k] == ']' {
                let ghost acc0 = acc@;
                let mut acc2 = acc;
                acc2.push(v);
                proof {
                    lemma_model_elems_push(acc0, v);
                }
                Ok((Json::Arr(acc2), k + 1))
            } else {
                Err(k)
            }
        },
        Err(e) => Err(e),
    }
}

/// Parses the remainder of an object.
fn pm(s: &Vec<char>, i: usize, first: bool, acc: Vec<(Vec<char>, Json)>, fuel: usize) -> (r: Result<
    (Json, usize),
    usize,
>)
    requires
        i <= s@.len(),
    ensures
        out_matches(r, p_members(s@, i as int, first, Json::model_members(acc@), fuel as nat)),
        match r {
            Ok((v, n)) => n <= s@.len(),
            Err(a) => a <= s@.len(),
        },
    decreases fuel,
{
    let slen: usize = s.len();
    if fuel == 0 {
        return Err(i);
    }
    let j: usize = i + scan_ws(s, i);
    if j >= slen {
        return Err(slen);
    }
    if first && s[j] == '}' {
        return Ok((Json::Obj(acc), j + 1));
    }
    if s[j] != '"' {
        return Err(j);
    }
    match scan_string(s, j + 1) {
        Ok((key, n)) => {
            let c: usize = n + scan_ws(s, n);
            if c >= slen {
                return Err(slen);
            }
            if s[c] != ':' {
                return Err(c);
            }
            match pv(s, c + 1, fuel - 1) {
                Ok((v, m)) => {
                    let k: usize = m + scan_ws(s, m);
                    if k >= slen {
                        return Err(slen);
                    }
                    if s[k] == ',' {
                        let mut acc2 = acc;
                        exec_obj_put(&mut acc2, key, v);
                        pm(s, k + 1, false, acc2, fuel - 1)
                    } else if s[k] == '}' {
                        let mut acc2 = acc;
                        exec_obj_put(&mut acc2, key, v);
                        Ok((Json::Obj(acc2), k + 1))
                    } else {
                        Err(k)
                    }
                },
                Err(e) => Err(e),
            }
        },
        Err(e) => Err(e),
    }
}

/// Parses a whole JSON document.
pub fn parse_json(s: &Vec<char>) -> (r: Result<Json, usize>)
    ensures
        match (r, parse_doc(s@)) {
            (Ok(v), Ok(t)) => v@ == t,
            (Err(a), Err(b)) => a == b && a <= s@.len(),
            _ => false,
        },
{
    let slen: usize = s.len();
    match pv(s, 0, slen) {
        Ok((v, n)) => {
            let e: usize = n + scan_ws(s, n);
            if e == slen {
                Ok(v)
            } else {
                Err(e)
            }
        },
        Err(a) => Err(a),
    }
}

// ---------------------------------------------------------------------------
// Line and column of a position.
// ---------------------------------------------------------------------------

/// Number of line breaks strictly before `p`.
pub open spec fn nl_count(s: Seq<char>, p: int) -> nat
    decreases p,
{
    if p <= 0 {
        0
    } else {
        nl_count(s, p - 1) + if 0 <= p - 1 < s.len() && s[p - 1] == '\n' {
            1 as nat
        } else {
            0 as nat
        }
    }
}

/// Position just after the last line break before `p` (0 when there is none).
pub open spec fn line_start(s: Seq<char>, p: int) -> int
    decreases p,
{
    if p <= 0 {
        0
    } else if 0 <= p - 1 < s.len() && s[p - 1] == '\n' {
        p
    } else {
        line_start(s, p - 1)
    }
}

/// One-based line of position `p`.
pub open spec fn line_of(s: Seq<char>, p: int) -> int {
    1 + nl_count(s, p) as int
}

/// One-based column of position `p` within its line.
pub open spec fn col_of(s: Seq<char>, p: int) -> int {
    1 + p - line_start(s, p)
}

/// A count held to the machine word; only a text that fills the whole
/// address space could reach the cap.
pub open spec fn capped(n: int) -> int {
    if n <= usize::MAX {
        n
    } else {
        usize::MAX as int
    }
}

/// Computes the one-based line and column of position `p`.
pub fn line_col(s: &Vec<char>, p: usize) -> (r: (usize, usize))
    requires
        p <= s@.len(),
    ensures
        r.0 == capped(line_of(s@, p as int)),
        r.1 == capped(col_of(s@, p as int)),
{
    let mut k: usize = 0;
    let mut nl: usize = 0;
    let mut start: usize = 0;
    while k < p
        invariant
            0 <= k <= p <= s@.len(),
            nl == nl_count(s@, k as int),
            nl <= k,
            start == line_start(s@, k as int),
            start <= k,
        decreases p - k,
    {
        if s[k] == '\n' {
            nl = nl + 1;
            start = k + 1;
        }
        k = k + 1;
    }
    let line: usize = if nl < usize::MAX {
        nl + 1
    } else {
        nl
    };
    let cd: usize = p - start;
    let col: usize = if cd < usize::MAX {
        cd + 1
    } else {
        cd
    };
    (line, col)
}

} // verus!
