//! The Inspect translator: a finite-state, line-oriented parser that turns a
//! per-address nonce-summary dump into the nested mapping
//! `{"pending": {address: {nonce: {field: value}}}}`. Lines are trimmed;
//! blank lines and the dump's label line are skipped; a line of forty hex
//! characters before `: {` opens an address block; a quoted decimal before
//! `: TxpoolInspectSummary {` opens a nonce block; five field shapes write
//! into the open nonce object; a bare `}` or `},` closes the innermost open
//! block. Lines of no known shape, and numeric fields that fail to parse,
//! are silently skipped.

use vstd::prelude::*;
use crate::chars::{
    is_digit, hex_run, digit_run, match_at, check_match, scan_hex, scan_digits,
    chars_eq, to_chars, copy_range, push_all,
};
use crate::json::{Json, JsonSpec, dec_str};
use crate::encode::dec_digits;
use crate::normalize::{trim_sp, trim_idx, split_lines, views_of, line_split};
use crate::parse::{
    dec_val, digit_of, obj_put, lemma_dec_val_grows, lemma_digit_run_char_at, lemma_model_members_index, lemma_model_members_push,
    lemma_obj_put_update, lemma_obj_put_append, lemma_model_members_update, exec_obj_put,
};

verus! {

// ---------------------------------------------------------------------------
// Small text helpers.
// ---------------------------------------------------------------------------

/// Whether `t` begins with `pat`.
pub open spec fn starts_with(t: Seq<char>, pat: Seq<char>) -> bool {
    match_at(t, pat, 0)
}

/// Whether `t` ends with `pat`.
pub open spec fn ends_with(t: Seq<char>, pat: Seq<char>) -> bool {
    t.len() >= pat.len() && match_at(t, pat, t.len() - pat.len())
}

/// The text with every leading `c` removed.
pub open spec fn trim_char_start(l: Seq<char>, c: char) -> Seq<char>
    decreases l.len(),
{
    if l.len() > 0 && l[0] == c {
        trim_char_start(l.subrange(1, l.len() as int), c)
    } else {
        l
    }
}

/// The text with every trailing `c` removed.
pub open spec fn trim_char_end(l: Seq<char>, c: char) -> Seq<char>
    decreases l.len(),
{
    if l.len() > 0 && l[l.len() - 1] == c {
        trim_char_end(l.drop_last(), c)
    } else {
        l
    }
}

/// The text with every leading and trailing `c` removed.
pub open spec fn trim_char(l: Seq<char>, c: char) -> Seq<char> {
    trim_char_end(trim_char_start(l, c), c)
}

/// Trims the character `c` from both ends.
pub fn trim_char_exec(l: &Vec<char>, c: char) -> (r: Vec<char>)
    ensures
        r@ == trim_char(l@, c),
{
    let llen: usize = l.len();
    let mut a: usize = 0;
    proof {
        assert(l@.subrange(0, llen as int) =~= l@);
    }
    while a < llen && l[a] == c
        invariant
            llen == l@.len(),
            0 <= a <= llen,
            trim_char_start(l@, c) == trim_char_start(l@.subrange(a as int, llen as int), c),
        decreases llen - a,
    {
        proof {
            assert(l@.subrange(a as int, llen as int)[0] == l@[a as int]);
            assert(l@.subrange(a as int, llen as int).subrange(
                1,
                l@.subrange(a as int, llen as int).len() as int,
            ) =~= l@.subrange(a + 1, llen as int));
        }
        a = a + 1;
    }
    proof {
        if a < llen {
            assert(l@.subrange(a as int, llen as int)[0] == l@[a as int]);
        }
        assert(trim_char_start(l@.subrange(a as int, llen as int), c) == l@.subrange(
            a as int,
            llen as int,
        ));
    }
    let mut b: usize = llen;
    while b > a && l[b - 1] == c
        invariant
            llen == l@.len(),
            0 <= a <= b <= llen,
            trim_char_end(l@.subrange(a as int, llen as int), c) == trim_char_end(
                l@.subrange(a as int, b as int),
                c,
            ),
        decreases b,
    {
        proof {
            assert(l@.subrange(a as int, b as int)[b - a - 1] == l@[b - 1]);
            assert(l@.subrange(a as int, b as int).drop_last() =~= l@.subrange(a as int, b - 1));
        }
        b = b - 1;
    }
    proof {
        if b > a {
            assert(l@.subrange(a as int, b as int)[b - a - 1] == l@[b - 1]);
        }
        assert(trim_char_end(l@.subrange(a as int, b as int), c) == l@.subrange(a as int, b as int));
    }
    copy_range(l, a, b)
}

/// Trims whitespace from both ends.
pub fn trimmed(l: &Vec<char>) -> (r: Vec<char>)
    ensures
        r@ == trim_sp(l@),
{
    let (a, b) = trim_idx(l);
    copy_range(l, a, b)
}

// ---------------------------------------------------------------------------
// Unsigned decimal parsing, as the dump's numeric fields use it: an optional
// leading plus sign, then decimal digits, within the unsigned 64-bit range.
// ---------------------------------------------------------------------------

/// The value of `s` as an unsigned 64-bit decimal, if it has one.
pub open spec fn u64_of(s: Seq<char>) -> Option<u64> {
    let b = if s.len() > 0 && s[0] == '+' {
        s.subrange(1, s.len() as int)
    } else {
        s
    };
    if b.len() > 0 && digit_run(b, 0) == b.len() && dec_val(b) <= u64::MAX {
        Some(dec_val(b) as u64)
    } else {
        None
    }
}

/// Parses an unsigned 64-bit decimal.
pub fn parse_u64(s: &Vec<char>) -> (r: Option<u64>)
    ensures
        r == u64_of(s@),
{
    let slen: usize = s.len();
    let start: usize = if slen > 0 && s[0] == '+' {
        1
    } else {
        0
    };
    let b = copy_range(s, start, slen);
    proof {
        if slen > 0 && s@[0] == '+' {
            assert(b@ =~= s@.subrange(1, slen as int));
        } else {
            assert(b@ =~= s@);
        }
    }
    let blen: usize = b.len();
    if blen == 0 {
        return None;
    }
    let d: usize = scan_digits(&b, 0);
    if d != blen {
        return None;
    }
    proof {
        assert forall|k: int| 0 <= k < blen implies is_digit(#[trigger] b@[k]) by {
            lemma_digit_run_char_at(b@, 0, k);
        }
    }
    let mut acc: u64 = 0;
    let mut j: usize = 0;
    while j < blen
        invariant
            0 <= j <= blen,
            0 < blen == b@.len(),
            b@ == if s@.len() > 0 && s@[0] == '+' {
                s@.subrange(1, s@.len() as int)
            } else {
                s@
            },
            digit_run(b@, 0) == blen,
            forall|k: int| 0 <= k < blen ==> is_digit(#[trigger] b@[k]),
            acc as int == dec_val(b@.subrange(0, j as int)),
        decreases blen - j,
    {
        let dg: u64 = (b[j] as u32 - 48) as u64;
        proof {
            assert(b@.subrange(0, j + 1).drop_last() =~= b@.subrange(0, j as int));
            assert(b@.subrange(0, j + 1).last() == b@[j as int]);
            assert(dg as int == digit_of(b@[j as int]));
        }
        if acc > u64::MAX / 10 || (acc == u64::MAX / 10 && dg > u64::MAX % 10) {
            proof {
                assert(dec_val(b@.subrange(0, j + 1)) > u64::MAX);
                lemma_dec_val_grows(b@, 0, j + 1, blen as int);
                assert(b@.subrange(0, blen as int) =~= b@);
            }
            return None;
        }
        acc = acc * 10 + dg;
        j = j + 1;
    }
    proof {
        assert(b@.subrange(0, blen as int) =~= b@);
    }
    Some(acc)
}

// ---------------------------------------------------------------------------
// Object lookups over the model.
// ---------------------------------------------------------------------------

/// The value of the first member keyed `k`.
pub open spec fn obj_get(m: Seq<(Seq<char>, JsonSpec)>, k: Seq<char>) -> Option<JsonSpec>
    decreases m.len(),
{
    if m.len() == 0 {
        None
    } else if m[0].0 == k {
        Some(m[0].1)
    } else {
        obj_get(m.subrange(1, m.len() as int), k)
    }
}

/// A put is visible to a lookup of the same key.
pub proof fn lemma_obj_get_put(m: Seq<(Seq<char>, JsonSpec)>, k: Seq<char>, v: JsonSpec)
    ensures
        obj_get(obj_put(m, k, v), k) == Some(v),
    decreases m.len(),
{
    if m.len() == 0 {
    } else if m[0].0 == k {
        assert(obj_put(m, k, v)[0] == (k, v));
    } else {
        lemma_obj_get_put(m.subrange(1, m.len() as int), k, v);
        let w = obj_put(m, k, v);
        assert(w[0] == m[0]);
        assert(w.subrange(1, w.len() as int) =~= obj_put(m.subrange(1, m.len() as int), k, v));
    }
}

/// The members of an object value; anything else has none.
pub open spec fn members_of(v: Option<JsonSpec>) -> Seq<(Seq<char>, JsonSpec)> {
    match v {
        Some(JsonSpec::Obj(m)) => m,
        _ => Seq::empty(),
    }
}

/// Finds the first member keyed `key`.
fn obj_find(m: &Vec<(Vec<char>, Json)>, key: &Vec<char>) -> (r: Option<usize>)
    ensures
        match r {
            Some(i) => 0 <= i < m@.len() && m@[i as int].0@ == key@ && (forall|j: int|
                0 <= j < i ==> m@[j].0@ != key@),
            None => forall|j: int| 0 <= j < m@.len() ==> m@[j].0@ != key@,
        },
{
    let n: usize = m.len();
    let mut k: usize = 0;
    while k < n
        invariant
            n == m@.len(),
            0 <= k <= n,
            forall|j: int| 0 <= j < k ==> m@[j].0@ != key@,
        decreases n - k,
    {
        if chars_eq(&m[k].0, key) {
            return Some(k);
        }
        k = k + 1;
    }
    None
}

/// An executable find agrees with the model lookup: a hit names the value.
proof fn lemma_obj_get_at(m: Seq<(Vec<char>, Json)>, key: Seq<char>, i: int)
    requires
        0 <= i < m.len(),
        m[i].0@ == key,
        forall|j: int| 0 <= j < i ==> m[j].0@ != key,
    ensures
        obj_get(Json::model_members(m), key) == Some(m[i].1@),
    decreases i,
{
    lemma_model_members_index(m);
    let mm = Json::model_members(m);
    if i == 0 {
    } else {
        let tail = m.subrange(1, m.len() as int);
        lemma_obj_get_at(tail, key, i - 1);
        assert(Json::model_members(tail) =~= mm.subrange(1, mm.len() as int));
    }
}

/// A miss means the model lookup misses too.
proof fn lemma_obj_get_none(m: Seq<(Vec<char>, Json)>, key: Seq<char>)
    requires
        forall|j: int| 0 <= j < m.len() ==> m[j].0@ != key,
    ensures
        obj_get(Json::model_members(m), key) is None,
    decreases m.len(),
{
    lemma_model_members_index(m);
    let mm = Json::model_members(m);
    if m.len() > 0 {
        let tail = m.subrange(1, m.len() as int);
        lemma_obj_get_none(tail, key);
        assert(Json::model_members(tail) =~= mm.subrange(1, mm.len() as int));
    }
}

// ---------------------------------------------------------------------------
// The machine.
// ---------------------------------------------------------------------------

/// Machine state: the pending map under construction, and the open address
/// and nonce, if any.
pub struct Machine {
    pub pending: Vec<(Vec<char>, Json)>,
    pub addr: Option<Vec<char>>,
    pub nonce: Option<Vec<char>>,
}

/// Model of a machine state.
#[verifier::ext_equal]
pub struct MachineModel {
    pub pending: Seq<(Seq<char>, JsonSpec)>,
    pub addr: Option<Seq<char>>,
    pub nonce: Option<Seq<char>>,
}

impl Machine {
    pub open spec fn model(&self) -> MachineModel {
        MachineModel {
            pending: Json::model_members(self.pending@),
            addr: match self.addr {
                Some(ref a) => Some(a@),
                None => None,
            },
            nonce: match self.nonce {
                Some(ref n) => Some(n@),
                None => None,
            },
        }
    }
}

/// Whether an address pattern stands at `i` of the trimmed line: forty hex
/// characters, then `: {`.
pub open spec fn addr_match_at(t: Seq<char>, i: int) -> bool {
    &&& 0 <= i
    &&& i + 43 <= t.len()
    &&& hex_run(t, i) == 40
    &&& t[i + 40] == ':'
    &&& t[i + 41] == ' '
    &&& t[i + 42] == '{'
}

/// Leftmost position of an address pattern, or -1.
pub open spec fn addr_pos_from(t: Seq<char>, i: int) -> int
    decreases t.len() - i,
{
    if !(0 <= i && i + 43 <= t.len()) {
        -1
    } else if addr_match_at(t, i) {
        i
    } else {
        addr_pos_from(t, i + 1)
    }
}

/// The literal `0x` prefix.
pub open spec fn hex_prefix() -> Seq<char> {
    seq!['0', 'x']
}

/// Whether the text before the nonce-summary suffix is a quoted decimal: a
/// double quote, one or more digits, and a closing double quote. Only such a
/// stem opens a nonce block; a line with any other stem has no known shape
/// and is skipped.
pub open spec fn nonce_stem_ok(stem: Seq<char>) -> bool {
    &&& stem.len() >= 3
    &&& stem[0] == '"'
    &&& stem[stem.len() - 1] == '"'
    &&& digit_run(stem, 1) == stem.len() - 2
}

/// One field write into the open nonce object, when both levels exist.
pub open spec fn put_field(
    st: MachineModel,
    addr: Seq<char>,
    nonce: Seq<char>,
    key: Seq<char>,
    val: JsonSpec,
) -> MachineModel {
    match obj_get(st.pending, addr) {
        Some(av) => match obj_get(members_of(Some(av)), nonce) {
            Some(nv) => MachineModel {
                pending: obj_put(
                    st.pending,
                    addr,
                    JsonSpec::Obj(
                        obj_put(
                            members_of(Some(av)),
                            nonce,
                            JsonSpec::Obj(obj_put(members_of(Some(nv)), key, val)),
                        ),
                    ),
                ),
                ..st
            },
            None => st,
        },
        None => st,
    }
}

/// One line of the machine: the transition on the trimmed text.
pub open spec fn insp_line(st: MachineModel, raw: Seq<char>) -> MachineModel {
    let t = trim_sp(raw);
    if t.len() == 0 || starts_with(t, "TxpoolInspect"@) {
        st
    } else if addr_pos_from(t, 0) >= 0 {
        let i = addr_pos_from(t, 0);
        let key = hex_prefix() + t.subrange(i, i + 40);
        let pending2 = if obj_get(st.pending, key) is Some {
            st.pending
        } else {
            st.pending.push((key, JsonSpec::Obj(Seq::empty())))
        };
        MachineModel { pending: pending2, addr: Some(key), nonce: st.nonce }
    } else if ends_with(t, ": TxpoolInspectSummary {"@) {
        match st.addr {
            Some(addr) => {
                let stem = t.subrange(0, t.len() - ": TxpoolInspectSummary {"@.len());
                if nonce_stem_ok(stem) {
                    let nk = stem.subrange(1, stem.len() - 1);
                    let am = members_of(obj_get(st.pending, addr));
                    MachineModel {
                        pending: obj_put(
                            st.pending,
                            addr,
                            JsonSpec::Obj(obj_put(am, nk, JsonSpec::Obj(Seq::empty()))),
                        ),
                        addr: st.addr,
                        nonce: Some(nk),
                    }
                } else {
                    st
                }
            },
            None => st,
        }
    } else if st.addr is Some && st.nonce is Some && starts_with(t, "to: Some("@) {
        let rest = t.subrange("to: Some("@.len() as int, t.len() as int);
        let ta = trim_char(trim_char(trim_sp(rest), ','), ')');
        put_field(
            st,
            st.addr->Some_0,
            st.nonce->Some_0,
            "to"@,
            JsonSpec::Str(hex_prefix() + ta),
        )
    } else if st.addr is Some && st.nonce is Some && t == "to: None,"@ {
        put_field(st, st.addr->Some_0, st.nonce->Some_0, "to"@, JsonSpec::Null)
    } else if st.addr is Some && st.nonce is Some && starts_with(t, "value: "@) {
        let v = trim_char(t.subrange("value: "@.len() as int, t.len() as int), ',');
        match u64_of(v) {
            Some(n) => put_field(
                st,
                st.addr->Some_0,
                st.nonce->Some_0,
                "value"@,
                JsonSpec::Num(dec_str(n as nat)),
            ),
            None => st,
        }
    } else if st.addr is Some && st.nonce is Some && starts_with(t, "gas: "@) {
        let v = trim_char(t.subrange("gas: "@.len() as int, t.len() as int), ',');
        match u64_of(v) {
            Some(n) => put_field(
                st,
                st.addr->Some_0,
                st.nonce->Some_0,
                "gas"@,
                JsonSpec::Num(dec_str(n as nat)),
            ),
            None => st,
        }
    } else if st.addr is Some && st.nonce is Some && starts_with(t, "gas_price: "@) {
        let v = trim_char(t.subrange("gas_price: "@.len() as int, t.len() as int), ',');
        match u64_of(v) {
            Some(n) => put_field(
                st,
                st.addr->Some_0,
                st.nonce->Some_0,
                "gas_price"@,
                JsonSpec::Num(dec_str(n as nat)),
            ),
            None => st,
        }
    } else if t == "}"@ || t == "},"@ {
        if st.nonce is Some {
            MachineModel { nonce: None, ..st }
        } else if st.addr is Some {
            MachineModel { addr: None, ..st }
        } else {
            st
        }
    } else {
        st
    }
}

/// The machine run over the lines from `i` on.
pub open spec fn insp_from(ls: Seq<Seq<char>>, i: int, st: MachineModel) -> MachineModel
    decreases ls.len() - i,
{
    if !(0 <= i < ls.len()) {
        st
    } else {
        insp_from(ls, i + 1, insp_line(st, ls[i]))
    }
}

/// The initial machine state.
pub open spec fn insp_init() -> MachineModel {
    MachineModel { pending: Seq::empty(), addr: None, nonce: None }
}

/// The whole Inspect translation of a dump text.
pub open spec fn inspect_spec(s: Seq<char>) -> JsonSpec {
    JsonSpec::Obj(
        seq![
            ("pending"@, JsonSpec::Obj(insp_from(line_split(s, 0), 0, insp_init()).pending)),
        ],
    )
}

/// The members of the open nonce object of a state.
pub open spec fn nonce_members(st: MachineModel, a: Seq<char>, n: Seq<char>) -> Seq<
    (Seq<char>, JsonSpec),
> {
    members_of(obj_get(members_of(obj_get(st.pending, a)), n))
}

/// An absent-optional-value field literal yields a JSON null, not an omitted
/// key: in any state with an open address and nonce that lead to a nonce
/// object, a line that trims to the absent form of the optional address field
/// leaves that object with the field mapped to null.
pub proof fn lemma_absent_optional_yields_null(st: MachineModel, raw: Seq<char>)
    requires
        trim_sp(raw) == "to: None,"@,
        st.addr is Some,
        st.nonce is Some,
        obj_get(st.pending, st.addr->Some_0) is Some,
        obj_get(members_of(obj_get(st.pending, st.addr->Some_0)), st.nonce->Some_0) is Some,
    ensures
        obj_get(
            nonce_members(insp_line(st, raw), st.addr->Some_0, st.nonce->Some_0),
            "to"@,
        ) == Some(JsonSpec::Null),
{
    reveal_strlit("to: None,");
    reveal_strlit("TxpoolInspect");
    reveal_strlit(": TxpoolInspectSummary {");
    reveal_strlit("to: Some(");
    reveal_strlit("to");
    let t = trim_sp(raw);
    assert(t.len() == 9);
    assert(!starts_with(t, "TxpoolInspect"@));
    assert(addr_pos_from(t, 0) == -1);
    assert(!ends_with(t, ": TxpoolInspectSummary {"@));
    assert(!starts_with(t, "to: Some("@)) by {
        assert(t[4] == 'N');
        assert("to: Some("@[4] == 'S');
        assert(t.subrange(0, 9) =~= t);
    }
    let a = st.addr->Some_0;
    let n = st.nonce->Some_0;
    let av = obj_get(st.pending, a)->Some_0;
    let nv = obj_get(members_of(Some(av)), n)->Some_0;
    let st2 = insp_line(st, raw);
    assert(st2 == put_field(st, a, n, "to"@, JsonSpec::Null));
    let nm2 = obj_put(members_of(Some(nv)), "to"@, JsonSpec::Null);
    let am2 = obj_put(members_of(Some(av)), n, JsonSpec::Obj(nm2));
    assert(st2.pending == obj_put(st.pending, a, JsonSpec::Obj(am2)));
    lemma_obj_get_put(st.pending, a, JsonSpec::Obj(am2));
    lemma_obj_get_put(members_of(Some(av)), n, JsonSpec::Obj(nm2));
    lemma_obj_get_put(members_of(Some(nv)), "to"@, JsonSpec::Null);
}

// ---------------------------------------------------------------------------
// The executable machine.
// ---------------------------------------------------------------------------

/// Copies a key.
fn copy_key(k: &Vec<char>) -> (r: Vec<char>)
    ensures
        r@ == k@,
{
    let r = copy_range(k, 0, k.len());
    proof {
        assert(k@.subrange(0, k@.len() as int) =~= k@);
    }
    r
}

/// Finds the leftmost address pattern of the trimmed line.
fn find_addr(t: &Vec<char>) -> (r: Option<usize>)
    ensures
        match r {
            Some(i) => addr_pos_from(t@, 0) == i as int && i + 43 <= t@.len(),
            None => addr_pos_from(t@, 0) == -1,
        },
{
    let tlen: usize = t.len();
    let mut i: usize = 0;
    while i < tlen && 43 <= tlen - i
        invariant
            tlen == t@.len(),
            0 <= i <= tlen,
            addr_pos_from(t@, 0) == addr_pos_from(t@, i as int),
        decreases tlen - i,
    {
        let h: usize = scan_hex(t, i);
        if h == 40 && t[i + 40] == ':' && t[i + 41] == ' ' && t[i + 42] == '{' {
            assert(addr_match_at(t@, i as int));
            return Some(i);
        }
        assert(!addr_match_at(t@, i as int));
        i = i + 1;
    }
    assert(addr_pos_from(t@, i as int) == -1);
    None
}

/// The members of an object value, taken apart; any other value has none.
fn take_members(v: Json) -> (r: Vec<(Vec<char>, Json)>)
    ensures
        Json::model_members(r@) == members_of(Some(v@)),
        v is Obj ==> r@ == v->Obj_0@,
{
    match v {
        Json::Obj(mm) => mm,
        _ => {
            let r: Vec<(Vec<char>, Json)> = Vec::new();
            proof {
                assert(Json::model_members(r@) =~= Seq::<(Seq<char>, JsonSpec)>::empty());
            }
            r
        },
    }
}

/// Looks for `nk` inside the object value of `pending[i]`.
fn find_nonce_in(pending: &Vec<(Vec<char>, Json)>, i: usize, nk: &Vec<char>) -> (r: Option<usize>)
    requires
        i < pending@.len(),
    ensures
        match r {
            Some(j) => pending@[i as int].1 is Obj && {
                let mm = pending@[i as int].1->Obj_0@;
                0 <= j < mm.len() && mm[j as int].0@ == nk@ && (forall|q: int|
                    0 <= q < j ==> mm[q].0@ != nk@)
            },
            None => obj_get(members_of(Some(pending@[i as int].1@)), nk@) is None,
        },
{
    match &pending[i].1 {
        Json::Obj(mm) => {
            let r = obj_find(mm, nk);
            proof {
                if r is None {
                    lemma_obj_get_none(mm@, nk@);
                }
            }
            r
        },
        _ => {
            proof {
                assert(members_of(Some(pending@[i as int].1@)) =~= Seq::<
                    (Seq<char>, JsonSpec),
                >::empty());
            }
            None
        },
    }
}

/// Writes `key: val` into the open nonce object, when the open address and
/// nonce both lead to one.
fn exec_put_field(st: Machine, key: Vec<char>, val: Json) -> (r: Machine)
    requires
        st.addr is Some,
        st.nonce is Some,
    ensures
        r.model() == put_field(
            st.model(),
            st.model().addr->Some_0,
            st.model().nonce->Some_0,
            key@,
            val@,
        ),
{
    let Machine { mut pending, addr, nonce } = st;
    let ghost pend0 = pending@;
    let ghost pm0 = Json::model_members(pend0);
    let ghost am = st.model().addr->Some_0;
    let ghost nm = st.model().nonce->Some_0;
    match (&addr, &nonce) {
        (Some(ak), Some(nk)) => {
            let idx: Option<usize> = obj_find(&pending, ak);
            match idx {
                Some(i) => {
                    proof {
                        lemma_obj_get_at(pend0, am, i as int);
                    }
                    let ghost av = pend0[i as int].1@;
                    let jdx: Option<usize> = find_nonce_in(&pending, i, nk);
                    match jdx {
                        Some(j) => {
                            let ghost mm0 = pend0[i as int].1->Obj_0@;
                            proof {
                                assert(av == JsonSpec::Obj(Json::model_members(mm0)));
                                assert(members_of(Some(av)) == Json::model_members(mm0));
                                lemma_obj_get_at(mm0, nm, j as int);
                            }
                            let ghost amm = members_of(Some(av));
                            let ghost nv = mm0[j as int].1@;
                            let (k0, v0) = pending.remove(i);
                            let mut inner = take_members(v0);
                            proof {
                                assert(inner@ == mm0);
                            }
                            let (k1, v1) = inner.remove(j);
                            let mut fields = take_members(v1);
                            exec_obj_put(&mut fields, key, val);
                            let fval = Json::Obj(fields);
                            let ghost fm = fval@;
                            inner.insert(j, (k1, fval));
                            proof {
                                assert(fm == JsonSpec::Obj(
                                    obj_put(members_of(Some(nv)), key@, val@),
                                ));
                                assert(inner@ =~= mm0.update(j as int, (k1, inner@[j as int].1)));
                                lemma_obj_put_update(mm0, nm, fm, j as int);
                                lemma_model_members_update(mm0, j as int, (k1, inner@[j as int].1));
                                assert(Json::model_members(inner@) == obj_put(amm, nm, fm));
                            }
                            let ghost am2 = JsonSpec::Obj(Json::model_members(inner@));
                            let ival = Json::Obj(inner);
                            pending.insert(i, (k0, ival));
                            proof {
                                assert(pending@ =~= pend0.update(
                                    i as int,
                                    (k0, pending@[i as int].1),
                                ));
                                lemma_obj_put_update(pend0, am, am2, i as int);
                                lemma_model_members_update(
                                    pend0,
                                    i as int,
                                    (k0, pending@[i as int].1),
                                );
                                assert(Json::model_members(pending@) == obj_put(pm0, am, am2));
                            }
                            Machine { pending, addr, nonce }
                        },
                        None => {
                            Machine { pending, addr, nonce }
                        },
                    }
                },
                None => {
                    proof {
                        lemma_obj_get_none(pend0, am);
                    }
                    Machine { pending, addr, nonce }
                },
            }
        },
        _ => {
            proof {
                assert(false);
            }
            Machine { pending, addr, nonce }
        },
    }
}

/// Opens an address block: creates or reuses the address object and makes the
/// address current.
fn exec_open_addr(st: Machine, key: Vec<char>) -> (r: Machine)
    ensures
        r.model() == (MachineModel {
            pending: if obj_get(st.model().pending, key@) is Some {
                st.model().pending
            } else {
                st.model().pending.push((key@, JsonSpec::Obj(Seq::empty())))
            },
            addr: Some(key@),
            nonce: st.model().nonce,
        }),
{
    let Machine { mut pending, addr, nonce } = st;
    let ghost pend0 = pending@;
    let key2 = copy_key(&key);
    match obj_find(&pending, &key) {
        Some(i) => {
            proof {
                lemma_obj_get_at(pend0, key@, i as int);
            }
            Machine { pending, addr: Some(key2), nonce }
        },
        None => {
            proof {
                lemma_obj_get_none(pend0, key@);
            }
            let empty_obj: Vec<(Vec<char>, Json)> = Vec::new();
            proof {
                assert(Json::model_members(empty_obj@) =~= Seq::<(Seq<char>, JsonSpec)>::empty());
            }
            pending.push((key, Json::Obj(empty_obj)));
            proof {
                lemma_model_members_push(pend0, pending@[pend0.len() as int]);
            }
            Machine { pending, addr: Some(key2), nonce }
        },
    }
}

/// Opens a nonce block under the current address: creates or reuses the
/// address object, puts an empty object under the nonce, and makes the nonce
/// current.
fn exec_open_nonce(st: Machine, nk: Vec<char>) -> (r: Machine)
    requires
        st.addr is Some,
    ensures
        r.model() == (MachineModel {
            pending: obj_put(
                st.model().pending,
                st.model().addr->Some_0,
                JsonSpec::Obj(
                    obj_put(
                        members_of(obj_get(st.model().pending, st.model().addr->Some_0)),
                        nk@,
                        JsonSpec::Obj(Seq::empty()),
                    ),
                ),
            ),
            addr: st.model().addr,
            nonce: Some(nk@),
        }),
{
    let Machine { mut pending, addr, nonce } = st;
    let ghost pend0 = pending@;
    let ghost pm0 = Json::model_members(pend0);
    let ghost am = st.model().addr->Some_0;
    let nk2 = copy_key(&nk);
    let empty_obj: Vec<(Vec<char>, Json)> = Vec::new();
    proof {
        assert(Json::model_members(empty_obj@) =~= Seq::<(Seq<char>, JsonSpec)>::empty());
    }
    let nval = Json::Obj(empty_obj);
    match &addr {
        Some(ak) => {
            match obj_find(&pending, ak) {
                Some(i) => {
                    proof {
                        lemma_obj_get_at(pend0, am, i as int);
                    }
                    let ghost av = pend0[i as int].1@;
                    let (k0, v0) = pending.remove(i);
                    let mut inner = take_members(v0);
                    let ghost am_members = Json::model_members(inner@);
                    exec_obj_put(&mut inner, nk, nval);
                    let ival = Json::Obj(inner);
                    let ghost am2 = ival@;
                    pending.insert(i, (k0, ival));
                    proof {
                        assert(am2 == JsonSpec::Obj(
                            obj_put(members_of(Some(av)), nk@, JsonSpec::Obj(Seq::empty())),
                        ));
                        assert(pending@ =~= pend0.update(i as int, (k0, pending@[i as int].1)));
                        lemma_obj_put_update(pend0, am, am2, i as int);
                        lemma_model_members_update(pend0, i as int, (k0, pending@[i as int].1));
                        assert(Json::model_members(pending@) == obj_put(pm0, am, am2));
                    }
                    Machine { pending, addr, nonce: Some(nk2) }
                },
                None => {
                    proof {
                        lemma_obj_get_none(pend0, am);
                    }
                    let ak2 = copy_key(ak);
                    let mut inner: Vec<(Vec<char>, Json)> = Vec::new();
                    proof {
                        assert(Json::model_members(inner@) =~= Seq::<
                            (Seq<char>, JsonSpec),
                        >::empty());
                    }
                    exec_obj_put(&mut inner, nk, nval);
                    let ival = Json::Obj(inner);
                    let ghost am2 = ival@;
                    pending.push((ak2, ival));
                    proof {
                        assert(am2 == JsonSpec::Obj(
                            obj_put(
                                members_of(obj_get(pm0, am)),
                                nk@,
                                JsonSpec::Obj(Seq::empty()),
                            ),
                        ));
                        lemma_obj_put_append(pend0, am, am2);
                        lemma_model_members_push(pend0, pending@[pend0.len() as int]);
                    }
                    Machine { pending, addr, nonce: Some(nk2) }
                },
            }
        },
        None => {
            proof {
                assert(false);
            }
            Machine { pending, addr, nonce }
        },
    }
}

/// One line of the machine.
pub fn insp_step(st: Machine, line: &Vec<char>) -> (r: Machine)
    ensures
        r.model() == insp_line(st.model(), line@),
{
    let t = trimmed(line);
    let tlen: usize = t.len();
    if tlen == 0 {
        return st;
    }
    let lab = to_chars("TxpoolInspect");
    if lab.len() <= tlen && check_match(&t, &lab, 0) {
        return st;
    }
    assert(!starts_with(t@, "TxpoolInspect"@));
    match find_addr(&t) {
        Some(i) => {
            let mut key: Vec<char> = Vec::new();
            key.push('0');
            key.push('x');
            let body = copy_range(&t, i, i + 40);
            push_all(&mut key, &body);
            proof {
                assert(key@ =~= hex_prefix() + t@.subrange(i as int, i + 40));
            }
            return exec_open_addr(st, key);
        },
        None => {
        },
    }
    let suf = to_chars(": TxpoolInspectSummary {");
    if suf.len() <= tlen && check_match(&t, &suf, tlen - suf.len()) {
        assert(ends_with(t@, ": TxpoolInspectSummary {"@));
        if st.addr.is_some() {
            let stem = copy_range(&t, 0, tlen - suf.len());
            let slen: usize = stem.len();
            if slen >= 3 && stem[0] == '"' && stem[slen - 1] == '"' && scan_digits(&stem, 1)
                == slen - 2 {
                assert(nonce_stem_ok(stem@));
                let nk = copy_range(&stem, 1, slen - 1);
                return exec_open_nonce(st, nk);
            }
            assert(!nonce_stem_ok(stem@));
            return st;
        }
        return st;
    }
    assert(!ends_with(t@, ": TxpoolInspectSummary {"@));
    if st.addr.is_some() && st.nonce.is_some() {
        let p_to = to_chars("to: Some(");
        if p_to.len() <= tlen && check_match(&t, &p_to, 0) {
            let rest = copy_range(&t, p_to.len(), tlen);
            let r1 = trimmed(&rest);
            let r2 = trim_char_exec(&r1, ',');
            let r3 = trim_char_exec(&r2, ')');
            let mut sv: Vec<char> = Vec::new();
            sv.push('0');
            sv.push('x');
            push_all(&mut sv, &r3);
            proof {
                assert(sv@ =~= hex_prefix() + trim_char(
                    trim_char(trim_sp(t@.subrange("to: Some("@.len() as int, t@.len() as int)), ','),
                    ')',
                ));
            }
            return exec_put_field(st, to_chars("to"), Json::Str(sv));
        }
        assert(!starts_with(t@, "to: Some("@));
        let l_none = to_chars("to: None,");
        if chars_eq(&t, &l_none) {
            return exec_put_field(st, to_chars("to"), Json::Null);
        }
        assert(t@ != "to: None,"@);
        let p_value = to_chars("value: ");
        if p_value.len() <= tlen && check_match(&t, &p_value, 0) {
            let rest = copy_range(&t, p_value.len(), tlen);
            let v = trim_char_exec(&rest, ',');
            match parse_u64(&v) {
                Some(n) => {
                    return exec_put_field(st, to_chars("value"), Json::Num(dec_digits(n)));
                },
                None => {
                    return st;
                },
            }
        }
        assert(!starts_with(t@, "value: "@));
        let p_gas = to_chars("gas: ");
        if p_gas.len() <= tlen && check_match(&t, &p_gas, 0) {
            let rest = copy_range(&t, p_gas.len(), tlen);
            let v = trim_char_exec(&rest, ',');
            match parse_u64(&v) {
                Some(n) => {
                    return exec_put_field(st, to_chars("gas"), Json::Num(dec_digits(n)));
                },
                None => {
                    return st;
                },
            }
        }
        assert(!starts_with(t@, "gas: "@));
        let p_gp = to_chars("gas_price: ");
        if p_gp.len() <= tlen && check_match(&t, &p_gp, 0) {
            let rest = copy_range(&t, p_gp.len(), tlen);
            let v = trim_char_exec(&rest, ',');
            match parse_u64(&v) {
                Some(n) => {
                    return exec_put_field(st, to_chars("gas_price"), Json::Num(dec_digits(n)));
                },
                None => {
                    return st;
                },
            }
        }
        assert(!starts_with(t@, "gas_price: "@));
    }
    let l_close = to_chars("}");
    let l_close_comma = to_chars("},");
    if chars_eq(&t, &l_close) || chars_eq(&t, &l_close_comma) {
        let Machine { pending, addr, nonce } = st;
        if nonce.is_some() {
            return Machine { pending, addr, nonce: None };
        }
        if addr.is_some() {
            return Machine { pending, addr: None, nonce };
        }
        return Machine { pending, addr, nonce };
    }
    st
}

/// Translates an Inspect dump: runs the machine over the lines and wraps the
/// pending map.
pub fn parse_txpool_inspect(input: &Vec<char>) -> (r: Json)
    ensures
        r@ == inspect_spec(input@),
{
    let lines = split_lines(input);
    let n: usize = lines.len();
    let mut st = Machine { pending: Vec::new(), addr: None, nonce: None };
    proof {
        assert(Json::model_members(st.pending@) =~= Seq::<(Seq<char>, JsonSpec)>::empty());
        assert(st.model() =~= insp_init());
    }
    let ghost ls = views_of(lines@);
    let mut i: usize = 0;
    while i < n
        invariant
            n == lines@.len(),
            ls == views_of(lines@),
            ls == line_split(input@, 0),
            0 <= i <= n,
            insp_from(ls, 0, insp_init()) == insp_from(ls, i as int, st.model()),
        decreases n - i,
    {
        let ghost prev = st.model();
        st = insp_step(st, &lines[i]);
        proof {
            assert(ls[i as int] == lines@[i as int]@);
            assert(st.model() == insp_line(prev, ls[i as int]));
        }
        i = i + 1;
    }
    let key = to_chars("pending");
    let mut members: Vec<(Vec<char>, Json)> = Vec::new();
    let ghost pm = Json::model_members(st.pending@);
    members.push((key, Json::Obj(st.pending)));
    let r = Json::Obj(members);
    proof {
        lemma_model_members_push(Seq::empty(), members@[0]);
        assert(Seq::<(Vec<char>, Json)>::empty().push(members@[0]) =~= members@);
        assert(Json::model_members(Seq::<(Vec<char>, Json)>::empty()) =~= Seq::<
            (Seq<char>, JsonSpec),
        >::empty());
        assert(Json::model_members(members@) =~= seq![("pending"@, JsonSpec::Obj(pm))]);
        assert(insp_from(ls, 0, insp_init()).pending == pm);
    }
    r
}

} // verus!
