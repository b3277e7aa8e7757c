//! The JSON value type that both translation pipelines produce, its
//! mathematical model, and the pretty-printing encoder.

use vstd::prelude::*;

verus! {

/// Mathematical model of a JSON value. Object member order is the order of
/// first insertion; keys are unique in every value the library produces.
/// A number is a non-negative integer of any size, held as its decimal
/// digit run.
pub enum JsonSpec {
    Null,
    Bool(bool),
    Num(Seq<char>),
    Str(Seq<char>),
    Arr(Seq<JsonSpec>),
    Obj(Seq<(Seq<char>, JsonSpec)>),
}

/// Executable JSON value. Numbers are non-negative integers of any size,
/// held as their decimal digit runs; strings are held as character vectors.
#[derive(Debug)]
pub enum Json {
    Null,
    Bool(bool),
    Num(Vec<char>),
    Str(Vec<char>),
    Arr(Vec<Json>),
    Obj(Vec<(Vec<char>, Json)>),
}

impl Json {
    /// Model of an executable value.
    pub open spec fn model(self) -> JsonSpec
        decreases self,
    {
        match self {
            Json::Null => JsonSpec::Null,
            Json::Bool(b) => JsonSpec::Bool(b),
            Json::Num(n) => JsonSpec::Num(n@),
            Json::Str(s) => JsonSpec::Str(s@),
            Json::Arr(v) => JsonSpec::Arr(Json::model_elems(v@)),
            Json::Obj(v) => JsonSpec::Obj(Json::model_members(v@)),
        }
    }

    /// Models of the elements of an array.
    pub open spec fn model_elems(s: Seq<Json>) -> Seq<JsonSpec>
        decreases s,
    {
        if s.len() == 0 {
            Seq::empty()
        } else {
            seq![s[0].model()] + Json::model_elems(s.subrange(1, s.len() as int))
        }
    }

    /// Models of the members of an object.
    pub open spec fn model_members(s: Seq<(Vec<char>, Json)>) -> Seq<(Seq<char>, JsonSpec)>
        decreases s,
    {
        if s.len() == 0 {
            Seq::empty()
        } else {
            seq![(s[0].0@, s[0].1.model())] + Json::model_members(s.subrange(1, s.len() as int))
        }
    }
}

impl View for Json {
    type V = JsonSpec;

    open spec fn view(&self) -> JsonSpec {
        self.model()
    }
}

// ---------------------------------------------------------------------------
// Pretty-printing encoder: two-space indentation, one element or member per
// line, `{}` and `[]` for the empty containers.
// ---------------------------------------------------------------------------

/// `n` spaces.
pub open spec fn spaces(n: int) -> Seq<char>
    decreases n,
{
    if n <= 0 {
        Seq::empty()
    } else {
        spaces(n - 1) + seq![' ']
    }
}

/// The next indentation depth: two more columns, held to the machine word.
pub open spec fn ind_inc(n: nat) -> nat {
    if n + 2 <= usize::MAX {
        (n + 2) as nat
    } else {
        n
    }
}

/// The character of one decimal digit value.
pub open spec fn digit_char_of(d: nat) -> char {
    if d == 0 {
        '0'
    } else if d == 1 {
        '1'
    } else if d == 2 {
        '2'
    } else if d == 3 {
        '3'
    } else if d == 4 {
        '4'
    } else if d == 5 {
        '5'
    } else if d == 6 {
        '6'
    } else if d == 7 {
        '7'
    } else if d == 8 {
        '8'
    } else {
        '9'
    }
}

/// The decimal rendering of a number.
pub open spec fn dec_str(n: nat) -> Seq<char>
    decreases n,
{
    if n < 10 {
        seq![digit_char_of(n)]
    } else {
        dec_str(n / 10) + seq![digit_char_of(n % 10)]
    }
}

/// String-body escaping from position `i` on: quote, backslash and the three
/// common control characters are escaped, all else is emitted as it stands.
pub open spec fn esc_from(t: Seq<char>, i: int) -> Seq<char>
    decreases t.len() - i,
{
    if !(0 <= i < t.len()) {
        Seq::empty()
    } else {
        let c = t[i];
        let piece = if c == '"' {
            seq!['\\', '"']
        } else if c == '\\' {
            seq!['\\', '\\']
        } else if c == '\n' {
            seq!['\\', 'n']
        } else if c == '\r' {
            seq!['\\', 'r']
        } else if c == '\t' {
            seq!['\\', 't']
        } else {
            seq![c]
        };
        piece + esc_from(t, i + 1)
    }
}

/// The pretty-printed text of a value at indentation depth `ind`.
pub open spec fn enc(v: JsonSpec, ind: nat) -> Seq<char>
    decreases v,
{
    match v {
        JsonSpec::Null => "null"@,
        JsonSpec::Bool(b) => if b {
            "true"@
        } else {
            "false"@
        },
        JsonSpec::Num(n) => n,
        JsonSpec::Str(t) => seq!['"'] + esc_from(t, 0) + seq!['"'],
        JsonSpec::Arr(es) => if es.len() == 0 {
            "[]"@
        } else {
            seq!['[', '\n'] + enc_elems(es, ind_inc(ind)) + seq!['\n'] + spaces(ind as int)
                + seq![']']
        },
        JsonSpec::Obj(ms) => if ms.len() == 0 {
            "{}"@
        } else {
            seq!['{', '\n'] + enc_members(ms, ind_inc(ind)) + seq!['\n'] + spaces(ind as int)
                + seq!['}']
        },
    }
}

/// The element lines of a non-empty array, joined by `,` and line breaks.
pub open spec fn enc_elems(es: Seq<JsonSpec>, ind: nat) -> Seq<char>
    decreases es,
{
    if es.len() == 0 {
        Seq::empty()
    } else if es.len() == 1 {
        spaces(ind as int) + enc(es[0], ind)
    } else {
        spaces(ind as int) + enc(es[0], ind) + seq![',', '\n'] + enc_elems(
            es.subrange(1, es.len() as int),
            ind,
        )
    }
}

/// The member lines of a non-empty object, joined by `,` and line breaks.
pub open spec fn enc_members(ms: Seq<(Seq<char>, JsonSpec)>, ind: nat) -> Seq<char>
    decreases ms,
{
    if ms.len() == 0 {
        Seq::empty()
    } else {
        let line = spaces(ind as int) + seq!['"'] + esc_from(ms[0].0, 0) + seq!['"', ':', ' ']
            + enc(ms[0].1, ind);
        if ms.len() == 1 {
            line
        } else {
            line + seq![',', '\n'] + enc_members(ms.subrange(1, ms.len() as int), ind)
        }
    }
}

} // verus!
