//! The output encoder: serializes a JSON value to the pretty-printed text
//! that its specification in `json` describes. It performs no value
//! transformation.

use vstd::prelude::*;
use crate::chars::{push_all, to_chars};
use crate::json::{
    Json, spaces, ind_inc, digit_char_of, dec_str, esc_from, enc, enc_elems, enc_members,
};
use crate::parse::{lemma_model_elems_index, lemma_model_members_index};

verus! {

/// Appends `n` spaces.
fn push_spaces(out: &mut Vec<char>, n: usize)
    ensures
        final(out)@ == old(out)@ + spaces(n as int),
{
    let mut k: usize = 0;
    while k < n
        invariant
            0 <= k <= n,
            out@ == old(out)@ + spaces(k as int),
        decreases n - k,
    {
        out.push(' ');
        assert(out@ =~= old(out)@ + (spaces(k as int) + seq![' ']));
        k = k + 1;
    }
}

/// Appends the decimal rendering of `n`.
fn push_dec(out: &mut Vec<char>, n: u64)
    ensures
        final(out)@ == old(out)@ + dec_str(n as nat),
    decreases n,
{
    if n < 10 {
        let c: char = if n == 0 {
            '0'
        } else if n == 1 {
            '1'
        } else if n == 2 {
            '2'
        } else if n == 3 {
            '3'
        } else if n == 4 {
            '4'
        } else if n == 5 {
            '5'
        } else if n == 6 {
            '6'
        } else if n == 7 {
            '7'
        } else if n == 8 {
            '8'
        } else {
            '9'
        };
        assert(c == digit_char_of(n as nat));
        out.push(c);
        assert(out@ =~= old(out)@ + seq![digit_char_of(n as nat)]);
    } else {
        push_dec(out, n / 10);
        let d: u64 = n % 10;
        let c: char = if d == 0 {
            '0'
        } else if d == 1 {
            '1'
        } else if d == 2 {
            '2'
        } else if d == 3 {
            '3'
        } else if d == 4 {
            '4'
        } else if d == 5 {
            '5'
        } else if d == 6 {
            '6'
        } else if d == 7 {
            '7'
        } else if d == 8 {
            '8'
        } else {
            '9'
        };
        assert(c == digit_char_of((n % 10) as nat));
        out.push(c);
        assert(out@ =~= old(out)@ + (dec_str((n / 10) as nat) + seq![digit_char_of(
            (n % 10) as nat,
        )]));
    }
}

/// Appends the escaped body of a string.
fn push_esc(out: &mut Vec<char>, t: &Vec<char>)
    ensures
        final(out)@ == old(out)@ + esc_from(t@, 0),
{
    let n: usize = t.len();
    let mut k: usize = 0;
    while k < n
        invariant
            n == t@.len(),
            0 <= k <= n,
            old(out)@ + esc_from(t@, 0) == out@ + esc_from(t@, k as int),
        decreases n - k,
    {
        let ghost prev = out@;
        let c = t[k];
        if c == '"' {
            out.push('\\');
            out.push('"');
            assert(out@ =~= prev + seq!['\\', '"']);
        } else if c == '\\' {
            out.push('\\');
            out.push('\\');
            assert(out@ =~= prev + seq!['\\', '\\']);
        } else if c == '\n' {
            out.push('\\');
            out.push('n');
            assert(out@ =~= prev + seq!['\\', 'n']);
        } else if c == '\r' {
            out.push('\\');
            out.push('r');
            assert(out@ =~= prev + seq!['\\', 'r']);
        } else if c == '\t' {
            out.push('\\');
            out.push('t');
            assert(out@ =~= prev + seq!['\\', 't']);
        } else {
            out.push(c);
            assert(out@ =~= prev + seq![t@[k as int]]);
        }
        proof {
            let cs = t@[k as int];
            let pc = if cs == '"' {
                seq!['\\', '"']
            } else if cs == '\\' {
                seq!['\\', '\\']
            } else if cs == '\n' {
                seq!['\\', 'n']
            } else if cs == '\r' {
                seq!['\\', 'r']
            } else if cs == '\t' {
                seq!['\\', 't']
            } else {
                seq![cs]
            };
            assert(esc_from(t@, k as int) == pc + esc_from(t@, k + 1));
            assert(prev + (pc + esc_from(t@, k + 1)) =~= (prev + pc) + esc_from(t@, k + 1));
        }
        k = k + 1;
    }
    proof {
        assert(out@ + Seq::<char>::empty() =~= out@);
    }
}

/// Appends the pretty-printed text of `v` at indentation depth `ind`.
#[verifier::rlimit(50)]
fn enc_value(v: &Json, ind: usize, out: &mut Vec<char>)
    ensures
        final(out)@ == old(out)@ + enc(v@, ind as nat),
    decreases v, 0int,
{
    match v {
        Json::Null => {
            let lit = to_chars("null");
            push_all(out, &lit);
        },
        Json::Bool(b) => {
            let lit = if *b {
                to_chars("true")
            } else {
                to_chars("false")
            };
            push_all(out, &lit);
        },
        Json::Num(n) => {
            push_all(out, n);
        },
        Json::Str(t) => {
            let ghost prev = out@;
            out.push('"');
            push_esc(out, t);
            out.push('"');
            proof {
                assert(out@ =~= prev + (seq!['"'] + esc_from(t@, 0) + seq!['"']));
            }
        },
        Json::Arr(es) => {
            if es.len() == 0 {
                let lit = to_chars("[]");
                push_all(out, &lit);
                proof {
                    lemma_model_elems_index(es@);
                }
            } else {
                let ghost prev = out@;
                proof {
                    lemma_model_elems_index(es@);
                }
                out.push('[');
                out.push('\n');
                let ind2: usize = if ind <= usize::MAX - 2 {
                    ind + 2
                } else {
                    ind
                };
                assert(ind2 as nat == ind_inc(ind as nat));
                enc_elems_exec(es, 0, ind2, out);
                out.push('\n');
                push_spaces(out, ind);
                out.push(']');
                proof {
                    assert(Json::model_elems(es@).subrange(0, Json::model_elems(es@).len() as int)
                        =~= Json::model_elems(es@));
                    assert(out@ =~= prev + (seq!['[', '\n'] + enc_elems(
                        Json::model_elems(es@),
                        ind_inc(ind as nat),
                    ) + seq!['\n'] + spaces(ind as int) + seq![']']));
                }
            }
        },
        Json::Obj(ms) => {
            if ms.len() == 0 {
                let lit = to_chars("{}");
                push_all(out, &lit);
                proof {
                    lemma_model_members_index(ms@);
                }
            } else {
                let ghost prev = out@;
                proof {
                    lemma_model_members_index(ms@);
                }
                out.push('{');
                out.push('\n');
                let ind2: usize = if ind <= usize::MAX - 2 {
                    ind + 2
                } else {
                    ind
                };
                assert(ind2 as nat == ind_inc(ind as nat));
                enc_members_exec(ms, 0, ind2, out);
                out.push('\n');
                push_spaces(out, ind);
                out.push('}');
                proof {
                    assert(Json::model_members(ms@).subrange(
                        0,
                        Json::model_members(ms@).len() as int,
                    ) =~= Json::model_members(ms@));
                    assert(out@ =~= prev + (seq!['{', '\n'] + enc_members(
                        Json::model_members(ms@),
                        ind_inc(ind as nat),
                    ) + seq!['\n'] + spaces(ind as int) + seq!['}']));
                }
            }
        },
    }
}

/// Appends the element lines of `es` from index `k` on.
fn enc_elems_exec(es: &Vec<Json>, k: usize, ind: usize, out: &mut Vec<char>)
    requires
        k < es@.len(),
    ensures
        final(out)@ == old(out)@ + enc_elems(
            Json::model_elems(es@).subrange(k as int, Json::model_elems(es@).len() as int),
            ind as nat,
        ),
    decreases es@, es@.len() - k,
{
    proof {
        lemma_model_elems_index(es@);
    }
    let ghost ms = Json::model_elems(es@);
    let ghost tail = ms.subrange(k as int, ms.len() as int);
    let ghost prev = out@;
    push_spaces(out, ind);
    enc_value(&es[k], ind, out);
    proof {
        assert(tail[0] == es@[k as int]@);
        assert(out@ =~= prev + (spaces(ind as int) + enc(tail[0], ind as nat)));
    }
    if es.len() - k > 1 {
        out.push(',');
        out.push('\n');
        let ghost mid = out@;
        enc_elems_exec(es, k + 1, ind, out);
        proof {
            assert(tail.subrange(1, tail.len() as int) =~= ms.subrange(k + 1, ms.len() as int));
            assert(mid =~= prev + (spaces(ind as int) + enc(tail[0], ind as nat)) + seq![
                ',',
                '\n',
            ]);
            assert(out@ =~= prev + (spaces(ind as int) + enc(tail[0], ind as nat) + seq![',', '\n']
                + enc_elems(tail.subrange(1, tail.len() as int), ind as nat)));
        }
    } else {
        proof {
            assert(tail.len() == 1);
        }
    }
}

/// Appends the member lines of `ms` from index `k` on.
fn enc_members_exec(ms: &Vec<(Vec<char>, Json)>, k: usize, ind: usize, out: &mut Vec<char>)
    requires
        k < ms@.len(),
    ensures
        final(out)@ == old(out)@ + enc_members(
            Json::model_members(ms@).subrange(k as int, Json::model_members(ms@).len() as int),
            ind as nat,
        ),
    decreases ms@, ms@.len() - k,
{
    proof {
        lemma_model_members_index(ms@);
    }
    let ghost mm = Json::model_members(ms@);
    let ghost tail = mm.subrange(k as int, mm.len() as int);
    let ghost prev = out@;
    push_spaces(out, ind);
    out.push('"');
    push_esc(out, &ms[k].0);
    out.push('"');
    out.push(':');
    out.push(' ');
    enc_value(&ms[k].1, ind, out);
    proof {
        assert(tail[0] == (ms@[k as int].0@, ms@[k as int].1@));
        assert(out@ =~= prev + (spaces(ind as int) + seq!['"'] + esc_from(tail[0].0, 0) + seq![
            '"',
            ':',
            ' ',
        ] + enc(tail[0].1, ind as nat)));
    }
    if ms.len() - k > 1 {
        out.push(',');
        out.push('\n');
        enc_members_exec(ms, k + 1, ind, out);
        proof {
            assert(tail.subrange(1, tail.len() as int) =~= mm.subrange(k + 1, mm.len() as int));
            assert(out@ =~= prev + ((spaces(ind as int) + seq!['"'] + esc_from(tail[0].0, 0)
                + seq!['"', ':', ' '] + enc(tail[0].1, ind as nat)) + seq![',', '\n'] + enc_members(
                tail.subrange(1, tail.len() as int),
                ind as nat,
            )));
        }
    } else {
        proof {
            assert(tail.len() == 1);
        }
    }
}

/// The decimal digit run of an unsigned 64-bit value, as the Inspect
/// translator stores numeric fields.
pub fn dec_digits(n: u64) -> (r: Vec<char>)
    ensures
        r@ == dec_str(n as nat),
{
    let mut out: Vec<char> = Vec::new();
    push_dec(&mut out, n);
    proof {
        assert(Seq::<char>::empty() + dec_str(n as nat) =~= dec_str(n as nat));
    }
    out
}

/// Serializes a value to pretty-printed JSON text.
pub fn to_pretty_text(v: &Json) -> (r: Vec<char>)
    ensures
        r@ == enc(v@, 0),
{
    let mut out: Vec<char> = Vec::new();
    enc_value(v, 0, &mut out);
    proof {
        assert(Seq::<char>::empty() + enc(v@, 0) =~= enc(v@, 0));
    }
    out
}

} // verus!
