//! Scalar values in text form.
//!
//! Path captures and query parameter values travel as plain text: a number
//! as decimal digits, a boolean as `true` or `false`, a text as itself.
//! Only scalar kinds have a text form; pairs and lists do not.

use vstd::prelude::*;

use crate::dec::{dec_min, lemma_dec_min, lemma_dec_min_len, pow10, parse_uint, spec_parse_uint,
    write_uint};
use crate::kinds::{wf_value, TypeKind, ValModel, Value};

verus! {

/// The text `true`.
pub open spec fn lit_true() -> Seq<u8> {
    seq![116u8, 114u8, 117u8, 101u8]
}

/// The text `false`.
pub open spec fn lit_false() -> Seq<u8> {
    seq![102u8, 97u8, 108u8, 115u8, 101u8]
}

/// The value a scalar text denotes under kind `k`, if any.
pub open spec fn spec_parse_scalar(k: TypeKind, t: Seq<u8>) -> Option<ValModel> {
    match k {
        TypeKind::Bool => if t == lit_true() {
            Some(ValModel::Bool(true))
        } else if t == lit_false() {
            Some(ValModel::Bool(false))
        } else {
            None
        },
        TypeKind::Uint => match spec_parse_uint(t) {
            Some(n) => Some(ValModel::Uint(n)),
            None => None,
        },
        TypeKind::Text => if t.len() <= u32::MAX {
            Some(ValModel::Text(t))
        } else {
            None
        },
        TypeKind::Pair(ka, kb) => None,
        TypeKind::List(ke) => None,
    }
}

/// The text form of a scalar value, if its kind has one.
pub open spec fn spec_write_scalar(k: TypeKind, m: ValModel) -> Option<Seq<u8>> {
    match k {
        TypeKind::Bool => if m->Bool_0 {
            Some(lit_true())
        } else {
            Some(lit_false())
        },
        TypeKind::Uint => Some(dec_min(m->Uint_0 as nat)),
        TypeKind::Text => Some(m->Text_0),
        TypeKind::Pair(ka, kb) => None,
        TypeKind::List(ke) => None,
    }
}

/// Parses a scalar text under kind `k`.
pub fn parse_scalar(k: &TypeKind, t: &Vec<u8>) -> (r: Option<Value>)
    ensures
        r is None <==> spec_parse_scalar(*k, t@) is None,
        r matches Some(v) ==> spec_parse_scalar(*k, t@) == Some(v.model()) && wf_value(
            v.model(),
            *k,
        ),
{
    match k {
        TypeKind::Bool => {
            if t.len() == 4 && t[0] == 116 && t[1] == 114 && t[2] == 117 && t[3] == 101 {
                proof {
                    assert(t@ =~= lit_true());
                }
                Some(Value::Bool(true))
            } else if t.len() == 5 && t[0] == 102 && t[1] == 97 && t[2] == 108 && t[3] == 115
                && t[4] == 101 {
                proof {
                    assert(t@ =~= lit_false());
                    assert(t@ != lit_true());
                }
                Some(Value::Bool(false))
            } else {
                proof {
                    if t@ == lit_true() {
                        assert(t@.len() == 4);
                        assert(t@[0] == 116 && t@[1] == 114 && t@[2] == 117 && t@[3] == 101);
                    }
                    if t@ == lit_false() {
                        assert(t@.len() == 5);
                        assert(t@[0] == 102 && t@[1] == 97 && t@[2] == 108 && t@[3] == 115 && t@[4]
                            == 101);
                    }
                }
                None
            }
        },
        TypeKind::Uint => match parse_uint(t) {
            Some(n) => Some(Value::Uint(n)),
            None => None,
        },
        TypeKind::Text => {
            if t.len() as u64 <= 0xffff_ffff {
                let c = vstd::slice::slice_to_vec(t.as_slice());
                let vv = Value::Text(c);
                proof {
                    assert(vv.model() =~~= ValModel::Text(t@));
                }
                Some(vv)
            } else {
                None
            }
        },
        TypeKind::Pair(ka, kb) => None,
        TypeKind::List(ke) => None,
    }
}

/// Writes the text form of a scalar value.
pub fn write_scalar(k: &TypeKind, v: &Value) -> (r: Option<Vec<u8>>)
    requires
        wf_value(v.model(), *k),
    ensures
        r is None <==> spec_write_scalar(*k, v.model()) is None,
        r matches Some(t) ==> spec_write_scalar(*k, v.model()) == Some(t@),
{
    match k {
        TypeKind::Bool => match v {
            Value::Bool(b) => {
                let mut t: Vec<u8> = Vec::new();
                if *b {
                    t.push(116);
                    t.push(114);
                    t.push(117);
                    t.push(101);
                    proof {
                        assert(t@ =~= lit_true());
                    }
                } else {
                    t.push(102);
                    t.push(97);
                    t.push(108);
                    t.push(115);
                    t.push(101);
                    proof {
                        assert(t@ =~= lit_false());
                    }
                }
                Some(t)
            },
            _ => {
                proof {
                    assert(false);
                }
                None
            },
        },
        TypeKind::Uint => match v {
            Value::Uint(n) => Some(write_uint(*n)),
            _ => {
                proof {
                    assert(false);
                }
                None
            },
        },
        TypeKind::Text => match v {
            Value::Text(t) => Some(vstd::slice::slice_to_vec(t.as_slice())),
            _ => {
                proof {
                    assert(false);
                }
                None
            },
        },
        TypeKind::Pair(ka, kb) => None,
        TypeKind::List(ke) => None,
    }
}

/// Round trip: a scalar value parses back from its own text form.
pub proof fn lemma_scalar_round_trip(k: TypeKind, m: ValModel)
    requires
        wf_value(m, k),
        spec_write_scalar(k, m) is Some,
    ensures
        spec_parse_scalar(k, spec_write_scalar(k, m)->Some_0) == Some(m),
{
    match k {
        TypeKind::Bool => {
            assert(lit_true() != lit_false()) by {
                assert(lit_true().len() == 4 && lit_false().len() == 5);
            }
        },
        TypeKind::Uint => {
            let n = m->Uint_0;
            lemma_dec_min(n as nat);
            assert(pow10(10) == 10000000000) by {
                reveal_with_fuel(pow10, 11);
            }
            lemma_dec_min_len(n as nat, 10);
        },
        TypeKind::Text => {
        },
        TypeKind::Pair(ka, kb) => {
        },
        TypeKind::List(ke) => {
        },
    }
}

} // verus!
