//! Wire kinds and dynamic values.
//!
//! A `TypeKind` is the wire shape of a registered type: a boolean, an
//! unsigned number, a byte text, a pair, or a homogeneous list.  A `Value`
//! is a runtime value of some kind; its mathematical model is `ValModel`,
//! built from `Seq` so that equality of models is extensional.

use vstd::prelude::*;

verus! {

broadcast use vstd::std_specs::vec::group_vec_axioms;

/// The wire shape of a registered type.
#[derive(Debug, PartialEq, Eq)]
pub enum TypeKind {
    Bool,
    Uint,
    Text,
    Pair(Box<TypeKind>, Box<TypeKind>),
    List(Box<TypeKind>),
}

/// Mathematical model of a runtime value.
#[verifier::ext_equal]
pub ghost enum ValModel {
    Bool(bool),
    Uint(u32),
    Text(Seq<u8>),
    Pair(Box<ValModel>, Box<ValModel>),
    List(Seq<ValModel>),
}

/// A runtime value handed to or returned by a handler.
#[derive(Debug, PartialEq, Eq)]
pub enum Value {
    Bool(bool),
    Uint(u32),
    Text(Vec<u8>),
    Pair(Box<Value>, Box<Value>),
    List(Vec<Value>),
}

impl Value {
    /// The mathematical model of this value.
    pub open spec fn model(&self) -> ValModel
        decreases self,
    {
        match self {
            Value::Bool(b) => ValModel::Bool(*b),
            Value::Uint(n) => ValModel::Uint(*n),
            Value::Text(t) => ValModel::Text(t@),
            Value::Pair(a, b) => ValModel::Pair(Box::new(a.model()), Box::new(b.model())),
            Value::List(vs) => ValModel::List(
                Seq::new(
                    vs.len() as nat,
                    |i: int|
                        if 0 <= i < vs.len() {
                            vs[i].model()
                        } else {
                            ValModel::Bool(false)
                        },
                ),
            ),
        }
    }
}

/// A value is well formed for a kind when its shape follows the kind and
/// every text length and list length fits the wire's length field.
pub open spec fn wf_value(m: ValModel, k: TypeKind) -> bool
    decreases k,
{
    match k {
        TypeKind::Bool => m is Bool,
        TypeKind::Uint => m is Uint,
        TypeKind::Text => m is Text && m->Text_0.len() <= u32::MAX,
        TypeKind::Pair(ka, kb) => m is Pair && wf_value(*m->Pair_0, *ka) && wf_value(
            *m->Pair_1,
            *kb,
        ),
        TypeKind::List(ke) => m is List && m->List_0.len() <= u32::MAX && (forall|i: int|
            0 <= i < m->List_0.len() ==> wf_value(#[trigger] m->List_0[i], *ke)),
    }
}

/// The documented default a missing optional query parameter decodes to.
pub open spec fn spec_default_value(k: TypeKind) -> ValModel
    decreases k,
{
    match k {
        TypeKind::Bool => ValModel::Bool(false),
        TypeKind::Uint => ValModel::Uint(0),
        TypeKind::Text => ValModel::Text(Seq::empty()),
        TypeKind::Pair(ka, kb) => ValModel::Pair(
            Box::new(spec_default_value(*ka)),
            Box::new(spec_default_value(*kb)),
        ),
        TypeKind::List(ke) => ValModel::List(Seq::empty()),
    }
}

impl TypeKind {
    /// Structural equality of two kinds.
    pub fn kind_eq(&self, other: &TypeKind) -> (r: bool)
        ensures
            r == (self == other),
        decreases self,
    {
        match (self, other) {
            (TypeKind::Bool, TypeKind::Bool) => true,
            (TypeKind::Uint, TypeKind::Uint) => true,
            (TypeKind::Text, TypeKind::Text) => true,
            (TypeKind::Pair(a1, b1), TypeKind::Pair(a2, b2)) => a1.kind_eq(a2) && b1.kind_eq(b2),
            (TypeKind::List(e1), TypeKind::List(e2)) => e1.kind_eq(e2),
            _ => false,
        }
    }
}

/// The default runtime value of a kind.
pub fn default_value(k: &TypeKind) -> (r: Value)
    ensures
        r.model() == spec_default_value(*k),
        wf_value(r.model(), *k),
    decreases k,
{
    match k {
        TypeKind::Bool => Value::Bool(false),
        TypeKind::Uint => Value::Uint(0),
        TypeKind::Text => {
            let t: Vec<u8> = Vec::new();
            let r = Value::Text(t);
            proof {
                assert(t@ =~= Seq::<u8>::empty());
                assert(r.model() =~= spec_default_value(TypeKind::Text));
            }
            r
        },
        TypeKind::Pair(ka, kb) => {
            let a = default_value(ka);
            let b = default_value(kb);
            Value::Pair(Box::new(a), Box::new(b))
        },
        TypeKind::List(ke) => {
            let vs: Vec<Value> = Vec::new();
            let r = Value::List(vs);
            proof {
                assert(r.model()->List_0 =~= Seq::<ValModel>::empty());
                assert(r.model() =~~= spec_default_value(*k));
            }
            r
        },
    }
}

} // verus!
