//! The wire codec.
//!
//! Every registered kind has one canonical byte encoding: booleans are one
//! marker byte, numbers are a fixed ten-digit decimal field, texts carry a
//! ten-digit length before their bytes, pairs are the two encodings side by
//! side, and lists carry a ten-digit count before their elements.  Decoding
//! is the exact inverse; `lemma_codec_round_trip` proves it.

use vstd::prelude::*;

use crate::dec::{
    dec_fixed, lemma_dec_fixed_shape, lemma_dec_fixed_value, pow10, read_dec10, spec_dec10_at,
    write_dec_fixed,
};
use crate::kinds::{wf_value, TypeKind, ValModel, Value};

verus! {

broadcast use vstd::std_specs::vec::group_vec_axioms;

/// The marker byte of `true`.
pub open spec fn byte_true() -> u8 {
    84
}

/// The marker byte of `false`.
pub open spec fn byte_false() -> u8 {
    70
}

/// Models of a sequence of runtime values.
pub open spec fn seq_models(vs: Seq<Value>) -> Seq<ValModel> {
    Seq::new(vs.len(), |i: int| vs[i].model())
}

/// The canonical encoding of a well formed value of kind `k`.
pub open spec fn spec_encode(k: TypeKind, m: ValModel) -> Seq<u8>
    decreases k, 0nat,
{
    match k {
        TypeKind::Bool => if m->Bool_0 {
            seq![byte_true()]
        } else {
            seq![byte_false()]
        },
        TypeKind::Uint => dec_fixed(m->Uint_0 as nat, 10),
        TypeKind::Text => dec_fixed(m->Text_0.len(), 10) + m->Text_0,
        TypeKind::Pair(ka, kb) => spec_encode(*ka, *m->Pair_0) + spec_encode(*kb, *m->Pair_1),
        TypeKind::List(ke) => dec_fixed(m->List_0.len(), 10) + spec_encode_list(*ke, m->List_0),
    }
}

/// The encodings of list elements, side by side.
pub open spec fn spec_encode_list(ke: TypeKind, ms: Seq<ValModel>) -> Seq<u8>
    decreases ke, ms.len(),
{
    if ms.len() == 0 {
        Seq::empty()
    } else {
        spec_encode(ke, ms[0]) + spec_encode_list(ke, ms.drop_first())
    }
}

/// Decoding one value of kind `k` at position `i`: the decoded model and
/// the position after it, or `None` when the bytes there are not an
/// encoding of kind `k`.
pub open spec fn spec_decode_at(k: TypeKind, s: Seq<u8>, i: int) -> Option<(ValModel, int)>
    decreases k, 0nat,
{
    match k {
        TypeKind::Bool => if 0 <= i < s.len() && (s[i] == byte_true() || s[i] == byte_false()) {
            Some((ValModel::Bool(s[i] == byte_true()), i + 1))
        } else {
            None
        },
        TypeKind::Uint => match spec_dec10_at(s, i) {
            Some(n) => Some((ValModel::Uint(n), i + 10)),
            None => None,
        },
        TypeKind::Text => match spec_dec10_at(s, i) {
            Some(len) => if i + 10 + len <= s.len() {
                Some((ValModel::Text(s.subrange(i + 10, i + 10 + len)), i + 10 + len))
            } else {
                None
            },
            None => None,
        },
        TypeKind::Pair(ka, kb) => match spec_decode_at(*ka, s, i) {
            Some((x, mid)) => match spec_decode_at(*kb, s, mid) {
                Some((y, end)) => Some((ValModel::Pair(Box::new(x), Box::new(y)), end)),
                None => None,
            },
            None => None,
        },
        TypeKind::List(ke) => match spec_dec10_at(s, i) {
            Some(n) => match spec_decode_list(*ke, s, i + 10, n as nat) {
                Some((ms, end)) => Some((ValModel::List(ms), end)),
                None => None,
            },
            None => None,
        },
    }
}

/// Decoding `n` values of kind `ke` one after the other from position `i`.
pub open spec fn spec_decode_list(ke: TypeKind, s: Seq<u8>, i: int, n: nat) -> Option<
    (Seq<ValModel>, int),
>
    decreases ke, n,
{
    if n == 0 {
        Some((Seq::empty(), i))
    } else {
        match spec_decode_at(ke, s, i) {
            Some((x, mid)) => match spec_decode_list(ke, s, mid, (n - 1) as nat) {
                Some((ms, end)) => Some((seq![x] + ms, end)),
                None => None,
            },
            None => None,
        }
    }
}

/// Decoding a whole buffer: the decode must consume every byte.
pub open spec fn spec_decode_full(k: TypeKind, s: Seq<u8>) -> Option<ValModel> {
    match spec_decode_at(k, s, 0) {
        Some((m, end)) => if end == s.len() {
            Some(m)
        } else {
            None
        },
        None => None,
    }
}

/// Appends the canonical encoding of `v` to `out`.
#[verifier::loop_isolation(false)]
pub fn encode_value(k: &TypeKind, v: &Value, out: &mut Vec<u8>)
    requires
        wf_value(v.model(), *k),
    ensures
        final(out)@ == old(out)@ + spec_encode(*k, v.model()),
    decreases k,
{
    match k {
        TypeKind::Bool => match v {
            Value::Bool(b) => {
                if *b {
                    out.push(84);
                } else {
                    out.push(70);
                }
                proof {
                    assert(out@ =~= old(out)@ + spec_encode(*k, v.model()));
                }
            },
            _ => {
                proof {
                    assert(false);
                }
            },
        },
        TypeKind::Uint => match v {
            Value::Uint(n) => {
                let mut d = write_dec_fixed(*n, 10);
                out.append(&mut d);
                proof {
                    assert(out@ =~= old(out)@ + spec_encode(*k, v.model()));
                }
            },
            _ => {
                proof {
                    assert(false);
                }
            },
        },
        TypeKind::Text => match v {
            Value::Text(t) => {
                let len: u32 = t.len() as u32;
                let mut d = write_dec_fixed(len, 10);
                out.append(&mut d);
                let mut j: usize = 0;
                while j < t.len()
                    invariant
                        j <= t.len(),
                        out@ == old(out)@ + dec_fixed(t@.len(), 10) + t@.subrange(0, j as int),
                    decreases t.len() - j,
                {
                    out.push(t[j]);
                    proof {
                        assert(out@ =~= old(out)@ + dec_fixed(t@.len(), 10) + t@.subrange(
                            0,
                            j as int + 1,
                        ));
                    }
                    j = j + 1;
                }
                proof {
                    assert(t@.subrange(0, t@.len() as int) =~= t@);
                    assert(out@ =~= old(out)@ + spec_encode(*k, v.model()));
                }
            },
            _ => {
                proof {
                    assert(false);
                }
            },
        },
        TypeKind::Pair(ka, kb) => match v {
            Value::Pair(a, b) => {
                encode_value(&**ka, a, out);
                encode_value(&**kb, b, out);
                proof {
                    assert(out@ =~= old(out)@ + spec_encode(*k, v.model()));
                }
            },
            _ => {
                proof {
                    assert(false);
                }
            },
        },
        TypeKind::List(ke) => match v {
            Value::List(vs) => {
                let cnt: u32 = vs.len() as u32;
                let mut d = write_dec_fixed(cnt, 10);
                out.append(&mut d);
                let ghost ms = v.model()->List_0;
                let mut j: usize = 0;
                while j < vs.len()
                    invariant
                        j <= vs.len(),
                        ms == v.model()->List_0,
                        ms.len() == vs@.len(),
                        forall|i: int| 0 <= i < vs@.len() ==> #[trigger] ms[i] == vs@[i].model(),
                        forall|i: int| 0 <= i < vs@.len() ==> wf_value(#[trigger] ms[i], **ke),
                        out@ == old(out)@ + dec_fixed(ms.len(), 10) + spec_encode_list(
                            **ke,
                            ms.take(j as int),
                        ),
                    decreases vs.len() - j,
                {
                    encode_value(&**ke, &vs[j], out);
                    proof {
                        lemma_encode_list_snoc(**ke, ms.take(j as int), ms[j as int]);
                        assert(ms.take(j as int).push(ms[j as int]) =~= ms.take(j as int + 1));
                        assert(out@ =~= old(out)@ + dec_fixed(ms.len(), 10) + spec_encode_list(
                            **ke,
                            ms.take(j as int + 1),
                        ));
                    }
                    j = j + 1;
                }
                proof {
                    assert(ms.take(ms.len() as int) =~= ms);
                    assert(out@ =~= old(out)@ + spec_encode(*k, v.model()));
                }
            },
            _ => {
                proof {
                    assert(false);
                }
            },
        },
    }
}

/// Appending one element appends its encoding.
pub proof fn lemma_encode_list_snoc(ke: TypeKind, ms: Seq<ValModel>, x: ValModel)
    ensures
        spec_encode_list(ke, ms.push(x)) == spec_encode_list(ke, ms) + spec_encode(ke, x),
    decreases ms.len(),
{
    let p = ms.push(x);
    if ms.len() == 0 {
        assert(p[0] == x);
        assert(p.drop_first() =~= Seq::<ValModel>::empty());
        assert(spec_encode_list(ke, p) == spec_encode(ke, x) + spec_encode_list(
            ke,
            p.drop_first(),
        ));
        assert(spec_encode(ke, x) + Seq::<u8>::empty() =~= spec_encode(ke, x));
        assert(Seq::<u8>::empty() + spec_encode(ke, x) =~= spec_encode(ke, x));
    } else {
        lemma_encode_list_snoc(ke, ms.drop_first(), x);
        assert(p.drop_first() =~= ms.drop_first().push(x));
        assert(p[0] == ms[0]);
        assert(spec_encode_list(ke, p) == spec_encode(ke, ms[0]) + (spec_encode_list(
            ke,
            ms.drop_first(),
        ) + spec_encode(ke, x)));
        assert(spec_encode(ke, ms[0]) + (spec_encode_list(ke, ms.drop_first()) + spec_encode(
            ke,
            x,
        )) =~= (spec_encode(ke, ms[0]) + spec_encode_list(ke, ms.drop_first())) + spec_encode(
            ke,
            x,
        ));
    }
}

/// The canonical encoding of `v` as a fresh buffer.
pub fn encode_full(k: &TypeKind, v: &Value) -> (r: Vec<u8>)
    requires
        wf_value(v.model(), *k),
    ensures
        r@ == spec_encode(*k, v.model()),
{
    let mut out: Vec<u8> = Vec::new();
    encode_value(k, v, &mut out);
    proof {
        assert(out@ =~= spec_encode(*k, v.model()));
    }
    out
}

/// Decodes one value of kind `k` at position `i`.
#[verifier::loop_isolation(false)]
pub fn decode_at(k: &TypeKind, s: &Vec<u8>, i: usize) -> (r: Option<(Value, usize)>)
    ensures
        r is None <==> spec_decode_at(*k, s@, i as int) is None,
        r matches Some((v, end)) ==> spec_decode_at(*k, s@, i as int) == Some(
            (v.model(), end as int),
        ) && wf_value(v.model(), *k) && i <= end <= s@.len(),
    decreases k,
{
    match k {
        TypeKind::Bool => {
            if i < s.len() && (s[i] == 84 || s[i] == 70) {
                Some((Value::Bool(s[i] == 84), i + 1))
            } else {
                None
            }
        },
        TypeKind::Uint => match read_dec10(s, i) {
            Some(n) => {
                proof {
                    assert(i + 10 <= s@.len());
                    assert(i + 10 <= s.len());
                }
                Some((Value::Uint(n), i + 10))
            },
            None => None,
        },
        TypeKind::Text => match read_dec10(s, i) {
            Some(len) => {
                proof {
                    assert(i + 10 <= s@.len());
                    assert(i + 10 <= s.len());
                }
                let l = len as usize;
                if l <= s.len() - (i + 10) {
                    let sub = vstd::slice::slice_subrange(s.as_slice(), i + 10, i + 10 + l);
                    let t = vstd::slice::slice_to_vec(sub);
                    let vv = Value::Text(t);
                    proof {
                        assert(vv.model() =~~= ValModel::Text(
                            s@.subrange(i as int + 10, i as int + 10 + l as int),
                        ));
                    }
                    Some((vv, i + 10 + l))
                } else {
                    None
                }
            },
            None => None,
        },
        TypeKind::Pair(ka, kb) => match decode_at(&**ka, s, i) {
            Some((x, mid)) => match decode_at(&**kb, s, mid) {
                Some((y, end)) => {
                    let r = Value::Pair(Box::new(x), Box::new(y));
                    proof {
                        assert(r.model() =~~= ValModel::Pair(
                            Box::new(x.model()),
                            Box::new(y.model()),
                        ));
                    }
                    Some((r, end))
                },
                None => None,
            },
            None => None,
        },
        TypeKind::List(ke) => match read_dec10(s, i) {
            Some(n) => {
                proof {
                    assert(i + 10 <= s@.len());
                    assert(i + 10 <= s.len());
                }
                let mut vs: Vec<Value> = Vec::new();
                let mut pos: usize = i + 10;
                let mut rem: u32 = n;
                let ghost start = i + 10;
                loop
                    invariant
                        i + 10 <= pos <= s@.len(),
                        rem <= n,
                        seq_models(vs@).len() == n - rem,
                        forall|q: int|
                            0 <= q < vs@.len() ==> wf_value(#[trigger] vs@[q].model(), **ke),
                        spec_decode_list(**ke, s@, start as int, n as nat) == (match spec_decode_list(
                            **ke,
                            s@,
                            pos as int,
                            rem as nat,
                        ) {
                            Some((ms, end)) => Some((seq_models(vs@) + ms, end)),
                            None => None::<(Seq<ValModel>, int)>,
                        }),
                    decreases rem,
                {
                    if rem == 0 {
                        break ;
                    }
                    let ghost old_vs = vs@;
                    let ghost old_pos = pos as int;
                    let ghost old_rem = rem as nat;
                    match decode_at(&**ke, s, pos) {
                        Some((x, e2)) => {
                            vs.push(x);
                            pos = e2;
                            rem = rem - 1;
                            proof {
                                assert(seq_models(vs@) =~= seq_models(old_vs).push(x.model()));
                                assert(spec_decode_at(**ke, s@, old_pos) == Some(
                                    (x.model(), pos as int),
                                ));
                                if spec_decode_list(**ke, s@, pos as int, rem as nat) is Some {
                                    let (ms2, end) = spec_decode_list(
                                        **ke,
                                        s@,
                                        pos as int,
                                        rem as nat,
                                    )->Some_0;
                                    assert(seq_models(vs@) + ms2 =~= seq_models(old_vs) + (seq![
                                        x.model(),
                                    ] + ms2));
                                }
                            }
                        },
                        None => {
                            proof {
                                assert(spec_decode_list(**ke, s@, old_pos, old_rem) is None);
                            }
                            return None;
                        },
                    }
                }
                let r = Value::List(vs);
                proof {
                    assert(spec_decode_list(**ke, s@, pos as int, 0) == Some(
                        (Seq::<ValModel>::empty(), pos as int),
                    ));
                    assert(seq_models(vs@) + Seq::<ValModel>::empty() =~= seq_models(vs@));
                    assert(r.model()->List_0 =~= seq_models(vs@));
                    assert(r.model() =~~= ValModel::List(seq_models(vs@)));
                }
                Some((r, pos))
            },
            None => None,
        },
    }
}

/// Decodes a whole buffer of kind `k`, refusing trailing bytes.
pub fn decode_full(k: &TypeKind, s: &Vec<u8>) -> (r: Option<Value>)
    ensures
        r is None <==> spec_decode_full(*k, s@) is None,
        r matches Some(v) ==> spec_decode_full(*k, s@) == Some(v.model()) && wf_value(
            v.model(),
            *k,
        ),
{
    match decode_at(k, s, 0) {
        Some((v, end)) => if end == s.len() {
            Some(v)
        } else {
            None
        },
        None => None,
    }
}

/// Decoding reads back exactly what encoding wrote, at any position.
pub proof fn lemma_decode_encode(k: TypeKind, m: ValModel, s: Seq<u8>, i: int)
    requires
        wf_value(m, k),
        0 <= i,
        i + spec_encode(k, m).len() <= s.len(),
        s.subrange(i, i + spec_encode(k, m).len() as int) == spec_encode(k, m),
    ensures
        spec_decode_at(k, s, i) == Some((m, i + spec_encode(k, m).len() as int)),
    decreases k, 0nat,
{
    let enc = spec_encode(k, m);
    let ll = enc.len() as int;
    match k {
        TypeKind::Bool => {
            assert(s.subrange(i, i + 1)[0] == s[i]);
            assert(s[i] == enc[0]);
            assert(spec_decode_at(k, s, i) =~~= Some((m, i + ll)));
        },
        TypeKind::Uint => {
            let n = m->Uint_0;
            lemma_dec_fixed_shape(n as nat, 10);
            assert(pow10(10) == 10000000000) by {
                reveal_with_fuel(pow10, 11);
            }
            lemma_dec_fixed_value(n as nat, 10);
            assert(s.subrange(i, i + 10) == enc);
            assert(spec_dec10_at(s, i) == Some(n));
            assert(spec_decode_at(k, s, i) =~~= Some((m, i + ll)));
        },
        TypeKind::Text => {
            let t = m->Text_0;
            let len = t.len() as int;
            lemma_dec_fixed_shape(t.len(), 10);
            assert(ll == 10 + len);
            assert(s.subrange(i, i + 10) =~= dec_fixed(t.len(), 10)) by {
                assert(forall|j: int|
                    0 <= j < 10 ==> #[trigger] s.subrange(i, i + 10)[j] == s.subrange(i, i + ll)[j]);
            }
            assert(pow10(10) == 10000000000) by {
                reveal_with_fuel(pow10, 11);
            }
            lemma_dec_fixed_value(t.len(), 10);
            assert(spec_dec10_at(s, i) == Some(t.len() as u32));
            assert(s.subrange(i + 10, i + 10 + len) =~= t) by {
                assert(forall|j: int|
                    0 <= j < len ==> #[trigger] s.subrange(i + 10, i + 10 + len)[j] == s.subrange(
                        i,
                        i + ll,
                    )[10 + j]);
            }
            assert(spec_decode_at(k, s, i) =~~= Some((m, i + ll)));
        },
        TypeKind::Pair(ka, kb) => {
            let e1 = spec_encode(*ka, *m->Pair_0);
            let e2 = spec_encode(*kb, *m->Pair_1);
            let l1 = e1.len() as int;
            let l2 = e2.len() as int;
            assert(s.subrange(i, i + l1) =~= e1) by {
                assert(forall|j: int|
                    0 <= j < l1 ==> #[trigger] s.subrange(i, i + l1)[j] == s.subrange(i, i + ll)[j]);
            }
            assert(s.subrange(i + l1, i + l1 + l2) =~= e2) by {
                assert(forall|j: int|
                    0 <= j < l2 ==> #[trigger] s.subrange(i + l1, i + l1 + l2)[j] == s.subrange(
                        i,
                        i + ll,
                    )[l1 + j]);
            }
            lemma_decode_encode(*ka, *m->Pair_0, s, i);
            lemma_decode_encode(*kb, *m->Pair_1, s, i + l1);
            assert(spec_decode_at(k, s, i) =~~= Some((m, i + ll)));
        },
        TypeKind::List(ke) => {
            let ms = m->List_0;
            let el = spec_encode_list(*ke, ms);
            lemma_dec_fixed_shape(ms.len(), 10);
            assert(ll == 10 + el.len());
            assert(s.subrange(i, i + 10) =~= dec_fixed(ms.len(), 10)) by {
                assert(forall|j: int|
                    0 <= j < 10 ==> #[trigger] s.subrange(i, i + 10)[j] == s.subrange(i, i + ll)[j]);
            }
            assert(pow10(10) == 10000000000) by {
                reveal_with_fuel(pow10, 11);
            }
            lemma_dec_fixed_value(ms.len(), 10);
            assert(spec_dec10_at(s, i) == Some(ms.len() as u32));
            assert(s.subrange(i + 10, i + 10 + el.len() as int) =~= el) by {
                assert(forall|j: int|
                    0 <= j < el.len() ==> #[trigger] s.subrange(i + 10, i + 10 + el.len() as int)[j]
                        == s.subrange(i, i + ll)[10 + j]);
            }
            lemma_decode_encode_list(*ke, ms, s, i + 10);
            assert(spec_decode_at(k, s, i) =~~= Some((m, i + ll)));
        },
    }
}

/// Companion of `lemma_decode_encode` for the elements of a list.
pub proof fn lemma_decode_encode_list(ke: TypeKind, ms: Seq<ValModel>, s: Seq<u8>, i: int)
    requires
        forall|q: int| 0 <= q < ms.len() ==> wf_value(#[trigger] ms[q], ke),
        0 <= i,
        i + spec_encode_list(ke, ms).len() <= s.len(),
        s.subrange(i, i + spec_encode_list(ke, ms).len() as int) == spec_encode_list(ke, ms),
    ensures
        spec_decode_list(ke, s, i, ms.len()) == Some(
            (ms, i + spec_encode_list(ke, ms).len() as int),
        ),
    decreases ke, ms.len(),
{
    let el = spec_encode_list(ke, ms);
    let ll = el.len() as int;
    if ms.len() == 0 {
        assert(spec_decode_list(ke, s, i, 0) =~~= Some((ms, i + ll)));
    } else {
        let e0 = spec_encode(ke, ms[0]);
        let rest = spec_encode_list(ke, ms.drop_first());
        let l0 = e0.len() as int;
        assert(el == e0 + rest);
        assert(s.subrange(i, i + l0) =~= e0) by {
            assert(forall|j: int|
                0 <= j < l0 ==> #[trigger] s.subrange(i, i + l0)[j] == s.subrange(i, i + ll)[j]);
        }
        assert(s.subrange(i + l0, i + l0 + rest.len() as int) =~= rest) by {
            assert(forall|j: int|
                0 <= j < rest.len() ==> #[trigger] s.subrange(i + l0, i + l0 + rest.len() as int)[j]
                    == s.subrange(i, i + ll)[l0 + j]);
        }
        lemma_decode_encode(ke, ms[0], s, i);
        assert(forall|q: int|
            0 <= q < ms.drop_first().len() ==> wf_value(#[trigger] ms.drop_first()[q], ke));
        lemma_decode_encode_list(ke, ms.drop_first(), s, i + l0);
        assert(seq![ms[0]] + ms.drop_first() =~= ms);
        assert(spec_decode_list(ke, s, i, ms.len()) =~~= Some((ms, i + ll)));
    }
}

/// Round trip: a well formed value decodes back from its own encoding.
pub proof fn lemma_codec_round_trip(k: TypeKind, m: ValModel)
    requires
        wf_value(m, k),
    ensures
        spec_decode_full(k, spec_encode(k, m)) == Some(m),
{
    let s = spec_encode(k, m);
    assert(s.subrange(0, s.len() as int) =~= s);
    lemma_decode_encode(k, m, s, 0);
}

} // verus!
