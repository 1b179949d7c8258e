//! The dispatch engine.
//!
//! `dispatch` is a pure function from a request descriptor to a response
//! descriptor: it resolves the path against the schema with
//! literal-over-capture precedence, selects the alternative by method,
//! decodes captures, query parameters and body, invokes the bound handler
//! on well-typed values only, and encodes the result.  Any decode failure
//! answers `BadRequest` naming the failing field, before the handler runs.

use vstd::prelude::*;

use crate::binding::{kind_of, route_param_kinds, BindingTable, Handler};
use crate::bytes::{bytes_copy, bytes_eq};
use crate::codec::{decode_full, encode_full, seq_models, spec_decode_full, spec_encode};
use crate::kinds::{default_value, spec_default_value, wf_value, ValModel, Value};
use crate::pathq::{bufs_models, lookup_q, lookup_query, parse_query, path_segments, qpairs,
    split_path};
use crate::registry::TypeRegistry;
use crate::scalar::{parse_scalar, spec_parse_scalar};
use crate::schema::{same_identity, same_path, QpModel, Route, RouteModel, Seg, SegModel};

verus! {

/// The status class of a response.
#[derive(Clone, Copy, PartialEq, Eq, Structural, Debug)]
pub enum Status {
    /// The handler ran and its result is in the body.
    Success,
    /// No route's path matches the request path.
    NotFound,
    /// The path matches a route, but none of its alternatives has the
    /// request's method.
    MethodNotAllowed,
    /// A capture, query parameter or body failed to decode; the body
    /// names the failing field.
    BadRequest,
    /// The handler reported an application error; the body carries it.
    HandlerFailure,
}

/// One inbound request: method, absolute path, query string, body bytes.
pub struct RequestDescriptor {
    pub method: crate::schema::Method,
    pub path: Vec<u8>,
    pub query: Vec<u8>,
    pub body: Vec<u8>,
}

/// One outbound response: a status class and body bytes.
pub struct ResponseDescriptor {
    pub status: Status,
    pub body: Vec<u8>,
}

/// A path segment accepts a piece of request path text.
pub open spec fn seg_accepts(sm: SegModel, t: Seq<u8>) -> bool {
    match sm {
        SegModel::Lit(l) => l == t,
        SegModel::Cap(name, ty) => true,
    }
}

/// A route's path matches the request path segments.
pub open spec fn route_matches(rm: RouteModel, segs: Seq<Seq<u8>>) -> bool {
    rm.segs.len() == segs.len() && (forall|i: int|
        0 <= i < segs.len() ==> seg_accepts(#[trigger] rm.segs[i], segs[i]))
}

/// Two paths have captures at the same positions.
pub open spec fn pats_eq(a: Seq<SegModel>, b: Seq<SegModel>) -> bool {
    a.len() == b.len() && (forall|i: int|
        0 <= i < a.len() ==> ((#[trigger] a[i] is Cap) <==> (#[trigger] b[i] is Cap)))
}

/// Path `a` out-ranks path `b`: at the first position where their capture
/// patterns differ, `a` has the literal.
pub open spec fn pat_lt(a: Seq<SegModel>, b: Seq<SegModel>) -> bool {
    a.len() == b.len() && (exists|k: int|
        0 <= k < a.len() && (forall|j: int|
            0 <= j < k ==> ((#[trigger] a[j] is Cap) <==> (#[trigger] b[j] is Cap))) && (
        #[trigger] a[k]) is Lit && b[k] is Cap)
}

/// Path `a` ranks at least as high as path `b`.
pub open spec fn pat_le(a: Seq<SegModel>, b: Seq<SegModel>) -> bool {
    pat_lt(a, b) || pats_eq(a, b)
}

/// Route `i` is the one the request resolves to: its path matches, it has
/// the request's method, and its path out-ranks every matching path.
pub open spec fn selected(rms: Seq<RouteModel>, segs: Seq<Seq<u8>>, m: crate::schema::Method, i: int) -> bool {
    &&& 0 <= i < rms.len()
    &&& route_matches(rms[i], segs)
    &&& rms[i].method == m
    &&& forall|j: int|
        0 <= j < rms.len() && route_matches(#[trigger] rms[j], segs) ==> pat_le(
            rms[i].segs,
            rms[j].segs,
        )
}

/// Out-ranking is strict: it refutes both its converse and equality.
pub proof fn lemma_pat_lt_asym(a: Seq<SegModel>, b: Seq<SegModel>)
    requires
        pat_lt(a, b),
    ensures
        !pat_lt(b, a),
        !pats_eq(a, b),
{
    let k1 = choose|k: int|
        0 <= k < a.len() && (forall|j: int|
            0 <= j < k ==> ((#[trigger] a[j] is Cap) <==> (#[trigger] b[j] is Cap))) && (
        #[trigger] a[k]) is Lit && b[k] is Cap;
    if pat_lt(b, a) {
        let k2 = choose|k: int|
            0 <= k < b.len() && (forall|j: int|
                0 <= j < k ==> ((#[trigger] b[j] is Cap) <==> (#[trigger] a[j] is Cap))) && (
            #[trigger] b[k]) is Lit && a[k] is Cap;
        if k1 == k2 {
            assert(false);
        } else if k1 < k2 {
            assert(b[k1] is Cap && !(a[k1] is Cap));
            assert((b[k1] is Cap) <==> (a[k1] is Cap));
            assert(false);
        } else {
            assert(a[k2] is Cap && !(b[k2] is Cap));
            assert((a[k2] is Cap) <==> (b[k2] is Cap));
            assert(false);
        }
    }
}

/// Between equal-length paths there is a first position where the capture
/// patterns differ, if they differ at all.
proof fn lemma_first_diff(a: Seq<SegModel>, b: Seq<SegModel>, i: int)
    requires
        a.len() == b.len(),
        0 <= i <= a.len(),
        forall|j: int| 0 <= j < i ==> ((#[trigger] a[j] is Cap) <==> (#[trigger] b[j] is Cap)),
        !pats_eq(a, b),
    ensures
        exists|k: int|
            0 <= k < a.len() && (forall|j: int|
                0 <= j < k ==> ((#[trigger] a[j] is Cap) <==> (#[trigger] b[j] is Cap))) && !((
            #[trigger] a[k] is Cap) <==> (b[k] is Cap)),
    decreases a.len() - i,
{
    if i == a.len() {
        assert(pats_eq(a, b));
    } else if !((a[i] is Cap) <==> (b[i] is Cap)) {
        assert(0 <= i < a.len() && (forall|j: int|
            0 <= j < i ==> ((#[trigger] a[j] is Cap) <==> (#[trigger] b[j] is Cap))) && !((
        #[trigger] a[i] is Cap) <==> (b[i] is Cap)));
    } else {
        lemma_first_diff(a, b, i + 1);
    }
}

/// Equal-length paths are pattern-equal or one out-ranks the other.
pub proof fn lemma_pat_trichotomy(a: Seq<SegModel>, b: Seq<SegModel>)
    requires
        a.len() == b.len(),
        !pats_eq(a, b),
    ensures
        pat_lt(a, b) || pat_lt(b, a),
{
    lemma_first_diff(a, b, 0);
    let k = choose|k: int|
        0 <= k < a.len() && (forall|j: int|
            0 <= j < k ==> ((#[trigger] a[j] is Cap) <==> (#[trigger] b[j] is Cap))) && !((
        #[trigger] a[k] is Cap) <==> (b[k] is Cap));
    if a[k] is Lit {
        assert(b[k] is Cap);
        assert(pat_lt(a, b));
    } else {
        assert(a[k] is Cap && b[k] is Lit);
        assert(forall|j: int|
            0 <= j < k ==> ((#[trigger] b[j] is Cap) <==> (#[trigger] a[j] is Cap)));
        assert(pat_lt(b, a));
    }
}

/// Ranking at least as high is transitive.
pub proof fn lemma_pat_le_trans(a: Seq<SegModel>, b: Seq<SegModel>, c: Seq<SegModel>)
    requires
        pat_le(a, b),
        pat_le(b, c),
    ensures
        pat_le(a, c),
{
    if pats_eq(a, b) && pats_eq(b, c) {
        assert(pats_eq(a, c));
    } else if pats_eq(a, b) && pat_lt(b, c) {
        let k = choose|k: int|
            0 <= k < b.len() && (forall|j: int|
                0 <= j < k ==> ((#[trigger] b[j] is Cap) <==> (#[trigger] c[j] is Cap))) && (
            #[trigger] b[k]) is Lit && c[k] is Cap;
        assert(!(a[k] is Cap));
        assert forall|j: int| 0 <= j < k implies ((#[trigger] a[j] is Cap) <==> (#[trigger] c[j]
            is Cap)) by {
            assert((a[j] is Cap) <==> (b[j] is Cap));
            assert((b[j] is Cap) <==> (c[j] is Cap));
        }
        assert(pat_lt(a, c));
    } else if pat_lt(a, b) && pats_eq(b, c) {
        let k = choose|k: int|
            0 <= k < a.len() && (forall|j: int|
                0 <= j < k ==> ((#[trigger] a[j] is Cap) <==> (#[trigger] b[j] is Cap))) && (
            #[trigger] a[k]) is Lit && b[k] is Cap;
        assert(c[k] is Cap);
        assert forall|j: int| 0 <= j < k implies ((#[trigger] a[j] is Cap) <==> (#[trigger] c[j]
            is Cap)) by {
            assert((a[j] is Cap) <==> (b[j] is Cap));
            assert((b[j] is Cap) <==> (c[j] is Cap));
        }
        assert(pat_lt(a, c));
    } else {
        let k1 = choose|k: int|
            0 <= k < a.len() && (forall|j: int|
                0 <= j < k ==> ((#[trigger] a[j] is Cap) <==> (#[trigger] b[j] is Cap))) && (
            #[trigger] a[k]) is Lit && b[k] is Cap;
        let k2 = choose|k: int|
            0 <= k < b.len() && (forall|j: int|
                0 <= j < k ==> ((#[trigger] b[j] is Cap) <==> (#[trigger] c[j] is Cap))) && (
            #[trigger] b[k]) is Lit && c[k] is Cap;
        if k1 < k2 {
            assert(c[k1] is Cap);
            assert forall|j: int| 0 <= j < k1 implies ((#[trigger] a[j] is Cap) <==> (
            #[trigger] c[j] is Cap)) by {
                assert((a[j] is Cap) <==> (b[j] is Cap));
                assert((b[j] is Cap) <==> (c[j] is Cap));
            }
            assert(pat_lt(a, c));
        } else if k1 == k2 {
            assert(false);
        } else {
            assert(a[k2] is Lit);
            assert forall|j: int| 0 <= j < k2 implies ((#[trigger] a[j] is Cap) <==> (
            #[trigger] c[j] is Cap)) by {
                assert((a[j] is Cap) <==> (b[j] is Cap));
                assert((b[j] is Cap) <==> (c[j] is Cap));
            }
            assert(pat_lt(a, c));
        }
    }
}

/// Under a well formed schema the selected route is unique.
pub proof fn lemma_selected_unique(
    rms: Seq<RouteModel>,
    segs: Seq<Seq<u8>>,
    m: crate::schema::Method,
    i: int,
    j: int,
)
    requires
        forall|p: int, q: int|
            0 <= p < q < rms.len() ==> !same_identity(#[trigger] rms[p], #[trigger] rms[q]),
        selected(rms, segs, m, i),
        selected(rms, segs, m, j),
    ensures
        i == j,
{
    if i != j {
        assert(pat_le(rms[i].segs, rms[j].segs));
        assert(pat_le(rms[j].segs, rms[i].segs));
        if pat_lt(rms[i].segs, rms[j].segs) {
            lemma_pat_lt_asym(rms[i].segs, rms[j].segs);
        }
        assert(pats_eq(rms[i].segs, rms[j].segs));
        assert(same_path(rms[i].segs, rms[j].segs)) by {
            assert forall|p: int|
                0 <= p < rms[i].segs.len() && rms[i].segs[p] is Lit implies rms[i].segs[p]->Lit_0
                == #[trigger] rms[j].segs[p]->Lit_0 by {
                assert(seg_accepts(rms[i].segs[p], segs[p]));
                assert(seg_accepts(rms[j].segs[p], segs[p]));
            }
        }
        assert(same_identity(rms[i], rms[j]));
        if i < j {
            assert(false);
        } else {
            assert(same_identity(rms[j], rms[i])) by {
                assert(same_path(rms[j].segs, rms[i].segs));
            }
            assert(false);
        }
    }
}

/// Literal precedence: a fully literal route that matches the path and
/// the method is the selected one, whatever the registration order.
pub proof fn lemma_literal_precedence(
    rms: Seq<RouteModel>,
    segs: Seq<Seq<u8>>,
    m: crate::schema::Method,
    i: int,
    j: int,
)
    requires
        forall|p: int, q: int|
            0 <= p < q < rms.len() ==> !same_identity(#[trigger] rms[p], #[trigger] rms[q]),
        0 <= i < rms.len(),
        route_matches(rms[i], segs),
        rms[i].method == m,
        forall|p: int| 0 <= p < rms[i].segs.len() ==> (#[trigger] rms[i].segs[p]) is Lit,
        selected(rms, segs, m, j),
    ensures
        j == i,
{
    assert(pat_le(rms[j].segs, rms[i].segs));
    if pat_lt(rms[j].segs, rms[i].segs) {
        let k = choose|k: int|
            0 <= k < rms[j].segs.len() && (forall|p: int|
                0 <= p < k ==> ((#[trigger] rms[j].segs[p] is Cap) <==> (#[trigger] rms[i].segs[p]
                    is Cap))) && (#[trigger] rms[j].segs[k]) is Lit && rms[i].segs[k] is Cap;
        assert(false);
    }
    assert(pats_eq(rms[j].segs, rms[i].segs));
    assert(forall|p: int| 0 <= p < rms[j].segs.len() ==> !((#[trigger] rms[j].segs[p]) is Cap));
    assert(selected(rms, segs, m, i)) by {
        assert forall|q: int|
            0 <= q < rms.len() && route_matches(#[trigger] rms[q], segs) implies pat_le(
            rms[i].segs,
            rms[q].segs,
        ) by {
            if !pats_eq(rms[i].segs, rms[q].segs) {
                lemma_pat_trichotomy(rms[i].segs, rms[q].segs);
                if pat_lt(rms[q].segs, rms[i].segs) {
                    let k = choose|k: int|
                        0 <= k < rms[q].segs.len() && (forall|p: int|
                            0 <= p < k ==> ((#[trigger] rms[q].segs[p] is Cap) <==> (
                            #[trigger] rms[i].segs[p] is Cap))) && (#[trigger] rms[q].segs[k])
                            is Lit && rms[i].segs[k] is Cap;
                    assert(false);
                }
            }
        }
    }
    lemma_selected_unique(rms, segs, m, i, j);
}

/// Decoding the captures of a matched route, from path segment `i` on:
/// the decoded values in path order, or the name of the first capture
/// whose text fails to parse.
pub open spec fn decode_captures(
    sm: Seq<SegModel>,
    reg: TypeRegistry,
    texts: Seq<Seq<u8>>,
    i: int,
) -> Result<Seq<ValModel>, Seq<u8>>
    decreases sm.len() - i,
{
    if i < 0 || i >= sm.len() {
        Ok(Seq::empty())
    } else {
        match sm[i] {
            SegModel::Lit(l) => decode_captures(sm, reg, texts, i + 1),
            SegModel::Cap(name, ty) => match spec_parse_scalar(kind_of(reg, ty), texts[i]) {
                None => Err(name),
                Some(v) => match decode_captures(sm, reg, texts, i + 1) {
                    Ok(ms) => Ok(seq![v] + ms),
                    Err(f) => Err(f),
                },
            },
        }
    }
}

/// Decoding the declared query parameters, from declaration `i` on: the
/// decoded values in declaration order, or the name of the first
/// parameter that is absent though required, or present but unparseable.
/// An absent optional parameter decodes to its kind's default value.
pub open spec fn decode_query(
    qm: Seq<QpModel>,
    reg: TypeRegistry,
    pairs: Seq<(Seq<u8>, Seq<u8>)>,
    i: int,
) -> Result<Seq<ValModel>, Seq<u8>>
    decreases qm.len() - i,
{
    if i < 0 || i >= qm.len() {
        Ok(Seq::empty())
    } else {
        let head = match lookup_q(pairs, qm[i].name) {
            Some(v) => match spec_parse_scalar(kind_of(reg, qm[i].ty), v) {
                Some(m) => Ok(m),
                None => Err(qm[i].name),
            },
            None => if qm[i].required {
                Err(qm[i].name)
            } else {
                Ok(spec_default_value(kind_of(reg, qm[i].ty)))
            },
        };
        match head {
            Err(f) => Err(f),
            Ok(m) => match decode_query(qm, reg, pairs, i + 1) {
                Ok(ms) => Ok(seq![m] + ms),
                Err(f) => Err(f),
            },
        }
    }
}

/// Decoding the body: one value when a body type is declared, nothing
/// otherwise, or the body's field name when its bytes fail to decode.
pub open spec fn decode_body(rm: RouteModel, reg: TypeRegistry, body: Seq<u8>) -> Result<
    Seq<ValModel>,
    Seq<u8>,
> {
    match rm.body {
        None => Ok(Seq::empty()),
        Some(b) => match spec_decode_full(kind_of(reg, b.1), body) {
            Some(m) => Ok(seq![m]),
            None => Err(b.0),
        },
    }
}

/// Decoding every handler argument of a matched route, in the fixed
/// order: captures, then query parameters, then the body.  The first
/// failure names its field.
pub open spec fn decode_args(
    rm: RouteModel,
    reg: TypeRegistry,
    texts: Seq<Seq<u8>>,
    pairs: Seq<(Seq<u8>, Seq<u8>)>,
    body: Seq<u8>,
) -> Result<Seq<ValModel>, Seq<u8>> {
    match decode_captures(rm.segs, reg, texts, 0) {
        Err(f) => Err(f),
        Ok(a) => match decode_query(rm.query, reg, pairs, 0) {
            Err(f) => Err(f),
            Ok(b) => match decode_body(rm, reg, body) {
                Err(f) => Err(f),
                Ok(c) => Ok(a + b + c),
            },
        },
    }
}

/// Decodes the handler arguments of a matched route.
#[verifier::loop_isolation(false)]
fn decode_route_args(
    route: &Route,
    reg: &TypeRegistry,
    texts: &Vec<Vec<u8>>,
    pairs: &Vec<(Vec<u8>, Vec<u8>)>,
    body: &Vec<u8>,
) -> (r: Result<Vec<Value>, Vec<u8>>)
    requires
        crate::schema::route_types_resolve(route.model(), *reg),
        route.segs@.len() == texts@.len(),
    ensures
        r matches Ok(args) ==> decode_args(
            route.model(),
            *reg,
            bufs_models(texts@),
            crate::pathq::pairs_models(pairs@),
            body@,
        ) == Ok::<Seq<ValModel>, Seq<u8>>(seq_models(args@)) && seq_models(args@).len()
            == route_param_kinds(route.model(), *reg).len() && (forall|p: int|
            0 <= p < args@.len() ==> wf_value(
                (#[trigger] args@[p]).model(),
                route_param_kinds(route.model(), *reg)[p],
            )),
        r matches Err(f) ==> decode_args(
            route.model(),
            *reg,
            bufs_models(texts@),
            crate::pathq::pairs_models(pairs@),
            body@,
        ) == Err::<Seq<ValModel>, Seq<u8>>(f@),
{
    let ghost rm = route.model();
    let ghost tm = bufs_models(texts@);
    let ghost pm = crate::pathq::pairs_models(pairs@);
    let mut args: Vec<Value> = Vec::new();
    let mut i: usize = 0;
    proof {
        assert(rm.segs.take(0) =~= Seq::<SegModel>::empty());
    }
    while i < route.segs.len()
        invariant
            i <= route.segs@.len(),
            seq_models(args@).len() == crate::binding::capture_kinds(
                rm.segs.take(i as int),
                *reg,
            ).len(),
            forall|p: int|
                0 <= p < args@.len() ==> wf_value(
                    (#[trigger] args@[p]).model(),
                    crate::binding::capture_kinds(rm.segs.take(i as int), *reg)[p],
                ),
            decode_captures(rm.segs, *reg, tm, 0) == (match decode_captures(
                rm.segs,
                *reg,
                tm,
                i as int,
            ) {
                Ok(ms) => Ok::<Seq<ValModel>, Seq<u8>>(seq_models(args@) + ms),
                Err(f) => Err(f),
            }),
        decreases route.segs@.len() - i,
    {
        let ghost old_args = args@;
        proof {
            assert(rm.segs.take(i as int + 1).drop_last() =~= rm.segs.take(i as int));
            assert(rm.segs.take(i as int + 1).last() == rm.segs[i as int]);
        }
        match &route.segs[i] {
            Seg::Capture(n, t) => {
                let kind = match reg.resolve(t) {
                    Some(e) => &e.kind,
                    None => {
                        proof {
                            assert(rm.segs[i as int] is Cap);
                            assert(false);
                        }
                        return Err(Vec::new());
                    },
                };
                proof {
                    assert(*kind == kind_of(*reg, rm.segs[i as int]->Cap_1));
                    assert(tm[i as int] == texts@[i as int]@);
                }
                match parse_scalar(kind, &texts[i]) {
                    Some(v) => {
                        let ghost vm = v.model();
                        args.push(v);
                        proof {
                            assert(seq_models(args@) =~= seq_models(old_args).push(vm));
                            assert(crate::binding::capture_kinds(rm.segs.take(i as int + 1), *reg)
                                =~= crate::binding::capture_kinds(rm.segs.take(i as int), *reg).push(
                                *kind,
                            ));
                            if decode_captures(rm.segs, *reg, tm, i as int + 1) is Ok {
                                let ms = decode_captures(rm.segs, *reg, tm, i as int + 1)->Ok_0;
                                assert(decode_captures(rm.segs, *reg, tm, i as int) == Ok::<
                                    Seq<ValModel>,
                                    Seq<u8>,
                                >(seq![vm] + ms));
                                assert(seq_models(old_args) + (seq![vm] + ms) =~= seq_models(args@)
                                    + ms);
                            }
                        }
                    },
                    None => {
                        proof {
                            assert(decode_captures(rm.segs, *reg, tm, i as int) == Err::<
                                Seq<ValModel>,
                                Seq<u8>,
                            >(rm.segs[i as int]->Cap_0));
                        }
                        return Err(bytes_copy(n));
                    },
                }
            },
            Seg::Lit(l) => {
                proof {
                    assert(decode_captures(rm.segs, *reg, tm, i as int) == decode_captures(
                        rm.segs,
                        *reg,
                        tm,
                        i as int + 1,
                    ));
                    assert(crate::binding::capture_kinds(rm.segs.take(i as int + 1), *reg)
                        =~= crate::binding::capture_kinds(rm.segs.take(i as int), *reg));
                }
            },
        }
        i = i + 1;
    }
    proof {
        assert(rm.segs.take(rm.segs.len() as int) =~= rm.segs);
        assert(decode_captures(rm.segs, *reg, tm, rm.segs.len() as int)
            == Ok::<Seq<ValModel>, Seq<u8>>(Seq::empty()));
        assert(seq_models(args@) + Seq::<ValModel>::empty() =~= seq_models(args@));
    }
    let ghost capms = seq_models(args@);
    let ghost capn = args@.len() as int;
    let mut i: usize = 0;
    proof {
        assert(rm.query.take(0) =~= Seq::<QpModel>::empty());
    }
    while i < route.query.len()
        invariant
            i <= route.query@.len(),
            args@.len() == capn + crate::binding::query_kinds(
                rm.query.take(i as int),
                *reg,
            ).len(),
            seq_models(args@).take(capn) =~= capms,
            decode_captures(rm.segs, *reg, tm, 0) == Ok::<Seq<ValModel>, Seq<u8>>(capms),
            forall|p: int|
                0 <= p < args@.len() ==> wf_value(
                    (#[trigger] args@[p]).model(),
                    (crate::binding::capture_kinds(rm.segs, *reg) + crate::binding::query_kinds(
                        rm.query.take(i as int),
                        *reg,
                    ))[p],
                ),
            decode_query(rm.query, *reg, pm, 0) == (match decode_query(
                rm.query,
                *reg,
                pm,
                i as int,
            ) {
                Ok(ms) => Ok::<Seq<ValModel>, Seq<u8>>(seq_models(args@).skip(capn) + ms),
                Err(f) => Err(f),
            }),
        decreases route.query@.len() - i,
    {
        let ghost old_args = args@;
        let kind = match reg.resolve(&route.query[i].ty) {
            Some(e) => &e.kind,
            None => {
                proof {
                    assert(false);
                }
                return Err(Vec::new());
            },
        };
        proof {
            assert(*kind == kind_of(*reg, rm.query[i as int].ty));
            assert(rm.query.take(i as int + 1).drop_last() =~= rm.query.take(i as int));
        }
        let got: Value = match lookup_query(pairs, &route.query[i].name) {
            Some(v) => match parse_scalar(kind, v) {
                Some(m) => m,
                None => {
                    return Err(bytes_copy(&route.query[i].name));
                },
            },
            None => {
                if route.query[i].required {
                    return Err(bytes_copy(&route.query[i].name));
                }
                default_value(kind)
            },
        };
        args.push(got);
        i = i + 1;
        proof {
            assert(seq_models(args@) =~= seq_models(old_args).push(args@.last().model()));
            assert(seq_models(args@).take(capn) =~= seq_models(old_args).take(capn));
            assert(crate::binding::query_kinds(rm.query.take(i as int), *reg) =~= crate::binding::query_kinds(
                rm.query.take(i as int - 1),
                *reg,
            ).push(kind_of(*reg, rm.query[i as int - 1].ty)));
            if decode_query(rm.query, *reg, pm, i as int) is Ok {
                let ms = decode_query(rm.query, *reg, pm, i as int)->Ok_0;
                assert(seq_models(args@).skip(capn) =~= seq_models(old_args).skip(capn).push(
                    args@.last().model(),
                ));
                assert(seq_models(args@).skip(capn) + ms =~= seq_models(old_args).skip(capn) + (
                seq![args@.last().model()] + ms));
            }
        }
    }
    proof {
        assert(rm.query.take(rm.query.len() as int) =~= rm.query);
        assert(decode_query(rm.query, *reg, pm, rm.query.len() as int) == Ok::<
            Seq<ValModel>,
            Seq<u8>,
        >(Seq::empty()));
        assert(seq_models(args@).skip(capn) + Seq::<ValModel>::empty() =~= seq_models(args@).skip(
            capn,
        ));
    }
    let ghost qms = seq_models(args@).skip(capn);
    match &route.body {
        Some(d) => {
            let kind = match reg.resolve(&d.ty) {
                Some(e) => &e.kind,
                None => {
                    proof {
                        assert(false);
                    }
                    return Err(Vec::new());
                },
            };
            match decode_full(kind, body) {
                Some(v) => {
                    let ghost old_args = args@;
                    args.push(v);
                    proof {
                        assert(seq_models(args@) =~= seq_models(old_args).push(
                            args@.last().model(),
                        ));
                        assert(seq_models(args@) =~= capms + qms + seq![args@.last().model()]);
                        assert(crate::binding::route_param_kinds(rm, *reg)
                            =~= crate::binding::capture_kinds(rm.segs, *reg)
                            + crate::binding::query_kinds(rm.query, *reg) + seq![
                            kind_of(*reg, rm.body->Some_0.1),
                        ]);
                    }
                    Ok(args)
                },
                None => {
                    return Err(bytes_copy(&d.name));
                },
            }
        },
        None => {
            proof {
                assert(seq_models(args@) =~= capms + qms + Seq::<ValModel>::empty());
                assert(crate::binding::route_param_kinds(rm, *reg)
                    =~= crate::binding::capture_kinds(rm.segs, *reg)
                    + crate::binding::query_kinds(rm.query, *reg));
            }
            Ok(args)
        },
    }
}

/// How two equal-length paths rank against each other.
pub enum PatOrder {
    Before,
    Same,
    After,
}

/// Compares the capture patterns of two equal-length paths.
#[verifier::loop_isolation(false)]
fn pat_cmp(a: &Vec<Seg>, b: &Vec<Seg>) -> (r: PatOrder)
    requires
        a@.len() == b@.len(),
    ensures
        r is Same ==> pats_eq(crate::schema::segs_models(a@), crate::schema::segs_models(b@)),
        r is Before ==> pat_lt(crate::schema::segs_models(a@), crate::schema::segs_models(b@)),
        r is After ==> pat_lt(crate::schema::segs_models(b@), crate::schema::segs_models(a@)),
{
    let ghost am = crate::schema::segs_models(a@);
    let ghost bm = crate::schema::segs_models(b@);
    let mut k: usize = 0;
    while k < a.len()
        invariant
            k <= a@.len(),
            forall|j: int| 0 <= j < k ==> ((#[trigger] am[j] is Cap) <==> (#[trigger] bm[j] is Cap)),
        decreases a@.len() - k,
    {
        let a_cap = matches!(&a[k], Seg::Capture(n, t));
        let b_cap = matches!(&b[k], Seg::Capture(n, t));
        proof {
            assert(a_cap == (am[k as int] is Cap));
            assert(b_cap == (bm[k as int] is Cap));
        }
        if !a_cap && b_cap {
            proof {
                assert(am[k as int] is Lit && bm[k as int] is Cap);
            }
            return PatOrder::Before;
        }
        if a_cap && !b_cap {
            proof {
                assert(bm[k as int] is Lit && am[k as int] is Cap);
            }
            return PatOrder::After;
        }
        k = k + 1;
    }
    PatOrder::Same
}

/// Whether a route's path matches the request path segments.
#[verifier::loop_isolation(false)]
fn route_match_exec(route: &Route, texts: &Vec<Vec<u8>>) -> (r: bool)
    ensures
        r == route_matches(route.model(), bufs_models(texts@)),
{
    let ghost rm = route.model();
    let ghost tm = bufs_models(texts@);
    if route.segs.len() != texts.len() {
        return false;
    }
    let mut i: usize = 0;
    while i < route.segs.len()
        invariant
            i <= route.segs@.len(),
            route.segs@.len() == texts@.len(),
            forall|j: int| 0 <= j < i ==> seg_accepts(#[trigger] rm.segs[j], tm[j]),
        decreases route.segs@.len() - i,
    {
        match &route.segs[i] {
            Seg::Lit(l) => {
                if !bytes_eq(l, &texts[i]) {
                    proof {
                        assert(!seg_accepts(rm.segs[i as int], tm[i as int]));
                    }
                    return false;
                }
            },
            Seg::Capture(n, t) => {
            },
        }
        i = i + 1;
    }
    true
}

/// Serves one request against a bound schema: a pure function of its
/// arguments.  The path resolves with literal-over-capture precedence;
/// the method then picks the alternative; captures, query parameters and
/// the body decode before the handler runs, and the first decode failure
/// answers `BadRequest` with the failing field's name as body — the
/// handler is never invoked on malformed input.
#[verifier::loop_isolation(false)]
pub fn dispatch<H: Handler>(table: &BindingTable<H>, req: &RequestDescriptor) -> (resp:
    ResponseDescriptor)
    requires
        table.wf(),
    ensures
        resp.status == Status::NotFound <==> (match path_segments(req.path@) {
            None => true,
            Some(segs) => !(exists|i: int|
                0 <= i < table.spec_api().spec_routes().len() && route_matches(
                    #[trigger] table.spec_api().spec_routes()[i],
                    segs,
                )),
        }),
        resp.status == Status::NotFound ==> resp.body@ == Seq::<u8>::empty(),
        resp.status == Status::MethodNotAllowed ==> resp.body@ == Seq::<u8>::empty(),
        path_segments(req.path@) matches Some(segs) ==> {
            &&& (resp.status == Status::MethodNotAllowed <==> ((exists|i: int|
                0 <= i < table.spec_api().spec_routes().len() && route_matches(
                    #[trigger] table.spec_api().spec_routes()[i],
                    segs,
                )) && !(exists|i: int|
                #[trigger] selected(table.spec_api().spec_routes(), segs, req.method, i))))
            &&& forall|i: int|
                #[trigger] selected(table.spec_api().spec_routes(), segs, req.method, i)
                    ==> (match decode_args(
                    table.spec_api().spec_routes()[i],
                    table.spec_api().reg(),
                    segs,
                    qpairs(req.query@),
                    req.body@,
                ) {
                    Err(f) => resp.status == Status::BadRequest && resp.body@ == f,
                    Ok(args) => match table.spec_handlers()[i].call_model(args) {
                        Ok(v) => resp.status == Status::Success && resp.body@ == spec_encode(
                            kind_of(table.spec_api().reg(), table.spec_api().spec_routes()[i].ret),
                            v,
                        ),
                        Err(e) => resp.status == Status::HandlerFailure && resp.body@ == e,
                    },
                })
        },
{
    proof {
        crate::schema::lemma_api_fields(table.spec_api());
        crate::binding::lemma_table_fields(table);
    }
    let ghost rms = table.spec_api().spec_routes();
    let ghost reg = table.spec_api().reg();
    let texts = match split_path(&req.path) {
        Some(t) => t,
        None => {
            return ResponseDescriptor { status: Status::NotFound, body: Vec::new() };
        },
    };
    let ghost segs = bufs_models(texts@);
    let api = table.api();
    let n = api.routes.len();
    let mut best: Option<usize> = None;
    let mut r: usize = 0;
    while r < n
        invariant
            r <= n,
            n == rms.len(),
            match best {
                None => forall|j: int| 0 <= j < r ==> !route_matches(#[trigger] rms[j], segs),
                Some(b) => b < r && route_matches(rms[b as int], segs) && (forall|j: int|
                    0 <= j < r && route_matches(#[trigger] rms[j], segs) ==> pat_le(
                        rms[b as int].segs,
                        rms[j].segs,
                    )),
            },
        decreases n - r,
    {
        proof {
            assert(rms[r as int] == api.routes@[r as int].model());
        }
        if route_match_exec(&api.routes[r], &texts) {
            match best {
                None => {
                    best = Some(r);
                },
                Some(b) => {
                    proof {
                        assert(rms[b as int].segs.len() == segs.len());
                        assert(rms[r as int].segs.len() == segs.len());
                    }
                    match pat_cmp(&api.routes[r].segs, &api.routes[b].segs) {
                        PatOrder::Before => {
                            proof {
                                assert forall|j: int|
                                    0 <= j < r + 1 && route_matches(#[trigger] rms[j], segs)
                                        implies pat_le(rms[r as int].segs, rms[j].segs) by {
                                    if j < r {
                                        lemma_pat_le_trans(
                                            rms[r as int].segs,
                                            rms[b as int].segs,
                                            rms[j].segs,
                                        );
                                    }
                                }
                            }
                            best = Some(r);
                        },
                        PatOrder::Same => {
                        },
                        PatOrder::After => {
                        },
                    }
                },
            }
        }
        r = r + 1;
    }
    let b = match best {
        Some(b) => b,
        None => {
            return ResponseDescriptor { status: Status::NotFound, body: Vec::new() };
        },
    };
    let mut sel: Option<usize> = None;
    let mut i: usize = 0;
    while i < n
        invariant
            i <= n,
            n == rms.len(),
            b < n,
            route_matches(rms[b as int], segs),
            forall|j: int|
                0 <= j < rms.len() && route_matches(#[trigger] rms[j], segs) ==> pat_le(
                    rms[b as int].segs,
                    rms[j].segs,
                ),
            match sel {
                None => forall|j: int|
                    0 <= j < i ==> !(route_matches(#[trigger] rms[j], segs) && rms[j].method
                        == req.method && pats_eq(rms[j].segs, rms[b as int].segs)),
                Some(s) => s < n && route_matches(rms[s as int], segs) && rms[s as int].method
                    == req.method && pats_eq(rms[s as int].segs, rms[b as int].segs),
            },
        decreases n - i,
    {
        if sel.is_none() {
            proof {
                assert(rms[i as int] == api.routes@[i as int].model());
            }
            if route_match_exec(&api.routes[i], &texts) && req.method == api.routes[i].method {
                proof {
                    assert(rms[i as int].segs.len() == segs.len());
                }
                match pat_cmp(&api.routes[i].segs, &api.routes[b].segs) {
                    PatOrder::Same => {
                        sel = Some(i);
                    },
                    PatOrder::Before => {
                    },
                    PatOrder::After => {
                    },
                }
            }
        }
        i = i + 1;
    }
    let s = match sel {
        Some(s) => s,
        None => {
            proof {
                assert forall|i2: int| !(#[trigger] selected(rms, segs, req.method, i2)) by {
                    if selected(rms, segs, req.method, i2) {
                        assert(pat_le(rms[i2 as int].segs, rms[b as int].segs));
                        assert(pat_le(rms[b as int].segs, rms[i2 as int].segs));
                        if pat_lt(rms[i2 as int].segs, rms[b as int].segs) {
                            lemma_pat_lt_asym(rms[i2 as int].segs, rms[b as int].segs);
                        }
                        assert(pats_eq(rms[i2 as int].segs, rms[b as int].segs));
                        assert(false);
                    }
                }
            }
            return ResponseDescriptor { status: Status::MethodNotAllowed, body: Vec::new() };
        },
    };
    proof {
        assert(selected(rms, segs, req.method, s as int)) by {
            assert forall|j: int|
                0 <= j < rms.len() && route_matches(#[trigger] rms[j], segs) implies pat_le(
                rms[s as int].segs,
                rms[j].segs,
            ) by {
                lemma_pat_le_trans(rms[s as int].segs, rms[b as int].segs, rms[j].segs);
            }
        }
        assert forall|i2: int|
            #[trigger] selected(rms, segs, req.method, i2) implies i2 == s as int by {
            lemma_selected_unique(rms, segs, req.method, i2, s as int);
        }
        assert(crate::schema::route_types_resolve(rms[s as int], reg));
    }
    let pairs = parse_query(&req.query);
    match decode_route_args(&api.routes[s], &api.registry, &texts, &pairs, &req.body) {
        Err(f) => ResponseDescriptor { status: Status::BadRequest, body: f },
        Ok(args) => {
            let h = &table.handlers[s];
            proof {
                assert(crate::binding::shape_matches(rms[s as int], reg, table.spec_handlers()[s as int]));
                assert(h.param_kinds() == crate::binding::route_param_kinds(rms[s as int], reg));
            }
            match h.call(args) {
                Ok(v) => {
                    let rk = match api.registry.resolve(&api.routes[s].ret) {
                        Some(e) => &e.kind,
                        None => {
                            proof {
                                assert(false);
                            }
                            return ResponseDescriptor { status: Status::NotFound, body: Vec::new() };
                        },
                    };
                    proof {
                        assert(*rk == kind_of(reg, rms[s as int].ret));
                        assert(wf_value(v.model(), *rk));
                    }
                    let body = encode_full(rk, &v);
                    ResponseDescriptor { status: Status::Success, body }
                },
                Err(e) => ResponseDescriptor { status: Status::HandlerFailure, body: e },
            }
        },
    }
}

} // verus!
