//! The binding table.
//!
//! `bind` pairs every route alternative of a schema with a typed handler
//! and validates, eagerly at construction, that each handler's declared
//! shape equals the route's: the parameter kinds are exactly the capture
//! kinds, then the query parameter kinds, then the body kind if one is
//! declared, and the result kind is the route's return kind.  Shape errors
//! are a startup failure, never a runtime surprise.

use vstd::prelude::*;

use crate::bytes::bytes_copy;
use crate::codec::seq_models;
use crate::errors::ConstructionError;
use crate::kinds::{wf_value, TypeKind, ValModel, Value};
use crate::registry::TypeRegistry;
use crate::schema::{Api, QpModel, RouteModel, Seg, SegModel};

verus! {

/// The kind registered under `name`; meaningful only when `name` resolves.
pub open spec fn kind_of(reg: TypeRegistry, name: Seq<u8>) -> TypeKind {
    reg.spec_kind(name)->Some_0
}

/// The kinds of a path's captures, in path order.
pub open spec fn capture_kinds(segs: Seq<SegModel>, reg: TypeRegistry) -> Seq<TypeKind>
    decreases segs.len(),
{
    if segs.len() == 0 {
        Seq::empty()
    } else {
        let r = capture_kinds(segs.drop_last(), reg);
        if segs.last() is Cap {
            r.push(kind_of(reg, segs.last()->Cap_1))
        } else {
            r
        }
    }
}

/// The kinds of the declared query parameters, in declaration order.
pub open spec fn query_kinds(query: Seq<QpModel>, reg: TypeRegistry) -> Seq<TypeKind> {
    Seq::new(query.len(), |i: int| kind_of(reg, query[i].ty))
}

/// The parameter kinds a handler for this route must declare: captures,
/// then query parameters, then the body if one is declared.
pub open spec fn route_param_kinds(rm: RouteModel, reg: TypeRegistry) -> Seq<TypeKind> {
    capture_kinds(rm.segs, reg) + query_kinds(rm.query, reg) + (match rm.body {
        Some(b) => seq![kind_of(reg, b.1)],
        None => Seq::empty(),
    })
}

/// A handler's declared shape.
pub struct HandlerShape {
    pub params: Vec<TypeKind>,
    pub ret: TypeKind,
}

/// A typed handler.  `call` may assume that the dispatcher hands it
/// exactly the declared parameter kinds, and must return a well formed
/// value of the declared result kind; its outcome is the deterministic
/// function `call_model` of its arguments.
pub trait Handler: Sized {
    /// The declared parameter kinds.
    spec fn param_kinds(&self) -> Seq<TypeKind>;

    /// The declared result kind.
    spec fn ret_kind(&self) -> TypeKind;

    /// What the handler computes: a result value, or an application error.
    spec fn call_model(&self, args: Seq<ValModel>) -> Result<ValModel, Seq<u8>>;

    /// The declared shape, as runtime data.
    fn shape(&self) -> (s: HandlerShape)
        ensures
            s.params@ == self.param_kinds(),
            s.ret == self.ret_kind(),
    ;

    /// Runs the handler on decoded arguments.
    fn call(&self, args: Vec<Value>) -> (r: Result<Value, Vec<u8>>)
        requires
            args@.len() == self.param_kinds().len(),
            forall|i: int|
                0 <= i < args@.len() ==> wf_value(
                    (#[trigger] args@[i]).model(),
                    self.param_kinds()[i],
                ),
        ensures
            r matches Ok(v) ==> self.call_model(seq_models(args@)) == Ok::<ValModel, Seq<u8>>(
                v.model(),
            ) && wf_value(v.model(), self.ret_kind()),
            r matches Err(e) ==> self.call_model(seq_models(args@)) == Err::<ValModel, Seq<u8>>(
                e@,
            ),
    ;
}

/// A handler's shape equals its route's.
pub open spec fn shape_matches<H: Handler>(rm: RouteModel, reg: TypeRegistry, h: H) -> bool {
    h.param_kinds() == route_param_kinds(rm, reg) && h.ret_kind() == kind_of(reg, rm.ret)
}

/// Copies a kind.
pub fn kind_copy(k: &TypeKind) -> (r: TypeKind)
    ensures
        r == *k,
    decreases k,
{
    match k {
        TypeKind::Bool => TypeKind::Bool,
        TypeKind::Uint => TypeKind::Uint,
        TypeKind::Text => TypeKind::Text,
        TypeKind::Pair(a, b) => TypeKind::Pair(Box::new(kind_copy(a)), Box::new(kind_copy(b))),
        TypeKind::List(e) => TypeKind::List(Box::new(kind_copy(e))),
    }
}

/// The expected parameter kinds of a route, with a label for each
/// position, and the expected return kind.
#[verifier::loop_isolation(false)]
fn expected_shape(route: &crate::schema::Route, reg: &TypeRegistry) -> (r: (
    Vec<TypeKind>,
    Vec<Vec<u8>>,
    TypeKind,
))
    requires
        crate::schema::route_types_resolve(route.model(), *reg),
    ensures
        r.0@ == route_param_kinds(route.model(), *reg),
        r.1@.len() == r.0@.len(),
        r.2 == kind_of(*reg, route.model().ret),
{
    let ghost rm = route.model();
    let mut kinds: Vec<TypeKind> = Vec::new();
    let mut labels: Vec<Vec<u8>> = Vec::new();
    let mut i: usize = 0;
    proof {
        assert(rm.segs.take(0) =~= Seq::<SegModel>::empty());
    }
    while i < route.segs.len()
        invariant
            i <= route.segs@.len(),
            kinds@ == capture_kinds(rm.segs.take(i as int), *reg),
            labels@.len() == kinds@.len(),
        decreases route.segs@.len() - i,
    {
        proof {
            assert(rm.segs.take(i as int + 1).drop_last() =~= rm.segs.take(i as int));
            assert(rm.segs.take(i as int + 1).last() == rm.segs[i as int]);
        }
        match &route.segs[i] {
            Seg::Capture(n, t) => {
                match reg.resolve(t) {
                    Some(e) => {
                        kinds.push(kind_copy(&e.kind));
                        labels.push(bytes_copy(n));
                    },
                    None => {
                        proof {
                            assert(rm.segs[i as int] is Cap);
                            assert(false);
                        }
                    },
                }
            },
            Seg::Lit(x) => {
            },
        }
        i = i + 1;
    }
    proof {
        assert(rm.segs.take(rm.segs.len() as int) =~= rm.segs);
    }
    let mut i: usize = 0;
    while i < route.query.len()
        invariant
            i <= route.query@.len(),
            kinds@ =~= capture_kinds(rm.segs, *reg) + query_kinds(rm.query.take(i as int), *reg),
            labels@.len() == kinds@.len(),
        decreases route.query@.len() - i,
    {
        match reg.resolve(&route.query[i].ty) {
            Some(e) => {
                kinds.push(kind_copy(&e.kind));
                labels.push(bytes_copy(&route.query[i].name));
                proof {
                    assert(kinds@ =~= capture_kinds(rm.segs, *reg) + query_kinds(
                        rm.query.take(i as int + 1),
                        *reg,
                    ));
                }
            },
            None => {
                proof {
                    assert(false);
                }
            },
        }
        i = i + 1;
    }
    proof {
        assert(rm.query.take(rm.query.len() as int) =~= rm.query);
    }
    match &route.body {
        Some(d) => {
            match reg.resolve(&d.ty) {
                Some(e) => {
                    kinds.push(kind_copy(&e.kind));
                    labels.push(bytes_copy(&d.name));
                },
                None => {
                    proof {
                        assert(false);
                    }
                },
            }
        },
        None => {
        },
    }
    proof {
        assert(kinds@ =~= route_param_kinds(rm, *reg));
    }
    let ret_kind = match reg.resolve(&route.ret) {
        Some(e) => kind_copy(&e.kind),
        None => {
            proof {
                assert(false);
            }
            TypeKind::Bool
        },
    };
    (kinds, labels, ret_kind)
}

/// The validated association of every route with its handler.
pub struct BindingTable<H> {
    pub(crate) api: Api,
    pub(crate) handlers: Vec<H>,
}

impl<H: Handler> BindingTable<H> {
    /// The schema this table was validated against.
    pub closed spec fn spec_api(self) -> Api {
        self.api
    }

    /// The handler bound to each route, in route order.
    pub closed spec fn spec_handlers(self) -> Seq<H> {
        self.handlers@
    }

    /// The table is well formed: the schema is, and every route's handler
    /// has exactly the route's shape.
    pub open spec fn wf(self) -> bool {
        &&& self.spec_api().wf()
        &&& self.spec_handlers().len() == self.spec_api().spec_routes().len()
        &&& forall|i: int|
            0 <= i < self.spec_handlers().len() ==> shape_matches(
                self.spec_api().spec_routes()[i],
                self.spec_api().reg(),
                #[trigger] self.spec_handlers()[i],
            )
    }

    /// A borrow of the schema.
    pub fn api(&self) -> (r: &Api)
        ensures
            *r == self.spec_api(),
    {
        &self.api
    }
}

/// Within the crate, the table's spec accessors are its fields.
pub(crate) proof fn lemma_table_fields<H: Handler>(t: &BindingTable<H>)
    ensures
        t.spec_api() == t.api,
        t.spec_handlers() == t.handlers@,
{
}

/// Every entry names a route of the schema by its index.
pub open spec fn entries_in_range<H>(entries: Seq<(usize, H)>, n: nat) -> bool {
    forall|j: int| 0 <= j < entries.len() ==> (#[trigger] entries[j]).0 < n
}

/// No two entries name the same route.
pub open spec fn entries_distinct<H>(entries: Seq<(usize, H)>) -> bool {
    forall|j: int, j2: int|
        0 <= j < j2 < entries.len() ==> (#[trigger] entries[j]).0 != (#[trigger] entries[j2]).0
}

/// Some entry names route `i`.
pub open spec fn route_covered<H>(entries: Seq<(usize, H)>, i: int) -> bool {
    exists|j: int| 0 <= j < entries.len() && (#[trigger] entries[j]).0 == i
}

/// Every route is named by some entry.
pub open spec fn entries_cover<H>(entries: Seq<(usize, H)>, n: nat) -> bool {
    forall|i: int| 0 <= i < n ==> #[trigger] route_covered(entries, i)
}

/// Every entry's handler has its route's shape.
pub open spec fn entries_shapes_ok<H: Handler>(entries: Seq<(usize, H)>, api: Api) -> bool {
    forall|j: int|
        0 <= j < entries.len() ==> shape_matches(
            api.spec_routes()[(#[trigger] entries[j]).0 as int],
            api.reg(),
            entries[j].1,
        )
}

/// Builds the binding table: every route must receive exactly one handler
/// of exactly its shape.  Nothing is registered when any entry fails.
#[verifier::loop_isolation(false)]
pub fn bind<H: Handler>(api: Api, entries: Vec<(usize, H)>) -> (r: Result<
    BindingTable<H>,
    ConstructionError,
>)
    requires
        api.wf(),
        entries_in_range(entries@, api.spec_routes().len()),
    ensures
        r is Ok <==> entries_distinct(entries@) && entries_shapes_ok(entries@, api)
            && entries_cover(entries@, api.spec_routes().len()),
        r matches Ok(t) ==> t.wf() && t.spec_api() == api && (forall|j: int|
            0 <= j < entries@.len() ==> t.spec_handlers()[(#[trigger] entries@[j]).0 as int]
                == entries@[j].1),
        r matches Err(e) ==> match e {
            ConstructionError::DuplicateBinding { route } => exists|j: int, j2: int|
                0 <= j < j2 < entries@.len() && (#[trigger] entries@[j]).0 == (
                #[trigger] entries@[j2]).0 && entries@[j].0 == route,
            ConstructionError::ShapeMismatch { route, field } => exists|j: int|
                0 <= j < entries@.len() && (#[trigger] entries@[j]).0 == route && !shape_matches(
                    api.spec_routes()[route as int],
                    api.reg(),
                    entries@[j].1,
                ),
            ConstructionError::MissingHandler { route } => route < api.spec_routes().len()
                && (forall|j: int|
                0 <= j < entries@.len() ==> (#[trigger] entries@[j]).0 != route),
            _ => false,
        },
{
    let n = api.routes.len();
    proof {
        crate::schema::lemma_api_fields(api);
        assert(n == api.spec_routes().len());
    }
    let mut slots: Vec<Option<H>> = Vec::new();
    while slots.len() < n
        invariant
            slots@.len() <= n,
            forall|i: int| 0 <= i < slots@.len() ==> (#[trigger] slots@[i]) is None,
        decreases n - slots@.len(),
    {
        slots.push(None);
    }
    let ghost all = entries@;
    let mut rest = entries;
    let mut done: usize = 0;
    proof {
        assert(rest.len() == all.len());
    }
    while rest.len() > 0
        invariant
            done + rest@.len() == all.len(),
            all.len() <= usize::MAX,
            all =~= all.take(done as int) + rest@,
            slots@.len() == n,
            forall|j: int|
                0 <= j < done ==> slots@[(#[trigger] all[j]).0 as int] == Some(all[j].1),
            forall|i: int|
                0 <= i < n && (#[trigger] slots@[i]) is Some ==> exists|j: int|
                    0 <= j < done && (#[trigger] all[j]).0 == i,
            forall|j: int, j2: int|
                0 <= j < j2 < done ==> (#[trigger] all[j]).0 != (#[trigger] all[j2]).0,
            forall|j: int|
                0 <= j < done ==> shape_matches(
                    api.spec_routes()[(#[trigger] all[j]).0 as int],
                    api.reg(),
                    all[j].1,
                ),
        decreases rest@.len(),
    {
        let (idx, h) = rest.remove(0);
        proof {
            assert(all[done as int] == (idx, h));
            assert(all[done as int].0 < n);
        }
        if slots[idx].is_some() {
            proof {
                assert(slots@[idx as int] is Some);
                assert(exists|j: int| 0 <= j < done && (#[trigger] all[j]).0 == idx as int);
                let j = choose|j: int| 0 <= j < done && (#[trigger] all[j]).0 == idx as int;
                assert(0 <= j < done as int && all[j].0 == all[done as int].0);
                assert(!entries_distinct(all));
            }
            return Err(ConstructionError::DuplicateBinding { route: idx });
        }
        let sh = h.shape();
        let (exp_kinds, mut labels, exp_ret) = expected_shape(&api.routes[idx], &api.registry);
        proof {
            assert(api.spec_routes()[idx as int] == api.routes@[idx as int].model());
        }
        if sh.params.len() != exp_kinds.len() {
            proof {
                assert(!shape_matches(api.spec_routes()[idx as int], api.reg(), h));
            }
            return Err(
                ConstructionError::ShapeMismatch {
                    route: idx,
                    field: crate::bytes::bytes_of([112u8, 97u8, 114u8, 97u8, 109u8, 115u8].as_slice()),
                },
            );
        }
        let mut p: usize = 0;
        while p < exp_kinds.len()
            invariant
                p <= exp_kinds@.len(),
                sh.params@.len() == exp_kinds@.len(),
                labels@.len() == exp_kinds@.len(),
                sh.params@ == h.param_kinds(),
                exp_kinds@ == route_param_kinds(api.spec_routes()[idx as int], api.reg()),
                forall|q: int| 0 <= q < p ==> sh.params@[q] == exp_kinds@[q],
            decreases exp_kinds@.len() - p,
        {
            if !exp_kinds[p].kind_eq(&sh.params[p]) {
                proof {
                    assert(h.param_kinds()[p as int] != route_param_kinds(
                        api.spec_routes()[idx as int],
                        api.reg(),
                    )[p as int]);
                    assert(!shape_matches(api.spec_routes()[idx as int], api.reg(), h));
                }
                let field = labels.remove(p);
                return Err(ConstructionError::ShapeMismatch { route: idx, field });
            }
            p = p + 1;
        }
        if !exp_ret.kind_eq(&sh.ret) {
            proof {
                assert(!shape_matches(api.spec_routes()[idx as int], api.reg(), h));
            }
            return Err(
                ConstructionError::ShapeMismatch {
                    route: idx,
                    field: crate::bytes::bytes_of([114u8, 101u8, 116u8, 117u8, 114u8, 110u8].as_slice()),
                },
            );
        }
        proof {
            assert(sh.params@ =~= exp_kinds@);
            assert(shape_matches(api.spec_routes()[idx as int], api.reg(), h));
        }
        slots[idx] = Some(h);
        done = done + 1;
    }
    proof {
        assert(all.take(done as int) =~= all);
    }
    let ghost base = slots@;
    let mut handlers: Vec<H> = Vec::new();
    let mut rest_slots = slots;
    let mut i: usize = 0;
    while rest_slots.len() > 0
        invariant
            i + rest_slots@.len() == n,
            base.len() == n,
            rest_slots@ =~= base.skip(i as int),
            handlers@.len() == i,
            forall|q: int| 0 <= q < i ==> base[q] == Some(#[trigger] handlers@[q]),
        decreases rest_slots@.len(),
    {
        proof {
            assert(base.skip(i as int)[0] == base[i as int]);
            assert(base.skip(i as int).drop_first() =~= base.skip(i as int + 1));
        }
        match rest_slots.remove(0) {
            Some(h) => {
                handlers.push(h);
            },
            None => {
                proof {
                    assert(base[i as int] is None);
                    assert(forall|j: int|
                        0 <= j < all.len() ==> (#[trigger] all[j]).0 != i as int);
                    assert(!route_covered(all, i as int));
                    assert(i < n);
                    assert(!entries_cover(all, api.spec_routes().len()));
                }
                return Err(ConstructionError::MissingHandler { route: i });
            },
        }
        i = i + 1;
    }
    let t = BindingTable { api, handlers };
    proof {
        assert(entries_distinct(all));
        assert(entries_shapes_ok(all, t.spec_api()));
        assert forall|q: int| 0 <= q < n implies base[q] is Some by {
            assert(base[q] == Some(t.spec_handlers()[q]));
        }
        assert forall|q: int| 0 <= q < n implies #[trigger] route_covered(all, q) by {
            assert(base[q] is Some);
        }
        assert(entries_cover(all, api.spec_routes().len()));
        assert forall|q: int|
            0 <= q < n implies shape_matches(
            t.spec_api().spec_routes()[q],
            t.spec_api().reg(),
            #[trigger] t.spec_handlers()[q],
        ) by {
            let j = choose|j: int| 0 <= j < all.len() && (#[trigger] all[j]).0 == q;
            assert(base[q] == Some(all[j].1));
            assert(t.spec_handlers()[q] == all[j].1);
        }
    }
    Ok(t)
}

/// How many captures stand before segment `i`.
pub open spec fn caps_before(segs: Seq<SegModel>, i: int) -> int
    decreases i,
{
    if i <= 0 {
        0
    } else {
        caps_before(segs, i - 1) + if segs[i - 1] is Cap {
            1int
        } else {
            0int
        }
    }
}

/// The capture count before `i` is the number of capture kinds so far.
pub proof fn lemma_caps_before_eq(segs: Seq<SegModel>, reg: TypeRegistry, i: int)
    requires
        0 <= i <= segs.len(),
    ensures
        caps_before(segs, i) == capture_kinds(segs.take(i), reg).len(),
    decreases i,
{
    if i > 0 {
        lemma_caps_before_eq(segs, reg, i - 1);
        assert(segs.take(i).drop_last() =~= segs.take(i - 1));
        assert(segs.take(i).last() == segs[i - 1]);
    }
}

/// The capture kinds of a path prefix are a prefix of the capture kinds.
pub proof fn lemma_capture_kinds_prefix(segs: Seq<SegModel>, reg: TypeRegistry, i: int)
    requires
        0 <= i <= segs.len(),
    ensures
        capture_kinds(segs.take(i), reg).len() <= capture_kinds(segs, reg).len(),
        capture_kinds(segs.take(i), reg) == capture_kinds(segs, reg).take(
            capture_kinds(segs.take(i), reg).len() as int,
        ),
    decreases segs.len() - i,
{
    if i == segs.len() {
        assert(segs.take(i) =~= segs);
        assert(capture_kinds(segs, reg).take(capture_kinds(segs, reg).len() as int)
            =~= capture_kinds(segs, reg));
    } else {
        lemma_capture_kinds_prefix(segs, reg, i + 1);
        assert(segs.take(i + 1).drop_last() =~= segs.take(i));
        assert(segs.take(i + 1).last() == segs[i]);
        let ck_i = capture_kinds(segs.take(i), reg);
        let ck_i1 = capture_kinds(segs.take(i + 1), reg);
        let full = capture_kinds(segs, reg);
        if segs[i] is Cap {
            assert(ck_i1 == ck_i.push(kind_of(reg, segs[i]->Cap_1)));
            assert(ck_i =~= ck_i1.take(ck_i.len() as int));
            assert(ck_i =~= full.take(ck_i.len() as int));
        } else {
            assert(ck_i1 == ck_i);
        }
    }
}

/// Position and kind facts for the capture at segment `i`.
pub proof fn lemma_cap_index(segs: Seq<SegModel>, reg: TypeRegistry, i: int)
    requires
        0 <= i < segs.len(),
        segs[i] is Cap,
    ensures
        0 <= caps_before(segs, i) < capture_kinds(segs, reg).len(),
        capture_kinds(segs, reg)[caps_before(segs, i)] == kind_of(reg, segs[i]->Cap_1),
        caps_before(segs, i + 1) == caps_before(segs, i) + 1,
{
    lemma_caps_before_eq(segs, reg, i);
    lemma_caps_before_eq(segs, reg, i + 1);
    lemma_capture_kinds_prefix(segs, reg, i);
    lemma_capture_kinds_prefix(segs, reg, i + 1);
    assert(segs.take(i + 1).drop_last() =~= segs.take(i));
    assert(segs.take(i + 1).last() == segs[i]);
    let ci = caps_before(segs, i);
    let k = kind_of(reg, segs[i]->Cap_1);
    assert(capture_kinds(segs.take(i + 1), reg) == capture_kinds(segs.take(i), reg).push(k));
    assert(capture_kinds(segs.take(i + 1), reg) == capture_kinds(segs, reg).take(ci + 1));
    assert(capture_kinds(segs, reg).take(ci + 1)[ci] == capture_kinds(segs, reg)[ci]);
}

} // verus!
