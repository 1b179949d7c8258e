//! The schema model.
//!
//! An `Api` is an ordered collection of route alternatives, each a path of
//! literal segments and capture placeholders together with a method, query
//! parameters, an optional body type and a return type.  A builder
//! accumulates routes; `finalize` validates the whole schema once and
//! produces the immutable `Api`.
//!
//! Route identity is the pair of path shape and method: literal segments
//! count by their text, capture placeholders by their position alone.

use vstd::prelude::*;

use crate::bytes::{bytes_copy, bytes_eq};
use crate::errors::ConstructionError;
use crate::registry::TypeRegistry;

verus! {

/// A request method, from a small fixed set.
#[derive(Clone, Copy, PartialEq, Eq, Structural, Debug)]
pub enum Method {
    Get,
    Post,
    Put,
    Delete,
}

/// One path segment: a literal, or a capture placeholder with its name and
/// its type name.
pub enum Seg {
    Lit(Vec<u8>),
    Capture(Vec<u8>, Vec<u8>),
}

/// Mathematical model of a path segment.
#[verifier::ext_equal]
pub ghost enum SegModel {
    Lit(Seq<u8>),
    Cap(Seq<u8>, Seq<u8>),
}

/// One declared query parameter.
pub struct QueryParam {
    pub name: Vec<u8>,
    pub ty: Vec<u8>,
    pub required: bool,
}

/// Mathematical model of a query parameter.
#[verifier::ext_equal]
pub ghost struct QpModel {
    pub name: Seq<u8>,
    pub ty: Seq<u8>,
    pub required: bool,
}

/// The declared request body: its field name and its type name.
pub struct BodyDecl {
    pub name: Vec<u8>,
    pub ty: Vec<u8>,
}

/// One route alternative.
pub struct Route {
    pub segs: Vec<Seg>,
    pub method: Method,
    pub query: Vec<QueryParam>,
    pub body: Option<BodyDecl>,
    pub ret: Vec<u8>,
}

/// Mathematical model of a route alternative.
#[verifier::ext_equal]
pub ghost struct RouteModel {
    pub segs: Seq<SegModel>,
    pub method: Method,
    pub query: Seq<QpModel>,
    pub body: Option<(Seq<u8>, Seq<u8>)>,
    pub ret: Seq<u8>,
}

impl Seg {
    /// The mathematical model of this segment.
    pub open spec fn model(&self) -> SegModel {
        match self {
            Seg::Lit(t) => SegModel::Lit(t@),
            Seg::Capture(n, t) => SegModel::Cap(n@, t@),
        }
    }
}

/// Models of a sequence of segments.
pub open spec fn segs_models(s: Seq<Seg>) -> Seq<SegModel> {
    Seq::new(s.len(), |i: int| s[i].model())
}

/// Models of a sequence of query parameters.
pub open spec fn query_models(s: Seq<QueryParam>) -> Seq<QpModel> {
    Seq::new(s.len(), |i: int| QpModel { name: s[i].name@, ty: s[i].ty@, required: s[i].required })
}

/// Model of an optional body declaration.
pub open spec fn body_model(b: Option<BodyDecl>) -> Option<(Seq<u8>, Seq<u8>)> {
    match b {
        Some(d) => Some((d.name@, d.ty@)),
        None => None,
    }
}

impl Route {
    /// The mathematical model of this route.
    pub open spec fn model(&self) -> RouteModel {
        RouteModel {
            segs: segs_models(self.segs@),
            method: self.method,
            query: query_models(self.query@),
            body: body_model(self.body),
            ret: self.ret@,
        }
    }
}

/// Models of a sequence of routes.
pub open spec fn routes_models(rs: Seq<Route>) -> Seq<RouteModel> {
    Seq::new(rs.len(), |i: int| rs[i].model())
}

/// Two paths have the same identity: equal length, captures at the same
/// positions, equal literals.  Capture names do not count.
pub open spec fn same_path(a: Seq<SegModel>, b: Seq<SegModel>) -> bool {
    &&& a.len() == b.len()
    &&& forall|i: int|
        0 <= i < a.len() ==> ((#[trigger] a[i] is Cap) <==> (#[trigger] b[i] is Cap))
    &&& forall|i: int| 0 <= i < a.len() && a[i] is Lit ==> a[i]->Lit_0 == #[trigger] b[i]->Lit_0
}

/// Two routes have the same identity: same path, same method.
pub open spec fn same_identity(a: RouteModel, b: RouteModel) -> bool {
    same_path(a.segs, b.segs) && a.method == b.method
}

/// No two capture placeholders of one path share a name.
pub open spec fn caps_unique(segs: Seq<SegModel>) -> bool {
    forall|i: int, j: int|
        0 <= i < j < segs.len() && segs[i] is Cap && segs[j] is Cap ==> (#[trigger] segs[i]->Cap_0)
            != (#[trigger] segs[j]->Cap_0)
}

/// Every type name a route mentions resolves in the registry.
pub open spec fn route_types_resolve(rm: RouteModel, reg: TypeRegistry) -> bool {
    &&& forall|i: int|
        0 <= i < rm.segs.len() && rm.segs[i] is Cap ==> reg.spec_kind(
            #[trigger] rm.segs[i]->Cap_1,
        ) is Some
    &&& forall|i: int|
        0 <= i < rm.query.len() ==> reg.spec_kind(#[trigger] rm.query[i].ty) is Some
    &&& rm.body is Some ==> reg.spec_kind(rm.body->Some_0.1) is Some
    &&& reg.spec_kind(rm.ret) is Some
}

/// A whole schema is well formed: no two routes share an identity, every
/// path has distinct capture names, every type name resolves.
pub open spec fn routes_wf(rms: Seq<RouteModel>, reg: TypeRegistry) -> bool {
    &&& forall|i: int, j: int|
        0 <= i < j < rms.len() ==> !same_identity(#[trigger] rms[i], #[trigger] rms[j])
    &&& forall|i: int| 0 <= i < rms.len() ==> caps_unique((#[trigger] rms[i]).segs)
    &&& forall|i: int| 0 <= i < rms.len() ==> route_types_resolve(#[trigger] rms[i], reg)
}

/// Builds one route alternative, starting from its first literal segment.
pub struct RouteBuilder {
    pub segs: Vec<Seg>,
    pub query: Vec<QueryParam>,
    pub body: Option<BodyDecl>,
}

/// Starts a route at a literal path segment.
pub fn path(lit: Vec<u8>) -> (r: RouteBuilder)
    ensures
        segs_models(r.segs@) =~= seq![SegModel::Lit(lit@)],
        query_models(r.query@) =~= Seq::<QpModel>::empty(),
        body_model(r.body) == None::<(Seq<u8>, Seq<u8>)>,
{
    let mut segs: Vec<Seg> = Vec::new();
    segs.push(Seg::Lit(lit));
    RouteBuilder { segs, query: Vec::new(), body: None }
}

impl RouteBuilder {
    /// Appends a literal segment.
    pub fn seg(self, lit: Vec<u8>) -> (r: RouteBuilder)
        ensures
            segs_models(r.segs@) =~= segs_models(self.segs@).push(SegModel::Lit(lit@)),
            query_models(r.query@) == query_models(self.query@),
            body_model(r.body) == body_model(self.body),
    {
        let mut s = self;
        s.segs.push(Seg::Lit(lit));
        s
    }

    /// Appends a capture placeholder with its name and its type name.
    pub fn capture(self, name: Vec<u8>, ty: Vec<u8>) -> (r: RouteBuilder)
        ensures
            segs_models(r.segs@) =~= segs_models(self.segs@).push(SegModel::Cap(name@, ty@)),
            query_models(r.query@) == query_models(self.query@),
            body_model(r.body) == body_model(self.body),
    {
        let mut s = self;
        s.segs.push(Seg::Capture(name, ty));
        s
    }

    /// Declares a required query parameter.
    pub fn query(self, name: Vec<u8>, ty: Vec<u8>) -> (r: RouteBuilder)
        ensures
            segs_models(r.segs@) == segs_models(self.segs@),
            query_models(r.query@) =~= query_models(self.query@).push(
                QpModel { name: name@, ty: ty@, required: true },
            ),
            body_model(r.body) == body_model(self.body),
    {
        let mut s = self;
        s.query.push(QueryParam { name, ty, required: true });
        s
    }

    /// Declares an optional query parameter; when absent it decodes to its
    /// kind's default value.
    pub fn query_opt(self, name: Vec<u8>, ty: Vec<u8>) -> (r: RouteBuilder)
        ensures
            segs_models(r.segs@) == segs_models(self.segs@),
            query_models(r.query@) =~= query_models(self.query@).push(
                QpModel { name: name@, ty: ty@, required: false },
            ),
            body_model(r.body) == body_model(self.body),
    {
        let mut s = self;
        s.query.push(QueryParam { name, ty, required: false });
        s
    }

    /// Declares the request body: its field name and its type name.
    pub fn body(self, name: Vec<u8>, ty: Vec<u8>) -> (r: RouteBuilder)
        ensures
            segs_models(r.segs@) == segs_models(self.segs@),
            query_models(r.query@) == query_models(self.query@),
            body_model(r.body) == Some((name@, ty@)),
    {
        let mut s = self;
        s.body = Some(BodyDecl { name, ty });
        s
    }

    /// Finishes the route with its method and its return type name.
    pub fn ret(self, method: Method, ty: Vec<u8>) -> (r: Route)
        ensures
            r.model() =~~= (RouteModel {
                segs: segs_models(self.segs@),
                method,
                query: query_models(self.query@),
                body: body_model(self.body),
                ret: ty@,
            }),
    {
        Route { segs: self.segs, method, query: self.query, body: self.body, ret: ty }
    }
}

/// A route model with a path prefix put in front of its segments.
pub open spec fn prefixed(p: Seq<SegModel>, rm: RouteModel) -> RouteModel {
    RouteModel { segs: p + rm.segs, ..rm }
}

/// Copies one segment.
fn seg_copy(s: &Seg) -> (r: Seg)
    ensures
        r.model() == s.model(),
{
    match s {
        Seg::Lit(t) => Seg::Lit(bytes_copy(t)),
        Seg::Capture(n, t) => Seg::Capture(bytes_copy(n), bytes_copy(t)),
    }
}

/// The immutable schema: the registry and the routes, validated once.
pub struct Api {
    pub(crate) registry: TypeRegistry,
    pub(crate) routes: Vec<Route>,
}

impl Api {
    /// The route models, in declaration order.
    pub closed spec fn spec_routes(self) -> Seq<RouteModel> {
        routes_models(self.routes@)
    }

    /// The registry the schema was validated against.
    pub closed spec fn reg(self) -> TypeRegistry {
        self.registry
    }

    /// The schema is well formed.
    pub open spec fn wf(self) -> bool {
        self.reg().wf() && routes_wf(self.spec_routes(), self.reg())
    }

    /// How many route alternatives the schema holds.
    pub fn route_count(&self) -> (n: usize)
        ensures
            n == self.spec_routes().len(),
    {
        self.routes.len()
    }

    /// Starts building a schema.
    pub fn new() -> (r: ApiBuilder)
        ensures
            segs_models(r.prefix@) =~= Seq::<SegModel>::empty(),
            routes_models(r.routes@) =~= Seq::<RouteModel>::empty(),
    {
        ApiBuilder { prefix: Vec::new(), routes: Vec::new() }
    }
}

/// Within the crate, the schema's spec accessors are its fields.
pub(crate) proof fn lemma_api_fields(api: Api)
    ensures
        api.spec_routes() == routes_models(api.routes@),
        api.reg() == api.registry,
{
}

/// Accumulates a path prefix and route alternatives.
pub struct ApiBuilder {
    pub prefix: Vec<Seg>,
    pub routes: Vec<Route>,
}

impl ApiBuilder {
    /// Appends a literal segment to the path prefix of later alternatives.
    pub fn path(self, lit: Vec<u8>) -> (r: ApiBuilder)
        ensures
            segs_models(r.prefix@) =~= segs_models(self.prefix@).push(SegModel::Lit(lit@)),
            routes_models(r.routes@) == routes_models(self.routes@),
    {
        let mut s = self;
        s.prefix.push(Seg::Lit(lit));
        s
    }

    /// Adds route alternatives, each under the accumulated path prefix.
    #[verifier::loop_isolation(false)]
    pub fn alt(self, alts: Vec<Route>) -> (r: ApiBuilder)
        ensures
            segs_models(r.prefix@) == segs_models(self.prefix@),
            routes_models(r.routes@) =~~= routes_models(self.routes@) + Seq::new(
                alts@.len(),
                |j: int| prefixed(segs_models(self.prefix@), alts@[j].model()),
            ),
    {
        let mut s = self;
        let mut rest = alts;
        let ghost all = rest@;
        let ghost pm = segs_models(s.prefix@);
        let ghost base = routes_models(s.routes@);
        let mut done: usize = 0;
        proof {
            assert(rest.len() == all.len());
        }
        while rest.len() > 0
            invariant
                done + rest@.len() == all.len(),
                all.len() <= usize::MAX,
                segs_models(s.prefix@) == pm,
                all =~= all.take(done as int) + rest@,
                routes_models(s.routes@) =~~= base + Seq::new(
                    done as nat,
                    |j: int| prefixed(pm, all[j].model()),
                ),
            decreases rest@.len(),
        {
            let rt = rest.remove(0);
            let ghost rtm = rt.model();
            proof {
                assert(all[done as int] == rt);
            }
            let mut segs2: Vec<Seg> = Vec::new();
            let mut i: usize = 0;
            while i < s.prefix.len()
                invariant
                    i <= s.prefix@.len(),
                    segs_models(segs2@) =~= segs_models(s.prefix@).take(i as int),
                    segs_models(s.prefix@) == pm,
                decreases s.prefix@.len() - i,
            {
                segs2.push(seg_copy(&s.prefix[i]));
                proof {
                    assert(segs_models(segs2@) =~= segs_models(s.prefix@).take(i as int + 1));
                }
                i = i + 1;
            }
            proof {
                assert(segs_models(segs2@) =~= pm);
            }
            let mut rt = rt;
            let mut tail = Vec::new();
            core::mem::swap(&mut tail, &mut rt.segs);
            let ghost tailm = segs_models(tail@);
            segs2.append(&mut tail);
            proof {
                assert(segs_models(segs2@) =~= pm + tailm);
            }
            let combined = Route {
                segs: segs2,
                method: rt.method,
                query: rt.query,
                body: rt.body,
                ret: rt.ret,
            };
            proof {
                assert(combined.model().segs =~= pm + rtm.segs);
                assert(combined.model() =~~= prefixed(pm, rtm));
            }
            let ghost old_routes = s.routes@;
            s.routes.push(combined);
            done = done + 1;
            proof {
                assert(routes_models(s.routes@) =~= routes_models(old_routes).push(
                    combined.model(),
                ));
                assert(combined.model() == prefixed(pm, all[done - 1].model()));
                assert(routes_models(old_routes) == base + Seq::new(
                    (done - 1) as nat,
                    |j: int| prefixed(pm, all[j].model()),
                ));
                assert(Seq::new((done - 1) as nat, |j: int| prefixed(pm, all[j].model())).push(
                    prefixed(pm, all[done - 1].model()),
                ) =~= Seq::new(done as nat, |j: int| prefixed(pm, all[j].model())));
                assert((base + Seq::new((done - 1) as nat, |j: int| prefixed(pm, all[j].model())))
                    .push(prefixed(pm, all[done - 1].model())) =~= base + Seq::new(
                    done as nat,
                    |j: int| prefixed(pm, all[j].model()),
                ));
                assert(routes_models(s.routes@) =~~= base + Seq::new(
                    done as nat,
                    |j: int| prefixed(pm, all[j].model()),
                ));
            }
        }
        proof {
            assert(all.take(done as int) =~= all);
        }
        s
    }
}

/// Whether two routes share their identity.
fn route_same_identity(a: &Route, b: &Route) -> (r: bool)
    ensures
        r == same_identity(a.model(), b.model()),
{
    if !matches!((a.method, b.method), (Method::Get, Method::Get) | (Method::Post, Method::Post)
        | (Method::Put, Method::Put) | (Method::Delete, Method::Delete)) {
        return false;
    }
    segs_same_path(&a.segs, &b.segs)
}

/// Whether two paths have the same identity.
fn segs_same_path(a: &Vec<Seg>, b: &Vec<Seg>) -> (r: bool)
    ensures
        r == same_path(segs_models(a@), segs_models(b@)),
{
    if a.len() != b.len() {
        return false;
    }
    let ghost am = segs_models(a@);
    let ghost bm = segs_models(b@);
    let mut i: usize = 0;
    while i < a.len()
        invariant
            i <= a@.len(),
            a@.len() == b@.len(),
            am == segs_models(a@),
            bm == segs_models(b@),
            forall|j: int| 0 <= j < i ==> ((#[trigger] am[j] is Cap) <==> (#[trigger] bm[j] is Cap)),
            forall|j: int| 0 <= j < i && am[j] is Lit ==> am[j]->Lit_0 == #[trigger] bm[j]->Lit_0,
        decreases a@.len() - i,
    {
        match (&a[i], &b[i]) {
            (Seg::Lit(x), Seg::Lit(y)) => {
                if !bytes_eq(x, y) {
                    proof {
                        assert(am[i as int] is Lit && am[i as int]->Lit_0 != bm[i as int]->Lit_0);
                    }
                    return false;
                }
            },
            (Seg::Capture(n1, t1), Seg::Capture(n2, t2)) => {
            },
            (Seg::Lit(x), Seg::Capture(n2, t2)) => {
                proof {
                    assert(am[i as int] is Lit && bm[i as int] is Cap);
                }
                return false;
            },
            (Seg::Capture(n1, t1), Seg::Lit(y)) => {
                proof {
                    assert(am[i as int] is Cap && bm[i as int] is Lit);
                }
                return false;
            },
        }
        i = i + 1;
    }
    true
}

/// Finds a capture name that one path declares twice.
fn find_dup_capture(segs: &Vec<Seg>) -> (r: Option<Vec<u8>>)
    ensures
        r is None <==> caps_unique(segs_models(segs@)),
        r matches Some(n) ==> exists|i: int, j: int|
            0 <= i < j < segs_models(segs@).len() && segs_models(segs@)[i] is Cap && segs_models(
                segs@,
            )[j] is Cap && segs_models(segs@)[i]->Cap_0 == segs_models(segs@)[j]->Cap_0
                && segs_models(segs@)[i]->Cap_0 == n@,
{
    let ghost sm = segs_models(segs@);
    let mut i: usize = 0;
    while i < segs.len()
        invariant
            i <= segs@.len(),
            sm == segs_models(segs@),
            forall|p: int, q: int|
                0 <= p < q < sm.len() && p < i && sm[p] is Cap && sm[q] is Cap ==> (
                #[trigger] sm[p]->Cap_0) != (#[trigger] sm[q]->Cap_0),
        decreases segs@.len() - i,
    {
        match &segs[i] {
            Seg::Capture(ni, ti) => {
                let mut j: usize = i + 1;
                while j < segs.len()
                    invariant
                        i < j <= segs@.len(),
                        sm == segs_models(segs@),
                        segs@[i as int] is Capture,
                        ni@ == sm[i as int]->Cap_0,
                        forall|q: int|
                            i < q < j && sm[q] is Cap ==> sm[i as int]->Cap_0 != (
                            #[trigger] sm[q]->Cap_0),
                    decreases segs@.len() - j,
                {
                    match &segs[j] {
                        Seg::Capture(nj, tj) => {
                            if bytes_eq(ni, nj) {
                                proof {
                                    assert(sm[i as int] is Cap && sm[j as int] is Cap
                                        && sm[i as int]->Cap_0 == sm[j as int]->Cap_0);
                                }
                                return Some(bytes_copy(ni));
                            }
                        },
                        Seg::Lit(x) => {
                        },
                    }
                    j = j + 1;
                }
            },
            Seg::Lit(x) => {
            },
        }
        i = i + 1;
    }
    None
}

/// Finds a type name the route mentions that the registry does not hold.
fn find_unresolved(route: &Route, reg: &TypeRegistry) -> (r: Option<Vec<u8>>)
    ensures
        r is None <==> route_types_resolve(route.model(), *reg),
        r matches Some(n) ==> reg.spec_kind(n@) is None,
{
    let ghost rm = route.model();
    let mut i: usize = 0;
    while i < route.segs.len()
        invariant
            i <= route.segs@.len(),
            rm == route.model(),
            forall|q: int|
                0 <= q < i && rm.segs[q] is Cap ==> reg.spec_kind(
                    #[trigger] rm.segs[q]->Cap_1,
                ) is Some,
        decreases route.segs@.len() - i,
    {
        match &route.segs[i] {
            Seg::Capture(n, t) => {
                if reg.resolve(t).is_none() {
                    proof {
                        assert(rm.segs[i as int] is Cap && reg.spec_kind(
                            rm.segs[i as int]->Cap_1,
                        ) is None);
                        assert(!route_types_resolve(rm, *reg));
                    }
                    return Some(bytes_copy(t));
                }
            },
            Seg::Lit(x) => {
            },
        }
        i = i + 1;
    }
    let mut i: usize = 0;
    while i < route.query.len()
        invariant
            i <= route.query@.len(),
            rm == route.model(),
            forall|q: int| 0 <= q < i ==> reg.spec_kind(#[trigger] rm.query[q].ty) is Some,
        decreases route.query@.len() - i,
    {
        if reg.resolve(&route.query[i].ty).is_none() {
            proof {
                assert(reg.spec_kind(rm.query[i as int].ty) is None);
                assert(!route_types_resolve(rm, *reg));
            }
            return Some(bytes_copy(&route.query[i].ty));
        }
        i = i + 1;
    }
    match &route.body {
        Some(d) => {
            if reg.resolve(&d.ty).is_none() {
                return Some(bytes_copy(&d.ty));
            }
        },
        None => {
        },
    }
    if reg.resolve(&route.ret).is_none() {
        return Some(bytes_copy(&route.ret));
    }
    None
}

impl ApiBuilder {
    /// Validates the accumulated routes against the registry and produces
    /// the immutable schema.  Succeeds exactly when no two routes share an
    /// identity, no path repeats a capture name, and every type name
    /// resolves.
    pub fn finalize(self, registry: TypeRegistry) -> (r: Result<Api, ConstructionError>)
        requires
            registry.wf(),
        ensures
            r is Ok <==> routes_wf(routes_models(self.routes@), registry),
            r matches Ok(api) ==> api.spec_routes() == routes_models(self.routes@) && api.reg()
                == registry && api.wf(),
            r matches Err(e) ==> match e {
                ConstructionError::AmbiguousRoute { route } => route
                    < routes_models(self.routes@).len() && exists|i: int|
                    0 <= i < route && same_identity(
                        #[trigger] routes_models(self.routes@)[i],
                        routes_models(self.routes@)[route as int],
                    ),
                ConstructionError::DuplicateCapture { name } => exists|ri: int|
                    0 <= ri < routes_models(self.routes@).len() && !caps_unique(
                        (#[trigger] routes_models(self.routes@)[ri]).segs,
                    ),
                ConstructionError::UnknownType { name } => registry.spec_kind(name@) is None
                    && exists|ri: int|
                    0 <= ri < routes_models(self.routes@).len() && !route_types_resolve(
                        #[trigger] routes_models(self.routes@)[ri],
                        registry,
                    ),
                _ => false,
            },
    {
        let ghost rms = routes_models(self.routes@);
        let mut j: usize = 0;
        while j < self.routes.len()
            invariant
                j <= self.routes@.len(),
                rms == routes_models(self.routes@),
                registry.wf(),
                forall|p: int, q: int|
                    0 <= p < q < j ==> !same_identity(#[trigger] rms[p], #[trigger] rms[q]),
                forall|p: int| 0 <= p < j ==> caps_unique((#[trigger] rms[p]).segs),
                forall|p: int| 0 <= p < j ==> route_types_resolve(#[trigger] rms[p], registry),
            decreases self.routes@.len() - j,
        {
            let mut i: usize = 0;
            while i < j
                invariant
                    i <= j < self.routes@.len(),
                    rms == routes_models(self.routes@),
                    forall|p: int| 0 <= p < i ==> !same_identity(#[trigger] rms[p], rms[j as int]),
                decreases j - i,
            {
                if route_same_identity(&self.routes[i], &self.routes[j]) {
                    proof {
                        assert(same_identity(rms[i as int], rms[j as int]));
                        assert(!routes_wf(rms, registry));
                    }
                    return Err(ConstructionError::AmbiguousRoute { route: j });
                }
                i = i + 1;
            }
            match find_dup_capture(&self.routes[j].segs) {
                Some(n) => {
                    proof {
                        assert(!caps_unique(rms[j as int].segs));
                        assert(!routes_wf(rms, registry));
                    }
                    return Err(ConstructionError::DuplicateCapture { name: n });
                },
                None => {
                },
            }
            match find_unresolved(&self.routes[j], &registry) {
                Some(n) => {
                    proof {
                        assert(!route_types_resolve(rms[j as int], registry));
                        assert(!routes_wf(rms, registry));
                    }
                    return Err(ConstructionError::UnknownType { name: n });
                },
                None => {
                },
            }
            j = j + 1;
        }
        Ok(Api { registry, routes: self.routes })
    }
}

} // verus!
