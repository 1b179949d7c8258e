//! The client generator.
//!
//! One callable per route alternative: it encodes the arguments into the
//! path, the query string and the body, sends the request descriptor
//! through an injected transport, and decodes the response with the
//! route's return type.  A response that is not a success is surfaced as
//! a typed error carrying the server's answer, never as a silently wrong
//! value.

use vstd::prelude::*;

use crate::binding::{caps_before, capture_kinds, kind_of, lemma_cap_index, lemma_caps_before_eq,
    lemma_capture_kinds_prefix, query_kinds, route_param_kinds};
use crate::codec::{decode_full, encode_full, spec_decode_full, spec_encode};
use crate::dispatch::{RequestDescriptor, ResponseDescriptor, Status};
use crate::kinds::{wf_value, ValModel, Value};
use crate::registry::TypeRegistry;
use crate::scalar::{spec_write_scalar, write_scalar};
use crate::schema::{Api, QpModel, RouteModel, Seg, SegModel};

verus! {

/// What a client call can fail with: the transport failed, the server
/// answered something other than success, or the success body did not
/// decode as the declared return type.
#[derive(Debug, PartialEq, Eq)]
pub enum ClientError {
    Transport(Vec<u8>),
    ErrorResponse(Status, Vec<u8>),
    Decode,
}

/// The injected transport: sends one request, yields one response or a
/// transport failure.  Nothing is assumed of what comes back.
pub trait ClientTransport {
    /// Sends one request descriptor.
    fn send(&mut self, req: RequestDescriptor) -> (r: Result<ResponseDescriptor, Vec<u8>>);
}

/// The request path a route and its capture arguments encode to.
pub open spec fn client_path(
    segs: Seq<SegModel>,
    reg: TypeRegistry,
    args: Seq<ValModel>,
    i: int,
) -> Seq<u8>
    decreases segs.len() - i,
{
    if i < 0 || i >= segs.len() {
        Seq::empty()
    } else {
        (match segs[i] {
            SegModel::Lit(l) => seq![47u8] + l,
            SegModel::Cap(n, t) => seq![47u8] + spec_write_scalar(
                kind_of(reg, t),
                args[caps_before(segs, i)],
            )->Some_0,
        }) + client_path(segs, reg, args, i + 1)
    }
}

/// The query string a route and its query arguments encode to; the query
/// arguments stand after the capture arguments.
pub open spec fn client_query(
    q: Seq<QpModel>,
    reg: TypeRegistry,
    args: Seq<ValModel>,
    ncaps: int,
    i: int,
) -> Seq<u8>
    decreases q.len() - i,
{
    if i < 0 || i >= q.len() {
        Seq::empty()
    } else {
        (if i > 0 {
            seq![38u8]
        } else {
            Seq::<u8>::empty()
        }) + q[i].name + seq![61u8] + spec_write_scalar(kind_of(reg, q[i].ty), args[ncaps + i])->Some_0
            + client_query(q, reg, args, ncaps, i + 1)
    }
}

/// Every capture and query argument of the route has a text form.
pub open spec fn args_writable(rm: RouteModel, reg: TypeRegistry, args: Seq<ValModel>) -> bool {
    &&& forall|i: int|
        0 <= i < rm.segs.len() && rm.segs[i] is Cap ==> spec_write_scalar(
            kind_of(reg, (#[trigger] rm.segs[i])->Cap_1),
            args[caps_before(rm.segs, i)],
        ) is Some
    &&& forall|i: int|
        0 <= i < rm.query.len() ==> spec_write_scalar(
            kind_of(reg, (#[trigger] rm.query[i]).ty),
            args[caps_before(rm.segs, rm.segs.len() as int) + i],
        ) is Some
}

/// The body bytes of a client request: the encoded last argument when the
/// route declares a body, nothing otherwise.
pub open spec fn client_body(rm: RouteModel, reg: TypeRegistry, args: Seq<ValModel>) -> Seq<u8> {
    match rm.body {
        None => Seq::empty(),
        Some(b) => spec_encode(kind_of(reg, b.1), args[args.len() - 1]),
    }
}

/// Encodes the arguments of one route into a request descriptor: the
/// captures into the path, the query arguments into the query string,
/// the body argument into the body bytes.
/// The path of a client request.
#[verifier::loop_isolation(false)]
#[verifier::rlimit(100)]
fn build_path(api: &Api, idx: usize, args: &Vec<Value>) -> (r: Vec<u8>)
    requires
        api.wf(),
        idx < api.spec_routes().len(),
        crate::codec::seq_models(args@).len() == route_param_kinds(
            api.spec_routes()[idx as int],
            api.reg(),
        ).len(),
        forall|p: int|
            0 <= p < args@.len() ==> wf_value(
                (#[trigger] args@[p]).model(),
                route_param_kinds(api.spec_routes()[idx as int], api.reg())[p],
            ),
        args_writable(
            api.spec_routes()[idx as int],
            api.reg(),
            crate::codec::seq_models(args@),
        ),
    ensures
        r@ == client_path(
            api.spec_routes()[idx as int].segs,
            api.reg(),
            crate::codec::seq_models(args@),
            0,
        ),
{
    proof {
        crate::schema::lemma_api_fields(*api);
    }
    let ghost rm = api.spec_routes()[idx as int];
    let ghost reg = api.reg();
    let ghost am = crate::codec::seq_models(args@);
    let ghost rpk = route_param_kinds(rm, reg);
    let route = &api.routes[idx];
    proof {
        assert(route.model() == rm);
        assert(crate::schema::route_types_resolve(rm, reg));
    }
    let mut pathbuf: Vec<u8> = Vec::new();
    let mut ci: usize = 0;
    let mut i: usize = 0;
    proof {
        assert(rm.segs.take(0) =~= Seq::<SegModel>::empty());
        lemma_caps_before_eq(rm.segs, reg, 0);
    }
    while i < route.segs.len()
        invariant
            i <= route.segs@.len(),
            ci == caps_before(rm.segs, i as int),
            ci <= args@.len(),
            client_path(rm.segs, reg, am, 0) == pathbuf@ + client_path(rm.segs, reg, am, i as int),
        decreases route.segs@.len() - i,
    {
        proof {
            if rm.segs[i as int] is Cap {
                lemma_cap_index(rm.segs, reg, i as int);
            } else {
                lemma_caps_before_eq(rm.segs, reg, i as int);
                lemma_caps_before_eq(rm.segs, reg, i as int + 1);
                assert(rm.segs.take(i as int + 1).drop_last() =~= rm.segs.take(i as int));
                assert(rm.segs.take(i as int + 1).last() == rm.segs[i as int]);
            }
        }
        let ghost before = pathbuf@;
        pathbuf.push(47);
        match &route.segs[i] {
            Seg::Lit(l) => {
                let mut piece = crate::bytes::bytes_copy(l);
                pathbuf.append(&mut piece);
                proof {
                    assert(pathbuf@ =~= before + (seq![47u8] + rm.segs[i as int]->Lit_0));
                }
            },
            Seg::Capture(n, t) => {
                let kind = match api.registry.resolve(t) {
                    Some(e) => &e.kind,
                    None => {
                        proof {
                            assert(rm.segs[i as int] is Cap);
                            assert(false);
                        }
                        return Vec::new();
                    },
                };
                proof {
                    assert(*kind == kind_of(reg, rm.segs[i as int]->Cap_1));
                    assert(rpk[ci as int] == *kind);
                    assert(ci < args.len());
                    assert(wf_value(args@[ci as int].model(), *kind));
                    assert(am[ci as int] == args@[ci as int].model());
                }
                match write_scalar(kind, &args[ci]) {
                    Some(mut piece) => {
                        pathbuf.append(&mut piece);
                        proof {
                            assert(pathbuf@ =~= before + (seq![47u8] + spec_write_scalar(
                                kind_of(reg, rm.segs[i as int]->Cap_1),
                                am[caps_before(rm.segs, i as int)],
                            )->Some_0));
                        }
                    },
                    None => {
                        proof {
                            assert(false);
                        }
                        return Vec::new();
                    },
                }
                ci = ci + 1;
            },
        }
        i = i + 1;
        proof {
            assert(client_path(rm.segs, reg, am, 0) =~= pathbuf@ + client_path(
                rm.segs,
                reg,
                am,
                i as int,
            ));
        }
    }
    proof {
        assert(client_path(rm.segs, reg, am, rm.segs.len() as int) =~= Seq::<u8>::empty());
        assert(pathbuf@ + Seq::<u8>::empty() =~= pathbuf@);
        lemma_caps_before_eq(rm.segs, reg, rm.segs.len() as int);
        lemma_capture_kinds_prefix(rm.segs, reg, rm.segs.len() as int);
        assert(rm.segs.take(rm.segs.len() as int) =~= rm.segs);
    }
    proof {
        assert(client_path(rm.segs, reg, am, rm.segs.len() as int) =~= Seq::<u8>::empty());
        assert(pathbuf@ + Seq::<u8>::empty() =~= pathbuf@);
    }
    pathbuf
}

/// The query string of a client request.
#[verifier::loop_isolation(false)]
#[verifier::rlimit(100)]
fn build_query(api: &Api, idx: usize, args: &Vec<Value>) -> (r: Vec<u8>)
    requires
        api.wf(),
        idx < api.spec_routes().len(),
        crate::codec::seq_models(args@).len() == route_param_kinds(
            api.spec_routes()[idx as int],
            api.reg(),
        ).len(),
        forall|p: int|
            0 <= p < args@.len() ==> wf_value(
                (#[trigger] args@[p]).model(),
                route_param_kinds(api.spec_routes()[idx as int], api.reg())[p],
            ),
        args_writable(
            api.spec_routes()[idx as int],
            api.reg(),
            crate::codec::seq_models(args@),
        ),
    ensures
        r@ == client_query(
            api.spec_routes()[idx as int].query,
            api.reg(),
            crate::codec::seq_models(args@),
            caps_before(
                api.spec_routes()[idx as int].segs,
                api.spec_routes()[idx as int].segs.len() as int,
            ),
            0,
        ),
{
    proof {
        crate::schema::lemma_api_fields(*api);
    }
    let ghost rm = api.spec_routes()[idx as int];
    let ghost reg = api.reg();
    let ghost am = crate::codec::seq_models(args@);
    let ghost rpk = route_param_kinds(rm, reg);
    let route = &api.routes[idx];
    proof {
        assert(route.model() == rm);
        assert(crate::schema::route_types_resolve(rm, reg));
    }
    let mut ci: usize = 0;
    let mut i: usize = 0;
    proof {
        lemma_caps_before_eq(rm.segs, reg, 0);
        assert(rm.segs.take(0) =~= Seq::<SegModel>::empty());
    }
    while i < route.segs.len()
        invariant
            i <= route.segs@.len(),
            ci == caps_before(rm.segs, i as int),
            ci <= capture_kinds(rm.segs, reg).len(),
        decreases route.segs@.len() - i,
    {
        proof {
            lemma_caps_before_eq(rm.segs, reg, i as int);
            lemma_caps_before_eq(rm.segs, reg, i as int + 1);
            lemma_capture_kinds_prefix(rm.segs, reg, i as int + 1);
        }
        let is_cap = matches!(&route.segs[i], Seg::Capture(n, t));
        if is_cap {
            proof {
                assert(ci < capture_kinds(rm.segs, reg).len());
                assert(capture_kinds(rm.segs, reg).len() <= args.len());
            }
            ci = ci + 1;
        }
        i = i + 1;
    }
    proof {
        lemma_caps_before_eq(rm.segs, reg, rm.segs.len() as int);
        lemma_capture_kinds_prefix(rm.segs, reg, rm.segs.len() as int);
        assert(rm.segs.take(rm.segs.len() as int) =~= rm.segs);
    }
    let ghost ncaps = caps_before(rm.segs, rm.segs.len() as int);
    let mut querybuf: Vec<u8> = Vec::new();
    let mut q: usize = 0;
    while q < route.query.len()
        invariant
            q <= route.query@.len(),
            ci == ncaps,
            ncaps + route.query@.len() <= args@.len(),
            client_query(rm.query, reg, am, ncaps, 0) == querybuf@ + client_query(
                rm.query,
                reg,
                am,
                ncaps,
                q as int,
            ),
        decreases route.query@.len() - q,
    {
        let ghost before = querybuf@;
        if q > 0 {
            querybuf.push(38);
        }
        let mut nm = crate::bytes::bytes_copy(&route.query[q].name);
        querybuf.append(&mut nm);
        querybuf.push(61);
        let kind = match api.registry.resolve(&route.query[q].ty) {
            Some(e) => &e.kind,
            None => {
                proof {
                    assert(false);
                }
                return Vec::new();
            },
        };
        proof {
            assert(*kind == kind_of(reg, rm.query[q as int].ty));
            assert(rpk[ncaps + q] == *kind) by {
                assert(query_kinds(rm.query, reg)[q as int] == *kind);
            }
            assert(wf_value(args@[ncaps + q].model(), *kind));
        }
        proof {
            assert(ci + q < args.len());
        }
        match write_scalar(kind, &args[ci + q]) {
            Some(mut piece) => {
                querybuf.append(&mut piece);
            },
            None => {
                proof {
                    assert(false);
                }
                return Vec::new();
            },
        }
        q = q + 1;
        proof {
            assert(client_query(rm.query, reg, am, ncaps, 0) =~= querybuf@ + client_query(
                rm.query,
                reg,
                am,
                ncaps,
                q as int,
            ));
        }
    }
    proof {
        assert(client_query(rm.query, reg, am, ncaps, rm.query.len() as int) =~= Seq::<
            u8,
        >::empty());
        assert(querybuf@ + Seq::<u8>::empty() =~= querybuf@);
    }
    proof {
        assert(client_query(rm.query, reg, am, ncaps, rm.query.len() as int) =~= Seq::<
            u8,
        >::empty());
        assert(querybuf@ + Seq::<u8>::empty() =~= querybuf@);
    }
    querybuf
}

/// Encodes the arguments of one route into a request descriptor: the
/// captures into the path, the query arguments into the query string,
/// the body argument into the body bytes.
#[verifier::rlimit(50)]
pub fn encode_request(api: &Api, idx: usize, args: &Vec<Value>) -> (r: RequestDescriptor)
    requires
        api.wf(),
        idx < api.spec_routes().len(),
        crate::codec::seq_models(args@).len() == route_param_kinds(
            api.spec_routes()[idx as int],
            api.reg(),
        ).len(),
        forall|p: int|
            0 <= p < args@.len() ==> wf_value(
                (#[trigger] args@[p]).model(),
                route_param_kinds(api.spec_routes()[idx as int], api.reg())[p],
            ),
        args_writable(
            api.spec_routes()[idx as int],
            api.reg(),
            crate::codec::seq_models(args@),
        ),
    ensures
        r.method == api.spec_routes()[idx as int].method,
        r.path@ == client_path(
            api.spec_routes()[idx as int].segs,
            api.reg(),
            crate::codec::seq_models(args@),
            0,
        ),
        r.query@ == client_query(
            api.spec_routes()[idx as int].query,
            api.reg(),
            crate::codec::seq_models(args@),
            caps_before(
                api.spec_routes()[idx as int].segs,
                api.spec_routes()[idx as int].segs.len() as int,
            ),
            0,
        ),
        r.body@ == client_body(
            api.spec_routes()[idx as int],
            api.reg(),
            crate::codec::seq_models(args@),
        ),
{
    proof {
        crate::schema::lemma_api_fields(*api);
    }
    let ghost rm = api.spec_routes()[idx as int];
    let ghost reg = api.reg();
    let ghost am = crate::codec::seq_models(args@);
    let ghost rpk = route_param_kinds(rm, reg);
    let route = &api.routes[idx];
    proof {
        assert(route.model() == rm);
        assert(crate::schema::route_types_resolve(rm, reg));
    }
    let pathbuf = build_path(api, idx, args);
    let querybuf = build_query(api, idx, args);
    let bodybuf: Vec<u8> = match &route.body {
        None => Vec::new(),
        Some(d) => {
            let kind = match api.registry.resolve(&d.ty) {
                Some(e) => &e.kind,
                None => {
                    proof {
                        assert(false);
                    }
                    return RequestDescriptor {
                        method: route.method,
                        path: Vec::new(),
                        query: Vec::new(),
                        body: Vec::new(),
                    };
                },
            };
            proof {
                assert(*kind == kind_of(reg, rm.body->Some_0.1));
                assert(rpk[rpk.len() - 1] == *kind);
                assert(args@.len() == rpk.len());
                assert(wf_value(args@[args@.len() - 1].model(), *kind));
            }
            encode_full(kind, &args[args.len() - 1])
        },
    };
    proof {
        assert(match rm.body {
            None => bodybuf@ == Seq::<u8>::empty(),
            Some(b) => bodybuf@ == spec_encode(kind_of(reg, b.1), am[am.len() - 1]),
        });
    }
    RequestDescriptor { method: route.method, path: pathbuf, query: querybuf, body: bodybuf }
}

/// Reads a server response with the route's return type: a success body
/// decodes with the return kind, anything else is a typed error.
pub fn interpret_response(api: &Api, idx: usize, resp: ResponseDescriptor) -> (r: Result<
    Value,
    ClientError,
>)
    requires
        api.wf(),
        idx < api.spec_routes().len(),
    ensures
        resp.status == Status::Success ==> (match spec_decode_full(
            kind_of(api.reg(), api.spec_routes()[idx as int].ret),
            resp.body@,
        ) {
            Some(m) => r matches Ok(v) && v.model() == m && wf_value(
                m,
                kind_of(api.reg(), api.spec_routes()[idx as int].ret),
            ),
            None => r == Err::<Value, ClientError>(ClientError::Decode),
        }),
        resp.status != Status::Success ==> (r matches Err(e) && (e matches ClientError::ErrorResponse(st, b)
            && st == resp.status && b@ == resp.body@)),
{
    proof {
        crate::schema::lemma_api_fields(*api);
        assert(crate::schema::route_types_resolve(api.spec_routes()[idx as int], api.reg()));
    }
    match resp.status {
        Status::Success => {
            let kind = match api.registry.resolve(&api.routes[idx].ret) {
                Some(e) => &e.kind,
                None => {
                    proof {
                        assert(false);
                    }
                    return Err(ClientError::Decode);
                },
            };
            match decode_full(kind, &resp.body) {
                Some(v) => Ok(v),
                None => Err(ClientError::Decode),
            }
        },
        _ => {
            let st = resp.status;
            Err(ClientError::ErrorResponse(st, resp.body))
        },
    }
}

/// One client call: encodes the arguments, sends the request through the
/// injected transport, reads the response.  Whatever the transport did,
/// a returned value is well formed at the route's return kind.
pub fn call_route<T: ClientTransport>(
    api: &Api,
    idx: usize,
    args: &Vec<Value>,
    transport: &mut T,
) -> (r: Result<Value, ClientError>)
    requires
        api.wf(),
        idx < api.spec_routes().len(),
        crate::codec::seq_models(args@).len() == route_param_kinds(
            api.spec_routes()[idx as int],
            api.reg(),
        ).len(),
        forall|p: int|
            0 <= p < args@.len() ==> wf_value(
                (#[trigger] args@[p]).model(),
                route_param_kinds(api.spec_routes()[idx as int], api.reg())[p],
            ),
        args_writable(
            api.spec_routes()[idx as int],
            api.reg(),
            crate::codec::seq_models(args@),
        ),
    ensures
        r matches Ok(v) ==> wf_value(
            v.model(),
            kind_of(api.reg(), api.spec_routes()[idx as int].ret),
        ),
{
    let req = encode_request(api, idx, args);
    match transport.send(req) {
        Ok(resp) => interpret_response(api, idx, resp),
        Err(e) => Err(ClientError::Transport(e)),
    }
}

} // verus!
