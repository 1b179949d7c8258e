//! The doc renderer.
//!
//! A pure projection of the schema: one text line per route alternative,
//! in declaration order, showing the method, the path with each capture's
//! name and described type, the query parameters, the body if one is
//! declared, and the described return type.

use vstd::prelude::*;

use crate::schema::{Api, Method, QpModel, RouteModel, Seg, SegModel};
use crate::registry::TypeRegistry;

verus! {

/// The description registered for `name`; meaningful when it resolves.
pub open spec fn desc_of(reg: TypeRegistry, name: Seq<u8>) -> Seq<u8> {
    reg.spec_lookup(name)->Some_0.1
}

/// The text of a method.
pub open spec fn method_text(m: Method) -> Seq<u8> {
    match m {
        Method::Get => seq![71u8, 69u8, 84u8],
        Method::Post => seq![80u8, 79u8, 83u8, 84u8],
        Method::Put => seq![80u8, 85u8, 84u8],
        Method::Delete => seq![68u8, 69u8, 76u8, 69u8, 84u8, 69u8],
    }
}

/// The text of one path segment: the literal, or `<name:description>`.
pub open spec fn seg_text(sm: SegModel, reg: TypeRegistry) -> Seq<u8> {
    match sm {
        SegModel::Lit(l) => l,
        SegModel::Cap(n, t) => seq![60u8] + n + seq![58u8] + desc_of(reg, t) + seq![62u8],
    }
}

/// The text of a path: a slash before every segment.
pub open spec fn path_text(segs: Seq<SegModel>, reg: TypeRegistry) -> Seq<u8>
    decreases segs.len(),
{
    if segs.len() == 0 {
        Seq::empty()
    } else {
        path_text(segs.drop_last(), reg) + seq![47u8] + seg_text(segs.last(), reg)
    }
}

/// The text of the query parameters: ` name=description` each.
pub open spec fn query_text(q: Seq<QpModel>, reg: TypeRegistry) -> Seq<u8>
    decreases q.len(),
{
    if q.len() == 0 {
        Seq::empty()
    } else {
        query_text(q.drop_last(), reg) + seq![32u8, 63u8] + q.last().name + seq![61u8] + desc_of(
            reg,
            q.last().ty,
        )
    }
}

/// The text of the body declaration: ` name=description`, or nothing.
pub open spec fn body_text(b: Option<(Seq<u8>, Seq<u8>)>, reg: TypeRegistry) -> Seq<u8> {
    match b {
        None => Seq::empty(),
        Some(d) => seq![32u8, 43u8] + d.0 + seq![61u8] + desc_of(reg, d.1),
    }
}

/// The whole description of one route.
pub open spec fn route_text(rm: RouteModel, reg: TypeRegistry) -> Seq<u8> {
    method_text(rm.method) + seq![32u8] + path_text(rm.segs, reg) + query_text(rm.query, reg)
        + body_text(rm.body, reg) + seq![32u8, 45u8, 62u8, 32u8] + desc_of(reg, rm.ret)
}

/// Appends a byte slice.
fn put(out: &mut Vec<u8>, s: &[u8])
    ensures
        final(out)@ == old(out)@ + s@,
{
    let mut j: usize = 0;
    while j < s.len()
        invariant
            j <= s@.len(),
            out@ == old(out)@ + s@.take(j as int),
        decreases s@.len() - j,
    {
        out.push(s[j]);
        proof {
            assert(out@ =~= old(out)@ + s@.take(j as int + 1));
        }
        j = j + 1;
    }
    proof {
        assert(s@.take(s@.len() as int) =~= s@);
    }
}

/// Appends the description registered for `name`.
fn put_desc(out: &mut Vec<u8>, reg: &TypeRegistry, name: &Vec<u8>)
    requires
        reg.spec_kind(name@) is Some,
    ensures
        final(out)@ == old(out)@ + desc_of(*reg, name@),
{
    match reg.resolve(name) {
        Some(e) => {
            put(out, e.desc.as_slice());
        },
        None => {
            proof {
                assert(false);
            }
        },
    }
}

/// Renders one line per route, in declaration order.
#[verifier::loop_isolation(false)]
#[verifier::rlimit(80)]
pub fn render(api: &Api) -> (r: Vec<Vec<u8>>)
    requires
        api.wf(),
    ensures
        r@.len() == api.spec_routes().len(),
        forall|i: int|
            0 <= i < r@.len() ==> (#[trigger] r@[i])@ == route_text(
                api.spec_routes()[i],
                api.reg(),
            ),
{
    proof {
        crate::schema::lemma_api_fields(*api);
    }
    let ghost rms = api.spec_routes();
    let mut out: Vec<Vec<u8>> = Vec::new();
    let mut i: usize = 0;
    while i < api.routes.len()
        invariant
            i <= api.routes@.len(),
            out@.len() == i,
            forall|j: int|
                0 <= j < i ==> (#[trigger] out@[j])@ == route_text(rms[j], api.reg()),
        decreases api.routes@.len() - i,
    {
        proof {
            assert(rms[i as int] == api.routes@[i as int].model());
            assert(crate::schema::route_types_resolve(rms[i as int], api.reg()));
        }
        let route = &api.routes[i];
        let ghost rm = rms[i as int];
        let mut line: Vec<u8> = Vec::new();
        match route.method {
            Method::Get => put(&mut line, [71u8, 69u8, 84u8].as_slice()),
            Method::Post => put(&mut line, [80u8, 79u8, 83u8, 84u8].as_slice()),
            Method::Put => put(&mut line, [80u8, 85u8, 84u8].as_slice()),
            Method::Delete => put(&mut line, [68u8, 69u8, 76u8, 69u8, 84u8, 69u8].as_slice()),
        }
        proof {
            assert(line@ =~= method_text(rm.method));
        }
        put(&mut line, [32u8].as_slice());
        let mut k: usize = 0;
        while k < route.segs.len()
            invariant
                k <= route.segs@.len(),
                rm == rms[i as int],
                i < api.routes@.len(),
                route == &api.routes@[i as int],
                crate::schema::route_types_resolve(rm, api.reg()),
                line@ == method_text(rm.method) + seq![32u8] + path_text(
                    rm.segs.take(k as int),
                    api.reg(),
                ),
            decreases route.segs@.len() - k,
        {
            proof {
                assert(rm.segs.take(k as int + 1).drop_last() =~= rm.segs.take(k as int));
                assert(rm.segs.take(k as int + 1).last() == rm.segs[k as int]);
            }
            put(&mut line, [47u8].as_slice());
            match &route.segs[k] {
                Seg::Lit(l) => {
                    put(&mut line, l.as_slice());
                },
                Seg::Capture(n, t) => {
                    proof {
                        assert(rm.segs[k as int] is Cap);
                    }
                    put(&mut line, [60u8].as_slice());
                    put(&mut line, n.as_slice());
                    put(&mut line, [58u8].as_slice());
                    put_desc(&mut line, &api.registry, t);
                    put(&mut line, [62u8].as_slice());
                },
            }
            proof {
                assert(line@ =~= method_text(rm.method) + seq![32u8] + path_text(
                    rm.segs.take(k as int + 1),
                    api.reg(),
                ));
            }
            k = k + 1;
        }
        proof {
            assert(rm.segs.take(rm.segs.len() as int) =~= rm.segs);
        }
        let ghost head = method_text(rm.method) + seq![32u8] + path_text(rm.segs, api.reg());
        let mut k: usize = 0;
        while k < route.query.len()
            invariant
                k <= route.query@.len(),
                rm == rms[i as int],
                i < api.routes@.len(),
                route == &api.routes@[i as int],
                crate::schema::route_types_resolve(rm, api.reg()),
                head == method_text(rm.method) + seq![32u8] + path_text(rm.segs, api.reg()),
                line@ == head + query_text(rm.query.take(k as int), api.reg()),
            decreases route.query@.len() - k,
        {
            proof {
                assert(rm.query.take(k as int + 1).drop_last() =~= rm.query.take(k as int));
                assert(rm.query.take(k as int + 1).last() == rm.query[k as int]);
            }
            put(&mut line, [32u8, 63u8].as_slice());
            put(&mut line, route.query[k].name.as_slice());
            put(&mut line, [61u8].as_slice());
            proof {
                assert(route.query@[k as int].ty@ == rm.query[k as int].ty);
                assert(api.reg().spec_kind(rm.query[k as int].ty) is Some);
            }
            put_desc(&mut line, &api.registry, &route.query[k].ty);
            proof {
                assert(line@ =~= head + query_text(rm.query.take(k as int + 1), api.reg()));
            }
            k = k + 1;
        }
        proof {
            assert(rm.query.take(rm.query.len() as int) =~= rm.query);
        }
        match &route.body {
            Some(d) => {
                put(&mut line, [32u8, 43u8].as_slice());
                put(&mut line, d.name.as_slice());
                put(&mut line, [61u8].as_slice());
                put_desc(&mut line, &api.registry, &d.ty);
            },
            None => {
            },
        }
        proof {
            assert(line@ =~= head + query_text(rm.query, api.reg()) + body_text(
                rm.body,
                api.reg(),
            ));
        }
        put(&mut line, [32u8, 45u8, 62u8, 32u8].as_slice());
        put_desc(&mut line, &api.registry, &route.ret);
        proof {
            assert(line@ =~= route_text(rm, api.reg()));
        }
        out.push(line);
        i = i + 1;
    }
    out
}

} // verus!
