//! A worked schema: the user service.
//!
//! Two routes, defined once and validated once:
//!
//! - `POST /user/create/<id:UserId>` with a `Name` body, returning a
//!   `User`;
//! - `GET /user/get?sort=bool`, returning a `Vec<User>`.
//!
//! `my_api` builds the registry and the schema and proves that
//! validation cannot fail; the handlers are bound through `DemoHandler`.

use vstd::prelude::*;

use crate::binding::{Handler, HandlerShape};
use crate::bytes::bytes_of;
use crate::kinds::{wf_value, TypeKind, ValModel, Value};
use crate::registry::{lemma_resolve_found, lemma_resolve_none, TypeRegistry};
use crate::schema::{path, Api, Method, QpModel, RouteModel, SegModel};

verus! {

/// The text `user`.
pub open spec fn nm_user() -> Seq<u8> {
    seq![117u8, 115u8, 101u8, 114u8]
}

/// The text `create`.
pub open spec fn nm_create() -> Seq<u8> {
    seq![99u8, 114u8, 101u8, 97u8, 116u8, 101u8]
}

/// The text `get`.
pub open spec fn nm_get() -> Seq<u8> {
    seq![103u8, 101u8, 116u8]
}

/// The text `id`.
pub open spec fn nm_id() -> Seq<u8> {
    seq![105u8, 100u8]
}

/// The text `sort`.
pub open spec fn nm_sort() -> Seq<u8> {
    seq![115u8, 111u8, 114u8, 116u8]
}

/// The text `name`.
pub open spec fn nm_name() -> Seq<u8> {
    seq![110u8, 97u8, 109u8, 101u8]
}

/// The type name `UserId`.
pub open spec fn ty_user_id() -> Seq<u8> {
    seq![85u8, 115u8, 101u8, 114u8, 73u8, 100u8]
}

/// The type name `Name`.
pub open spec fn ty_name() -> Seq<u8> {
    seq![78u8, 97u8, 109u8, 101u8]
}

/// The type name `User`.
pub open spec fn ty_user() -> Seq<u8> {
    seq![85u8, 115u8, 101u8, 114u8]
}

/// The type name `bool`.
pub open spec fn ty_bool() -> Seq<u8> {
    seq![98u8, 111u8, 111u8, 108u8]
}

/// The type name `Vec<User>`.
pub open spec fn ty_users() -> Seq<u8> {
    seq![86u8, 101u8, 99u8, 60u8, 85u8, 115u8, 101u8, 114u8, 62u8]
}

/// The wire kind of a `User`: a numeric id paired with a name text.
pub open spec fn user_kind() -> TypeKind {
    TypeKind::Pair(Box::new(TypeKind::Uint), Box::new(TypeKind::Text))
}

/// The wire kind of a `Vec<User>`.
pub open spec fn users_kind() -> TypeKind {
    TypeKind::List(Box::new(user_kind()))
}

/// The model of the route `POST /user/create/<id:UserId>`.
pub open spec fn route_create() -> RouteModel {
    RouteModel {
        segs: seq![
            SegModel::Lit(nm_user()),
            SegModel::Lit(nm_create()),
            SegModel::Cap(nm_id(), ty_user_id()),
        ],
        method: Method::Post,
        query: Seq::empty(),
        body: Some((nm_name(), ty_name())),
        ret: ty_user(),
    }
}

/// The model of the route `GET /user/get?sort=bool`.
pub open spec fn route_get() -> RouteModel {
    RouteModel {
        segs: seq![SegModel::Lit(nm_user()), SegModel::Lit(nm_get())],
        method: Method::Get,
        query: seq![QpModel { name: nm_sort(), ty: ty_bool(), required: true }],
        body: None,
        ret: ty_users(),
    }
}

/// Builds a `User` kind copy.
fn make_user_kind() -> (r: TypeKind)
    ensures
        r == user_kind(),
{
    TypeKind::Pair(Box::new(TypeKind::Uint), Box::new(TypeKind::Text))
}

/// The registry of the user service: every type name the schema uses.
pub fn demo_registry() -> (r: TypeRegistry)
    ensures
        r.wf(),
        r.spec_kind(ty_user_id()) == Some(TypeKind::Uint),
        r.spec_kind(ty_name()) == Some(TypeKind::Text),
        r.spec_kind(ty_user()) == Some(user_kind()),
        r.spec_kind(ty_bool()) == Some(TypeKind::Bool),
        r.spec_kind(ty_users()) == Some(users_kind()),
{
    let mut reg = TypeRegistry::new();
    let n1 = bytes_of([85u8, 115u8, 101u8, 114u8, 73u8, 100u8].as_slice());
    let n2 = bytes_of([78u8, 97u8, 109u8, 101u8].as_slice());
    let n3 = bytes_of([85u8, 115u8, 101u8, 114u8].as_slice());
    let n4 = bytes_of([98u8, 111u8, 111u8, 108u8].as_slice());
    let n5 = bytes_of([86u8, 101u8, 99u8, 60u8, 85u8, 115u8, 101u8, 114u8, 62u8].as_slice());
    proof {
        assert(n1@ =~= ty_user_id());
        assert(n2@ =~= ty_name());
        assert(n3@ =~= ty_user());
        assert(n4@ =~= ty_bool());
        assert(n5@ =~= ty_users());
        assert(ty_name() != ty_user_id() && ty_user() != ty_user_id() && ty_bool()
            != ty_user_id() && ty_users() != ty_user_id());
        assert(ty_user() != ty_name()) by {
            assert(ty_user()[0] != ty_name()[0]);
        }
        assert(ty_bool() != ty_name()) by {
            assert(ty_bool()[0] != ty_name()[0]);
        }
        assert(ty_bool() != ty_user()) by {
            assert(ty_bool()[0] != ty_user()[0]);
        }
        assert(ty_users() != ty_name() && ty_users() != ty_user() && ty_users() != ty_bool());
    }
    let d1 = bytes_of([110u8, 117u8, 109u8, 101u8, 114u8, 105u8, 99u8].as_slice());
    proof {
        lemma_resolve_none(reg.entries(), n1@);
    }
    if reg.register(n1, TypeKind::Uint, d1).is_err() {
        proof {
            assert(false);
        }
    }
    let d2 = bytes_of([116u8, 101u8, 120u8, 116u8].as_slice());
    proof {
        assert(reg.entries().len() == 1 && reg.entries()[0].name@ == ty_user_id());
        lemma_resolve_none(reg.entries(), n2@);
    }
    if reg.register(n2, TypeKind::Text, d2).is_err() {
        proof {
            assert(false);
        }
    }
    let d3 = bytes_of([105u8, 100u8, 32u8, 97u8, 110u8, 100u8, 32u8, 110u8, 97u8, 109u8,
        101u8].as_slice());
    proof {
        assert(reg.entries().len() == 2 && reg.entries()[0].name@ == ty_user_id()
            && reg.entries()[1].name@ == ty_name());
        lemma_resolve_none(reg.entries(), n3@);
    }
    if reg.register(n3, make_user_kind(), d3).is_err() {
        proof {
            assert(false);
        }
    }
    let d4 = bytes_of([102u8, 108u8, 97u8, 103u8].as_slice());
    proof {
        assert(reg.entries().len() == 3 && reg.entries()[0].name@ == ty_user_id()
            && reg.entries()[1].name@ == ty_name() && reg.entries()[2].name@ == ty_user());
        lemma_resolve_none(reg.entries(), n4@);
    }
    if reg.register(n4, TypeKind::Bool, d4).is_err() {
        proof {
            assert(false);
        }
    }
    let d5 = bytes_of([108u8, 105u8, 115u8, 116u8, 32u8, 111u8, 102u8, 32u8, 117u8, 115u8, 101u8,
        114u8, 115u8].as_slice());
    proof {
        assert(reg.entries().len() == 4 && reg.entries()[0].name@ == ty_user_id()
            && reg.entries()[1].name@ == ty_name() && reg.entries()[2].name@ == ty_user()
            && reg.entries()[3].name@ == ty_bool());
        lemma_resolve_none(reg.entries(), n5@);
    }
    if reg.register(n5, TypeKind::List(Box::new(make_user_kind())), d5).is_err() {
        proof {
            assert(false);
        }
    }
    proof {
        let e = reg.entries();
        assert(e.len() == 5);
        assert(e[0].name@ == ty_user_id() && e[0].kind == TypeKind::Uint);
        assert(e[1].name@ == ty_name() && e[1].kind == TypeKind::Text);
        assert(e[2].name@ == ty_user() && e[2].kind == user_kind());
        assert(e[3].name@ == ty_bool() && e[3].kind == TypeKind::Bool);
        assert(e[4].name@ == ty_users() && e[4].kind == users_kind());
        lemma_resolve_found(e, ty_user_id(), 0);
        lemma_resolve_found(e, ty_name(), 1);
        lemma_resolve_found(e, ty_user(), 2);
        lemma_resolve_found(e, ty_bool(), 3);
        lemma_resolve_found(e, ty_users(), 4);
    }
    reg
}

/// The user service schema, built and validated; validation cannot fail.
pub fn my_api() -> (a: Api)
    ensures
        a.wf(),
        a.spec_routes() =~~= seq![route_create(), route_get()],
        a.reg().spec_kind(ty_user_id()) == Some(TypeKind::Uint),
        a.reg().spec_kind(ty_name()) == Some(TypeKind::Text),
        a.reg().spec_kind(ty_user()) == Some(user_kind()),
        a.reg().spec_kind(ty_bool()) == Some(TypeKind::Bool),
        a.reg().spec_kind(ty_users()) == Some(users_kind()),
{
    let reg = demo_registry();
    let r0 = path(bytes_of([99u8, 114u8, 101u8, 97u8, 116u8, 101u8].as_slice())).capture(
        bytes_of([105u8, 100u8].as_slice()),
        bytes_of([85u8, 115u8, 101u8, 114u8, 73u8, 100u8].as_slice()),
    ).body(
        bytes_of([110u8, 97u8, 109u8, 101u8].as_slice()),
        bytes_of([78u8, 97u8, 109u8, 101u8].as_slice()),
    ).ret(Method::Post, bytes_of([85u8, 115u8, 101u8, 114u8].as_slice()));
    let r1 = path(bytes_of([103u8, 101u8, 116u8].as_slice())).query(
        bytes_of([115u8, 111u8, 114u8, 116u8].as_slice()),
        bytes_of([98u8, 111u8, 111u8, 108u8].as_slice()),
    ).ret(Method::Get, bytes_of([86u8, 101u8, 99u8, 60u8, 85u8, 115u8, 101u8, 114u8,
        62u8].as_slice()));
    let mut alts: Vec<crate::schema::Route> = Vec::new();
    let ghost r0m = r0.model();
    let ghost r1m = r1.model();
    alts.push(r0);
    alts.push(r1);
    let b = Api::new().path(bytes_of([117u8, 115u8, 101u8, 114u8].as_slice())).alt(alts);
    proof {
        assert(crate::schema::routes_models(b.routes@).len() == 2);
        assert(crate::schema::routes_models(b.routes@)[0] =~~= route_create());
        assert(crate::schema::routes_models(b.routes@)[1] =~~= route_get());
        let rms = crate::schema::routes_models(b.routes@);
        assert(crate::schema::routes_wf(rms, reg)) by {
            assert(!crate::schema::same_identity(rms[0], rms[1])) by {
                assert(rms[0].segs.len() == 3 && rms[1].segs.len() == 2);
            }
            assert forall|p: int, q: int|
                0 <= p < q < rms.len() implies !crate::schema::same_identity(
                #[trigger] rms[p],
                #[trigger] rms[q],
            ) by {
                assert(p == 0 && q == 1);
            }
            assert(crate::schema::caps_unique(rms[0].segs)) by {
                assert(!(rms[0].segs[0] is Cap) && !(rms[0].segs[1] is Cap));
            }
            assert(crate::schema::caps_unique(rms[1].segs)) by {
                assert(!(rms[1].segs[0] is Cap) && !(rms[1].segs[1] is Cap));
            }
            assert forall|i: int| 0 <= i < rms.len() implies crate::schema::caps_unique(
                (#[trigger] rms[i]).segs,
            ) by {
                assert(i == 0 || i == 1);
            }
            assert(crate::schema::route_types_resolve(rms[0], reg)) by {
                assert(rms[0].segs[2]->Cap_1 == ty_user_id());
                assert forall|i: int|
                    0 <= i < rms[0].segs.len() && rms[0].segs[i] is Cap implies reg.spec_kind(
                    #[trigger] rms[0].segs[i]->Cap_1,
                ) is Some by {
                    assert(i == 2);
                }
            }
            assert(crate::schema::route_types_resolve(rms[1], reg)) by {
                assert(rms[1].query[0].ty == ty_bool());
            }
            assert forall|i: int| 0 <= i < rms.len() implies crate::schema::route_types_resolve(
                #[trigger] rms[i],
                reg,
            ) by {
                assert(i == 0 || i == 1);
            }
        }
    }
    match b.finalize(reg) {
        Ok(a) => a,
        Err(e) => {
            proof {
                assert(false);
            }
            vstd::pervasive::unreached()
        },
    }
}

/// Creates the user the request describes.
pub fn handler_user_create(id: u32, name: Vec<u8>) -> (r: Value)
    ensures
        r.model() == ValModel::Pair(Box::new(ValModel::Uint(id)), Box::new(ValModel::Text(name@))),
        name@.len() <= u32::MAX ==> wf_value(r.model(), user_kind()),
{
    let ghost nv = name@;
    let bi = Box::new(Value::Uint(id));
    let bn = Box::new(Value::Text(name));
    proof {
        assert(bi.model() == ValModel::Uint(id));
        assert(bn.model() == ValModel::Text(nv));
    }
    let r = Value::Pair(bi, bn);
    proof {
        assert(r.model() == ValModel::Pair(
            Box::new(ValModel::Uint(id)),
            Box::new(ValModel::Text(nv)),
        ));
        assert(wf_value(ValModel::Uint(id), TypeKind::Uint));
        if nv.len() <= u32::MAX {
            assert(wf_value(ValModel::Text(nv), TypeKind::Text));
            assert(r.model() is Pair);
            assert(*r.model()->Pair_0 == ValModel::Uint(id));
            assert(*r.model()->Pair_1 == ValModel::Text(nv));
            assert(wf_value(r.model(), user_kind()));
        }
    }
    r
}

/// Lists the users; this demonstration service has none yet.
pub fn handler_users_get(sort: bool) -> (r: Value)
    ensures
        r.model() == ValModel::List(Seq::<ValModel>::empty()),
        wf_value(r.model(), users_kind()),
{
    let vs: Vec<Value> = Vec::new();
    let r = Value::List(vs);
    proof {
        assert(r.model()->List_0 =~= Seq::<ValModel>::empty());
        assert(r.model() =~~= ValModel::List(Seq::<ValModel>::empty()));
    }
    r
}

/// The handlers of the user service, as one bindable type.
pub enum DemoHandler {
    UserCreate,
    UsersGet,
}

impl Handler for DemoHandler {
    open spec fn param_kinds(&self) -> Seq<TypeKind> {
        match self {
            DemoHandler::UserCreate => seq![TypeKind::Uint, TypeKind::Text],
            DemoHandler::UsersGet => seq![TypeKind::Bool],
        }
    }

    open spec fn ret_kind(&self) -> TypeKind {
        match self {
            DemoHandler::UserCreate => user_kind(),
            DemoHandler::UsersGet => users_kind(),
        }
    }

    open spec fn call_model(&self, args: Seq<ValModel>) -> Result<ValModel, Seq<u8>> {
        match self {
            DemoHandler::UserCreate => Ok(
                ValModel::Pair(Box::new(args[0]), Box::new(args[1])),
            ),
            DemoHandler::UsersGet => Ok(ValModel::List(Seq::empty())),
        }
    }

    fn shape(&self) -> (s: HandlerShape) {
        match self {
            DemoHandler::UserCreate => {
                let mut params: Vec<TypeKind> = Vec::new();
                params.push(TypeKind::Uint);
                params.push(TypeKind::Text);
                proof {
                    assert(params@ =~= seq![TypeKind::Uint, TypeKind::Text]);
                }
                HandlerShape { params, ret: make_user_kind() }
            },
            DemoHandler::UsersGet => {
                let mut params: Vec<TypeKind> = Vec::new();
                params.push(TypeKind::Bool);
                proof {
                    assert(params@ =~= seq![TypeKind::Bool]);
                }
                HandlerShape { params, ret: TypeKind::List(Box::new(make_user_kind())) }
            },
        }
    }

    fn call(&self, args: Vec<Value>) -> (r: Result<Value, Vec<u8>>) {
        match self {
            DemoHandler::UserCreate => {
                let ghost am = crate::codec::seq_models(args@);
                let mut args = args;
                let a1 = args.remove(1);
                let a0 = args.remove(0);
                proof {
                    assert(a0.model() == am[0] && a1.model() == am[1]);
                }
                match (a0, a1) {
                    (Value::Uint(id), Value::Text(nm)) => {
                        let ghost nmv = nm@;
                        let out = handler_user_create(id, nm);
                        proof {
                            assert(am[0] == ValModel::Uint(id) && am[1] == ValModel::Text(nmv));
                            assert(out.model() =~~= ValModel::Pair(
                                Box::new(am[0]),
                                Box::new(am[1]),
                            ));
                            assert(wf_value(out.model(), user_kind()));
                        }
                        Ok(out)
                    },
                    _ => {
                        proof {
                            assert(false);
                        }
                        Err(Vec::new())
                    },
                }
            },
            DemoHandler::UsersGet => {
                let sort = match &args[0] {
                    Value::Bool(b) => *b,
                    _ => {
                        proof {
                            assert(false);
                        }
                        false
                    },
                };
                Ok(handler_users_get(sort))
            },
        }
    }
}

} // verus!
