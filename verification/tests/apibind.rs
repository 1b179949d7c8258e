use apibind::binding::{bind, Handler, HandlerShape};
use apibind::client::{call_route, encode_request, ClientError, ClientTransport};
use apibind::codec::{decode_full, encode_full};
use apibind::demo::{my_api, demo_registry, handler_user_create, handler_users_get, DemoHandler};
use apibind::dispatch::{dispatch, RequestDescriptor, ResponseDescriptor, Status};
use apibind::docs::render;
use apibind::errors::ConstructionError;
use apibind::kinds::{TypeKind, ValModel, Value};
use vstd::seq::Seq;
use apibind::registry::TypeRegistry;
use apibind::scalar::{parse_scalar, write_scalar};
use apibind::schema::{path, Api, Method};
use std::cell::Cell;
use std::rc::Rc;

fn user_kind() -> TypeKind {
    TypeKind::Pair(Box::new(TypeKind::Uint), Box::new(TypeKind::Text))
}

fn users_kind() -> TypeKind {
    TypeKind::List(Box::new(user_kind()))
}

fn text(s: &str) -> Value {
    Value::Text(s.as_bytes().to_vec())
}

fn user(id: u32, name: &str) -> Value {
    Value::Pair(Box::new(Value::Uint(id)), Box::new(text(name)))
}

fn req(method: Method, path_text: &str, query: &str, body: Vec<u8>) -> RequestDescriptor {
    RequestDescriptor {
        method,
        path: path_text.as_bytes().to_vec(),
        query: query.as_bytes().to_vec(),
        body,
    }
}

fn demo_table() -> apibind::binding::BindingTable<DemoHandler> {
    let api = my_api();
    bind(api, vec![(0, DemoHandler::UserCreate), (1, DemoHandler::UsersGet)]).unwrap()
}

#[test]
fn codec_round_trip_scalars() {
    for v in [Value::Uint(0), Value::Uint(7), Value::Uint(4294967295)] {
        let bytes = encode_full(&TypeKind::Uint, &v);
        assert_eq!(decode_full(&TypeKind::Uint, &bytes), Some(v));
    }
    for v in [Value::Bool(true), Value::Bool(false)] {
        let bytes = encode_full(&TypeKind::Bool, &v);
        assert_eq!(decode_full(&TypeKind::Bool, &bytes), Some(v));
    }
    for s in ["", "alice", "with spaces and : # [ delimiters"] {
        let bytes = encode_full(&TypeKind::Text, &text(s));
        assert_eq!(decode_full(&TypeKind::Text, &bytes), Some(text(s)));
    }
}

#[test]
fn codec_round_trip_composites() {
    let u = user(7, "alice");
    let bytes = encode_full(&user_kind(), &u);
    assert_eq!(decode_full(&user_kind(), &bytes), Some(user(7, "alice")));

    let vs = Value::List(vec![user(1, "a"), user(2, "bb"), user(3, "")]);
    let bytes = encode_full(&users_kind(), &vs);
    assert_eq!(
        decode_full(&users_kind(), &bytes),
        Some(Value::List(vec![user(1, "a"), user(2, "bb"), user(3, "")]))
    );

    let empty = Value::List(vec![]);
    let bytes = encode_full(&users_kind(), &empty);
    assert_eq!(decode_full(&users_kind(), &bytes), Some(Value::List(vec![])));
}

#[test]
fn codec_rejects_malformed_and_trailing() {
    assert_eq!(decode_full(&TypeKind::Uint, &b"123".to_vec()), None);
    assert_eq!(decode_full(&TypeKind::Bool, &b"x".to_vec()), None);
    let mut bytes = encode_full(&TypeKind::Bool, &Value::Bool(true));
    bytes.push(0);
    assert_eq!(decode_full(&TypeKind::Bool, &bytes), None);
}

#[test]
fn scalar_text_forms() {
    assert_eq!(
        write_scalar(&TypeKind::Uint, &Value::Uint(4070)),
        Some(b"4070".to_vec())
    );
    assert_eq!(
        write_scalar(&TypeKind::Bool, &Value::Bool(true)),
        Some(b"true".to_vec())
    );
    assert_eq!(parse_scalar(&TypeKind::Uint, &b"007".to_vec()), Some(Value::Uint(7)));
    assert_eq!(
        parse_scalar(&TypeKind::Uint, &b"4294967295".to_vec()),
        Some(Value::Uint(4294967295))
    );
    assert_eq!(parse_scalar(&TypeKind::Uint, &b"4294967296".to_vec()), None);
    assert_eq!(parse_scalar(&TypeKind::Uint, &b"".to_vec()), None);
    assert_eq!(parse_scalar(&TypeKind::Uint, &b"12x".to_vec()), None);
    assert_eq!(parse_scalar(&TypeKind::Bool, &b"true".to_vec()), Some(Value::Bool(true)));
    assert_eq!(parse_scalar(&TypeKind::Bool, &b"false".to_vec()), Some(Value::Bool(false)));
    assert_eq!(parse_scalar(&TypeKind::Bool, &b"tru".to_vec()), None);
}

#[test]
fn registry_refuses_duplicate_type() {
    let mut reg = TypeRegistry::new();
    assert!(reg.register(b"T".to_vec(), TypeKind::Bool, b"flag".to_vec()).is_ok());
    let r = reg.register(b"T".to_vec(), TypeKind::Uint, b"other".to_vec());
    assert_eq!(r, Err(ConstructionError::DuplicateType { name: b"T".to_vec() }));
}

fn small_registry() -> TypeRegistry {
    let mut reg = TypeRegistry::new();
    reg.register(b"bool".to_vec(), TypeKind::Bool, b"flag".to_vec()).unwrap();
    reg.register(b"Num".to_vec(), TypeKind::Uint, b"numeric".to_vec()).unwrap();
    reg
}

#[test]
fn finalize_refuses_ambiguous_route() {
    let reg = small_registry();
    let r0 = path(b"a".to_vec()).ret(Method::Get, b"bool".to_vec());
    let r1 = path(b"a".to_vec()).ret(Method::Get, b"Num".to_vec());
    let r = Api::new().alt(vec![r0, r1]).finalize(reg);
    assert!(matches!(r, Err(ConstructionError::AmbiguousRoute { route: 1 })));
}

#[test]
fn finalize_refuses_unknown_type() {
    let reg = small_registry();
    let r0 = path(b"a".to_vec()).ret(Method::Get, b"Missing".to_vec());
    let r = Api::new().alt(vec![r0]).finalize(reg);
    assert!(matches!(r, Err(ConstructionError::UnknownType { .. })));
}

#[test]
fn finalize_refuses_duplicate_capture() {
    let reg = small_registry();
    let r0 = path(b"a".to_vec())
        .capture(b"x".to_vec(), b"Num".to_vec())
        .capture(b"x".to_vec(), b"Num".to_vec())
        .ret(Method::Get, b"bool".to_vec());
    let r = Api::new().alt(vec![r0]).finalize(reg);
    assert!(matches!(r, Err(ConstructionError::DuplicateCapture { .. })));
}

#[test]
fn bind_refuses_duplicate_binding_and_registers_nothing() {
    let api = my_api();
    let r = bind(api, vec![(0, DemoHandler::UserCreate), (0, DemoHandler::UserCreate)]);
    assert!(matches!(r, Err(ConstructionError::DuplicateBinding { route: 0 })));
    // Nothing was registered by the failed attempt: a fresh bind succeeds
    // and serves requests.
    let table = demo_table();
    let resp = dispatch(&table, &req(Method::Get, "/user/get", "sort=true", Vec::new()));
    assert_eq!(resp.status, Status::Success);
}

#[test]
fn bind_refuses_missing_handler() {
    let api = my_api();
    let r = bind(api, vec![(0, DemoHandler::UserCreate)]);
    assert!(matches!(r, Err(ConstructionError::MissingHandler { route: 1 })));
}

#[test]
fn bind_refuses_shape_mismatch() {
    let api = my_api();
    let r = bind(api, vec![(0, DemoHandler::UsersGet), (1, DemoHandler::UserCreate)]);
    assert!(matches!(r, Err(ConstructionError::ShapeMismatch { .. })));
}

#[test]
fn bind_succeeds_on_matching_shapes() {
    assert_eq!(demo_table().api().route_count(), 2);
}

#[test]
fn dispatch_unknown_path_is_not_found() {
    let table = demo_table();
    let resp = dispatch(&table, &req(Method::Get, "/nope", "", Vec::new()));
    assert_eq!(resp.status, Status::NotFound);
    let resp = dispatch(&table, &req(Method::Get, "no-leading-slash", "", Vec::new()));
    assert_eq!(resp.status, Status::NotFound);
}

#[test]
fn dispatch_unlisted_method_is_method_not_allowed() {
    let table = demo_table();
    let resp = dispatch(&table, &req(Method::Get, "/user/create/7", "", Vec::new()));
    assert_eq!(resp.status, Status::MethodNotAllowed);
}

#[test]
fn dispatch_bad_capture_is_bad_request_naming_it() {
    let table = demo_table();
    let body = encode_full(&TypeKind::Text, &text("alice"));
    let resp = dispatch(&table, &req(Method::Post, "/user/create/seven", "", body));
    assert_eq!(resp.status, Status::BadRequest);
    assert_eq!(resp.body, b"id".to_vec());
}

// A handler that records whether it was ever invoked.
struct Recording {
    called: Rc<Cell<bool>>,
}

impl Handler for Recording {
    // The ghost items of the trait: never invoked at runtime.
    fn param_kinds(&self) -> Seq<TypeKind> {
        panic!()
    }

    fn ret_kind(&self) -> TypeKind {
        panic!()
    }

    fn call_model(&self, _args: Seq<ValModel>) -> Result<ValModel, Seq<u8>> {
        panic!()
    }

    fn shape(&self) -> HandlerShape {
        HandlerShape { params: vec![TypeKind::Uint], ret: TypeKind::Uint }
    }

    fn call(&self, args: Vec<Value>) -> Result<Value, Vec<u8>> {
        self.called.set(true);
        Ok(args.into_iter().next().unwrap())
    }
}

fn echo_api() -> Api {
    let mut reg = TypeRegistry::new();
    reg.register(b"Num".to_vec(), TypeKind::Uint, b"numeric".to_vec()).unwrap();
    let r0 = path(b"echo".to_vec())
        .capture(b"n".to_vec(), b"Num".to_vec())
        .ret(Method::Get, b"Num".to_vec());
    Api::new().alt(vec![r0]).finalize(reg).unwrap()
}

#[test]
fn handler_never_runs_on_malformed_input() {
    let called = Rc::new(Cell::new(false));
    let table = bind(echo_api(), vec![(0, Recording { called: called.clone() })]).unwrap();
    let resp = dispatch(&table, &req(Method::Get, "/echo/abc", "", Vec::new()));
    assert_eq!(resp.status, Status::BadRequest);
    assert_eq!(resp.body, b"n".to_vec());
    assert!(!called.get());
    // The same handler does run on well-formed input.
    let resp = dispatch(&table, &req(Method::Get, "/echo/41", "", Vec::new()));
    assert_eq!(resp.status, Status::Success);
    assert!(called.get());
}

// Two handlers telling apart the literal route and the capture route.
enum LitOrCap {
    Lit,
    Cap,
}

impl Handler for LitOrCap {
    // The ghost items of the trait: never invoked at runtime.
    fn param_kinds(&self) -> Seq<TypeKind> {
        panic!()
    }

    fn ret_kind(&self) -> TypeKind {
        panic!()
    }

    fn call_model(&self, _args: Seq<ValModel>) -> Result<ValModel, Seq<u8>> {
        panic!()
    }

    fn shape(&self) -> HandlerShape {
        match self {
            LitOrCap::Lit => HandlerShape { params: vec![], ret: TypeKind::Uint },
            LitOrCap::Cap => HandlerShape { params: vec![TypeKind::Uint], ret: TypeKind::Uint },
        }
    }

    fn call(&self, _args: Vec<Value>) -> Result<Value, Vec<u8>> {
        match self {
            LitOrCap::Lit => Ok(Value::Uint(1)),
            LitOrCap::Cap => Ok(Value::Uint(2)),
        }
    }
}

fn precedence_api(literal_first: bool) -> Api {
    let mut reg = TypeRegistry::new();
    reg.register(b"Num".to_vec(), TypeKind::Uint, b"numeric".to_vec()).unwrap();
    // `/user/create` and `/user/<id>` under the same prefix.
    let lit = path(b"create".to_vec()).ret(Method::Get, b"Num".to_vec());
    let cap = apibind::schema::RouteBuilder {
        segs: vec![apibind::schema::Seg::Capture(b"id".to_vec(), b"Num".to_vec())],
        query: Vec::new(),
        body: None,
    }
    .ret(Method::Get, b"Num".to_vec());
    let alts = if literal_first { vec![lit, cap] } else { vec![cap, lit] };
    Api::new().path(b"user".to_vec()).alt(alts).finalize(reg).unwrap()
}

#[test]
fn literal_beats_capture_in_either_registration_order() {
    for literal_first in [true, false] {
        let api = precedence_api(literal_first);
        let entries = if literal_first {
            vec![(0, LitOrCap::Lit), (1, LitOrCap::Cap)]
        } else {
            vec![(0, LitOrCap::Cap), (1, LitOrCap::Lit)]
        };
        let table = bind(api, entries).unwrap();
        let resp = dispatch(&table, &req(Method::Get, "/user/create", "", Vec::new()));
        assert_eq!(resp.status, Status::Success);
        // The literal route answered, never the capture route.
        assert_eq!(
            decode_full(&TypeKind::Uint, &resp.body),
            Some(Value::Uint(1))
        );
        // Another segment still reaches the capture route.
        let resp = dispatch(&table, &req(Method::Get, "/user/41", "", Vec::new()));
        assert_eq!(resp.status, Status::Success);
        assert_eq!(
            decode_full(&TypeKind::Uint, &resp.body),
            Some(Value::Uint(2))
        );
    }
}

#[test]
fn scenario_create_user() {
    let table = demo_table();
    let body = encode_full(&TypeKind::Text, &text("alice"));
    let resp = dispatch(&table, &req(Method::Post, "/user/create/7", "", body));
    assert_eq!(resp.status, Status::Success);
    assert_eq!(decode_full(&user_kind(), &resp.body), Some(user(7, "alice")));
}

#[test]
fn scenario_get_users_requires_sort() {
    let table = demo_table();
    let resp = dispatch(&table, &req(Method::Get, "/user/get", "", Vec::new()));
    assert_eq!(resp.status, Status::BadRequest);
    assert_eq!(resp.body, b"sort".to_vec());
    let resp = dispatch(&table, &req(Method::Get, "/user/get", "sort=true", Vec::new()));
    assert_eq!(resp.status, Status::Success);
    assert_eq!(decode_full(&users_kind(), &resp.body), Some(Value::List(vec![])));
}

// An echoing handler shows which value the query parameter decoded to.
struct EchoSort;

impl Handler for EchoSort {
    // The ghost items of the trait: never invoked at runtime.
    fn param_kinds(&self) -> Seq<TypeKind> {
        panic!()
    }

    fn ret_kind(&self) -> TypeKind {
        panic!()
    }

    fn call_model(&self, _args: Seq<ValModel>) -> Result<ValModel, Seq<u8>> {
        panic!()
    }

    fn shape(&self) -> HandlerShape {
        HandlerShape { params: vec![TypeKind::Bool], ret: TypeKind::Bool }
    }

    fn call(&self, args: Vec<Value>) -> Result<Value, Vec<u8>> {
        Ok(args.into_iter().next().unwrap())
    }
}

#[test]
fn query_parameter_reaches_the_handler() {
    let mut reg = TypeRegistry::new();
    reg.register(b"bool".to_vec(), TypeKind::Bool, b"flag".to_vec()).unwrap();
    let r0 = path(b"get".to_vec())
        .query(b"sort".to_vec(), b"bool".to_vec())
        .ret(Method::Get, b"bool".to_vec());
    let api = Api::new().path(b"user".to_vec()).alt(vec![r0]).finalize(reg).unwrap();
    let table = bind(api, vec![(0, EchoSort)]).unwrap();
    let resp = dispatch(&table, &req(Method::Get, "/user/get", "sort=true", Vec::new()));
    assert_eq!(resp.status, Status::Success);
    assert_eq!(decode_full(&TypeKind::Bool, &resp.body), Some(Value::Bool(true)));
    let resp = dispatch(&table, &req(Method::Get, "/user/get", "sort=maybe", Vec::new()));
    assert_eq!(resp.status, Status::BadRequest);
    assert_eq!(resp.body, b"sort".to_vec());
}

#[test]
fn absent_optional_query_parameter_takes_its_default() {
    let mut reg = TypeRegistry::new();
    reg.register(b"bool".to_vec(), TypeKind::Bool, b"flag".to_vec()).unwrap();
    let r0 = path(b"get".to_vec())
        .query_opt(b"sort".to_vec(), b"bool".to_vec())
        .ret(Method::Get, b"bool".to_vec());
    let api = Api::new().path(b"user".to_vec()).alt(vec![r0]).finalize(reg).unwrap();
    let table = bind(api, vec![(0, EchoSort)]).unwrap();
    let resp = dispatch(&table, &req(Method::Get, "/user/get", "", Vec::new()));
    assert_eq!(resp.status, Status::Success);
    assert_eq!(decode_full(&TypeKind::Bool, &resp.body), Some(Value::Bool(false)));
    let resp = dispatch(&table, &req(Method::Get, "/user/get", "sort=true", Vec::new()));
    assert_eq!(resp.status, Status::Success);
    assert_eq!(decode_full(&TypeKind::Bool, &resp.body), Some(Value::Bool(true)));
}

#[test]
fn handler_error_is_distinct_from_bad_request() {
    struct Failing;
    impl Handler for Failing {
        // The ghost items of the trait: never invoked at runtime.
        fn param_kinds(&self) -> Seq<TypeKind> {
            panic!()
        }

        fn ret_kind(&self) -> TypeKind {
            panic!()
        }

        fn call_model(&self, _args: Seq<ValModel>) -> Result<ValModel, Seq<u8>> {
            panic!()
        }

        fn shape(&self) -> HandlerShape {
            HandlerShape { params: vec![TypeKind::Uint], ret: TypeKind::Uint }
        }

        fn call(&self, _args: Vec<Value>) -> Result<Value, Vec<u8>> {
            Err(b"boom".to_vec())
        }
    }
    let table = bind(echo_api(), vec![(0, Failing)]).unwrap();
    let resp = dispatch(&table, &req(Method::Get, "/echo/1", "", Vec::new()));
    assert_eq!(resp.status, Status::HandlerFailure);
    assert_eq!(resp.body, b"boom".to_vec());
}

#[test]
fn docs_render_declaration_order() {
    let api = my_api();
    let lines = render(&api);
    assert_eq!(lines.len(), 2);
    assert_eq!(
        String::from_utf8(lines[0].clone()).unwrap(),
        "POST /user/create/<id:numeric> +name=text -> id and name"
    );
    assert_eq!(
        String::from_utf8(lines[1].clone()).unwrap(),
        "GET /user/get ?sort=flag -> list of users"
    );
}

#[test]
fn client_encodes_the_request() {
    let api = my_api();
    let args = vec![Value::Uint(7), text("alice")];
    let rq = encode_request(&api, 0, &args);
    assert_eq!(rq.method, Method::Post);
    assert_eq!(String::from_utf8(rq.path).unwrap(), "/user/create/7");
    assert_eq!(rq.query, b"".to_vec());
    assert_eq!(rq.body, encode_full(&TypeKind::Text, &text("alice")));

    let args = vec![Value::Bool(true)];
    let rq = encode_request(&api, 1, &args);
    assert_eq!(rq.method, Method::Get);
    assert_eq!(String::from_utf8(rq.path).unwrap(), "/user/get");
    assert_eq!(String::from_utf8(rq.query).unwrap(), "sort=true");
    assert_eq!(rq.body, b"".to_vec());
}

// A transport that loops straight back into the dispatcher.
struct Loopback {
    table: apibind::binding::BindingTable<DemoHandler>,
}

impl ClientTransport for Loopback {
    fn send(&mut self, rq: RequestDescriptor) -> Result<ResponseDescriptor, Vec<u8>> {
        Ok(dispatch(&self.table, &rq))
    }
}

#[test]
fn client_round_trip_through_dispatch() {
    let api = my_api();
    let mut transport = Loopback { table: demo_table() };
    let args = vec![Value::Uint(7), text("alice")];
    let got = call_route(&api, 0, &args, &mut transport).unwrap();
    assert_eq!(got, user(7, "alice"));

    let args = vec![Value::Bool(true)];
    let got = call_route(&api, 1, &args, &mut transport).unwrap();
    assert_eq!(got, Value::List(vec![]));
}

#[test]
fn client_surfaces_error_responses() {
    let api = my_api();
    let mut transport = Loopback { table: demo_table() };
    // Malformed argument shape cannot arise through the typed surface, so
    // fail at the server by omitting the required query parameter: the
    // dispatcher cannot be reached with it missing through call_route, so
    // use a transport that drops the query string.
    struct Dropping {
        table: apibind::binding::BindingTable<DemoHandler>,
    }
    impl ClientTransport for Dropping {
        fn send(&mut self, mut rq: RequestDescriptor) -> Result<ResponseDescriptor, Vec<u8>> {
            rq.query = Vec::new();
            Ok(dispatch(&self.table, &rq))
        }
    }
    let mut dropping = Dropping { table: demo_table() };
    let args = vec![Value::Bool(true)];
    let r = call_route(&api, 1, &args, &mut dropping);
    assert_eq!(
        r,
        Err(ClientError::ErrorResponse(Status::BadRequest, b"sort".to_vec()))
    );
    // A failing transport is its own error.
    struct Dead;
    impl ClientTransport for Dead {
        fn send(&mut self, _rq: RequestDescriptor) -> Result<ResponseDescriptor, Vec<u8>> {
            Err(b"down".to_vec())
        }
    }
    let r = call_route(&api, 1, &args, &mut Dead);
    assert_eq!(r, Err(ClientError::Transport(b"down".to_vec())));
    let args = vec![Value::Bool(false)];
    let ok = call_route(&api, 1, &args, &mut transport);
    assert_eq!(ok, Ok(Value::List(vec![])));
}

#[test]
fn garbage_success_body_is_a_decode_error() {
    struct Garbage;
    impl ClientTransport for Garbage {
        fn send(&mut self, _rq: RequestDescriptor) -> Result<ResponseDescriptor, Vec<u8>> {
            Ok(ResponseDescriptor { status: Status::Success, body: b"not a list".to_vec() })
        }
    }
    let api = my_api();
    let args = vec![Value::Bool(true)];
    let r = call_route(&api, 1, &args, &mut Garbage);
    assert_eq!(r, Err(ClientError::Decode));
}

#[test]
fn path_resolves_before_the_method_is_checked() {
    // `/user/create` exists only as POST; `/user/<id>` exists as GET.
    // A GET request to `/user/create` resolves to the literal path first,
    // so the answer is MethodNotAllowed, not the capture route.
    let mut reg = TypeRegistry::new();
    reg.register(b"Num".to_vec(), TypeKind::Uint, b"numeric".to_vec()).unwrap();
    let lit = path(b"create".to_vec()).ret(Method::Post, b"Num".to_vec());
    let cap = apibind::schema::RouteBuilder {
        segs: vec![apibind::schema::Seg::Capture(b"id".to_vec(), b"Num".to_vec())],
        query: Vec::new(),
        body: None,
    }
    .ret(Method::Get, b"Num".to_vec());
    let api = Api::new().path(b"user".to_vec()).alt(vec![lit, cap]).finalize(reg).unwrap();
    let table = bind(api, vec![(0, LitOrCap::Lit), (1, LitOrCap::Cap)]).unwrap();
    let resp = dispatch(&table, &req(Method::Get, "/user/create", "", Vec::new()));
    assert_eq!(resp.status, Status::MethodNotAllowed);
}

#[test]
fn demo_handlers_compute_their_values() {
    assert_eq!(handler_user_create(7, b"alice".to_vec()), user(7, "alice"));
    assert_eq!(handler_users_get(true), Value::List(vec![]));
    let reg = demo_registry();
    assert!(reg.resolve(&b"UserId".to_vec()).is_some());
    assert!(reg.resolve(&b"Unknown".to_vec()).is_none());
}
