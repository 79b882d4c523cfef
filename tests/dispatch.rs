use bustapi_core::request::RequestData;
use bustapi_core::response::ResponseData;
use bustapi_core::router::{CompiledHandler, Decision, Handled, HandlerKind, Router};
use bustapi_core::template::{compile_structure, ExprNode, Piece, Shape};
use bustapi_core::value::{FloatTerm, Op, TypedValue};
use bustapi_core::{FastRouteHandler, Middleware, Passthrough};

type Nop = Passthrough;

fn request(method: &str, path: &str, query: &str) -> RequestData {
    RequestData {
        method: method.to_string(),
        path: path.to_string(),
        query_string: query.to_string(),
        headers: Vec::new(),
        body: Vec::new(),
        query_params: Vec::new(),
    }
}

fn respond(d: Decision) -> ResponseData {
    match d {
        Decision::Respond(r) => r,
        other => panic!("expected a response, got {:?}", other),
    }
}

fn header<'a>(r: &'a ResponseData, k: &str) -> Option<&'a str> {
    r.get_header(k).map(|s| s.as_str())
}

fn callback_params(d: Decision) -> (u64, Vec<(String, TypedValue)>) {
    match d {
        Decision::Call { callback, params } => (callback, params),
        other => panic!("expected a call, got {:?}", other),
    }
}

fn calc_template() -> Shape {
    Shape::Object(vec![
        ("id".to_string(), Shape::Trace("id".to_string())),
        (
            "sum".to_string(),
            Shape::Expr(ExprNode::BinaryOp(
                Box::new(ExprNode::Param("id".to_string())),
                Op::Add,
                Box::new(ExprNode::LiteralInt(1)),
            )),
        ),
    ])
}

#[test]
fn int_param_extracted() {
    let mut r: Router<Nop> = Router::new();
    r.add_route("GET", "/users/<int:id>", HandlerKind::Callback(7));
    let (cb, params) = callback_params(r.route_request(&request("GET", "/users/42", "")));
    assert_eq!(cb, 7);
    assert_eq!(params.len(), 1);
    assert_eq!(params[0].0, "id");
    assert!(matches!(params[0].1, TypedValue::Int(42)));
}

#[test]
fn int_param_mismatch_is_400() {
    let mut r: Router<Nop> = Router::new();
    r.add_route("GET", "/users/<int:id>", HandlerKind::Callback(7));
    let resp = respond(r.route_request(&request("GET", "/users/abc", "")));
    assert_eq!(resp.status, 400);
    let body = String::from_utf8(resp.body.clone()).unwrap();
    assert!(body.contains("id"));
    assert_eq!(body, "Parameter 'id': expected int, got 'abc'");
    assert_eq!(header(&resp, "Content-Type"), Some("text/plain; charset=utf-8"));
}

#[test]
fn int_overflow_becomes_big_int() {
    let mut r: Router<Nop> = Router::new();
    r.add_route("GET", "/users/<int:id>", HandlerKind::Callback(1));
    let (_, params) =
        callback_params(r.route_request(&request("GET", "/users/9223372036854775808", "")));
    match &params[0].1 {
        TypedValue::BigInt(s) => assert_eq!(s, "9223372036854775808"),
        other => panic!("expected a big integer, got {:?}", other),
    }
    let (_, params) =
        callback_params(r.route_request(&request("GET", "/users/-9223372036854775809", "")));
    assert!(matches!(params[0].1, TypedValue::BigInt(_)));
    let (_, params) =
        callback_params(r.route_request(&request("GET", "/users/-9223372036854775808", "")));
    assert!(matches!(params[0].1, TypedValue::Int(i64::MIN)));
    let (_, params) = callback_params(r.route_request(&request("GET", "/users/+5", "")));
    assert!(matches!(params[0].1, TypedValue::Int(5)));
    let resp = respond(r.route_request(&request("GET", "/users/--5", "")));
    assert_eq!(resp.status, 400);
}

#[test]
fn compiled_template_renders_sum() {
    let mut r: Router<Nop> = Router::new();
    let template = compile_structure(&calc_template());
    r.add_route("GET", "/calc/<int:id>", HandlerKind::Compiled(CompiledHandler { template }));
    let resp = respond(r.route_request(&request("GET", "/calc/5", "")));
    assert_eq!(resp.status, 200);
    assert_eq!(String::from_utf8(resp.body.clone()).unwrap(), "{\"id\":5,\"sum\":6}");
    assert_eq!(header(&resp, "Content-Type"), Some("application/json"));
}

#[test]
fn trailing_slash_redirect() {
    let mut r: Router<Nop> = Router::new();
    r.add_route("GET", "/a/", HandlerKind::Fast(FastRouteHandler::new("{}".to_string())));
    let resp = respond(r.route_request(&request("GET", "/a", "")));
    assert_eq!(resp.status, 307);
    assert_eq!(header(&resp, "Location"), Some("/a/"));
    assert!(resp.body.is_empty());
    let resp = respond(r.route_request(&request("GET", "/a", "x=1")));
    assert_eq!(resp.status, 307);
    assert_eq!(header(&resp, "Location"), Some("/a/?x=1"));
}

#[test]
fn trailing_slash_stripped_redirect() {
    let mut r: Router<Nop> = Router::new();
    r.add_route("GET", "/b", HandlerKind::Fast(FastRouteHandler::new("{}".to_string())));
    let resp = respond(r.route_request(&request("GET", "/b/", "")));
    assert_eq!(resp.status, 307);
    assert_eq!(header(&resp, "Location"), Some("/b"));
}

#[test]
fn head_falls_back_to_get() {
    let mut r: Router<Nop> = Router::new();
    r.add_route("GET", "/ping", HandlerKind::Fast(FastRouteHandler::new("pong".to_string())));
    let get = respond(r.route_request(&request("GET", "/ping", "")));
    let head = respond(r.route_request(&request("HEAD", "/ping", "")));
    assert_eq!(head.status, get.status);
    assert_eq!(head.headers, get.headers);
    assert_eq!(head.body, b"pong".to_vec());
    let post = respond(r.route_request(&request("POST", "/ping", "")));
    assert_eq!(post.status, 404);
}

#[test]
fn miss_is_404() {
    let r: Router<Nop> = Router::new();
    let resp = respond(r.route_request(&request("GET", "/nothing", "")));
    assert_eq!(resp.status, 404);
    assert_eq!(resp.body, b"Not Found".to_vec());
}

#[test]
fn params_in_declared_order() {
    let mut r: Router<Nop> = Router::new();
    r.add_route("GET", "/a/<int:x>/b/<y>/<path:rest>", HandlerKind::Callback(3));
    let (_, params) = callback_params(r.route_request(&request("GET", "/a/1/b/two/c/d", "")));
    let names: Vec<&str> = params.iter().map(|p| p.0.as_str()).collect();
    assert_eq!(names, vec!["x", "y", "rest"]);
    assert!(matches!(params[0].1, TypedValue::Int(1)));
    assert!(matches!(&params[1].1, TypedValue::Str(s) if s == "two"));
    assert!(matches!(&params[2].1, TypedValue::Str(s) if s == "c/d"));
}

#[test]
fn catch_all_needs_a_segment() {
    let mut r: Router<Nop> = Router::new();
    r.add_route("GET", "/files/<path:p>", HandlerKind::Callback(3));
    let (_, params) = callback_params(r.route_request(&request("GET", "/files/", "")));
    assert!(matches!(&params[0].1, TypedValue::Str(s) if s.is_empty()));
    let resp = respond(r.route_request(&request("GET", "/files", "")));
    assert_eq!(resp.status, 404);
}

#[test]
fn later_registration_wins() {
    let mut r: Router<Nop> = Router::new();
    assert!(!r.add_route("GET", "/u/<int:id>", HandlerKind::Callback(1)));
    assert!(r.add_route("GET", "/u/<name>", HandlerKind::Callback(2)));
    assert_eq!(r.route_count(), 1);
    assert_eq!(r.handler_count(), 2);
    let (cb, params) = callback_params(r.route_request(&request("GET", "/u/bob", "")));
    assert_eq!(cb, 2);
    assert_eq!(params[0].0, "name");
    let routes = r.get_routes();
    assert_eq!(routes, vec![("GET".to_string(), "/u/<name>".to_string(), 1usize)]);
}

#[test]
fn literal_route_before_pattern() {
    let mut r: Router<Nop> = Router::new();
    r.add_route("GET", "/users/<name>", HandlerKind::Callback(1));
    r.add_route("GET", "/users/me", HandlerKind::Callback(2));
    let (cb, _) = callback_params(r.route_request(&request("GET", "/users/me", "")));
    assert_eq!(cb, 2);
    let (cb, _) = callback_params(r.route_request(&request("GET", "/users/you", "")));
    assert_eq!(cb, 1);
}

#[test]
fn float_param_left_to_host() {
    let mut r: Router<Nop> = Router::new();
    let shape = Shape::Object(vec![("x".to_string(), Shape::Trace("x".to_string()))]);
    r.add_route(
        "GET",
        "/f/<float:x>",
        HandlerKind::Compiled(CompiledHandler { template: compile_structure(&shape) }),
    );
    match r.route_request(&request("GET", "/f/1.5e3", "")) {
        Decision::Render(pieces) => {
            assert_eq!(pieces.len(), 4);
            assert!(matches!(&pieces[0], Piece::Text(t) if t == "{"));
            assert!(matches!(&pieces[1], Piece::Text(t) if t == "\"x\":"));
            assert!(matches!(&pieces[2], Piece::Float(FloatTerm::Text(t)) if t == "1.5e3"));
            assert!(matches!(&pieces[3], Piece::Text(t) if t == "}"));
        }
        other => panic!("expected pieces, got {:?}", other),
    }
    let resp = respond(r.route_request(&request("GET", "/f/1.5.3", "")));
    assert_eq!(resp.status, 400);
    assert_eq!(
        String::from_utf8(resp.body.clone()).unwrap(),
        "Parameter 'x': expected float, got '1.5.3'"
    );
}

#[test]
fn float_literal_shapes_accepted() {
    let mut r: Router<Nop> = Router::new();
    r.add_route("GET", "/f/<float:x>", HandlerKind::Callback(1));
    for ok in ["1", "1.", ".5", "-2.5E-3", "+inf", "NaN", "Infinity", "7e10"] {
        let (_, params) = callback_params(r.route_request(&request("GET", &format!("/f/{}", ok), "")));
        assert!(matches!(&params[0].1, TypedValue::Float(FloatTerm::Text(t)) if t == ok));
    }
    for bad in ["", ".", "e5", "1e", "1e+", "infin", "0x10", "1_0"] {
        let resp = respond(r.route_request(&request("GET", &format!("/f/{}", bad), "")));
        assert_eq!(resp.status, 400, "{}", bad);
    }
}

#[test]
fn unknown_type_token_is_string() {
    let mut r: Router<Nop> = Router::new();
    r.add_route("GET", "/t/<uuid:v>/<INT:n>", HandlerKind::Callback(1));
    let (_, params) = callback_params(r.route_request(&request("GET", "/t/abc/12", "")));
    assert!(matches!(&params[0].1, TypedValue::Str(s) if s == "abc"));
    assert!(matches!(params[1].1, TypedValue::Int(12)));
}

#[test]
fn unbalanced_placeholder_is_literal() {
    let mut r: Router<Nop> = Router::new();
    r.add_route("GET", "/x/<id", HandlerKind::Callback(1));
    let (_, params) = callback_params(r.route_request(&request("GET", "/x/<id", "")));
    assert!(params.is_empty());
    let resp = respond(r.route_request(&request("GET", "/x/5", "")));
    assert_eq!(resp.status, 404);
}

struct Gate;

impl Middleware for Gate {
    fn process_request(&self, req: &mut RequestData) -> Result<(), ResponseData> {
        if req.path == "/blocked" {
            Err(ResponseData::with_status(403))
        } else {
            Ok(())
        }
    }
    fn process_response(&self, _req: &RequestData, resp: &mut ResponseData) {
        resp.set_header("X-Seen", "yes");
    }
}

#[test]
fn middleware_short_circuits_and_decorates() {
    let mut r: Router<Gate> = Router::new();
    r.add_middleware(Gate);
    r.add_route("GET", "/ok", HandlerKind::Fast(FastRouteHandler::new("{}".to_string())));
    r.add_route("GET", "/blocked", HandlerKind::Fast(FastRouteHandler::new("{}".to_string())));
    match r.handle_request(request("GET", "/blocked", "")) {
        Handled::Done(resp) => {
            assert_eq!(resp.status, 403);
            assert_eq!(header(&resp, "X-Seen"), None);
        }
        other => panic!("{:?}", other),
    }
    match r.handle_request(request("GET", "/ok", "")) {
        Handled::Done(resp) => {
            assert_eq!(resp.status, 200);
            assert_eq!(header(&resp, "X-Seen"), Some("yes"));
        }
        other => panic!("{:?}", other),
    }
}

#[test]
fn pending_call_then_finish() {
    let mut r: Router<Gate> = Router::new();
    r.add_middleware(Gate);
    r.add_route("POST", "/items/<int:n>", HandlerKind::Callback(9));
    match r.handle_request(request("POST", "/items/3", "")) {
        Handled::Pending { req, decision } => {
            let (cb, params) = callback_params(decision);
            assert_eq!(cb, 9);
            assert!(matches!(params[0].1, TypedValue::Int(3)));
            let resp = r.finish(&req, ResponseData::with_status(201));
            assert_eq!(resp.status, 201);
            assert_eq!(header(&resp, "X-Seen"), Some("yes"));
        }
        other => panic!("{:?}", other),
    }
}

#[test]
fn passthrough_pipeline() {
    let mut r: Router<Passthrough> = Router::new();
    r.add_middleware(Passthrough);
    r.add_route("GET", "/p", HandlerKind::Fast(FastRouteHandler::new("{}".to_string())));
    match r.handle_request(request("GET", "/p", "")) {
        Handled::Done(resp) => {
            assert_eq!(resp.status, 200);
            assert_eq!(resp.body, b"{}".to_vec());
        }
        other => panic!("{:?}", other),
    }
}

#[test]
fn test_module_creation() {
    assert_eq!(2 + 2, 4);
}

#[test]
fn placeholder_names_are_trimmed() {
    let mut r: Router<Nop> = Router::new();
    r.add_route("GET", "/t/< id >/<int: n >", HandlerKind::Callback(1));
    let (_, params) = callback_params(r.route_request(&request("GET", "/t/a/3", "")));
    assert_eq!(params[0].0, "id");
    assert_eq!(params[1].0, "n");
    assert!(matches!(params[1].1, TypedValue::Int(3)));
}

#[test]
fn path_placeholder_not_last_keeps_type() {
    let cp = bustapi_core::pattern::compile_pattern("/a/<path:p>/b");
    assert_eq!(cp.specs.len(), 1);
    assert_eq!(cp.specs[0].kind, bustapi_core::ParamType::Path);
    let mut r: Router<Nop> = Router::new();
    r.add_route("GET", "/a/<path:p>/b", HandlerKind::Callback(1));
    let (_, params) = callback_params(r.route_request(&request("GET", "/a/x/b", "")));
    assert!(matches!(&params[0].1, TypedValue::Str(s) if s == "x"));
}

#[test]
fn compiled_handler_answers_directly() {
    let c = CompiledHandler { template: compile_structure(&calc_template()) };
    let resp = respond(c.handle(&vec![("id".to_string(), TypedValue::Int(5))]));
    assert_eq!(resp.body, b"{\"id\":5,\"sum\":6}".to_vec());
}

#[test]
fn head_redirects_like_get() {
    let mut r: Router<Nop> = Router::new();
    r.add_route("GET", "/c/", HandlerKind::Fast(FastRouteHandler::new("{}".to_string())));
    let resp = respond(r.route_request(&request("HEAD", "/c", "")));
    assert_eq!(resp.status, 307);
    assert_eq!(header(&resp, "Location"), Some("/c/"));
}

#[test]
fn slash_is_toggled_not_doubled() {
    let mut r: Router<Nop> = Router::new();
    r.add_route("GET", "/a//", HandlerKind::Fast(FastRouteHandler::new("{}".to_string())));
    let resp = respond(r.route_request(&request("GET", "/a/", "")));
    assert_eq!(resp.status, 404);
    let resp = respond(r.route_request(&request("GET", "/a//", "")));
    assert_eq!(resp.status, 200);
}

#[test]
fn params_for_pattern_and_path() {
    let got = bustapi_core::extract::params_for("/a/<int:x>/b/< y >", "/a/7/b/z").unwrap().unwrap();
    assert_eq!(got.len(), 2);
    assert_eq!(got[0].0, "x");
    assert!(matches!(got[0].1, TypedValue::Int(7)));
    assert_eq!(got[1].0, "y");
    assert!(bustapi_core::extract::params_for("/a/<int:x>", "/b/7").is_none());
    let err = bustapi_core::extract::params_for("/a/<int:x>", "/a/q").unwrap().unwrap_err();
    assert_eq!(err.name, "x");
}
