use bustapi_core::converters::{response_for_body, response_with_headers, response_with_status};
use bustapi_core::extract::ParamError;
use bustapi_core::template::{
    compile_structure, evaluate_expr, join_text, render, EvalError, ExprNode, Piece, Shape,
    TemplatePart,
};
use bustapi_core::token::hex_encode;
use bustapi_core::value::{FloatTerm, Op, ParamType, TypedValue};
use bustapi_core::{
    generate_csrf_token, generate_token, parse_range_header, FastRouteHandler, FunctionHandler,
    MessageGate, RequestData, ResponseData, ServerConfig, TurboWebSocketHandler, WebSocketConfig,
    WsAction,
};

fn int_param(name: &str, v: i64) -> (String, TypedValue) {
    (name.to_string(), TypedValue::Int(v))
}

fn bin(l: ExprNode, op: Op, r: ExprNode) -> ExprNode {
    ExprNode::BinaryOp(Box::new(l), op, Box::new(r))
}

fn p(name: &str) -> ExprNode {
    ExprNode::Param(name.to_string())
}

#[test]
fn pure_literal_round_trip() {
    let shape = Shape::Object(vec![
        (
            "a".to_string(),
            Shape::Array(vec![Shape::Int(1), Shape::Bool(true), Shape::Null, Shape::Int(-20)]),
        ),
        ("b".to_string(), Shape::Str("x y".to_string())),
        ("c".to_string(), Shape::Float("2.5".to_string())),
        ("d".to_string(), Shape::Object(Vec::new())),
        ("e".to_string(), Shape::Bool(false)),
        ("f".to_string(), Shape::Other("obj".to_string())),
    ]);
    let tpl = compile_structure(&shape);
    assert!(tpl.iter().all(|t| matches!(t, TemplatePart::Static(_))));
    let pieces = render(&tpl, &Vec::new());
    assert_eq!(
        join_text(&pieces).unwrap(),
        "{\"a\":[1,true,null,-20],\"b\":\"x y\",\"c\":2.5,\"d\":{},\"e\":false,\"f\":\"obj\"}"
    );
}

#[test]
fn compile_twice_identical() {
    let shape = Shape::Object(vec![
        ("id".to_string(), Shape::Trace("id".to_string())),
        ("half".to_string(), Shape::Expr(bin(p("id"), Op::Div, ExprNode::LiteralInt(2)))),
        ("list".to_string(), Shape::Array(vec![Shape::Str("k".to_string())])),
    ]);
    let a = compile_structure(&shape);
    let b = compile_structure(&shape);
    assert_eq!(format!("{:?}", a), format!("{:?}", b));
    assert_eq!(a.len(), 12);
}

#[test]
fn strings_are_not_escaped() {
    let shape = Shape::Str("say \"hi\"".to_string());
    let tpl = compile_structure(&shape);
    let text = join_text(&render(&tpl, &Vec::new())).unwrap();
    assert_eq!(text, "\"say \"hi\"\"");
}

#[test]
fn dynamic_values_written_by_type() {
    let shape = Shape::Array(vec![
        Shape::Trace("i".to_string()),
        Shape::Trace("b".to_string()),
        Shape::Trace("s".to_string()),
        Shape::Trace("missing".to_string()),
    ]);
    let params = vec![
        int_param("i", -7),
        ("b".to_string(), TypedValue::BigInt("123456789012345678901".to_string())),
        ("s".to_string(), TypedValue::Str("txt".to_string())),
    ];
    let text = join_text(&render(&compile_structure(&shape), &params)).unwrap();
    assert_eq!(text, "[-7,123456789012345678901,\"txt\",null]");
}

#[test]
fn integer_arithmetic() {
    let params = vec![int_param("a", 7), int_param("b", 3)];
    assert!(matches!(evaluate_expr(&bin(p("a"), Op::Add, p("b")), &params), Ok(TypedValue::Int(10))));
    assert!(matches!(evaluate_expr(&bin(p("a"), Op::Sub, p("b")), &params), Ok(TypedValue::Int(4))));
    assert!(matches!(evaluate_expr(&bin(p("a"), Op::Mul, p("b")), &params), Ok(TypedValue::Int(21))));
    let nested = bin(bin(p("a"), Op::Mul, ExprNode::LiteralInt(2)), Op::Sub, p("b"));
    assert!(matches!(evaluate_expr(&nested, &params), Ok(TypedValue::Int(11))));
}

#[test]
fn division_gives_float_term() {
    let params = vec![int_param("a", 7), int_param("b", 2)];
    match evaluate_expr(&bin(p("a"), Op::Div, p("b")), &params) {
        Ok(TypedValue::Float(FloatTerm::Bin(l, Op::Div, r))) => {
            assert!(matches!(*l, FloatTerm::OfInt(7)));
            assert!(matches!(*r, FloatTerm::OfInt(2)));
        }
        other => panic!("{:?}", other),
    }
    let half = 0.5f64.to_bits();
    match evaluate_expr(&bin(p("a"), Op::Mul, ExprNode::LiteralFloat(half)), &params) {
        Ok(TypedValue::Float(FloatTerm::Bin(l, Op::Mul, r))) => {
            assert!(matches!(*l, FloatTerm::OfInt(7)));
            assert!(matches!(*r, FloatTerm::Bits(b) if b == half));
        }
        other => panic!("{:?}", other),
    }
}

#[test]
fn evaluation_errors() {
    let params = vec![
        int_param("big", i64::MAX),
        ("s".to_string(), TypedValue::Str("x".to_string())),
        ("n".to_string(), TypedValue::BigInt("99999999999999999999".to_string())),
    ];
    assert!(matches!(
        evaluate_expr(&bin(p("nope"), Op::Add, ExprNode::LiteralInt(1)), &params),
        Err(EvalError::MissingParam)
    ));
    assert!(matches!(
        evaluate_expr(&bin(p("s"), Op::Add, ExprNode::LiteralInt(1)), &params),
        Err(EvalError::UnsupportedOperands)
    ));
    assert!(matches!(
        evaluate_expr(&bin(p("n"), Op::Mul, ExprNode::LiteralInt(1)), &params),
        Err(EvalError::UnsupportedOperands)
    ));
    assert!(matches!(
        evaluate_expr(&bin(p("big"), Op::Add, ExprNode::LiteralInt(1)), &params),
        Err(EvalError::Overflow)
    ));
}

#[test]
fn failed_expression_renders_null() {
    let shape = Shape::Object(vec![(
        "v".to_string(),
        Shape::Expr(bin(p("s"), Op::Add, ExprNode::LiteralInt(1))),
    )]);
    let params = vec![("s".to_string(), TypedValue::Str("x".to_string()))];
    let text = join_text(&render(&compile_structure(&shape), &params)).unwrap();
    assert_eq!(text, "{\"v\":null}");
}

#[test]
fn float_pieces_block_joining() {
    let pieces = vec![Piece::Text("a".to_string()), Piece::Float(FloatTerm::Bits(0))];
    assert!(join_text(&pieces).is_none());
}

#[test]
fn param_type_tokens() {
    assert_eq!(ParamType::from_str("INT"), ParamType::Int);
    assert_eq!(ParamType::from_str("Float"), ParamType::Float);
    assert_eq!(ParamType::from_str("path"), ParamType::Path);
    assert_eq!(ParamType::from_str("string"), ParamType::Str);
    assert_eq!(ParamType::from_str("uuid"), ParamType::Str);
}

#[test]
fn param_error_message() {
    let e = ParamError { name: "n".to_string(), expected: ParamType::Float, got: "zz".to_string() };
    assert_eq!(e.message(), "Parameter 'n': expected float, got 'zz'");
}

#[test]
fn response_headers() {
    let mut r = ResponseData::new();
    assert_eq!(r.status, 200);
    r.set_header("X-A", "1");
    r.set_header("X-B", "2");
    r.set_header("X-A", "3");
    assert_eq!(r.headers.len(), 2);
    assert_eq!(r.get_header("X-A").map(|s| s.as_str()), Some("3"));
    assert_eq!(r.get_header("x-a"), None);
    assert_eq!(r.content_length(), 0);
}

#[test]
fn response_constructors() {
    let r = ResponseData::json_static("{\"a\":1}");
    assert_eq!(r.body, b"{\"a\":1}".to_vec());
    assert_eq!(r.get_header("Content-Type").unwrap(), "application/json");
    let r = ResponseData::html("<p>é</p>".to_string());
    assert_eq!(r.body, "<p>é</p>".as_bytes().to_vec());
    assert_eq!(r.get_header("Content-Type").unwrap(), "text/html; charset=utf-8");
    let r = ResponseData::text("hi".to_string());
    assert_eq!(r.get_header("Content-Type").unwrap(), "text/plain; charset=utf-8");
    let r = ResponseData::redirect("/x", true);
    assert_eq!(r.status, 301);
    assert_eq!(r.get_header("Location").unwrap(), "/x");
    assert_eq!(ResponseData::redirect("/x", false).status, 302);
    let r = ResponseData::from_static(b"abc");
    assert_eq!(r.body, b"abc".to_vec());
    assert_eq!(ResponseData::with_body(vec![1, 2]).content_length(), 2);
}

#[test]
fn error_response_bodies() {
    let r = ResponseData::error(404, None);
    assert_eq!(r.status, 404);
    assert_eq!(r.body, b"Not Found".to_vec());
    let r = ResponseData::error(500, Some("boom"));
    assert_eq!(r.body, b"boom".to_vec());
    let r = ResponseData::error(599, None);
    assert_eq!(r.body, b"Unknown Error".to_vec());
    assert_eq!(ResponseData::error(42, None).body, b"Unknown Error".to_vec());
}

#[test]
fn status_and_body_text() {
    let mut r = ResponseData::with_status(204);
    assert!(r.is_success());
    r.set_status(404);
    assert!(!r.is_success());
    r.set_body("ok".as_bytes().to_vec());
    assert_eq!(r.body_as_string(), Some("ok".to_string()));
    r.set_body(vec![0xff, 0xfe]);
    assert_eq!(r.body_as_string(), None);
}

#[test]
fn range_headers() {
    assert_eq!(parse_range_header("bytes=0-99", 1000), Some((0, 99)));
    assert_eq!(parse_range_header("bytes=500-", 1000), Some((500, 999)));
    assert_eq!(parse_range_header("bytes=-500", 1000), Some((0, 500)));
    assert_eq!(parse_range_header("bytes=900-5000", 1000), Some((900, 999)));
    assert_eq!(parse_range_header("bytes=2000-3000", 1000), None);
    assert_eq!(parse_range_header("bytes=5-2", 1000), None);
    assert_eq!(parse_range_header("items=0-1", 1000), None);
    assert_eq!(parse_range_header("bytes=x-y", 1000), Some((0, 999)));
    assert_eq!(parse_range_header("bytes=0-1", 0), None);
    assert_eq!(parse_range_header("bytes=", 10), Some((0, 9)));
}

#[test]
fn hex_and_tokens() {
    assert_eq!(hex_encode(&vec![0x00, 0xff, 0x1a]), "00ff1a");
    let t = generate_token(16);
    assert_eq!(t.len(), 32);
    assert!(t.chars().all(|c| c.is_ascii_hexdigit() && !c.is_ascii_uppercase()));
    let c = generate_csrf_token();
    assert_eq!(c.len(), 64);
    assert_ne!(c, generate_csrf_token());
}

#[test]
fn websocket_limits() {
    let cfg = WebSocketConfig::new(Some(5), Some(2), None, None);
    let mut g = MessageGate::new();
    assert_eq!(g.on_message(&cfg, false, Some(3)), WsAction::Accept);
    assert_eq!(g.on_message(&cfg, false, None), WsAction::Accept);
    assert_eq!(g.on_message(&cfg, false, Some(1)), WsAction::CloseRateLimited);
    let mut g = MessageGate::new();
    assert_eq!(g.on_message(&cfg, false, Some(1)), WsAction::Accept);
    assert_eq!(g.on_message(&cfg, false, Some(1)), WsAction::Accept);
    assert_eq!(g.on_message(&cfg, true, Some(1)), WsAction::Accept);
    assert_eq!(g.count, 1);
    assert_eq!(g.on_message(&cfg, false, Some(6)), WsAction::CloseTooBig);
    let open = WebSocketConfig::new(None, None, Some(30), Some(60));
    let mut g = MessageGate::new();
    for _ in 0..10 {
        assert_eq!(g.on_message(&open, false, Some(1_000_000)), WsAction::Accept);
    }
    assert_eq!(g.count, 0);
}

#[test]
fn turbo_websocket_reply() {
    let h = TurboWebSocketHandler::new("Echo: ".to_string());
    assert_eq!(h.format_response("hi"), "Echo: hi");
}

#[test]
fn fast_handler_content_type() {
    let req = RequestData {
        method: "GET".to_string(),
        path: "/".to_string(),
        query_string: String::new(),
        headers: Vec::new(),
        body: Vec::new(),
        query_params: Vec::new(),
    };
    let h = FastRouteHandler::new("<b>x</b>".to_string()).with_content_type("text/html");
    let r = h.handle(&req);
    assert_eq!(r.status, 200);
    assert_eq!(r.body, b"<b>x</b>".to_vec());
    assert_eq!(r.get_header("Content-Type").unwrap(), "text/html");
    let f = FunctionHandler::new(|q: RequestData| ResponseData::text(q.path));
    let r = f.handle(req);
    assert_eq!(r.body, b"/".to_vec());
}

#[test]
fn server_config_defaults() {
    let c = ServerConfig::default();
    assert_eq!(c.host, "127.0.0.1");
    assert_eq!(c.port, 5000);
    assert!(!c.debug);
    assert!(c.workers >= 1);
}

#[test]
fn static_part_texts() {
    let tpl = compile_structure(&Shape::Object(vec![("k".to_string(), Shape::Int(0))]));
    let texts: Vec<String> = tpl
        .iter()
        .map(|t| match t {
            TemplatePart::Static(s) => s.clone(),
            other => panic!("{:?}", other),
        })
        .collect();
    assert_eq!(texts, vec!["{", "\"k\":", "0", "}"]);
}

#[test]
fn bare_body_content_types() {
    let r = response_for_body("  <p>x</p>".to_string());
    assert_eq!(r.get_header("Content-Type").unwrap(), "text/html; charset=utf-8");
    assert_eq!(r.body, b"  <p>x</p>".to_vec());
    let r = response_for_body("\n[1,2]".to_string());
    assert_eq!(r.get_header("Content-Type").unwrap(), "application/json");
    let r = response_for_body("plain".to_string());
    assert_eq!(r.get_header("Content-Type").unwrap(), "text/plain; charset=utf-8");
    let r = response_for_body("   ".to_string());
    assert_eq!(r.get_header("Content-Type").unwrap(), "text/plain; charset=utf-8");
}

#[test]
fn status_and_headers_from_handler() {
    let r = response_with_status("{}".to_string(), 201);
    assert_eq!(r.status, 201);
    assert_eq!(r.get_header("Content-Type").unwrap(), "application/json");
    assert_eq!(response_with_status("{}".to_string(), 1000).status, 200);
    assert_eq!(response_with_status("{}".to_string(), 99).status, 200);
    let headers = vec![
        ("X-Id".to_string(), "9".to_string()),
        ("CONTENT-TYPE".to_string(), "text/csv".to_string()),
    ];
    let r = response_with_headers("a,b".to_string(), 202, &headers);
    assert_eq!(r.status, 202);
    assert_eq!(r.body, b"a,b".to_vec());
    assert_eq!(r.get_header("X-Id").unwrap(), "9");
    assert_eq!(r.get_header("CONTENT-TYPE").unwrap(), "text/csv");
    assert_eq!(r.get_header("Content-Type").unwrap(), "text/csv");
    let r = response_with_headers("x".to_string(), 200, &Vec::new());
    assert_eq!(r.get_header("Content-Type").unwrap(), "application/json");
}

#[test]
fn response_object_parts() {
    let headers = vec![("X-A".to_string(), "1".to_string()), ("X-A".to_string(), "2".to_string())];
    let r = bustapi_core::converters::response_from_parts(vec![1, 2], 0, &headers);
    assert_eq!(r.status, 200);
    assert_eq!(r.body, vec![1, 2]);
    assert_eq!(r.headers.len(), 1);
    assert_eq!(r.get_header("X-A").unwrap(), "2");
    assert_eq!(response_for_body("\u{3000}{\"a\":1}".to_string()).get_header("Content-Type").unwrap(), "application/json");
}

#[test]
fn json_body_response() {
    let r = ResponseData::json_body(b"[1]".to_vec());
    assert_eq!(r.status, 200);
    assert_eq!(r.body, b"[1]".to_vec());
    assert_eq!(r.get_header("Content-Type").unwrap(), "application/json");
    assert_eq!(r.headers.len(), 1);
}
