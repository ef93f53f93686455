//! The resolver end to end: templates over resources, derived requests with
//! the request cache, memoization, cycle detection, and the resolution
//! errors — driven exactly as the shell drives it, with the test standing in
//! for the network.

use http_hammer::config::{BodyExtract, FromResponseBody, MaybeDeleted, RequestInfo, Value};
use http_hammer::error::EvalError;
use http_hammer::eval::{Evaluator, Step};

const FUEL: u64 = 64;

fn s(text: &str) -> String {
    text.to_string()
}

fn constant_body(text: &str) -> Box<Value> {
    Box::new(Value::Constant(s(text)))
}

fn plain_request(method: &str, uri: &str, body: &str) -> RequestInfo {
    RequestInfo {
        uri: s(uri),
        method: s(method),
        cookies: vec![],
        headers: vec![],
        body: constant_body(body),
    }
}

#[test]
fn constants_resolve_to_themselves() {
    let mut ev = Evaluator::new(vec![]);
    match Value::Constant(s("Hello, world!")).evaluate(&mut ev, FUEL) {
        Step::Done(out) => assert_eq!(out, "Hello, world!"),
        _ => panic!("a constant must resolve directly"),
    }
}

#[test]
fn simple_get_request_builds_concretely() {
    // endpoint `GET {server}/hello` with body "Hello, world!": the built
    // request carries exactly that method, URI and body
    let mut ev = Evaluator::new(vec![]);
    let req = plain_request("GET", "http://server.test/hello", "Hello, world!");
    match req.build(&mut ev, FUEL) {
        Step::Done(built) => {
            assert_eq!(built.method(), "GET");
            assert_eq!(built.uri(), "http://server.test/hello");
            assert_eq!(built.body(), "Hello, world!");
            assert_eq!(built.headers(), &vec![(s("cookie"), s(""))]);
        },
        _ => panic!("a request without resources needs no network"),
    }
}

#[test]
fn deleted_entries_never_reach_the_wire() {
    // global header X-Second deleted by the endpoint; content-type set by
    // the endpoint: the built request carries content-type and no x-second
    let mut ev = Evaluator::new(vec![]);
    let req = RequestInfo {
        uri: s("http://server.test/hello"),
        method: s("GET"),
        cookies: vec![],
        headers: vec![
            (s("Content-Type"), MaybeDeleted::Value(Value::Constant(s("text/plain")))),
            (s("X-Second"), MaybeDeleted::Deleted(http_hammer::config::Deleted)),
            (s("X-Hello"), MaybeDeleted::Value(Value::Constant(s("Hi")))),
        ],
        body: constant_body("Hello, world!"),
    };
    match req.build(&mut ev, FUEL) {
        Step::Done(built) => {
            let headers = built.headers();
            assert!(headers.iter().any(|(n, v)| n == "content-type" && v == "text/plain"));
            assert!(headers.iter().any(|(n, v)| n == "x-hello" && v == "Hi"));
            assert!(!headers.iter().any(|(n, _)| n == "x-second"));
        },
        _ => panic!("no network involved"),
    }
}

#[test]
fn cookie_assembly_drops_deleted_and_encodes() {
    let mut ev = Evaluator::new(vec![]);
    let req = RequestInfo {
        uri: s("http://server.test/hello"),
        method: s("GET"),
        cookies: vec![
            (s("another"), MaybeDeleted::Value(Value::Constant(s("cookie!")))),
            (s("deleted"), MaybeDeleted::Deleted(http_hammer::config::Deleted)),
            (s("hello"), MaybeDeleted::Value(Value::Constant(s("wow very cool")))),
        ],
        headers: vec![],
        body: constant_body(""),
    };
    match req.build(&mut ev, FUEL) {
        Step::Done(built) => {
            let headers = built.headers();
            let cookie = headers.iter().find(|(n, _)| n == "cookie").unwrap();
            assert_eq!(cookie.1, "another=cookie%21; hello=wow%20very%20cool");
            assert!(!cookie.1.contains("deleted"));
        },
        _ => panic!("no network involved"),
    }
}

#[test]
fn resource_memoization_single_login() {
    // resource `token`: POST /login whose whole body is the secret; the
    // endpoint body is "${resources.token}". The login request is handed
    // out once; afterwards every reference reads the memoized constant.
    let login = FromResponseBody {
        request: plain_request("POST", "http://server.test/login", ""),
        extract: None,
        format: None,
    };
    let mut ev = Evaluator::new(vec![(s("token"), Value::Request(Box::new(login)))]);
    let body_value = Value::from(s("${resources.token}"));
    assert!(matches!(body_value, Value::Formatted(_)));

    // first attempt: the resolver stops and hands out the login request
    let pending = match body_value.evaluate(&mut ev, FUEL) {
        Step::NeedHttp(req) => {
            assert_eq!(req.method(), "POST");
            assert_eq!(req.uri(), "http://server.test/login");
            req
        },
        _ => panic!("the login response is not cached yet"),
    };
    ev.provide_response(pending, b"a-very-secret-value".to_vec()).unwrap();

    // second attempt: resolved from the cache, memoized into the slot
    match body_value.evaluate(&mut ev, FUEL) {
        Step::Done(out) => assert_eq!(out, "a-very-secret-value"),
        _ => panic!("the cached response answers without the network"),
    }

    // every further reference observes the same value with no request
    for _ in 0..3 {
        match body_value.evaluate(&mut ev, FUEL) {
            Step::Done(out) => assert_eq!(out, "a-very-secret-value"),
            _ => panic!("memoized resources never issue requests"),
        }
    }
}

#[test]
fn shared_resource_one_login_for_two_endpoints() {
    // resource `token` extracts /token from a JSON login response and
    // splices it into "{}"; endpoint A uses it in a header, endpoint B in a
    // cookie — both observe the same token, and the login request is handed
    // out exactly once across both
    let login = FromResponseBody {
        request: plain_request("POST", "http://server.test/login", ""),
        extract: Some(BodyExtract::Json { pointer: s("/token") }),
        format: Some(s("{}")),
    };
    let mut ev = Evaluator::new(vec![(s("token"), Value::Request(Box::new(login)))]);

    let endpoint_a = RequestInfo {
        uri: s("http://server.test/hello"),
        method: s("GET"),
        cookies: vec![],
        headers: vec![
            (s("Authorization"), MaybeDeleted::Value(Value::from(s("Bearer ${resources.token}")))),
        ],
        body: constant_body("Hello, world!"),
    };
    let endpoint_b = RequestInfo {
        uri: s("http://server.test/hello2"),
        method: s("PUT"),
        cookies: vec![(s("token"), MaybeDeleted::Value(Value::from(s("${resources.token}"))))],
        headers: vec![],
        body: constant_body(""),
    };

    // endpoint A needs the login answered first
    let pending = match endpoint_a.build(&mut ev, FUEL) {
        Step::NeedHttp(req) => req,
        _ => panic!("the token is not resolved yet"),
    };
    ev.provide_response(pending, br#"{"token":"a-very-secret-value"}"#.to_vec()).unwrap();

    match endpoint_a.build(&mut ev, FUEL) {
        Step::Done(built) => {
            assert!(built.headers().iter().any(|(n, v)| n == "authorization"
                && v == "Bearer a-very-secret-value"));
        },
        _ => panic!("the login is answered"),
    }

    // endpoint B resolves with no further request at all
    match endpoint_b.build(&mut ev, FUEL) {
        Step::Done(built) => {
            let cookie = built.headers().iter().find(|(n, _)| n == "cookie").unwrap().1.clone();
            assert_eq!(cookie, "token=a-very-secret-value");
        },
        _ => panic!("the memoized token serves the second endpoint"),
    }
}

#[test]
fn json_extraction_renders_non_strings_canonically() {
    let derived = FromResponseBody {
        request: plain_request("GET", "http://server.test/n", ""),
        extract: Some(BodyExtract::Json { pointer: s("/n") }),
        format: None,
    };
    let mut ev = Evaluator::new(vec![]);
    let pending = match derived.resolve(&mut ev, FUEL) {
        Step::NeedHttp(req) => req,
        _ => panic!("nothing cached yet"),
    };
    ev.provide_response(pending, br#"{"n": 42}"#.to_vec()).unwrap();
    match derived.resolve(&mut ev, FUEL) {
        Step::Done(out) => assert_eq!(out, "42"),
        _ => panic!("the response is cached"),
    }
}

#[test]
fn cycle_of_two_resources_fails_fast() {
    // a resource whose resolution transitively requires itself fails with a
    // cyclic-dependency error instead of hanging
    let mut ev = Evaluator::new(vec![
        (s("a"), Value::from(s("${resources.b}"))),
        (s("b"), Value::from(s("${resources.a}"))),
    ]);
    match ev.resolve_resource("a", FUEL) {
        Step::Failed(EvalError::CyclicDependency) => {},
        _ => panic!("a cycle must be reported"),
    }
}

#[test]
fn self_reference_fails_fast() {
    let mut ev = Evaluator::new(vec![(s("a"), Value::from(s("${resources.a}")))]);
    match ev.resolve_resource("a", FUEL) {
        Step::Failed(EvalError::CyclicDependency) => {},
        _ => panic!("a self-reference is the smallest cycle"),
    }
}

#[test]
fn failed_resource_can_be_retried() {
    // a cycle leaves every busy mark cleared, so an unrelated later
    // resolution still works
    let mut ev = Evaluator::new(vec![
        (s("a"), Value::from(s("${resources.a}"))),
        (s("ok"), Value::Constant(s("fine"))),
    ]);
    assert!(matches!(ev.resolve_resource("a", FUEL), Step::Failed(EvalError::CyclicDependency)));
    match ev.resolve_resource("ok", FUEL) {
        Step::Done(out) => assert_eq!(out, "fine"),
        _ => panic!("unrelated resources are untouched"),
    }
    // and the cycle still reports, identically
    assert!(matches!(ev.resolve_resource("a", FUEL), Step::Failed(EvalError::CyclicDependency)));
}

#[test]
fn unknown_resource_is_reported() {
    let mut ev = Evaluator::new(vec![]);
    match Value::from(s("${resources.nope}")).evaluate(&mut ev, FUEL) {
        Step::Failed(EvalError::UnknownResource(name)) => assert_eq!(name, "nope"),
        _ => panic!("an undeclared resource is an error"),
    }
}

#[test]
fn placeholder_without_prefix_is_reported() {
    let mut ev = Evaluator::new(vec![]);
    match Value::from(s("${foo.bar}")).evaluate(&mut ev, FUEL) {
        Step::Failed(EvalError::BadPlaceholderPrefix(body)) => assert_eq!(body, "foo.bar"),
        _ => panic!("only the resource prefix is supported"),
    }
}

#[test]
fn non_utf8_response_is_reported() {
    let mut ev = Evaluator::new(vec![]);
    let derived = FromResponseBody {
        request: plain_request("GET", "http://server.test/bin", ""),
        extract: None,
        format: None,
    };
    let pending = match derived.resolve(&mut ev, FUEL) {
        Step::NeedHttp(req) => req,
        _ => panic!("nothing cached yet"),
    };
    match ev.provide_response(pending, vec![0xff, 0xfe, 0x00]) {
        Err(EvalError::BodyNotUtf8) => {},
        _ => panic!("a binary body cannot become a value"),
    }
}

#[test]
fn non_json_body_is_reported() {
    let mut ev = Evaluator::new(vec![]);
    let derived = FromResponseBody {
        request: plain_request("GET", "http://server.test/x", ""),
        extract: Some(BodyExtract::Json { pointer: s("/token") }),
        format: None,
    };
    let pending = match derived.resolve(&mut ev, FUEL) {
        Step::NeedHttp(req) => req,
        _ => panic!("nothing cached yet"),
    };
    ev.provide_response(pending, b"not json at all".to_vec()).unwrap();
    assert!(matches!(derived.resolve(&mut ev, FUEL), Step::Failed(EvalError::BodyNotJson)));
}

#[test]
fn missing_pointer_is_reported() {
    let mut ev = Evaluator::new(vec![]);
    let derived = FromResponseBody {
        request: plain_request("GET", "http://server.test/x", ""),
        extract: Some(BodyExtract::Json { pointer: s("/token") }),
        format: None,
    };
    let pending = match derived.resolve(&mut ev, FUEL) {
        Step::NeedHttp(req) => req,
        _ => panic!("nothing cached yet"),
    };
    ev.provide_response(pending, br#"{"other": 1}"#.to_vec()).unwrap();
    assert!(matches!(derived.resolve(&mut ev, FUEL), Step::Failed(EvalError::PointerMissing)));
}

#[test]
fn bad_format_string_is_reported() {
    let mut ev = Evaluator::new(vec![]);
    let derived = FromResponseBody {
        request: plain_request("GET", "http://server.test/x", ""),
        extract: None,
        format: Some(s("no marker here")),
    };
    let pending = match derived.resolve(&mut ev, FUEL) {
        Step::NeedHttp(req) => req,
        _ => panic!("nothing cached yet"),
    };
    ev.provide_response(pending, b"body".to_vec()).unwrap();
    assert!(matches!(derived.resolve(&mut ev, FUEL), Step::Failed(EvalError::BadFormatString)));
}

#[test]
fn invalid_header_value_is_reported() {
    let mut ev = Evaluator::new(vec![]);
    let req = RequestInfo {
        uri: s("http://server.test/x"),
        method: s("GET"),
        cookies: vec![],
        headers: vec![(s("X-Bad"), MaybeDeleted::Value(Value::Constant(s("line\nbreak"))))],
        body: constant_body(""),
    };
    match req.build(&mut ev, FUEL) {
        Step::Failed(EvalError::InvalidHeaderValue(v)) => assert_eq!(v, "line\nbreak"),
        _ => panic!("a header value cannot carry a line break"),
    }
}

#[test]
fn exhausted_fuel_is_reported() {
    let mut ev = Evaluator::new(vec![]);
    assert!(matches!(
        Value::Constant(s("x")).evaluate(&mut ev, 0),
        Step::Failed(EvalError::DepthExceeded)
    ));
}

#[test]
fn error_messages_name_their_subject() {
    assert!(EvalError::CyclicDependency.message().contains("yclic"));
    assert!(EvalError::UnknownResource("nope".to_string()).message().contains("nope"));
    assert!(EvalError::BadCharAfterDollar('x').message().contains('x'));
}

#[test]
fn identical_derived_requests_share_one_cache_entry() {
    // two distinct derived values over the same concrete request: the
    // second resolves from the cache without being handed out
    let mk = || FromResponseBody {
        request: plain_request("GET", "http://server.test/data", ""),
        extract: None,
        format: None,
    };
    let first = mk();
    let second = FromResponseBody { format: Some(s("[{}]")), ..mk() };
    let mut ev = Evaluator::new(vec![]);
    let pending = match first.resolve(&mut ev, FUEL) {
        Step::NeedHttp(req) => req,
        _ => panic!("nothing cached yet"),
    };
    ev.provide_response(pending, b"payload".to_vec()).unwrap();
    assert!(matches!(first.resolve(&mut ev, FUEL), Step::Done(out) if out == "payload"));
    assert!(matches!(second.resolve(&mut ev, FUEL), Step::Done(out) if out == "[payload]"));
}
