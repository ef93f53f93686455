//! Template syntax, format strings, percent-encoding, and the
//! configuration merge rules, on concrete values.

use http_hammer::config::{
    apply_defaults, merge_globals, HammerInfo, MaybeDeleted, RequestInfo, Value,
};
use http_hammer::cookie::{urlencode, Cookie};
use http_hammer::error::EvalError;
use http_hammer::format::{format_one, parse_template, TemplateSegment};
use http_hammer::request::{check_header_value, sort_headers, AlmostRequest};

fn s(text: &str) -> String {
    text.to_string()
}

#[test]
fn format_one_splices_single_marker() {
    assert_eq!(format_one(s("x{}y"), "VALUE").unwrap(), "xVALUEy");
    assert_eq!(format_one(s("{}"), "token").unwrap(), "token");
    assert_eq!(format_one(s("Bearer {}"), "t0k3n").unwrap(), "Bearer t0k3n");
}

#[test]
fn format_one_rejects_zero_markers() {
    assert!(matches!(format_one(s("plain"), "v"), Err(EvalError::BadFormatString)));
    // a doubled brace does not open a marker
    assert!(matches!(format_one(s("{{}}"), "v"), Err(EvalError::BadFormatString)));
}

#[test]
fn format_one_rejects_two_markers() {
    assert!(matches!(format_one(s("a{}b{}c"), "v"), Err(EvalError::BadFormatString)));
}

#[test]
fn template_literal_and_escape() {
    let segs = parse_template("a$$b").unwrap();
    assert_eq!(segs.len(), 1);
    assert!(matches!(&segs[0], TemplateSegment::Lit(t) if t == "a$b"));
}

#[test]
fn template_placeholder_and_tail() {
    let segs = parse_template("${resources.x}y").unwrap();
    assert_eq!(segs.len(), 2);
    assert!(matches!(&segs[0], TemplateSegment::Placeholder(t) if t == "resources.x"));
    assert!(matches!(&segs[1], TemplateSegment::Lit(t) if t == "y"));
}

#[test]
fn template_error_dollar_at_end() {
    assert!(matches!(parse_template("abc$"), Err(EvalError::DollarAtEnd)));
}

#[test]
fn template_error_bad_char_after_dollar() {
    assert!(matches!(parse_template("a$x"), Err(EvalError::BadCharAfterDollar('x'))));
}

#[test]
fn template_error_brace_in_placeholder() {
    assert!(matches!(parse_template("${a{b}"), Err(EvalError::BraceInPlaceholder('{'))));
    assert!(matches!(parse_template("${a$b}"), Err(EvalError::BraceInPlaceholder('$'))));
}

#[test]
fn template_error_unterminated() {
    assert!(matches!(parse_template("${abc"), Err(EvalError::UnterminatedPlaceholder)));
}

#[test]
fn urlencode_spaces_and_punctuation() {
    assert_eq!(urlencode("wow very cool"), "wow%20very%20cool");
    assert_eq!(urlencode("cookie!"), "cookie%21");
    assert_eq!(urlencode("AZaz09-_.~"), "AZaz09-_.~");
    // non-ASCII text is encoded byte for byte
    assert_eq!(urlencode("é"), "%C3%A9");
}

#[test]
fn cookie_line_joins_encoded_pairs() {
    let mut c = Cookie::new();
    c.add("hello", "wow very cool");
    c.add("another", "cookie!");
    assert_eq!(c.line(), "hello=wow%20very%20cool; another=cookie%21");
}

#[test]
fn value_heuristic_brace_means_template() {
    assert!(matches!(Value::from(s("plain text")), Value::Constant(_)));
    assert!(matches!(Value::from(s("${resources.x}")), Value::Formatted(_)));
    assert!(matches!(Value::from(s("odd { brace")), Value::Formatted(_)));
}

#[test]
fn endpoint_name_defaults_to_method_and_uri() {
    let request = RequestInfo {
        uri: s("http://example.test/x"),
        method: s("GET"),
        cookies: vec![],
        headers: vec![],
        body: Box::new(Value::Constant(s(""))),
    };
    let info = HammerInfo::named(None, request, 10, None);
    assert_eq!(info.name, "GET http://example.test/x");

    let request2 = RequestInfo {
        uri: s("http://example.test/x"),
        method: s("GET"),
        cookies: vec![],
        headers: vec![],
        body: Box::new(Value::Constant(s(""))),
    };
    let info2 = HammerInfo::named(Some(s("my endpoint")), request2, 10, None);
    assert_eq!(info2.name, "my endpoint");
}

#[test]
fn merge_endpoint_entries_win_over_globals() {
    // override/delete precedence: the endpoint's own value and its own
    // deletion both beat the inherited default; untouched names inherit
    let local = vec![
        (s("content-type"), MaybeDeleted::Value(Value::Constant(s("text/plain")))),
        (s("x-second"), MaybeDeleted::Deleted(http_hammer::config::Deleted)),
    ];
    let globals = vec![
        (s("x-hello"), s("Hi")),
        (s("x-second"), s("one")),
        (s("content-type"), s("application/json")),
    ];
    let merged = merge_globals(local, &globals);
    assert_eq!(merged.len(), 3);
    assert!(matches!(&merged[0], (n, MaybeDeleted::Value(Value::Constant(v)))
        if n == "content-type" && v == "text/plain"));
    assert!(matches!(&merged[1], (n, MaybeDeleted::Deleted(_)) if n == "x-second"));
    assert!(matches!(&merged[2], (n, MaybeDeleted::Value(Value::Constant(v)))
        if n == "x-hello" && v == "Hi"));
}

#[test]
fn apply_defaults_reaches_every_endpoint() {
    let mk = |uri: &str| HammerInfo {
        name: s(uri),
        request: RequestInfo {
            uri: s(uri),
            method: s("GET"),
            cookies: vec![],
            headers: vec![],
            body: Box::new(Value::Constant(s(""))),
        },
        count: 1,
        max_concurrency: None,
    };
    let globals_cookies = vec![(s("hello"), s("wow very cool"))];
    let globals_headers = vec![(s("X-Hello"), s("Hi"))];
    let out = apply_defaults(vec![mk("http://a/"), mk("http://b/")], &globals_cookies,
        &globals_headers);
    assert_eq!(out.len(), 2);
    for e in &out {
        assert_eq!(e.request.cookies.len(), 1);
        assert!(matches!(&e.request.cookies[0],
            (n, MaybeDeleted::Value(Value::Constant(v))) if n == "hello" && v == "wow very cool"));
        assert_eq!(e.request.headers.len(), 1);
        assert!(matches!(&e.request.headers[0],
            (n, MaybeDeleted::Value(Value::Constant(v))) if n == "X-Hello" && v == "Hi"));
    }
}

#[test]
fn canonical_request_ignores_header_order() {
    let a = AlmostRequest::assemble(
        s("http://x/"),
        s("GET"),
        vec![(s("a"), s("1")), (s("b"), s("2"))],
        s(""),
    );
    let b = AlmostRequest::assemble(
        s("http://x/"),
        s("GET"),
        vec![(s("b"), s("2")), (s("a"), s("1"))],
        s(""),
    );
    assert!(a.same_as(&b));
    let c = AlmostRequest::assemble(s("http://x/"), s("GET"), vec![(s("a"), s("1"))], s(""));
    assert!(!a.same_as(&c));
}

#[test]
fn sorted_headers_are_by_name_then_value() {
    let sorted = sort_headers(vec![(s("b"), s("1")), (s("a"), s("2")), (s("a"), s("1"))]);
    assert_eq!(sorted, vec![(s("a"), s("1")), (s("a"), s("2")), (s("b"), s("1"))]);
}

#[test]
fn wire_headers_append_product_identification_last() {
    let req = AlmostRequest::assemble(
        s("http://x/"),
        s("GET"),
        vec![(s("user-agent"), s("custom")), (s("a"), s("1"))],
        s(""),
    );
    let ua = s("tool v1.0");
    let wire = req.wire_headers(&ua);
    // every configured header is kept; the product header comes last and is
    // not overridable
    assert_eq!(wire.last().unwrap(), &(s("user-agent"), s("tool v1.0")));
    assert!(wire.iter().any(|(n, v)| n == "user-agent" && v == "custom"));
    assert!(wire.iter().any(|(n, v)| n == "a" && v == "1"));
}

#[test]
fn header_value_wire_validity() {
    assert!(check_header_value("text/plain"));
    assert!(check_header_value("with\ttab"));
    assert!(!check_header_value("line\nbreak"));
    assert!(!check_header_value("carriage\rreturn"));
    assert!(!check_header_value("nul\0byte"));
}
