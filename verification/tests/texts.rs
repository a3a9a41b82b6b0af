use callix::boundaries::{normalize_http_path, BoundaryRef, Detail};
use callix::error::CoreError;
use callix::golang::boundary::extract_go_boundaries;
use callix::json::parse_json;
use callix::meta::Metadata;
use callix::node::{Node, NodeKind};
use callix::occurrence::{ImportClassifier, OccurrenceRef};
use callix::php::deps::vendor_prefix;
use callix::paths::{base_name, below, extension, is_under, join_relative, parent_dir, place_below, relative_to, with_slashes};
use callix::span::Span;
use callix::strings::{decimal_text, lines, split, split_words};

#[test]
fn letters_change_case() {
    assert_eq!(NodeKind::ExternalSymbol.member_name(), "NodeKind.EXTERNAL_SYMBOL");
    assert_eq!(vendor_prefix("ÄCME/Shop").as_deref(), Some("äcme"));
    // A number need not be written in Latin digits.
    assert_eq!(normalize_http_path("/a/\u{663}"), "/a/{}");
}

#[test]
fn texts_are_cut_into_pieces() {
    assert_eq!(lines("a\r\nb\n"), vec!["a", "b"]);
    assert_eq!(split("a//b", '/'), vec!["a", "", "b"]);
    assert_eq!(split_words("  a\tb \n"), vec!["a", "b"]);
    assert_eq!(decimal_text(0), "0");
    assert_eq!(decimal_text(18446744073709551615), "18446744073709551615");
}

#[test]
fn paths_are_taken_apart() {
    assert_eq!(with_slashes("a\\b/c"), "a/b/c");
    assert_eq!(join_relative("src/x", "../y.h"), "src/y.h");
    assert_eq!(parent_dir("/p/a/b.c"), "/p/a");
    assert_eq!(base_name("/p/a/b.c"), "b.c");
    assert_eq!(extension("a/b.tar.gz").as_deref(), Some(".gz"));
    assert_eq!(extension("a/.hidden"), None);
    assert_eq!(below("/p/a/b", "/p").as_deref(), Some("a/b"));
    assert_eq!(below("/px/a", "/p"), None);
    assert!(is_under("/p/a", "/p") && !is_under("/px", "/p"));
    assert_eq!(place_below("/p", "a/b"), "/p/a/b");
    assert_eq!(relative_to("/p/sub/a.go", "/p", "/p/sub"), "sub/a.go");
}

#[test]
fn errors_have_texts() {
    let parse_error = CoreError::Parse { path: "a.go".to_string(), reason: "no tree".to_string() };
    assert_eq!(parse_error.message(), "failed to parse a.go: no tree");
    assert_eq!(CoreError::Timeout(1500).message(), "resolver timed out after 1500ms");
    assert_eq!(CoreError::Io("gone".to_string()).message(), "gone");
}

#[test]
fn documents_are_read() {
    let document = parse_json(r#"{"a":{"b":["x",1,true,null]},"n":-2}"#).unwrap();
    assert!(document.get("a").unwrap().get("b").is_some());
    assert_eq!(parse_json(r#""text""#).unwrap().as_text(), Some("text"));
    assert!(document.get("z").is_none());
    assert!(parse_json("{").is_none());
}

#[test]
fn bytes_that_are_no_text_are_replaced() {
    let refs = extract_go_boundaries(b"package a\nfunc f() { r.GET(\"/a\xff\", h) }\n").unwrap();
    assert_eq!(refs[0].key, "GET /a\u{fffd}");
}

#[test]
fn origins_follow_the_sets() {
    let c = ImportClassifier::from_sets(vec!["os".to_string()], vec!["numpy".to_string()], vec!["app".to_string()]);
    assert_eq!(c.classify("os"), "stdlib");
    assert_eq!(c.classify("app"), "internal");
    assert_eq!(c.classify("numpy"), "third_party");
    assert_eq!(c.classify("other"), "unknown");
    assert_eq!(c.repr(), "ImportClassifier(stdlib=1, third_party=1, internal=1)");
}

#[test]
fn records_are_shown_in_words() {
    let node = Node {
        id: "ab12".to_string(),
        kind: NodeKind::Function,
        qualified_name: "a.\"b\"".to_string(),
        name: "b".to_string(),
        file_path: None,
        span: None,
        metadata: Metadata::new(),
    };
    assert_eq!(node.repr(), r#"Node(id="ab12", kind=function, qualified_name="a.\"b\"")"#);
    assert_eq!(NodeKind::from_value("nope").err().unwrap(), r#"unknown NodeKind: "nope""#);
    let port = BoundaryRef {
        mechanism: "http".to_string(),
        role: "server".to_string(),
        key: "GET /users/{}".to_string(),
        line: 3,
        col: 7,
        confidence: 100,
        detail: Detail::new(),
    };
    assert_eq!(port.repr(), r#"BoundaryRef(http server "GET /users/{}" at 3:7)"#);
    let span = Span { start_line: 3, start_col: 7, end_line: 3, end_col: 9 };
    let place = OccurrenceRef::at("call", "ab12", span);
    assert_eq!(place.repr(), r#"OccurrenceRef(call at 3:7 in "ab12")"#);
}
