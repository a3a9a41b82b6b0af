use callix::adapter::{check_answers, uses_fit, ResolvedRef, Resolution};
use callix::golang::adapter::{analyze, read_structure, GoRoot, GoSource};
use callix::graph::Graph;
use callix::status::ResolverStatus;

const CODE: &str = r#"package store

import (
	"fmt"
	pb "github.com/acme/shop/proto"
)

const Limit = 3

type Base struct{ ID int }

type Store struct {
	Base
	name string
}

type Reader interface{ Read(n int) string }

func (s *Store) Read(n int) string { return fmt.Sprint(s.name, n, Limit) }

func Run() { s := &Store{}; s.Read(1); pb.Send() }
"#;

fn roots() -> Vec<GoRoot> {
    vec![GoRoot {
        dir: "/p".to_string(),
        go_mod: Some("module github.com/acme/shop\n\nrequire github.com/x/y v1.0.0\n".to_string()),
        files: vec![GoSource { path: "/p/store/store.go".to_string(), source: Some(CODE.as_bytes().to_vec()) }],
    }]
}

fn nodes(g: &Graph) -> Vec<String> {
    g.nodes().iter().map(|n| format!("{} {}", n.kind.as_str(), n.qualified_name)).collect()
}

fn edges(g: &Graph, kind: &str) -> Vec<String> {
    let name = |id: &str| g.nodes().iter().find(|n| n.id == id).map(|n| n.qualified_name.clone()).unwrap_or_default();
    g.relations()
        .iter()
        .filter(|r| r.kind.as_str() == kind)
        .map(|r| format!("{} > {}", name(&r.source_id), name(&r.target_id)))
        .collect()
}

#[test]
fn a_module_is_read_in_order() {
    let a = read_structure("/p", &roots()).unwrap();
    assert_eq!(
        nodes(&a.graph),
        vec![
            "project github.com/acme/shop",
            "module github.com/acme/shop/store",
            "file store/store.go",
            "import store/store.go::github.com/acme/shop/proto",
            "import store/store.go::fmt",
            "external_symbol fmt",
            "variable github.com/acme/shop/store.Limit",
            "class github.com/acme/shop/store.Base",
            "class github.com/acme/shop/store.Store",
            "class github.com/acme/shop/store.Reader",
            "method github.com/acme/shop/store.Store.Read",
            "function github.com/acme/shop/store.Run",
            "external_symbol github.com/acme/shop/proto",
        ]
    );
    let uses: Vec<String> = a.roots[0]
        .occurrences
        .iter()
        .map(|u| format!("{} {}:{}", u.occurrence.role, u.occurrence.line, u.occurrence.col))
        .collect();
    // Each body is walked from its end.
    assert_eq!(uses, vec!["base 13:2", "call 19:49", "read 19:58", "call 21:43", "call 21:31"]);
    assert_eq!(edges(&a.graph, "imports"), vec!["store/store.go > github.com/acme/shop/proto"]);
}

#[test]
fn answers_become_edges() {
    let a = read_structure("/p", &roots()).unwrap();
    let answers = a.roots[0]
        .occurrences
        .iter()
        .map(|u| {
            if (u.occurrence.line, u.occurrence.col) == (21, 31) {
                Some(ResolvedRef {
                    full_name: "store.Store.Read".to_string(),
                    file_path: Some("/p/store/store.go".to_string()),
                    line: 19,
                    col: 17,
                    kind: "function".to_string(),
                    origin: "internal".to_string(),
                })
            } else if u.occurrence.role == "call" {
                Some(ResolvedRef {
                    full_name: String::new(),
                    file_path: None,
                    line: 0,
                    col: 0,
                    kind: "function".to_string(),
                    origin: "stdlib".to_string(),
                })
            } else {
                None
            }
        })
        .collect();
    let resolution = Some(Resolution { answers: vec![answers], status: ResolverStatus::Complete, micros: 1 });
    let g = analyze("/p", a, &resolution, true).unwrap();
    assert_eq!(
        edges(&g, "calls"),
        vec![
            "github.com/acme/shop/store.Store.Read > call@store/store.go:19:49",
            "github.com/acme/shop/store.Run > call@store/store.go:21:43",
            "github.com/acme/shop/store.Run > github.com/acme/shop/store.Store.Read",
        ]
    );
    assert!(edges(&g, "inherits_from").is_empty());
    assert_eq!(g.metadata().get_text("resolver_status"), "ok");
    assert_eq!(
        format!("{:?}", g.metadata().get("resolver_metrics")),
        "Some(Counters(ResolverMetrics { queries: 5, resolved: 3, internal: 1, external: 2, unresolved: 2, micros: 1 }))"
    );
}

#[test]
fn a_strict_analysis_refuses_a_degraded_graph() {
    let a = read_structure("/p", &roots()).unwrap();
    assert_eq!(
        analyze("/p", a, &None, true).err().unwrap(),
        "Go resolver status is 'unavailable'; refusing to return a degraded graph in strict mode"
    );
}

#[test]
fn answers_must_fit_the_places_of_use() {
    let a = read_structure("/p", &roots()).unwrap();
    let given = |n: usize| {
        let answers = (0..n).map(|_| None).collect();
        Some(Resolution { answers: vec![answers], status: ResolverStatus::Complete, micros: 0 })
    };
    assert!(uses_fit(&a.roots));
    assert!(check_answers(&a.roots, &None));
    assert!(check_answers(&a.roots, &given(5)));
    assert!(!check_answers(&a.roots, &given(4)));
}
