use callix::adapter::ResolvedRef;
use callix::cfamily::adapter::{
    analyze_family, check_resolution, choose_resolution, declared_answers, read_structure, FamilyResolution, FamilyRoot,
    FamilySource, IndexAnswer,
};
use callix::boundaries::{BoundaryRef, Detail};
use callix::cfamily::deps::BuildFiles;
use callix::cfamily::headers::{claims, probe_dialect, resolve_include};
use callix::cfamily::Dialect;
use callix::node::NodeKind;
use callix::relation::RelationKind;
use callix::status::ResolverStatus;

fn file(path: &str, text: &str) -> FamilySource {
    FamilySource { path: path.to_string(), source: Some(text.as_bytes().to_vec()), extra: vec![] }
}

fn root(files: Vec<FamilySource>) -> FamilyRoot {
    FamilyRoot {
        dir: "/p".to_string(),
        listfile: Some("cmake_minimum_required(VERSION 3.1)\nPROJECT (fixture C)\n".to_string()),
        build: BuildFiles {
            cmake: vec!["curl".to_string()],
            vcpkg: None,
            conan_txt: None,
            conan_py: None,
            meson: None,
        },
        existing: vec!["include".to_string(), "src".to_string()],
        files,
    }
}

#[test]
fn a_prototype_and_its_definition_are_one_node() {
    let header = "#ifndef E_H\n#define E_H\nstruct engine { int id; };\nint engine_ping(struct engine *e);\n#endif\n";
    let code = "#include \"engine.h\"\n#include <stdio.h>\nstatic int helper(void) { return 1; }\nint engine_ping(struct engine *e) { return e->id + helper(); }\n";
    let roots = vec![root(vec![file("/p/include/engine.h", header), file("/p/src/engine.c", code)])];
    let analysis = read_structure(Dialect::C, "/p", &roots).unwrap();
    let ping = analysis
        .graph
        .nodes()
        .iter()
        .filter(|n| n.name == "engine_ping")
        .collect::<Vec<_>>();
    assert_eq!(ping.len(), 1);
    assert_eq!(ping[0].qualified_name, "engine_ping");
    assert_eq!(ping[0].file_path.as_deref(), Some("src/engine.c"));
    let helper = analysis.graph.nodes().iter().find(|n| n.name == "helper").unwrap();
    assert_eq!(helper.qualified_name, "src/engine.c::helper");
    let kinds: Vec<&str> = analysis.graph.nodes().iter().map(|n| n.kind.as_str()).collect();
    assert!(kinds.contains(&"project") && kinds.contains(&"dependency") && kinds.contains(&"module"));
    // The quoted header is bound to its file, the other one is outside.
    let import = analysis.graph.nodes().iter().find(|n| n.name == "engine.h" && n.kind == NodeKind::Import).unwrap();
    assert_eq!(import.qualified_name, "src/engine.c::engine.h");
    let header_file = analysis.graph.nodes().iter().find(|n| n.kind == NodeKind::File && n.name == "engine.h").unwrap();
    assert!(analysis
        .graph
        .relations()
        .iter()
        .any(|r| r.kind == RelationKind::ResolvesTo && r.source_id == import.id && r.target_id == header_file.id));
}

#[test]
fn an_index_binds_uses_and_the_rest_is_kept_outside() {
    let code = "int helper(void) { return 1; }\nint run(void) { return helper() + missing(); }\n";
    let roots = vec![root(vec![file("/p/a.c", code)])];
    let analysis = read_structure(Dialect::C, "/p", &roots).unwrap();
    let uses = &analysis.roots[0].files[0].facts.occurrences;
    let answers = uses
        .iter()
        .map(|u| {
            if u.name == "helper" {
                Some(IndexAnswer { qualified_name: "helper".to_string(), kind: NodeKind::Function })
            } else {
                None
            }
        })
        .collect();
    let resolution = Some(FamilyResolution::of_table(vec![vec![answers]], 5));
    let graph = analyze_family(analysis, &resolution, false).unwrap();
    let calls = graph.relations().iter().filter(|r| r.kind == RelationKind::Calls).count();
    assert_eq!(calls, 2);
    assert!(graph
        .nodes()
        .iter()
        .any(|n| n.kind == NodeKind::ExternalSymbol && n.qualified_name == "missing@a.c:2:35"));
    assert_eq!(graph.metadata().get_text("resolver_status"), "degraded");
}

#[test]
fn a_strict_analysis_of_c_is_refused() {
    let analysis = read_structure(Dialect::C, "/p", &vec![root(vec![])]).unwrap();
    let message = analyze_family(analysis, &None, true).err().unwrap();
    assert_eq!(
        message,
        "c resolver status is 'unavailable'; refusing to return a degraded graph in strict mode. The C family has no compiler-backed resolver — see the docs for why."
    );
}

#[test]
fn a_header_is_claimed_by_one_dialect() {
    let plain = b"int ping(int x);\n";
    let template = b"template <typename T> class Box { public: T value; Box() = default; };\nnamespace a { class C; }\n";
    assert_eq!(probe_dialect(plain), Some(Dialect::C));
    assert_eq!(probe_dialect(template), Some(Dialect::Cpp));
    assert_eq!(claims(Dialect::C, "x.h", plain), Some(true));
    assert_eq!(claims(Dialect::Cpp, "x.h", plain), Some(false));
    assert_eq!(claims(Dialect::Cpp, "x.h", template), Some(true));
    assert_eq!(claims(Dialect::C, "x.cpp", plain), Some(false));
    assert_eq!(claims(Dialect::C, "x.txt", plain), Some(false));
}

#[test]
fn overloads_and_methods_out_of_line_meet_their_declarations() {
    let header = "namespace fx {\nclass Engine {\npublic:\n  Engine(int id);\n  bool ping(int retries) const;\n  bool ping(const char *name) const;\nprivate:\n  int id_;\n};\nenum class Region { Europe, Asia };\n}\n";
    let code = "#include \"engine.hpp\"\nnamespace fx {\nEngine::Engine(int id) : id_(id) {}\nbool Engine::ping(int n) const { return id_ > n; }\n}\n";
    let roots = vec![root(vec![file("/p/engine.hpp", header), file("/p/engine.cpp", code)])];
    let analysis = read_structure(Dialect::Cpp, "/p", &roots).unwrap();
    let names: Vec<(String, String)> = analysis
        .graph
        .nodes()
        .iter()
        .filter(|n| n.kind == NodeKind::Method)
        .map(|n| (n.qualified_name.clone(), n.file_path.clone().unwrap()))
        .collect();
    assert_eq!(
        names,
        vec![
            ("fx::Engine::ping(const char*) const".to_string(), "engine.hpp".to_string()),
            ("fx::Engine::Engine(int)".to_string(), "engine.cpp".to_string()),
            ("fx::Engine::ping(int) const".to_string(), "engine.cpp".to_string()),
        ]
    );
    let attributes: Vec<String> = analysis
        .graph
        .nodes()
        .iter()
        .filter(|n| n.kind == NodeKind::Attribute)
        .map(|n| n.qualified_name.clone())
        .collect();
    assert_eq!(attributes, vec!["fx::Engine::id_", "fx::Region::Europe", "fx::Region::Asia"]);
}

#[test]
fn an_index_must_answer_every_place_of_use() {
    let roots = vec![root(vec![file("/p/a.c", "int f(void) { return g(); }\n")])];
    let analysis = read_structure(Dialect::C, "/p", &roots).unwrap();
    let uses = analysis.roots[0].files[0].facts.occurrences.len();
    let given = |n: usize| {
        let answers = (0..n).map(|_| None).collect();
        Some(FamilyResolution::of_table(vec![vec![answers]], 0))
    };
    assert!(uses > 0);
    assert!(check_resolution(&analysis.roots, &None));
    assert!(check_resolution(&analysis.roots, &given(uses)));
    assert!(!check_resolution(&analysis.roots, &given(uses + 1)));
}

#[test]
fn a_header_outside_the_project_is_not_found() {
    let known = |paths: &[&str]| paths.iter().map(|p| p.to_string()).collect::<Vec<String>>();
    // A path that climbs above the root names nothing, though a file of that name
    // is known.
    assert_eq!(resolve_include("../engine.h", true, "main.c", &known(&[]), &known(&["engine.h"])), None);
    assert_eq!(resolve_include("../../engine.h", true, "src/main.c", &known(&[]), &known(&["engine.h"])), None);
    assert_eq!(resolve_include("../engine.h", false, "main.c", &known(&["."]), &known(&["engine.h"])), None);
    // One that climbs no higher than the root is found.
    let found = resolve_include("../engine.h", true, "src/main.c", &known(&[]), &known(&["engine.h"]));
    assert_eq!(found.as_deref(), Some("engine.h"));
    // One search directory leaves the project, the next one does not.
    let found = resolve_include("../engine.h", false, "main.c", &known(&[".", "lib"]), &known(&["engine.h"]));
    assert_eq!(found.as_deref(), Some("engine.h"));
}

#[test]
fn ports_that_others_found_come_last() {
    let mut source = file("/p/a.c", "int run(void) { return 1; }\n");
    source.extra.push(BoundaryRef {
        mechanism: "rpc".to_string(),
        role: "server".to_string(),
        key: "run".to_string(),
        line: 1,
        col: 4,
        confidence: 70,
        detail: Detail::new(),
    });
    let analysis = read_structure(Dialect::C, "/p", &vec![root(vec![source])]).unwrap();
    let graph = analyze_family(analysis, &None, false).unwrap();
    let port = graph.nodes().iter().find(|n| n.kind == NodeKind::Boundary).unwrap();
    assert_eq!((port.metadata.get_text("mechanism").as_str(), port.metadata.get_text("key").as_str()), ("rpc", "run"));
    let exposes = graph.relations().iter().find(|r| r.kind == RelationKind::Exposes).unwrap();
    assert_eq!(exposes.target_id, port.id);
    assert_eq!(exposes.metadata.get_text("confidence"), "0.7");
}

fn at(file: &str, line: u32, col: u32, origin: &str) -> Option<ResolvedRef> {
    Some(ResolvedRef {
        full_name: String::new(),
        file_path: Some(file.to_string()),
        line,
        col,
        kind: String::new(),
        origin: origin.to_string(),
    })
}

#[test]
fn a_compiler_index_makes_a_complete_graph() {
    let code = "int helper(void) { return 1; }\nint run(void) { return helper() + missing(); }\n";
    let analysis = read_structure(Dialect::C, "/p", &vec![root(vec![file("/p/a.c", code)])]).unwrap();
    let found: Vec<Option<ResolvedRef>> = analysis.roots[0].files[0]
        .facts
        .occurrences
        .iter()
        .map(|u| if u.name == "helper" { at("/p//a.c", 1, 5, "internal") } else { None })
        .collect();
    let answers = declared_answers(&analysis.graph, "/p", &found);
    let resolution =
        Some(FamilyResolution { answers: vec![vec![answers]], status: ResolverStatus::Complete, micros: 3 });
    assert!(check_resolution(&analysis.roots, &resolution));
    let graph = analyze_family(analysis, &resolution, true).unwrap();
    let id = |name: &str| graph.nodes().iter().find(|n| n.qualified_name == name).unwrap().id.clone();
    assert!(graph
        .relations()
        .iter()
        .any(|r| r.kind == RelationKind::Calls && r.source_id == id("run") && r.target_id == id("helper")));
    assert_eq!(graph.metadata().get_text("resolver_status"), "ok");
    assert_eq!(
        format!("{:?}", graph.metadata().get("resolver_metrics")),
        "Some(Counters(ResolverMetrics { queries: 2, resolved: 2, internal: 1, external: 1, unresolved: 0, micros: 3 }))"
    );
}

#[test]
fn answers_of_a_compiler_point_at_declarations() {
    let code = "int helper(void) { return 1; }\n";
    let analysis = read_structure(Dialect::C, "/p", &vec![root(vec![file("/p/a.c", code)])]).unwrap();
    let found = vec![
        at("/p/a.c", 1, 5, "internal"),
        at("/p/a.c", 1, 1, "internal"),
        at("/p/b.c", 1, 5, "internal"),
        at("/p/a.c", 1, 5, "stdlib"),
        None,
    ];
    let answers = declared_answers(&analysis.graph, "/p", &found);
    assert_eq!(answers.len(), 5);
    let first = answers[0].as_ref().unwrap();
    assert_eq!((first.qualified_name.as_str(), first.kind), ("helper", NodeKind::Function));
    assert!(answers[1..].iter().all(|a| a.is_none()));
}

#[test]
fn an_incomplete_index_is_refused_in_strict_mode() {
    for status in [ResolverStatus::Degraded, ResolverStatus::Unavailable] {
        let analysis = read_structure(Dialect::Cpp, "/p", &vec![root(vec![])]).unwrap();
        let resolution = Some(FamilyResolution { answers: vec![vec![]], status, micros: 0 });
        let message = analyze_family(analysis, &resolution, true).err().unwrap();
        let expected = format!("cpp resolver status is '{}'; refusing", status.as_str());
        assert!(message.starts_with(&expected), "{}", message);
    }
}

#[test]
fn the_symbol_table_stands_in_for_a_compiler_index() {
    let given = |status, micros| Some(FamilyResolution { answers: vec![], status, micros });
    let table = || Some(FamilyResolution::of_table(vec![], 7));
    let chosen = |compiler| {
        let r = choose_resolution(compiler, table()).unwrap();
        (r.status, r.micros)
    };
    assert!(chosen(None) == (ResolverStatus::Degraded, 7));
    assert!(chosen(given(ResolverStatus::Unavailable, 1)) == (ResolverStatus::Degraded, 7));
    assert!(chosen(given(ResolverStatus::Degraded, 1)) == (ResolverStatus::Degraded, 1));
    assert!(chosen(given(ResolverStatus::Complete, 1)) == (ResolverStatus::Complete, 1));
    assert!(choose_resolution(given(ResolverStatus::Unavailable, 1), None).is_none());
}
