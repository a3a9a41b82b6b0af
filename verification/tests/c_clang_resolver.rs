use callix::cfamily::clang_resolver::{symbol_origin, ClangScipResolver, ScipAnswer};
use callix::status::ResolverStatus;

/// A real symbol, as `scip-clang` 0.4.0 actually emits it — verified
/// against a live run over google/leveldb, not guessed from the SCIP spec.
const REAL_SYMBOL: &str = "cxx . . $ leveldb/Arena#AllocateNewBlock(4b58d6ff543a4736).";

#[test]
fn classifies_libstdcxx_internals_as_stdlib() {
    for symbol in [
        "cxx . . $ std/vector#`operator[]`(428bb168810b9e52).",
        "cxx . . $ __gnu_cxx/__normal_iterator#operator++(93f2e9c3bc4efc49).",
        "cxx . . $ __cxxabiv1/__class_type_info#foo().",
    ] {
        assert_eq!(symbol_origin(symbol), "stdlib", "{symbol}");
    }
}

#[test]
fn classifies_project_and_third_party_namespaces_as_third_party() {
    // A symbol scip-clang builds from the project's own sources is
    // indistinguishable, by namespace alone, from one in a vendored
    // dependency — both fall through to the same bucket, the same way
    // RustResolver's package-name check cannot tell a workspace crate from
    // a path dependency.
    assert_eq!(symbol_origin(REAL_SYMBOL), "third_party");
    assert_eq!(symbol_origin("cxx . . $ boost/system#error()."), "third_party");
}

#[test]
fn a_malformed_symbol_is_unknown_rather_than_panicking() {
    // Fewer than five space-separated fields means there is no
    // descriptor to classify at all — not even enough of the scheme to
    // guess wrong. `nth(4)` on any *five or more* tokens is unlikely
    // ever to be attempted with such a short, clearly-not-SCIP string, so
    // this is the honest floor, not a full validation of the scheme.
    for symbol in ["", "cxx", "cxx . ."] {
        assert_eq!(symbol_origin(symbol), "unknown", "{symbol:?}");
    }
}

#[test]
fn a_relative_compdb_path_joins_the_project_root() {
    let mut resolver = ClangScipResolver::new(Some("build/compile_commands.json"));
    let database = resolver.prepare("/tmp/callix-clang-resolver-test-relative");
    assert_eq!(database, "/tmp/callix-clang-resolver-test-relative/build/compile_commands.json");
    // Without an index the honest answer is `unavailable`.
    assert_eq!(resolver.status, ResolverStatus::Unavailable);
}

#[test]
fn an_absolute_compdb_path_is_not_rejoined_to_the_root() {
    let mut resolver = ClangScipResolver::new(Some("/tmp/callix-clang-resolver-does-not-exist.json"));
    let database = resolver.prepare("/tmp/callix-clang-resolver-test-absolute");
    assert_eq!(database, "/tmp/callix-clang-resolver-does-not-exist.json");
    assert_eq!(resolver.status, ResolverStatus::Unavailable);
}

#[test]
fn resolve_before_prepare_answers_nothing() {
    let resolver = ClangScipResolver::new(None);
    assert_eq!(resolver.compdb_path, "compile_commands.json");
    assert!(resolver.query_position(1, 1).is_none());
    let answer = Some(ScipAnswer::Definition { path: "a.cc".to_string(), line: 0, col: 0 });
    assert!(resolver.resolve_one(1, 1, &answer).is_none());
}

#[test]
fn an_index_answers_with_a_definition_or_a_symbol() {
    let mut resolver = ClangScipResolver::new(None);
    resolver.prepare("/p");
    assert_eq!(resolver.query_position(1, 1), Some((0, 0)));
    assert_eq!(resolver.query_position(0, 1), None);
    let definition = Some(ScipAnswer::Definition { path: "src/a.cc".to_string(), line: 4, col: 2 });
    let found = resolver.resolve_one(1, 1, &definition).unwrap();
    assert_eq!(found.file_path.as_deref(), Some("/p/src/a.cc"));
    assert_eq!((found.line, found.col), (5, 3));
    let symbol = Some(ScipAnswer::External { symbol: "cxx . . $ std/vector#".to_string() });
    let outside = resolver.resolve_one(1, 1, &symbol).unwrap();
    assert_eq!(outside.full_name, "cxx . . $ std/vector#");
    assert_eq!(outside.origin, "stdlib");
    assert!(outside.file_path.is_none());
    assert!(resolver.resolve_one(1, 1, &None).is_none());
}

#[test]
fn an_incomplete_index_is_degraded() {
    let mut resolver = ClangScipResolver::new(None);
    resolver.prepare("/p");
    resolver.indexed(false, Some(0));
    assert_eq!(resolver.status, ResolverStatus::Complete);
    resolver.indexed(false, Some(1));
    assert_eq!(resolver.status, ResolverStatus::Degraded);
    resolver.indexed(true, Some(0));
    assert_eq!(resolver.status, ResolverStatus::Degraded);
    resolver.indexed(false, None);
    assert_eq!(resolver.status, ResolverStatus::Degraded);
}
