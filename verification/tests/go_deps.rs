use callix::golang::deps::{classify_go_import, module_path_in, required_modules_in};

fn sorted(modules: Vec<String>) -> Vec<String> {
    let mut out: Vec<String> = modules;
    out.sort();
    out
}

#[test]
fn reads_the_module_directive() {
    assert_eq!(
        module_path_in("module github.com/me/app\n\ngo 1.22\n").as_deref(),
        Some("github.com/me/app")
    );
    // Indented and padded are both legal.
    assert_eq!(
        module_path_in("  module   github.com/me/app  \n").as_deref(),
        Some("github.com/me/app")
    );
    // The first directive wins.
    assert_eq!(
        module_path_in("module first\nmodule second\n").as_deref(),
        Some("first")
    );
}

/// `module` must be a word of its own: a whitespace check is the only
/// thing between the directive and any identifier that starts with it.
#[test]
fn a_word_starting_with_module_is_not_the_directive() {
    assert_eq!(
        module_path_in("modulefoo bar\nmodule github.com/spaced/app\n").as_deref(),
        Some("github.com/spaced/app")
    );
    assert_eq!(module_path_in("module\n").as_deref(), None);
    assert_eq!(module_path_in("go 1.22\n").as_deref(), None);
    assert_eq!(module_path_in("").as_deref(), None);
}

#[test]
fn reads_a_require_block() {
    let text = "\
module github.com/me/app

go 1.22

require (
\tgithub.com/gin-gonic/gin v1.9.1
\t// a comment inside the block
\tgolang.org/x/net v0.17.0 // indirect
)
";
    assert_eq!(
        sorted(required_modules_in(text)),
        ["github.com/gin-gonic/gin", "golang.org/x/net"]
    );
}

#[test]
fn reads_a_single_line_require() {
    assert_eq!(
        sorted(required_modules_in(
            "module example.com/x\n\nrequire github.com/pkg/errors v0.9.1\n"
        )),
        ["github.com/pkg/errors"]
    );
    // A require with no version is not a requirement.
    assert!(required_modules_in("module m\nrequire onlypath\n").is_empty());
}

#[test]
fn reads_several_blocks_and_a_trailing_single_line() {
    assert_eq!(
        sorted(required_modules_in(
            "module m\nrequire (\n\ta v1\n)\nrequire (\n\tb v2\n)\nrequire c v3\n"
        )),
        ["a", "b", "c"]
    );
}

/// The block scanner searches for the literal `require`, so a module path
/// containing it must not derail the walk.
#[test]
fn require_inside_a_module_path_is_not_a_directive() {
    assert_eq!(
        sorted(required_modules_in(
            "module github.com/me/require\n\nrequire (\n\tgithub.com/a/b v1.0.0\n)\n"
        )),
        ["github.com/a/b"]
    );
    // `require` glued to the parenthesis with a word in between is not a
    // block opening either.
    assert!(required_modules_in("module m\nrequirements (\n\ta v1\n)\n").is_empty());
}

/// An unterminated block yields nothing rather than reading to EOF, and —
/// the part that matters — the scan terminates.
#[test]
fn an_unterminated_block_is_abandoned() {
    assert!(required_modules_in("module m\n\nrequire (\n\tgithub.com/a/b v1.0.0\n").is_empty());
    assert!(required_modules_in("require").is_empty());
    assert!(required_modules_in("require (").is_empty());
    assert!(required_modules_in("").is_empty());
}

#[test]
fn project_name_is_the_last_segment_of_the_module_path() {
    // `project_name` reads the file, so only the pure part is exercised
    // here; the trimming it does is spelled out in the assertions below.
    assert_eq!(
        module_path_in("module github.com/me/app/v2\n").as_deref(),
        Some("github.com/me/app/v2")
    );
}

// --- import classification (the implementation lives in the visitor) ---

fn required(paths: &[&str]) -> Vec<String> {
    paths.iter().map(|p| (*p).to_string()).collect()
}

#[test]
fn classifies_an_internal_import_by_module_prefix() {
    let deps = required(&["github.com/gin-gonic/gin"]);
    let module = Some("github.com/me/app");
    assert_eq!(classify_go_import("github.com/me/app", module, Some(deps.clone())), "internal");
    assert_eq!(
        classify_go_import("github.com/me/app/internal/db", module, Some(deps.clone())),
        "internal"
    );
    // A prefix that is only a substring of another path is not a match:
    // `.../apple` must not be swallowed by `.../app`.
    assert_eq!(
        classify_go_import("github.com/me/apple", module, Some(deps)),
        "unknown"
    );
}

/// Go's own rule: a standard-library path has no dot in its first segment.
#[test]
fn classifies_the_standard_library_by_the_missing_dot() {
    assert_eq!(classify_go_import("fmt", None, None), "stdlib");
    assert_eq!(classify_go_import("net/http", None, None), "stdlib");
    assert_eq!(classify_go_import("encoding/json", None, None), "stdlib");
    // An empty path has no dot either, and is reported as stdlib. Not
    // reachable from a real import, but pinned so the fallthrough is
    // known.
    assert_eq!(classify_go_import("", None, None), "stdlib");
}

#[test]
fn classifies_a_required_module_as_third_party() {
    let deps = required(&["github.com/gin-gonic/gin", "golang.org/x/net"]);
    for path in [
        "github.com/gin-gonic/gin",
        "github.com/gin-gonic/gin/binding",
        "golang.org/x/net/http2",
    ] {
        assert_eq!(
            classify_go_import(path, Some("github.com/me/app"), Some(deps.clone())),
            "third_party",
            "{path}"
        );
    }
    // A domain-rooted path nobody requires is a transitive dependency.
    assert_eq!(
        classify_go_import("github.com/other/x", Some("github.com/me/app"), Some(deps)),
        "unknown"
    );
}

#[test]
fn without_a_module_path_nothing_is_internal() {
    assert_eq!(classify_go_import("github.com/me/app", None, None), "unknown");
}
