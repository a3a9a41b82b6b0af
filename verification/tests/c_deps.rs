use callix::cfamily::deps::{
    cmake_entries, commands, conan_py_names, conan_txt_names, meson_names, sanitize, vcpkg_names, vendored_name,
};

fn sorted(names: Vec<String>) -> Vec<String> {
    let mut out: Vec<String> = names;
    out.sort();
    out
}

fn names_of(text: &str) -> Vec<String> {
    sorted(cmake_entries(text).names)
}

#[test]
fn reads_a_command_split_over_several_lines() {
    let commands = commands("target_link_libraries(app\n  PRIVATE\n  curl\n)\n");
    assert_eq!(commands.len(), 1);
    assert_eq!(commands[0].name, "target_link_libraries");
    assert_eq!(commands[0].args, ["app", "PRIVATE", "curl"]);
}

/// The two spellings of a command name, and the case CMake ignores.
#[test]
fn a_name_may_be_separated_from_its_parenthesis() {
    let commands = commands("Project (fixture C)\nfind_package(CURL)\n");
    assert_eq!(commands[0].name, "project");
    assert_eq!(commands[0].args, ["fixture", "C"]);
    assert_eq!(commands[1].name, "find_package");
}

/// A `#` inside a quoted argument is data, and a comment ends at the line.
#[test]
fn comments_and_quotes_do_not_swallow_each_other() {
    let commands = commands("# find_package(Ghost)\nset(X \"a#b c\")  # trailing\n");
    assert_eq!(commands.len(), 1);
    assert_eq!(commands[0].name, "set");
    assert_eq!(commands[0].args, ["X", "a#b c"]);
}

#[test]
fn nested_parentheses_do_not_end_the_argument_list() {
    let commands = commands("target_link_libraries(app $<IF:$<BOOL:x>,a,b> curl)\n");
    assert_eq!(commands[0].args.len(), 3);
    assert_eq!(commands[0].args[2], "curl");
}

/// The fixture's listfile: `engine` is a target of the project and `curl`
/// is the dependency. Reporting `engine` would put this project's own
/// library in its dependency list.
#[test]
fn a_linked_target_of_this_project_is_not_a_dependency() {
    let text = "\
project(fixture C)
add_library(engine src/engine.c)
add_executable(fixture src/main.c)
target_link_libraries(fixture PRIVATE engine curl)
";
    assert_eq!(names_of(text), ["curl"]);
}

#[test]
fn reads_find_package_fetchcontent_and_pkg_config() {
    let text = "\
find_package(Threads REQUIRED)
pkg_check_modules(CURL REQUIRED libcurl>=7.0)
FetchContent_Declare(fmt GIT_REPOSITORY https://github.com/fmtlib/fmt)
";
    assert_eq!(names_of(text), ["Threads", "fmt", "libcurl"]);
}

/// An imported target names its package, which is what a DEPENDENCY node
/// stands for; a `-l` flag names the library directly.
#[test]
fn imported_targets_and_linker_flags_reduce_to_a_package() {
    assert_eq!(sanitize("CURL::libcurl").as_deref(), Some("CURL"));
    assert_eq!(sanitize("Threads::Threads").as_deref(), Some("Threads"));
    assert_eq!(sanitize("-lm").as_deref(), Some("m"));
    assert_eq!(sanitize("libcurl>=7.0").as_deref(), Some("libcurl"));
    assert_eq!(sanitize("  \"fmt\"  ").as_deref(), Some("fmt"));
}

/// Anything a configure run would have to evaluate is dropped rather than
/// reported verbatim.
#[test]
fn unevaluated_and_non_package_arguments_are_dropped() {
    for raw in ["${LIBS}", "$<TARGET_FILE:app>", "-Wl,--as-needed", "", "  ", "/usr/lib/libm.a"] {
        assert_eq!(sanitize(raw), None, "{raw:?} was accepted");
    }
}

#[test]
fn a_vendored_subdirectory_is_a_dependency_and_an_internal_one_is_not() {
    assert_eq!(vendored_name("third_party/fmt").as_deref(), Some("fmt"));
    assert_eq!(vendored_name("vendor/googletest/").as_deref(), Some("googletest"));
    assert_eq!(vendored_name("src/engine"), None);
    assert_eq!(vendored_name("tests"), None);
    // The subdirectory is followed either way, which is what the second
    // half of the tuple carries.
    let entries = cmake_entries("add_subdirectory(src)\nadd_subdirectory(external/zlib)\n");
    assert_eq!(sorted(entries.names), ["zlib"]);
    assert_eq!(entries.subdirectories, ["src", "external/zlib"]);
}

#[test]
fn reads_a_vcpkg_manifest_in_both_spellings() {
    let text = r#"{
          "name": "fixture",
          "dependencies": ["fmt", {"name": "boost-asio", "version>=": "1.84"}],
          "features": {"test": {"dependencies": ["catch2"]}}
        }"#;
    assert_eq!(sorted(vcpkg_names(text)), ["boost-asio", "catch2", "fmt"]);
    // Malformed JSON yields nothing rather than failing the analysis.
    assert!(vcpkg_names("{not json").is_empty());
}

#[test]
fn reads_conanfile_txt_sections() {
    let text = "\
[requires]
fmt/10.2.1
# a comment
zlib/1.3

[generators]
CMakeDeps
[tool_requires]
cmake/3.28.1
";
    assert_eq!(sorted(conan_txt_names(text)), ["cmake", "fmt", "zlib"]);
}

#[test]
fn reads_conanfile_py_attributes_and_calls() {
    let text = "\
class Recipe(ConanFile):
    requires = (
        \"fmt/10.2.1\",
        \"zlib/1.3\",
    )
    generators = \"CMakeDeps\"

    def requirements(self):
        self.requires(\"openssl/3.2.0\")
";
    assert_eq!(sorted(conan_py_names(text)), ["fmt", "openssl", "zlib"]);
    // A `requires` line with no versioned string names nothing.
    assert!(conan_py_names("    requires = None\n").is_empty());
}

#[test]
fn reads_meson_dependency_calls() {
    let text = "\
project('fixture', 'c')
zlib = dependency('zlib', required: false)
executable('app', 'main.c', dependencies: [zlib, dependency('libcurl')])
";
    assert_eq!(sorted(meson_names(text)), ["libcurl", "zlib"]);
}
