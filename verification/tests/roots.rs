use callix::cfamily::deps::{c_parse_dependencies, BuildFiles, ListWalk};
use callix::cfamily::detector::{
    c_detect_project_name, cpp_detect_project_name, family_roots, is_c_project, is_cpp_project, is_of, keep_sources,
};
use callix::cfamily::Dialect;
use callix::golang::deps::{go_detect_project_name, go_parse_dependencies, go_read_module_path, go_roots};
use callix::golang::resolver::{classify, in_mod_cache, parse_answer, resolved_ref, session_status, Base};
use callix::status::ResolverStatus;

fn strings(items: &[&str]) -> Vec<String> {
    items.iter().map(|s| s.to_string()).collect()
}

#[test]
fn a_search_that_fell_back_finds_no_module() {
    assert!(go_roots(strings(&["/p"]), "/p", false).is_empty());
    assert_eq!(go_roots(strings(&["/p"]), "/p", true), strings(&["/p"]));
    assert_eq!(go_roots(strings(&["/p/a", "/p/b"]), "/p", false), strings(&["/p/a", "/p/b"]));
    assert!(family_roots(strings(&["/p"]), "/p", false).is_empty());
    assert_eq!(family_roots(strings(&["/p/a"]), "/p", false), strings(&["/p/a"]));
}

#[test]
fn a_go_mod_names_its_module() {
    let text = Some("module github.com/acme/shop\nrequire github.com/x/y v1.0.0\n".to_string());
    assert_eq!(go_read_module_path(&text).as_deref(), Some("github.com/acme/shop"));
    assert_eq!(go_detect_project_name(&text, "dir"), "shop");
    assert_eq!(go_parse_dependencies(&text), strings(&["github.com/x/y"]));
    assert_eq!(go_read_module_path(&None), None);
    assert_eq!(go_detect_project_name(&None, "dir"), "dir");
    assert!(go_parse_dependencies(&None).is_empty());
}

#[test]
fn answers_of_the_checker_are_read() {
    let answer = parse_answer("/p/a.go\t3\t4").unwrap();
    assert_eq!((answer.path.as_str(), answer.line, answer.col), ("/p/a.go", 3, 4));
    for bad in ["", "\t1\t2", "/p/a.go\t3", "/p/a.go\tx\t4", "/p/a.go\t3\t-1"] {
        assert!(parse_answer(bad).is_none(), "{}", bad);
    }
    let root = Some(Base { given: "/p".to_string(), resolved: "/real/p".to_string() });
    let goroot = Some(Base { given: "/usr/lib/go".to_string(), resolved: "/usr/share/go".to_string() });
    assert_eq!(classify("/p/a.go", "/real/p/a.go", &root, &goroot), "internal");
    assert_eq!(classify("/x", "/usr/share/go/src/fmt/p.go", &root, &goroot), "stdlib");
    assert_eq!(classify("/h/go/pkg/mod/x@v1/a.go", "/h/go/pkg/mod/x@v1/a.go", &root, &goroot), "third_party");
    assert_eq!(classify("/else/a.go", "/else/a.go", &root, &goroot), "unknown");
    assert!(in_mod_cache("/h/pkg/mod/a") && !in_mod_cache("/h/pkg/a/mod"));
    let found = resolved_ref(&answer, "/real/p/a.go", &root, &goroot);
    assert_eq!((found.file_path.as_deref(), found.line, found.origin.as_str()), (Some("/p/a.go"), 3, "internal"));
    assert_eq!(session_status(1), ResolverStatus::Complete);
    assert_eq!(session_status(0), ResolverStatus::Unavailable);
}

#[test]
fn a_tree_of_headers_is_c_unless_something_says_otherwise() {
    assert!(is_c_project(&strings(&["/p/a.h"])));
    assert!(!is_c_project(&strings(&["/p/a.h", "/p/b.hpp"])));
    assert!(is_c_project(&strings(&["/p/a.c", "/p/b.cpp"])));
    assert!(is_cpp_project(&strings(&["/p/a.c", "/p/b.cpp"])));
    assert!(is_of(&strings(&["/p/b.cc"]), Dialect::Cpp) && !is_of(&strings(&["/p/b.cc"]), Dialect::C));
    assert_eq!(
        keep_sources(&strings(&["/p/cmake-build-debug/x.c", "/p/src/cmake-build.c"]), "/p"),
        strings(&["/p/src/cmake-build.c"])
    );
    let list = Some("project(engine VERSION 1)\n".to_string());
    assert_eq!(c_detect_project_name(&list, "dir"), "engine");
    assert_eq!(cpp_detect_project_name(&None, "dir"), "dir");
}

#[test]
fn listfiles_are_walked_through_their_subdirectories() {
    let mut walk = ListWalk::new("/p");
    let mut seen = Vec::new();
    while let Some(dir) = walk.next_dir() {
        seen.push(dir.clone());
        match dir.as_str() {
            "/p" => walk.feed("find_package(CURL)\nadd_subdirectory(sub)\nadd_subdirectory(sub)\n"),
            "/p/sub" => walk.feed("find_package(ZLIB)\nadd_subdirectory(..)\n"),
            _ => {}
        }
    }
    assert_eq!(seen[0], "/p");
    assert!(seen.contains(&"/p/sub".to_string()));
    assert_eq!(seen.iter().filter(|d| d.as_str() == "/p/sub").count(), 1);
    let found = walk.found();
    assert_eq!(found.len(), 2);
    let files = BuildFiles {
        cmake: found,
        vcpkg: Some(r#"{"dependencies":["fmt",{"name":"boost-asio"}]}"#.to_string()),
        conan_txt: Some("[requires]\nzlib/1.3\n".to_string()),
        conan_py: None,
        meson: Some("dep = dependency('glib-2.0')\n".to_string()),
    };
    let all = c_parse_dependencies(&files);
    for name in ["fmt", "boost-asio", "glib-2.0"] {
        assert!(all.iter().any(|n| n == name), "{}: {:?}", name, all);
    }
    let mut sorted = all.clone();
    sorted.sort();
    assert_eq!(all, sorted);
}
