use callix::cfamily::deps::ListWalk;
use callix::golang::adapter::package_qname;
use callix::golang::deps::go_roots;
use callix::paths::{
    base_name, below, is_under, parent_dir, path_segments, path_steps, place_below, relative_to,
};

fn strings(items: &[&str]) -> Vec<String> {
    items.iter().map(|s| s.to_string()).collect()
}

#[test]
fn a_path_is_read_by_its_components() {
    assert_eq!(path_segments("/p//src/./a.c/"), strings(&["p", "src", "a.c"]));
    assert_eq!(path_steps("/p//src/./a.c/"), strings(&["/", "p", "src", "a.c"]));
    assert_eq!(path_steps("p/../a"), strings(&["p", "..", "a"]));
    assert_eq!(path_steps("./p"), strings(&[".", "p"]));
    assert!(path_steps("").is_empty());
}

#[test]
fn a_path_below_a_directory_is_found_by_components() {
    assert_eq!(below("/p/x.c", "/p").as_deref(), Some("x.c"));
    assert_eq!(below("/p//x.c", "/p").as_deref(), Some("x.c"));
    assert_eq!(below("/p/./a/", "/p").as_deref(), Some("a"));
    assert_eq!(below("/p/x.c", "/p/").as_deref(), Some("x.c"));
    assert_eq!(below("/p/a//b.c", "/p").as_deref(), Some("a//b.c"));
    assert_eq!(below("/p", "/p").as_deref(), Some(""));
    assert_eq!(below("/x.c", "/").as_deref(), Some("x.c"));
    assert_eq!(below("a/b.c", "").as_deref(), Some("a/b.c"));
    assert_eq!(below("/pq/x.c", "/p"), None);
    assert_eq!(below("p/x.c", "/p"), None);
    assert_eq!(below("/p/x.c", "p"), None);
    assert_eq!(below("./a", "a"), None);
}

#[test]
fn a_directory_holds_what_its_components_begin() {
    assert!(is_under("/p//src/a.c", "/p/src/"));
    assert!(is_under("/p/./src/a.c", "/p/src"));
    assert!(!is_under("/p/srcs/a.c", "/p/src"));
    assert!(!is_under("p/src/a.c", "/p/src"));
    assert!(is_under("/anything", "/"));
    assert!(!is_under("anything", "/"));
}

#[test]
fn a_path_has_a_parent_and_a_name() {
    assert_eq!(parent_dir("/p/a.c"), "/p");
    assert_eq!(parent_dir("/a.c"), "/");
    assert_eq!(parent_dir("a.c"), "");
    assert_eq!(parent_dir("p/a/"), "p");
    assert_eq!(parent_dir("/"), "");
    assert_eq!(base_name("/p/a.c"), "a.c");
    assert_eq!(base_name("p/a/"), "a");
    assert_eq!(base_name("p/a/."), "a");
    assert_eq!(base_name("p/.."), "");
    assert_eq!(base_name("/"), "");
}

#[test]
fn a_path_is_placed_below_a_directory() {
    assert_eq!(place_below("/p", "a"), "/p/a");
    assert_eq!(place_below("/p/", "a"), "/p/a");
    assert_eq!(place_below("", "a"), "a");
    assert_eq!(place_below("/", "a"), "/a");
    assert_eq!(place_below("/p", "/q"), "/q");
}

#[test]
fn placing_a_rest_gives_the_path_again() {
    for (dir, path) in [
        ("/p", "/p//x.c"),
        ("/p/", "/p/./a/"),
        ("", "/p/x.c"),
        ("", "./a"),
        ("/", "/x.c"),
        (".", "./a//b"),
        ("/p", "/p"),
        ("p/..", "p/../q/"),
    ] {
        let rest = below(path, dir).unwrap();
        assert_eq!(path_steps(&place_below(dir, &rest)), path_steps(path), "{} below {}", path, dir);
    }
}

#[test]
fn files_are_shown_relative_to_the_project() {
    assert_eq!(relative_to("/p//src/a.c", "/p", "/p/src"), "src/a.c");
    assert_eq!(relative_to("/p/src/a.c", "/p/", "/p/src"), "src/a.c");
}

#[test]
fn a_package_is_named_by_its_directory() {
    assert_eq!(package_qname("/p/store/store.go", "/p", "acme/shop"), "acme/shop/store");
    assert_eq!(package_qname("/p//store/store.go", "/p/", "acme/shop"), "acme/shop/store");
    assert_eq!(package_qname("/p/main.go", "/p", "acme/shop"), "acme/shop");
    assert_eq!(package_qname("/main.go", "/", "acme/shop"), "acme/shop");
    assert_eq!(package_qname("/q/main.go", "/p", "acme/shop"), "acme/shop");
}

#[test]
fn a_root_is_recognised_under_another_spelling() {
    assert!(go_roots(strings(&["/p/"]), "/p", false).is_empty());
    assert!(go_roots(strings(&["/p"]), "//p/.", false).is_empty());
    assert_eq!(go_roots(strings(&["p"]), "/p", false), strings(&["p"]));
}

#[test]
fn listfiles_of_a_relative_project_are_walked() {
    for (root, inner) in [("", "sub/inner"), ("p", "p/sub/inner"), ("/p/", "/p/sub/inner")] {
        let mut walk = ListWalk::new(root);
        let mut seen = Vec::new();
        while let Some(dir) = walk.next_dir() {
            if seen.is_empty() {
                walk.feed("add_subdirectory(sub//inner)\nadd_subdirectory(sub/./inner/)\n");
            }
            seen.push(dir);
        }
        assert_eq!(seen.len(), 2, "{:?}", seen);
        assert_eq!(seen[1], inner);
    }
}
