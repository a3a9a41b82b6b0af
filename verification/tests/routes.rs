use callix::adapter::add_boundary;
use callix::boundaries::{normalize_http_path, BoundaryRef, Detail};
use callix::graph::Graph;

#[test]
fn every_spelling_of_a_parameter_has_one_key() {
    for written in ["/users/{id}/posts", "/users/:id/posts", "/users/<id>/posts", "/users/42/posts"] {
        assert_eq!(normalize_http_path(written), "/users/{}/posts");
    }
}

#[test]
fn host_query_and_slashes_have_no_part_in_a_key() {
    assert_eq!(normalize_http_path("https://h.example/users/1?x=1#top"), "/users/{}");
    assert_eq!(normalize_http_path("/users/1?x=1"), "/users/{}");
    assert_eq!(normalize_http_path("users//"), "/users");
    assert_eq!(normalize_http_path("///"), "/");
    assert_eq!(normalize_http_path(""), "/");
    assert_eq!(normalize_http_path("http://h"), "/");
}

#[test]
fn a_key_is_its_own_key() {
    for raw in ["/users/{id}", "/a/<b>/:c/7", "x?y", "http://h/a/b/"] {
        let key = normalize_http_path(raw);
        assert_eq!(normalize_http_path(&key), key);
    }
    // White space at the end of a key is trimmed the second time.
    let odd = normalize_http_path("/a /");
    assert_eq!(odd, "/a ");
    assert_eq!(normalize_http_path(&odd), "/a");
}

#[test]
fn two_sides_of_a_contract_meet_on_one_node() {
    let side = |role: &str, path: &str| BoundaryRef {
        mechanism: "http".to_string(),
        role: role.to_string(),
        key: format!("GET {}", normalize_http_path(path)),
        line: 1,
        col: 1,
        confidence: 90,
        detail: Detail::new(),
    };
    let mut g = Graph::new();
    add_boundary(&mut g, "server", &side("server", "/users/{id}"));
    add_boundary(&mut g, "client", &side("client", "/users/1"));
    assert_eq!(g.len(), 1);
    assert_eq!(g.relations().len(), 2);
    assert_eq!(g.link_boundaries(0), 1);
}

#[test]
fn merging_two_services_links_them() {
    let side = |role: &str, path: &str, confidence: u32| BoundaryRef {
        mechanism: "http".to_string(),
        role: role.to_string(),
        key: format!("GET {}", normalize_http_path(path)),
        line: 1,
        col: 1,
        confidence,
        detail: Detail::new(),
    };
    let mut server = Graph::new();
    add_boundary(&mut server, "server", &side("server", "/users/{id}", 100));
    let mut client = Graph::new();
    add_boundary(&mut client, "client", &side("client", "https://h/users/7?full=1", 80));
    assert!(server.merge(&client, true).is_ok());
    assert_eq!(server.len(), 1);
    assert_eq!(server.link_boundaries(80_000_001), 0);
    assert_eq!(server.link_boundaries(80_000_000), 1);
    let link = server.relations().last().unwrap();
    assert_eq!((link.source_id.as_str(), link.target_id.as_str()), ("client", "server"));
}

#[test]
fn clean_paths_have_fixed_keys() {
    for raw in ["/users/{id}/posts", "users/:id", "/a/<int:b>/", "/v1/{x}{y}", "/users/42", "/static/*rest"] {
        let key = normalize_http_path(raw);
        assert_eq!(normalize_http_path(&key), key);
    }
}
