use callix::ids::{boundary_id, digest16, make_boundary_id, make_node_id, node_id};

#[test]
fn node_id_is_the_documented_digest() {
    // sha256("proj::function::mod.fn")
    assert_eq!(make_node_id("proj", "mod.fn", "function"), "a153ff68a458153f");
    // The order is project, kind, qualified name: not the argument order.
    assert_eq!(node_id("p", "q", "k"), "5006a78699e8efc7");
    assert_eq!(digest16("p::k::q"), "5006a78699e8efc7");
}

#[test]
fn node_id_handles_empty_and_non_ascii_input() {
    // sha256("::::")
    assert_eq!(make_node_id("", "", ""), "d00d9be38948fb14");
    // Hashing is over UTF-8 bytes, so a non-ASCII name is stable too.
    assert_eq!(make_node_id("проект", "модуль.функция", "module"), "6ebab212e7948397");
}

#[test]
fn boundary_id_is_the_documented_digest() {
    // sha256("boundary::http::GET /users/{}")
    assert_eq!(make_boundary_id("http", "GET /users/{}"), "2c3c7cba2c035619");
    assert_eq!(make_boundary_id("", ""), "661add9eea6c91c5");
    assert_eq!(make_boundary_id("queue", "orders.créés"), "fa5cae387842009b");
}

/// Boundary ids depend on neither project nor language.
#[test]
fn boundary_id_depends_only_on_mechanism_and_key() {
    assert_eq!(make_boundary_id("http", "GET /users/{}"), boundary_id("http", "GET /users/{}"));
    assert_ne!(make_boundary_id("http", "GET /users/{}"), make_boundary_id("grpc", "GET /users/{}"));
    // The separator is not escaped, so two cuts of one text collide.
    assert_eq!(make_boundary_id("a::b", "c"), make_boundary_id("a", "b::c"));
}

#[test]
fn digest_is_16_lowercase_hex_chars() {
    for key in ["", "x", "a::b::c", "ünïcøde"] {
        let digest = digest16(key);
        assert_eq!(digest.len(), 16, "key {key:?}");
        assert!(
            digest.chars().all(|c| c.is_ascii_digit() || ('a'..='f').contains(&c)),
            "{digest} is not lowercase hex"
        );
    }
}
