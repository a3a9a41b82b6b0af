//! Deterministic ids: the same input yields the same id in every run, which is
//! what makes incremental updates and diffs possible.

use sha2::Digest;
use vstd::prelude::*;

use crate::node::NodeKind;
use crate::text::{concat4, concat5};

verus! {

/// What SHA-256 makes of a run of bytes.
pub uninterp spec fn sha256(bytes: Seq<u8>) -> Seq<u8>;

/// Calls `sha2::Sha256::digest`: the SHA-256 hash of the bytes, which is
/// thirty-two bytes long and depends on the bytes alone.
#[verifier::external_body]
fn sha256_of(bytes: &[u8]) -> (r: Vec<u8>)
    ensures
        r@ == sha256(bytes@),
        r@.len() == 32,
{
    sha2::Sha256::digest(bytes).to_vec()
}

/// The lower-case hexadecimal digit of a number below sixteen.
pub open spec fn hex_digit(n: int) -> char {
    if n < 10 {
        (48 + n) as char
    } else {
        (87 + n) as char
    }
}

/// Whether a character is a lower-case hexadecimal digit.
pub open spec fn is_hex(c: char) -> bool {
    ('0' <= c <= '9') || ('a' <= c <= 'f')
}

/// Two hexadecimal digits per byte, the higher one first.
pub open spec fn hex(bytes: Seq<u8>) -> Seq<char>
    decreases bytes.len(),
{
    if bytes.len() == 0 {
        Seq::empty()
    } else {
        hex(bytes.drop_last()).push(hex_digit(bytes.last() as int / 16)).push(hex_digit(bytes.last() as int % 16))
    }
}

/// Computes a hexadecimal digit.
pub(crate) fn hex_char(n: u8) -> (r: char)
    requires
        n < 16,
    ensures
        r == hex_digit(n as int),
        is_hex(r),
{
    if n < 10 {
        (48 + n) as char
    } else {
        (87 + n) as char
    }
}

/// The first eight bytes of the hash of a text's UTF-8 bytes, in hexadecimal.
pub open spec fn digest16_of(key: Seq<char>) -> Seq<char> {
    hex(sha256(vstd::utf8::encode_utf8(key)).take(8))
}

/// Hashes a text to sixteen lower-case hexadecimal digits.
pub fn digest16(key: &str) -> (r: String)
    ensures
        r@ == digest16_of(key@),
        r@.len() == 16,
        forall|i: int| 0 <= i < 16 ==> is_hex(#[trigger] r@[i]),
{
    let hash = sha256_of(key.as_bytes());
    let mut out = String::new();
    let mut i: usize = 0;
    assert(hash@.take(0) =~= Seq::<u8>::empty());
    while i < 8
        invariant
            i <= 8,
            hash@.len() == 32,
            out@ == hex(hash@.take(i as int)),
            out@.len() == 2 * i,
            forall|j: int| 0 <= j < 2 * i ==> is_hex(#[trigger] out@[j]),
        decreases 8 - i,
    {
        let b = hash[i];
        out.push(hex_char(b / 16));
        out.push(hex_char(b % 16));
        proof {
            assert(hash@.take(i + 1).drop_last() =~= hash@.take(i as int));
            assert(hash@.take(i + 1).last() == b);
        }
        i += 1;
    }
    out
}

/// The id of a node: the digest of project, kind and qualified name, in that
/// order, with `::` between them.
pub open spec fn id_of_node(project_name: Seq<char>, qualified_name: Seq<char>, kind: Seq<char>) -> Seq<char> {
    digest16_of(project_name + "::"@ + kind + "::"@ + qualified_name)
}

/// The id of a boundary: the digest of the mechanism and the key alone.
pub open spec fn id_of_boundary(mechanism: Seq<char>, key: Seq<char>) -> Seq<char> {
    digest16_of("boundary::"@ + mechanism + "::"@ + key)
}

/// The id of a node of a known kind.
pub open spec fn kind_id(project_name: Seq<char>, qualified_name: Seq<char>, kind: NodeKind) -> Seq<char> {
    id_of_node(project_name, qualified_name, kind.name())
}

/// Computes the id of a node.
pub fn node_id(project_name: &str, qualified_name: &str, kind: &str) -> (r: String)
    ensures
        r@ == id_of_node(project_name@, qualified_name@, kind@),
        r@.len() == 16,
        forall|i: int| 0 <= i < 16 ==> is_hex(#[trigger] r@[i]),
{
    let key = concat5(project_name, "::", kind, "::", qualified_name);
    digest16(key.as_str())
}

/// Computes the id of a boundary.
pub fn boundary_id(mechanism: &str, key: &str) -> (r: String)
    ensures
        r@ == id_of_boundary(mechanism@, key@),
        r@.len() == 16,
        forall|i: int| 0 <= i < 16 ==> is_hex(#[trigger] r@[i]),
{
    let text = concat4("boundary::", mechanism, "::", key);
    digest16(text.as_str())
}

/// Computes the id of a node of a known kind.
pub fn node_kind_id(project_name: &str, qualified_name: &str, kind: NodeKind) -> (r: String)
    ensures
        r@ == kind_id(project_name@, qualified_name@, kind),
{
    node_id(project_name, qualified_name, kind.as_str())
}

/// The stable id of a node: `sha256("{project}::{kind}::{qualified_name}")`,
/// cut to sixteen digits.
pub fn make_node_id(project_name: &str, qualified_name: &str, kind: &str) -> (r: String)
    ensures
        r@ == id_of_node(project_name@, qualified_name@, kind@),
{
    node_id(project_name, qualified_name, kind)
}

/// The stable id of a boundary: independent of language and project, so that a
/// server in one language and a client in another produce the same node.
pub fn make_boundary_id(mechanism: &str, key: &str) -> (r: String)
    ensures
        r@ == id_of_boundary(mechanism@, key@),
{
    boundary_id(mechanism, key)
}

/// The separator is not escaped: two ways of cutting the same text into
/// mechanism and key give the same id.
pub proof fn boundary_cuts_collide(a: Seq<char>, b: Seq<char>, c: Seq<char>)
    ensures
        id_of_boundary(a + "::"@ + b, c) == id_of_boundary(a, b + "::"@ + c),
{
    assert("boundary::"@ + (a + "::"@ + b) + "::"@ + c =~= "boundary::"@ + a + "::"@ + (b + "::"@ + c));
}

/// Likewise for nodes: a project name that ends in `::{x}` and a kind collide
/// with the shorter project name and the kind `{x}::{kind}`.
pub proof fn node_cuts_collide(project: Seq<char>, x: Seq<char>, kind: Seq<char>, name: Seq<char>)
    ensures
        id_of_node(project + "::"@ + x, name, kind) == id_of_node(project, name, x + "::"@ + kind),
{
    assert((project + "::"@ + x) + "::"@ + kind + "::"@ + name =~= project + "::"@ + (x + "::"@ + kind) + "::"@ + name);
}

}
