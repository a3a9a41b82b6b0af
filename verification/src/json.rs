//! Values read from JSON texts.

use vstd::prelude::*;

use crate::text::{opt_view, same};

verus! {

/// A JSON value. A number is kept as the text that the parser writes for it;
/// members stand in the order in which the parser hands them out.
#[derive(Debug)]
pub enum Json {
    Null,
    Flag(bool),
    Number(String),
    Text(String),
    List(Vec<Json>),
    Object(Vec<Member>),
}

/// A member of an object.
#[derive(Debug)]
pub struct Member {
    pub key: String,
    pub value: Json,
}

/// The mathematical reading of a JSON value.
pub enum JsonView {
    Null,
    Flag(bool),
    Number(Seq<char>),
    Text(Seq<char>),
    List(Seq<JsonView>),
    Object(Seq<(Seq<char>, JsonView)>),
}

/// The reading of a value.
pub open spec fn json_view(j: Json) -> JsonView
    decreases j, 0nat,
{
    match j {
        Json::Null => JsonView::Null,
        Json::Flag(b) => JsonView::Flag(b),
        Json::Number(s) => JsonView::Number(s@),
        Json::Text(s) => JsonView::Text(s@),
        Json::List(v) => JsonView::List(list_view(v@, v@.len())),
        Json::Object(v) => JsonView::Object(object_view(v@, v@.len())),
    }
}

/// The readings of the first `n` values.
pub open spec fn list_view(v: Seq<Json>, n: nat) -> Seq<JsonView>
    decreases v, n,
{
    if n == 0 || n > v.len() {
        Seq::empty()
    } else {
        list_view(v, (n - 1) as nat).push(json_view(v[n - 1]))
    }
}

/// The readings of the first `n` members.
pub open spec fn object_view(v: Seq<Member>, n: nat) -> Seq<(Seq<char>, JsonView)>
    decreases v, n,
{
    if n == 0 || n > v.len() {
        Seq::empty()
    } else {
        object_view(v, (n - 1) as nat).push((v[n - 1].key@, json_view(v[n - 1].value)))
    }
}

impl View for Json {
    type V = JsonView;

    open spec fn view(&self) -> JsonView {
        json_view(*self)
    }
}

/// The type of JSON values of `serde_json`.
#[verifier::external_type_specification]
#[verifier::external_body]
pub struct ExValue(serde_json::Value);

/// What a value of `serde_json` holds.
pub uninterp spec fn held_json(v: serde_json::Value) -> JsonView;

/// What `serde_json` reads from a text; `None` where it is not JSON.
pub uninterp spec fn parsed_json(text: Seq<char>) -> Option<JsonView>;

/// Calls `serde_json::from_str`: whether a text is JSON, and which value it
/// holds, depend on the text alone.
#[verifier::external_body]
fn read_value(text: &str) -> (r: Option<serde_json::Value>)
    ensures
        match r {
            Some(v) => parsed_json(text@) == Some(held_json(v)),
            None => parsed_json(text@) is None,
        },
{
    serde_json::from_str::<serde_json::Value>(text).ok()
}

/// Moves a `serde_json::Value` into a value of this library, variant by
/// variant.
#[verifier::external_body]
fn from_value(v: serde_json::Value) -> (r: Json)
    ensures
        r@ == held_json(v),
{
    match v {
        serde_json::Value::Null => Json::Null,
        serde_json::Value::Bool(b) => Json::Flag(b),
        serde_json::Value::Number(n) => Json::Number(n.to_string()),
        serde_json::Value::String(s) => Json::Text(s),
        serde_json::Value::Array(a) => Json::List(a.into_iter().map(from_value).collect()),
        serde_json::Value::Object(o) => Json::Object(
            o.into_iter().map(|(key, value)| Member { key, value: from_value(value) }).collect(),
        ),
    }
}

/// Reads a JSON text; `None` where it is not JSON.
pub fn parse_json(text: &str) -> (r: Option<Json>)
    ensures
        opt_view(r) == parsed_json(text@),
{
    match read_value(text) {
        Some(v) => Some(from_value(v)),
        None => None,
    }
}

/// The readings of a list, one for one.
pub proof fn list_view_is_pointwise(v: Seq<Json>, n: nat)
    requires
        n <= v.len(),
    ensures
        list_view(v, n).len() == n,
        forall|i: int| 0 <= i < n ==> #[trigger] list_view(v, n)[i] == json_view(v[i]),
    decreases n,
{
    if n > 0 {
        list_view_is_pointwise(v, (n - 1) as nat);
    }
}

/// The readings of members, one for one.
pub proof fn object_view_is_pointwise(v: Seq<Member>, n: nat)
    requires
        n <= v.len(),
    ensures
        object_view(v, n).len() == n,
        forall|i: int|
            0 <= i < n ==> #[trigger] object_view(v, n)[i] == (v[i].key@, json_view(v[i].value)),
    decreases n,
{
    if n > 0 {
        object_view_is_pointwise(v, (n - 1) as nat);
    }
}

/// The value of the first member from `i` on under a key.
pub open spec fn member_from(o: Seq<(Seq<char>, JsonView)>, key: Seq<char>, i: int) -> Option<JsonView>
    decreases o.len() - i,
{
    if i < 0 || i >= o.len() {
        None
    } else if o[i].0 == key {
        Some(o[i].1)
    } else {
        member_from(o, key, i + 1)
    }
}

impl JsonView {
    /// The value under a key; `None` for what is no object.
    pub open spec fn get(self, key: Seq<char>) -> Option<JsonView> {
        match self {
            JsonView::Object(o) => member_from(o, key, 0),
            _ => None,
        }
    }

    /// The text of a value that is one.
    pub open spec fn as_text(self) -> Option<Seq<char>> {
        match self {
            JsonView::Text(s) => Some(s),
            _ => None,
        }
    }
}

impl Json {
    /// The value under a key; `None` for what is no object.
    #[verifier::loop_isolation(false)]
    pub fn get(&self, key: &str) -> (r: Option<&Json>)
        ensures
            match r {
                Some(v) => self@.get(key@) == Some(v@),
                None => self@.get(key@) is None,
            },
    {
        match self {
            Json::Object(v) => {
                let ghost o = object_view(v@, v@.len());
                proof {
                    object_view_is_pointwise(v@, v@.len());
                }
                let mut i: usize = 0;
                while i < v.len()
                    invariant
                        i <= v@.len(),
                        member_from(o, key@, 0) == member_from(o, key@, i as int),
                    decreases v@.len() - i,
                {
                    assert(o[i as int] == (v@[i as int].key@, json_view(v@[i as int].value)));
                    if same(v[i].key.as_str(), key) {
                        return Some(&v[i].value);
                    }
                    i += 1;
                }
                None
            },
            _ => None,
        }
    }

    /// The text of a value that is one.
    pub fn as_text(&self) -> (r: Option<&str>)
        ensures
            match r {
                Some(s) => self@.as_text() == Some(s@),
                None => self@.as_text() is None,
            },
    {
        match self {
            Json::Text(s) => Some(s.as_str()),
            _ => None,
        }
    }
}

}
