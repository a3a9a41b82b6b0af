//! Detecting PHP projects, and what `composer.json` says about one.

use vstd::prelude::*;
use vstd::utf8::encode_utf8;

use crate::cfamily::detector::{any_source, some_source};
use crate::json::{list_view_is_pointwise, object_view, object_view_is_pointwise, parse_json, parsed_json, Json, JsonView};
use crate::strings::{before, before_irreflexive, before_total, before_transitive, less, strip_trailing, without_trailing};
use crate::text::{copy, opt_view, same, views};

verus! {

/// Everything the PHP adapter reads.
pub const PHP_EXTENSIONS: [&'static str; 1] = [".php"];

/// Files that say where a project starts.
pub const PHP_MARKERS: [&'static str; 1] = ["composer.json"];

/// Directories that hold no code the project wrote, at any depth.
pub const PHP_EXCLUDED_DIRS: [&'static str; 7] = [
    "node_modules",
    ".git",
    "var",
    "cache",
    "build",
    "dist",
    ".phpunit.cache",
];

/// The tree of packages, which stands at the root of a project and nowhere
/// else.
pub const PHP_EXCLUDED_AT_ROOT: [&'static str; 1] = ["vendor"];

/// What a manifest holds that was read: an object, or an empty one.
pub open spec fn object_or_empty(value: Option<JsonView>) -> JsonView {
    match value {
        Some(JsonView::Object(o)) => JsonView::Object(o),
        _ => JsonView::Object(Seq::empty()),
    }
}

/// What the text of a manifest holds.
pub open spec fn manifest_of(text: Option<Seq<char>>) -> JsonView {
    match text {
        Some(t) => object_or_empty(parsed_json(t)),
        None => object_or_empty(None),
    }
}

/// An object, or an empty one for any other value.
fn as_object(value: Option<Json>) -> (r: Json)
    ensures
        r@ == object_or_empty(opt_view(value)),
{
    match value {
        Some(Json::Object(o)) => Json::Object(o),
        _ => {
            let r = Json::Object(Vec::new());
            assert(r@->Object_0 =~= Seq::<(Seq<char>, JsonView)>::empty());
            r
        },
    }
}

/// `composer.json` as an object; empty where it is absent or malformed.
pub fn composer(text: &Option<String>) -> (r: Json)
    ensures
        r@ == manifest_of(opt_view(*text)),
{
    match text {
        Some(t) => as_object(parse_json(t.as_str())),
        None => as_object(None),
    }
}

// ---------------------------------------------------------------------------
// The PSR-4 map
// ---------------------------------------------------------------------------

/// Whether a prefix stands before another: the longer one, and of two that are
/// equally long the lesser.
pub open spec fn prefix_before(a: Seq<char>, b: Seq<char>) -> bool {
    encode_utf8(a).len() > encode_utf8(b).len() || (encode_utf8(a).len() == encode_utf8(b).len() && before(a, b))
}

/// Where a prefix belongs among the entries from `i` on.
pub open spec fn prefix_slot(list: Seq<(Seq<char>, Seq<char>)>, prefix: Seq<char>, i: int) -> int
    decreases list.len() - i,
{
    if i < 0 || i >= list.len() || prefix_before(prefix, list[i].0) {
        i
    } else {
        prefix_slot(list, prefix, i + 1)
    }
}

/// Whether an entry has a prefix.
pub open spec fn has_prefix(list: Seq<(Seq<char>, Seq<char>)>, prefix: Seq<char>) -> bool {
    exists|i: int| 0 <= i < list.len() && (#[trigger] list[i]).0 == prefix
}

/// The map with one more entry. The first entry of a prefix stays.
pub open spec fn with_prefix(list: Seq<(Seq<char>, Seq<char>)>, prefix: Seq<char>, dir: Seq<char>) -> Seq<
    (Seq<char>, Seq<char>),
> {
    if has_prefix(list, prefix) {
        list
    } else {
        list.insert(prefix_slot(list, prefix, 0), (prefix, dir))
    }
}

/// The directory that an entry of a manifest maps to. Of several the first
/// counts: a namespace has one place.
pub open spec fn mapped_dir(target: JsonView) -> Option<Seq<char>> {
    match target {
        JsonView::Text(d) => Some(without_trailing(d, '/')),
        JsonView::List(l) => if l.len() > 0 {
            match l[0] {
                JsonView::Text(d) => Some(without_trailing(d, '/')),
                _ => None,
            }
        } else {
            None
        },
        _ => None,
    }
}

/// The map with the first `n` members of an object.
pub open spec fn with_members(list: Seq<(Seq<char>, Seq<char>)>, members: Seq<(Seq<char>, JsonView)>, n: int) -> Seq<
    (Seq<char>, Seq<char>),
>
    decreases n,
{
    if n <= 0 || n > members.len() {
        list
    } else {
        let earlier = with_members(list, members, n - 1);
        match mapped_dir(members[n - 1].1) {
            Some(dir) => with_prefix(earlier, members[n - 1].0, dir),
            None => earlier,
        }
    }
}

/// The map with the members of an object that may be there.
pub open spec fn with_object(list: Seq<(Seq<char>, Seq<char>)>, value: Option<JsonView>) -> Seq<(Seq<char>, Seq<char>)> {
    match value {
        Some(JsonView::Object(o)) => with_members(list, o, o.len() as int),
        _ => list,
    }
}

/// The map with what a section of the manifest declares.
pub open spec fn with_section(list: Seq<(Seq<char>, Seq<char>)>, section: Option<JsonView>) -> Seq<
    (Seq<char>, Seq<char>),
> {
    match section {
        Some(s) => with_object(with_object(list, s.get("psr-4"@)), s.get("psr-0"@)),
        None => list,
    }
}

/// The prefixes that a manifest maps to directories, the longest first.
pub open spec fn psr4_map(manifest: JsonView) -> Seq<(Seq<char>, Seq<char>)> {
    with_section(with_section(Seq::empty(), manifest.get("autoload"@)), manifest.get("autoload-dev"@))
}

/// Whether the entries stand in their order, each prefix once.
pub open spec fn prefixes_ordered(list: Seq<(Seq<char>, Seq<char>)>) -> bool {
    forall|i: int, j: int|
        #![trigger list[i], list[j]]
        0 <= i < j < list.len() ==> prefix_before(list[i].0, list[j].0)
}

/// Of two prefixes one stands before the other.
pub proof fn prefix_before_is_total(a: Seq<char>, b: Seq<char>)
    ensures
        prefix_before(a, b) || prefix_before(b, a) || a == b,
        !(prefix_before(a, b) && prefix_before(b, a)),
{
    before_total(a, b);
    if before(a, b) && before(b, a) {
        before_transitive(a, b, a);
        before_irreflexive(a);
    }
}

/// What stands before a prefix stands before all that it stands before.
pub proof fn prefix_before_is_transitive(a: Seq<char>, b: Seq<char>, c: Seq<char>)
    requires
        prefix_before(a, b),
        prefix_before(b, c),
    ensures
        prefix_before(a, c),
{
    if before(a, b) && before(b, c) {
        before_transitive(a, b, c);
    }
}

/// The slot of a prefix parts the entries.
proof fn slot_parts(list: Seq<(Seq<char>, Seq<char>)>, prefix: Seq<char>, i: int)
    requires
        0 <= i <= list.len(),
        forall|j: int| 0 <= j < i ==> !prefix_before(prefix, (#[trigger] list[j]).0),
    ensures
        i <= prefix_slot(list, prefix, i) <= list.len(),
        forall|j: int| 0 <= j < prefix_slot(list, prefix, i) ==> !prefix_before(prefix, (#[trigger] list[j]).0),
        prefix_slot(list, prefix, i) < list.len() ==> prefix_before(prefix, list[prefix_slot(list, prefix, i)].0),
    decreases list.len() - i,
{
    if i < list.len() && !prefix_before(prefix, list[i].0) {
        slot_parts(list, prefix, i + 1);
    }
}

/// One more entry keeps the order.
pub proof fn with_prefix_is_ordered(list: Seq<(Seq<char>, Seq<char>)>, prefix: Seq<char>, dir: Seq<char>)
    requires
        prefixes_ordered(list),
    ensures
        prefixes_ordered(with_prefix(list, prefix, dir)),
{
    if !has_prefix(list, prefix) {
        let p = prefix_slot(list, prefix, 0);
        slot_parts(list, prefix, 0);
        let after = list.insert(p, (prefix, dir));
        assert forall|i: int, j: int|
            #![trigger after[i], after[j]]
            0 <= i < j < after.len() implies prefix_before(after[i].0, after[j].0) by {
            if i < p && j == p {
                assert(list[i].0 != prefix);
                prefix_before_is_total(list[i].0, prefix);
            } else if i == p {
                assert(after[j] == list[j - 1]);
                if j - 1 > p {
                    prefix_before_is_transitive(prefix, list[p].0, list[j - 1].0);
                }
            } else {
                let a = if i < p {
                    i
                } else {
                    i - 1
                };
                let b = if j < p {
                    j
                } else {
                    j - 1
                };
                assert(after[i] == list[a] && after[j] == list[b]);
            }
        }
    }
}

/// Members keep the order.
proof fn with_members_is_ordered(list: Seq<(Seq<char>, Seq<char>)>, members: Seq<(Seq<char>, JsonView)>, n: int)
    requires
        prefixes_ordered(list),
    ensures
        prefixes_ordered(with_members(list, members, n)),
    decreases n,
{
    if !(n <= 0 || n > members.len()) {
        with_members_is_ordered(list, members, n - 1);
        if let Some(dir) = mapped_dir(members[n - 1].1) {
            with_prefix_is_ordered(with_members(list, members, n - 1), members[n - 1].0, dir);
        }
    }
}

/// An object keeps the order.
proof fn with_object_is_ordered(list: Seq<(Seq<char>, Seq<char>)>, value: Option<JsonView>)
    requires
        prefixes_ordered(list),
    ensures
        prefixes_ordered(with_object(list, value)),
{
    if let Some(JsonView::Object(o)) = value {
        with_members_is_ordered(list, o, o.len() as int);
    }
}

/// A section keeps the order.
proof fn with_section_is_ordered(list: Seq<(Seq<char>, Seq<char>)>, section: Option<JsonView>)
    requires
        prefixes_ordered(list),
    ensures
        prefixes_ordered(with_section(list, section)),
{
    if let Some(s) = section {
        with_object_is_ordered(list, s.get("psr-4"@));
        with_object_is_ordered(with_object(list, s.get("psr-4"@)), s.get("psr-0"@));
    }
}

/// Whatever a manifest declares, each prefix stands in the map once, and a
/// longer prefix stands before a shorter one: the first that fits is the most
/// precise.
pub proof fn longer_prefixes_come_first(manifest: JsonView)
    ensures
        prefixes_ordered(psr4_map(manifest)),
{
    with_section_is_ordered(Seq::empty(), manifest.get("autoload"@));
    with_section_is_ordered(with_section(Seq::empty(), manifest.get("autoload"@)), manifest.get("autoload-dev"@));
}

/// Tells whether a prefix stands before another.
fn is_prefix_before(a: &str, b: &str) -> (r: bool)
    ensures
        r == prefix_before(a@, b@),
{
    let x: usize = a.as_bytes().len();
    let y: usize = b.as_bytes().len();
    x > y || (x == y && less(a, b))
}

/// Adds an entry to the map, unless its prefix is there.
#[verifier::loop_isolation(false)]
pub fn add_prefix(list: &mut Vec<(String, String)>, prefix: &str, dir: String)
    ensures
        views(final(list)@) == with_prefix(views(old(list)@), prefix@, dir@),
{
    let ghost all = views(list@);
    let mut i: usize = 0;
    while i < list.len()
        invariant
            i <= list@.len(),
            *list == *old(list),
            forall|j: int| 0 <= j < i ==> (#[trigger] all[j]).0 != prefix@,
        decreases list@.len() - i,
    {
        assert(all[i as int] == list@[i as int]@);
        if same(list[i].0.as_str(), prefix) {
            return;
        }
        i += 1;
    }
    let mut at: usize = 0;
    while at < list.len() && !is_prefix_before(prefix, list[at].0.as_str())
        invariant
            at <= list@.len(),
            *list == *old(list),
            prefix_slot(all, prefix@, 0) == prefix_slot(all, prefix@, at as int),
        decreases list@.len() - at,
    {
        assert(all[at as int] == list@[at as int]@);
        at += 1;
    }
    if at < list.len() {
        assert(all[at as int] == list@[at as int]@);
    }
    let entry = (copy(prefix), dir);
    list.insert(at, entry);
    assert(views(list@) =~= all.insert(at as int, entry@));
}

/// The directory that an entry of a manifest maps to.
fn dir_of(target: &Json) -> (r: Option<String>)
    ensures
        opt_view(r) == mapped_dir(target@),
{
    match target {
        Json::Text(d) => Some(strip_trailing(d.as_str(), '/')),
        Json::List(l) => {
            proof {
                list_view_is_pointwise(l@, l@.len());
            }
            if l.len() > 0 {
                match &l[0] {
                    Json::Text(d) => Some(strip_trailing(d.as_str(), '/')),
                    _ => None,
                }
            } else {
                None
            }
        },
        _ => None,
    }
}

/// Adds the members of an object that may be there.
#[verifier::loop_isolation(false)]
fn add_object(list: &mut Vec<(String, String)>, value: Option<&Json>)
    ensures
        views(final(list)@) == with_object(
            views(old(list)@),
            match value {
                Some(v) => Some(v@),
                None => None,
            },
        ),
{
    if let Some(Json::Object(v)) = value {
        let ghost start = views(list@);
        let ghost members = object_view(v@, v@.len());
        proof {
            object_view_is_pointwise(v@, v@.len());
        }
        let mut i: usize = 0;
        while i < v.len()
            invariant
                i <= v@.len(),
                views(list@) == with_members(start, members, i as int),
            decreases v@.len() - i,
        {
            assert(members[i as int] == (v@[i as int].key@, v@[i as int].value@));
            if let Some(dir) = dir_of(&v[i].value) {
                add_prefix(list, v[i].key.as_str(), dir);
            }
            i += 1;
        }
    }
}

/// Adds what a section of the manifest declares.
fn add_section(list: &mut Vec<(String, String)>, section: Option<&Json>)
    ensures
        views(final(list)@) == with_section(
            views(old(list)@),
            match section {
                Some(v) => Some(v@),
                None => None,
            },
        ),
{
    if let Some(s) = section {
        add_object(list, s.get("psr-4"));
        add_object(list, s.get("psr-0"));
    }
}

/// The prefixes that a manifest maps to directories, the longest first.
pub fn psr4_of(manifest: &Json) -> (r: Vec<(String, String)>)
    ensures
        views(r@) == psr4_map(manifest@),
        prefixes_ordered(views(r@)),
{
    let mut list: Vec<(String, String)> = Vec::new();
    assert(views(list@) =~= Seq::<(Seq<char>, Seq<char>)>::empty());
    add_section(&mut list, manifest.get("autoload"));
    add_section(&mut list, manifest.get("autoload-dev"));
    proof {
        longer_prefixes_come_first(manifest@);
    }
    list
}

/// The prefixes that the text of `composer.json` maps to directories, the
/// longest first.
pub fn psr4_roots(text: &Option<String>) -> (r: Vec<(String, String)>)
    ensures
        views(r@) == psr4_map(manifest_of(opt_view(*text))),
        prefixes_ordered(views(r@)),
{
    let manifest = composer(text);
    psr4_of(&manifest)
}

// ---------------------------------------------------------------------------
// Projects
// ---------------------------------------------------------------------------

/// Tells whether the files under a root are a PHP project: there is a
/// manifest, or PHP code without one.
pub fn is_php_project(has_manifest: bool, files: &Vec<String>) -> (r: bool)
    ensures
        r == (has_manifest || some_source(views(files@), PHP_EXTENSIONS@)),
{
    has_manifest || any_source(files, &PHP_EXTENSIONS)
}

/// The name of a project: the manifest's, or that of its directory.
pub open spec fn php_name(manifest: JsonView, directory: Seq<char>) -> Seq<char> {
    match manifest.get("name"@) {
        Some(JsonView::Text(name)) => if name.len() > 0 {
            name
        } else {
            directory
        },
        _ => directory,
    }
}

/// The name that a manifest gives a project, or that of its directory.
pub fn name_in(manifest: &Json, directory: &str) -> (r: String)
    ensures
        r@ == php_name(manifest@, directory@),
{
    match manifest.get("name") {
        Some(Json::Text(name)) => {
            if name.as_str().is_empty() {
                copy(directory)
            } else {
                copy(name.as_str())
            }
        },
        _ => copy(directory),
    }
}

/// The name of a project: that of `composer.json`, or of its directory.
pub fn php_detect_project_name(text: &Option<String>, directory: &str) -> (r: String)
    ensures
        r@ == php_name(manifest_of(opt_view(*text)), directory@),
{
    let manifest = composer(text);
    name_in(&manifest, directory)
}

}
