//! The packages of a PHP project, and telling where an import comes from.
//!
//! The name of a package is not the namespace that code refers to, and only the
//! installed packages know how the two belong together. So vendors are compared:
//! the part of a package's name before the slash, with the first segment of the
//! namespace, whatever the case. What fits neither is unknown.

use vstd::prelude::*;

use crate::dependencies::{sort_names, sorted_names};
use crate::json::{list_view, list_view_is_pointwise, object_view, object_view_is_pointwise, Json, JsonView};
use crate::php::detector::{composer, manifest_of, psr4_map, psr4_of};
use crate::strings::{
    before_first, begins, contains_char, cut, has_char, one_of, split_once, starts_with, strip_leading, trim, trimmed,
    until, without_leading,
};
use crate::text::{add_new, copy, holds, lowercase, opt_view, same, to_lower, views, with_new};

verus! {

/// The classes of PHP itself. A use of one is a single segment.
pub const BUILTIN_CLASSES: [&'static str; 99] = [
    // Core and SPL
    "stdClass",
    "Closure",
    "Generator",
    "WeakMap",
    "WeakReference",
    "ArrayObject",
    "ArrayIterator",
    "ArrayAccess",
    "Countable",
    "Iterator",
    "IteratorAggregate",
    "Traversable",
    "Stringable",
    "JsonSerializable",
    "Serializable",
    "UnitEnum",
    "BackedEnum",
    "SplStack",
    "SplQueue",
    "SplDoublyLinkedList",
    "SplFixedArray",
    "SplObjectStorage",
    "SplPriorityQueue",
    "SplHeap",
    "SplMinHeap",
    "SplMaxHeap",
    "SplFileObject",
    "SplFileInfo",
    "SplTempFileObject",
    "DirectoryIterator",
    "RecursiveIteratorIterator",
    "RecursiveDirectoryIterator",
    "FilesystemIterator",
    // Throwables
    "Throwable",
    "Exception",
    "Error",
    "TypeError",
    "ValueError",
    "ArgumentCountError",
    "ArithmeticError",
    "DivisionByZeroError",
    "RuntimeException",
    "LogicException",
    "InvalidArgumentException",
    "OutOfRangeException",
    "OutOfBoundsException",
    "LengthException",
    "DomainException",
    "RangeException",
    "UnexpectedValueException",
    "UnderflowException",
    "OverflowException",
    "BadFunctionCallException",
    "BadMethodCallException",
    "JsonException",
    // Date and time
    "DateTime",
    "DateTimeImmutable",
    "DateTimeInterface",
    "DateInterval",
    "DateTimeZone",
    "DatePeriod",
    // Reflection
    "ReflectionClass",
    "ReflectionObject",
    "ReflectionMethod",
    "ReflectionFunction",
    "ReflectionProperty",
    "ReflectionParameter",
    "ReflectionNamedType",
    "ReflectionEnum",
    "ReflectionAttribute",
    "ReflectionException",
    "Attribute",
    // Extensions bundled with PHP
    "PDO",
    "PDOStatement",
    "PDOException",
    "mysqli",
    "SQLite3",
    "DOMDocument",
    "DOMElement",
    "DOMNode",
    "SimpleXMLElement",
    "XMLReader",
    "XMLWriter",
    "ZipArchive",
    "finfo",
    "IntlDateFormatter",
    "NumberFormatter",
    "Collator",
    "Locale",
    "CURLFile",
    "GMP",
    // Fibers and enums added in 8.x
    "Fiber",
    "FiberError",
    "SensitiveParameter",
    "ReturnTypeWillChange",
    "AllowDynamicProperties",
    "Override",
    "Deprecated",
    "NoDiscard",
];

/// Whether a name is a class of PHP itself.
pub open spec fn builtin(name: Seq<char>) -> bool {
    exists|i: int| 0 <= i < BUILTIN_CLASSES@.len() && (#[trigger] BUILTIN_CLASSES@[i])@ == name
}

/// Tells whether a name is a class of PHP itself.
pub fn is_builtin(name: &str) -> (r: bool)
    ensures
        r == builtin(name@),
{
    one_of(name, &BUILTIN_CLASSES)
}

/// The names of the classes of PHP itself.
pub fn stdlib_names() -> (r: Vec<String>)
    ensures
        r@.len() == BUILTIN_CLASSES@.len(),
        forall|i: int| 0 <= i < r@.len() ==> (#[trigger] r@[i])@ == BUILTIN_CLASSES@[i]@,
{
    let mut out: Vec<String> = Vec::new();
    let mut i: usize = 0;
    while i < BUILTIN_CLASSES.len()
        invariant
            i <= BUILTIN_CLASSES@.len(),
            out@.len() == i,
            forall|k: int| 0 <= k < i ==> (#[trigger] out@[k])@ == BUILTIN_CLASSES@[k]@,
        decreases BUILTIN_CLASSES@.len() - i,
    {
        out.push(copy(BUILTIN_CLASSES[i]));
        i += 1;
    }
    out
}

// ---------------------------------------------------------------------------
// Vendors
// ---------------------------------------------------------------------------

/// Whether a requirement is one on the platform and no package.
pub open spec fn platform(package: Seq<char>) -> bool {
    package == "php"@ || begins(package, "ext-"@) || begins(package, "lib-"@) || begins(package, "php-"@)
}

/// Tells whether a requirement is one on the platform.
pub fn is_platform_requirement(package: &str) -> (r: bool)
    ensures
        r == platform(package@),
{
    same(package, "php") || starts_with(package, "ext-") || starts_with(package, "lib-") || starts_with(package, "php-")
}

/// The vendor of a package, in lower case.
pub open spec fn vendor_of(package: Seq<char>) -> Option<Seq<char>> {
    match cut(package, "/"@) {
        Some(parts) => {
            let vendor = lowercase(trimmed(parts.0));
            if vendor.len() > 0 {
                Some(vendor)
            } else {
                None
            }
        },
        None => None,
    }
}

/// The vendor of a package, in lower case.
pub fn vendor_prefix(package: &str) -> (r: Option<String>)
    ensures
        opt_view(r) == vendor_of(package@),
{
    match split_once(package, "/") {
        Some(parts) => {
            let bare = trim(parts.0.as_str());
            let vendor = to_lower(bare.as_str());
            if vendor.as_str().is_empty() {
                None
            } else {
                Some(vendor)
            }
        },
        None => None,
    }
}

/// The vendors with that of one more package.
pub open spec fn with_vendor(vendors: Seq<Seq<char>>, package: Seq<char>) -> Seq<Seq<char>> {
    match vendor_of(package) {
        Some(v) => with_new(vendors, v),
        None => vendors,
    }
}

/// The vendors with those that the first `n` members of a section require.
pub open spec fn with_required(vendors: Seq<Seq<char>>, members: Seq<(Seq<char>, JsonView)>, n: int) -> Seq<Seq<char>>
    decreases n,
{
    if n <= 0 || n > members.len() {
        vendors
    } else {
        let earlier = with_required(vendors, members, n - 1);
        if platform(members[n - 1].0) {
            earlier
        } else {
            with_vendor(earlier, members[n - 1].0)
        }
    }
}

/// The vendors with those that a section of a manifest requires.
pub open spec fn with_requirements(vendors: Seq<Seq<char>>, section: Option<JsonView>) -> Seq<Seq<char>> {
    match section {
        Some(JsonView::Object(o)) => with_required(vendors, o, o.len() as int),
        _ => vendors,
    }
}

/// The vendors that a manifest requires, for development too.
pub open spec fn required_vendors(manifest: JsonView) -> Seq<Seq<char>> {
    with_requirements(with_requirements(Seq::empty(), manifest.get("require"@)), manifest.get("require-dev"@))
}

/// The vendors with those of the first `n` locked packages.
pub open spec fn with_locked(vendors: Seq<Seq<char>>, packages: Seq<JsonView>, n: int) -> Seq<Seq<char>>
    decreases n,
{
    if n <= 0 || n > packages.len() {
        vendors
    } else {
        let earlier = with_locked(vendors, packages, n - 1);
        match packages[n - 1].get("name"@) {
            Some(JsonView::Text(name)) => with_vendor(earlier, name),
            _ => earlier,
        }
    }
}

/// The vendors with those of a section of a lock file.
pub open spec fn with_lock_section(vendors: Seq<Seq<char>>, section: Option<JsonView>) -> Seq<Seq<char>> {
    match section {
        Some(JsonView::List(l)) => with_locked(vendors, l, l.len() as int),
        _ => vendors,
    }
}

/// The vendors with those of a lock file, which names indirect packages too.
pub open spec fn with_lock(vendors: Seq<Seq<char>>, lock: JsonView) -> Seq<Seq<char>> {
    with_lock_section(with_lock_section(vendors, lock.get("packages"@)), lock.get("packages-dev"@))
}

/// The vendors that a project declares.
pub open spec fn vendors_of(manifest: JsonView, lock: JsonView) -> Seq<Seq<char>> {
    with_lock(required_vendors(manifest), lock)
}

/// Adds the vendor of a package.
fn add_vendor(vendors: &mut Vec<String>, package: &str)
    ensures
        views(final(vendors)@) == with_vendor(views(old(vendors)@), package@),
{
    if let Some(v) = vendor_prefix(package) {
        add_new(vendors, v);
    }
}

/// Adds the vendors that a section of a manifest requires.
#[verifier::loop_isolation(false)]
fn add_requirements(vendors: &mut Vec<String>, section: Option<&Json>)
    ensures
        views(final(vendors)@) == with_requirements(
            views(old(vendors)@),
            match section {
                Some(v) => Some(v@),
                None => None,
            },
        ),
{
    if let Some(Json::Object(v)) = section {
        let ghost start = views(vendors@);
        let ghost members = object_view(v@, v@.len());
        proof {
            object_view_is_pointwise(v@, v@.len());
        }
        let mut i: usize = 0;
        while i < v.len()
            invariant
                i <= v@.len(),
                views(vendors@) == with_required(start, members, i as int),
            decreases v@.len() - i,
        {
            assert(members[i as int] == (v@[i as int].key@, v@[i as int].value@));
            if !is_platform_requirement(v[i].key.as_str()) {
                add_vendor(vendors, v[i].key.as_str());
            }
            i += 1;
        }
    }
}

/// Adds the vendors of a section of a lock file.
#[verifier::loop_isolation(false)]
fn add_locked(vendors: &mut Vec<String>, section: Option<&Json>)
    ensures
        views(final(vendors)@) == with_lock_section(
            views(old(vendors)@),
            match section {
                Some(v) => Some(v@),
                None => None,
            },
        ),
{
    if let Some(Json::List(v)) = section {
        let ghost start = views(vendors@);
        let ghost packages = list_view(v@, v@.len());
        proof {
            list_view_is_pointwise(v@, v@.len());
        }
        let mut i: usize = 0;
        while i < v.len()
            invariant
                i <= v@.len(),
                views(vendors@) == with_locked(start, packages, i as int),
            decreases v@.len() - i,
        {
            assert(packages[i as int] == v@[i as int]@);
            if let Some(Json::Text(name)) = v[i].get("name") {
                add_vendor(vendors, name.as_str());
            }
            i += 1;
        }
    }
}

/// The vendors that a manifest and a lock file declare.
pub fn declared_vendors(manifest: &Json, lock: &Json) -> (r: Vec<String>)
    ensures
        views(r@) == vendors_of(manifest@, lock@),
{
    let mut vendors: Vec<String> = Vec::new();
    assert(views(vendors@) =~= Seq::<Seq<char>>::empty());
    add_requirements(&mut vendors, manifest.get("require"));
    add_requirements(&mut vendors, manifest.get("require-dev"));
    add_locked(&mut vendors, lock.get("packages"));
    add_locked(&mut vendors, lock.get("packages-dev"));
    vendors
}

/// The texts of `composer.json` and `composer.lock` of a project.
#[derive(Debug)]
pub struct ComposerFiles {
    pub manifest: Option<String>,
    pub lock: Option<String>,
}

/// The mathematical reading of the texts of a project.
pub struct ComposerView {
    pub manifest: Option<Seq<char>>,
    pub lock: Option<Seq<char>>,
}

impl View for ComposerFiles {
    type V = ComposerView;

    open spec fn view(&self) -> ComposerView {
        ComposerView { manifest: opt_view(self.manifest), lock: opt_view(self.lock) }
    }
}

impl ComposerView {
    /// The vendors that the files declare.
    pub open spec fn vendors(self) -> Seq<Seq<char>> {
        vendors_of(manifest_of(self.manifest), manifest_of(self.lock))
    }

    /// The prefixes of namespaces that the files map to directories.
    pub open spec fn map(self) -> Seq<(Seq<char>, Seq<char>)> {
        psr4_map(manifest_of(self.manifest))
    }

    /// The first segments of the namespaces that the project itself declares.
    pub open spec fn own_prefixes(self) -> Seq<Seq<char>> {
        first_segments(self.map(), self.map().len() as int)
    }
}

/// The vendors that a project declares, indirect ones of the lock file too.
pub fn dependencies(files: &ComposerFiles) -> (r: Vec<String>)
    ensures
        views(r@) == files@.vendors(),
{
    let manifest = composer(&files.manifest);
    let lock = composer(&files.lock);
    declared_vendors(&manifest, &lock)
}

/// The vendors that a project declares, in ascending order.
pub fn php_parse_dependencies(files: &ComposerFiles) -> (r: Vec<String>)
    ensures
        views(r@) == sorted_names(files@.vendors()),
{
    let names = dependencies(files);
    sort_names(&names)
}

// ---------------------------------------------------------------------------
// The project's own namespaces
// ---------------------------------------------------------------------------

/// The first segment of a name.
pub open spec fn first_segment(name: Seq<char>) -> Seq<char> {
    before_first(without_leading(name, '\\'), "\\"@)
}

/// The first segment of a name.
pub fn top_segment(name: &str) -> (r: String)
    ensures
        r@ == first_segment(name@),
{
    let bare = strip_leading(name, '\\');
    until(bare.as_str(), "\\")
}

/// The first segments of the first `n` prefixes of a map, each once.
pub open spec fn first_segments(map: Seq<(Seq<char>, Seq<char>)>, n: int) -> Seq<Seq<char>>
    decreases n,
{
    if n <= 0 || n > map.len() {
        Seq::empty()
    } else {
        let earlier = first_segments(map, n - 1);
        if first_segment(map[n - 1].0).len() > 0 {
            with_new(earlier, first_segment(map[n - 1].0))
        } else {
            earlier
        }
    }
}

/// The first segments of the prefixes of a map, each once.
#[verifier::loop_isolation(false)]
pub fn segments_of_map(map: &Vec<(String, String)>) -> (r: Vec<String>)
    ensures
        views(r@) == first_segments(views(map@), map@.len() as int),
{
    let mut out: Vec<String> = Vec::new();
    assert(views(out@) =~= Seq::<Seq<char>>::empty());
    let mut i: usize = 0;
    while i < map.len()
        invariant
            i <= map@.len(),
            views(out@) == first_segments(views(map@), i as int),
        decreases map@.len() - i,
    {
        assert(views(map@)[i as int] == map@[i as int]@);
        let top = top_segment(map[i].0.as_str());
        if !top.as_str().is_empty() {
            add_new(&mut out, top);
        }
        i += 1;
    }
    out
}

/// The first segments of the namespaces that the project itself declares.
pub fn internal_prefixes(files: &ComposerFiles) -> (r: Vec<String>)
    ensures
        views(r@) == files@.own_prefixes(),
{
    let manifest = composer(&files.manifest);
    let map = psr4_of(&manifest);
    assert(views(map@).len() == map@.len());
    segments_of_map(&map)
}

// ---------------------------------------------------------------------------
// Classification
// ---------------------------------------------------------------------------

/// Where an imported name comes from.
pub open spec fn php_origin(path: Seq<char>, internal: Seq<Seq<char>>, vendors: Seq<Seq<char>>) -> Seq<char> {
    let bare = without_leading(path, '\\');
    let top = first_segment(path);
    if top.len() == 0 {
        "unknown"@
    } else if !has_char(bare, '\\') && builtin(top) {
        "stdlib"@
    } else if internal.contains(top) {
        "internal"@
    } else if vendors.contains(lowercase(top)) {
        "third_party"@
    } else {
        "unknown"@
    }
}

/// Where an imported name comes from. Vendors are compared in lower case:
/// packages are written so, and namespaces are not.
pub fn classify_import(import_path: &str, internal: &Vec<String>, vendors: &Vec<String>) -> (r: &'static str)
    ensures
        r@ == php_origin(import_path@, views(internal@), views(vendors@)),
{
    let bare = strip_leading(import_path, '\\');
    let top = top_segment(import_path);
    if top.as_str().is_empty() {
        return "unknown";
    }
    if !contains_char(bare.as_str(), '\\') && is_builtin(top.as_str()) {
        return "stdlib";
    }
    if holds(internal, top.as_str()) {
        return "internal";
    }
    let lower = to_lower(top.as_str());
    if holds(vendors, lower.as_str()) {
        "third_party"
    } else {
        "unknown"
    }
}

/// A list, or an empty one.
fn list_or_empty(list: Option<Vec<String>>) -> (r: Vec<String>)
    ensures
        r@ == (match list {
            Some(l) => l@,
            None => Seq::<String>::empty(),
        }),
{
    match list {
        Some(l) => l,
        None => Vec::new(),
    }
}

/// Where an imported name comes from, given what the project declares.
pub fn classify_php_import(import_path: &str, internal: Option<Vec<String>>, vendors: Option<Vec<String>>) -> (r:
    &'static str)
    ensures
        r@ == php_origin(
            import_path@,
            match internal {
                Some(l) => views(l@),
                None => Seq::empty(),
            },
            match vendors {
                Some(l) => views(l@),
                None => Seq::empty(),
            },
        ),
{
    let own = list_or_empty(internal);
    let packages = list_or_empty(vendors);
    assert(internal is None ==> views(own@) =~= Seq::<Seq<char>>::empty());
    assert(vendors is None ==> views(packages@) =~= Seq::<Seq<char>>::empty());
    classify_import(import_path, &own, &packages)
}

}
