//! Paths: texts whose components are separated by slashes.

use vstd::prelude::*;

use crate::meta::same_texts;
use crate::strings::{
    begins, join, joined, joined_front, joined_of_pieces, lacking_is_not_found, lacks, listed, pieces, pieces_lack,
    pieces_of_joined, rfind, split, starts_with,
};
use crate::text::{add_item, chars_of, concat2, concat3, copy, same, views};

verus! {

/// The path with backslashes read as slashes.
pub open spec fn slashed(s: Seq<char>) -> Seq<char> {
    s.map_values(|c: char| if c == '\\' { '/' } else { c })
}

/// Reads backslashes as slashes.
pub fn with_slashes(s: &str) -> (r: String)
    ensures
        r@ == slashed(s@),
{
    let c = chars_of(s);
    let mut out = String::new();
    let mut i: usize = 0;
    while i < c.len()
        invariant
            i <= c@.len(),
            c@ == s@,
            out@ == slashed(s@).take(i as int),
        decreases c@.len() - i,
    {
        out.push(if c[i] == '\\' { '/' } else { c[i] });
        assert(slashed(s@).take(i + 1) =~= slashed(s@).take(i as int).push(slashed(s@)[i as int]));
        i += 1;
    }
    assert(slashed(s@).take(c@.len() as int) =~= slashed(s@));
    out
}

/// The components of a path; some of them may be empty.
pub open spec fn components(path: Seq<char>) -> Seq<Seq<char>> {
    pieces(slashed(path), '/')
}

/// Splits a path into its components.
pub fn split_path(path: &str) -> (r: Vec<String>)
    ensures
        views(r@) == components(path@),
{
    let s = with_slashes(path);
    split(s.as_str(), '/')
}

/// The first `n` components with `.` and `..` folded away.
pub open spec fn folded(parts: Seq<Seq<char>>, n: int) -> Seq<Seq<char>>
    decreases n,
{
    if n <= 0 || n > parts.len() {
        Seq::empty()
    } else {
        let earlier = folded(parts, n - 1);
        let p = parts[n - 1];
        if p.len() == 0 || p == "."@ {
            earlier
        } else if p == ".."@ {
            if earlier.len() > 0 {
                earlier.drop_last()
            } else {
                earlier
            }
        } else {
            earlier.push(p)
        }
    }
}

/// The directory and the path behind it.
pub open spec fn combined(dir: Seq<char>, raw: Seq<char>) -> Seq<char> {
    if dir.len() == 0 {
        raw
    } else {
        dir + "/"@ + raw
    }
}

/// A path below a directory, with `.` and `..` folded away lexically.
pub open spec fn joined_path(dir: Seq<char>, raw: Seq<char>) -> Seq<char> {
    let parts = components(combined(dir, raw));
    joined(folded(parts, parts.len() as int), "/"@)
}

/// Joins a directory and a path, folding `.` and `..` away.
///
/// Folded lexically and never through the file system: a path that differs
/// between two checkouts of one project cannot be part of a name.
pub fn join_relative(dir: &str, raw: &str) -> (r: String)
    ensures
        r@ == joined_path(dir@, raw@),
{
    let whole = if chars_of(dir).len() == 0 {
        copy(raw)
    } else {
        concat3(dir, "/", raw)
    };
    let parts = split_path(whole.as_str());
    let mut out: Vec<String> = Vec::new();
    let mut i: usize = 0;
    assert(views(out@) =~= folded(views(parts@), 0));
    while i < parts.len()
        invariant
            i <= parts@.len(),
            views(out@) == folded(views(parts@), i as int),
        decreases parts@.len() - i,
    {
        let p = parts[i].as_str();
        assert(p@ == views(parts@)[i as int]);
        if p.is_empty() || same(p, ".") {
        } else if same(p, "..") {
            let ghost before_pop = out@;
            let dropped = out.pop();
            proof {
                if before_pop.len() > 0 {
                    assert(views(out@) =~= views(before_pop).drop_last());
                }
            }
        } else {
            add_item(&mut out, copy(p));
        }
        i += 1;
    }
    join(&out, "/")
}

/// Whether some `..` among the first `n` components has no name before it to
/// take back.
pub open spec fn climbs(parts: Seq<Seq<char>>, n: int) -> bool
    decreases n,
{
    if n <= 0 || n > parts.len() {
        false
    } else {
        climbs(parts, n - 1) || (parts[n - 1] == ".."@ && folded(parts, n - 1).len() == 0)
    }
}

/// Whether a path below a directory leaves the root that the directory is
/// relative to.
pub open spec fn leaves(dir: Seq<char>, raw: Seq<char>) -> bool {
    let parts = components(combined(dir, raw));
    climbs(parts, parts.len() as int)
}

/// What has left the root has left it, whatever follows.
proof fn climbing_stays(parts: Seq<Seq<char>>, n: int, m: int)
    requires
        0 <= n <= m <= parts.len(),
        climbs(parts, n),
    ensures
        climbs(parts, m),
    decreases m - n,
{
    if n < m {
        climbing_stays(parts, n, m - 1);
    }
}

/// Tells whether a path below a directory leaves the root.
pub fn leaves_root(dir: &str, raw: &str) -> (r: bool)
    ensures
        r == leaves(dir@, raw@),
{
    let whole = if chars_of(dir).len() == 0 {
        copy(raw)
    } else {
        concat3(dir, "/", raw)
    };
    let parts = split_path(whole.as_str());
    let ghost ps = views(parts@);
    let mut depth: usize = 0;
    let mut i: usize = 0;
    proof {
        reveal_strlit(".");
        reveal_strlit("..");
        assert("."@.len() == 1 && ".."@.len() == 2);
    }
    while i < parts.len()
        invariant
            i <= parts@.len(),
            ps == views(parts@),
            ps == components(combined(dir@, raw@)),
            depth == folded(ps, i as int).len(),
            depth <= i,
            !climbs(ps, i as int),
            "."@.len() == 1,
            ".."@.len() == 2,
        decreases parts@.len() - i,
    {
        let p = parts[i].as_str();
        assert(p@ == ps[i as int]);
        if p.is_empty() || same(p, ".") {
        } else if same(p, "..") {
            if depth == 0 {
                proof {
                    climbing_stays(ps, i + 1, ps.len() as int);
                }
                return true;
            }
            depth -= 1;
        } else {
            depth += 1;
        }
        i += 1;
    }
    false
}

// ---------------------------------------------------------------------------
// Components
// ---------------------------------------------------------------------------

/// Whether a component says nothing: it is empty, or `.`.
pub open spec fn idle(part: Seq<char>) -> bool {
    part.len() == 0 || part == "."@
}

/// Tells whether a component says nothing.
fn is_idle(part: &str) -> (r: bool)
    ensures
        r == idle(part@),
{
    part.is_empty() || same(part, ".")
}

/// The first `n` components without those that say nothing.
pub open spec fn plain_parts(parts: Seq<Seq<char>>, n: int) -> Seq<Seq<char>>
    decreases n,
{
    if n <= 0 || n > parts.len() {
        Seq::empty()
    } else if idle(parts[n - 1]) {
        plain_parts(parts, n - 1)
    } else {
        plain_parts(parts, n - 1).push(parts[n - 1])
    }
}

/// The components of a path that say something.
pub open spec fn segments(path: Seq<char>) -> Seq<Seq<char>> {
    let parts = pieces(path, '/');
    plain_parts(parts, parts.len() as int)
}

/// Where a path starts: at the root of the file system, in the directory that it
/// names with a leading `.`, or nowhere in particular.
pub open spec fn lead(parts: Seq<Seq<char>>) -> Seq<char> {
    if parts.len() > 1 && parts[0].len() == 0 {
        "/"@
    } else if parts.len() > 0 && parts[0] == "."@ {
        "."@
    } else {
        Seq::empty()
    }
}

/// Where a path starts, and then its components.
pub open spec fn steps_of(parts: Seq<Seq<char>>) -> Seq<Seq<char>> {
    let plain = plain_parts(parts, parts.len() as int);
    if lead(parts).len() == 0 {
        plain
    } else {
        seq![lead(parts)] + plain
    }
}

/// Where a path starts, and then its components. Two paths are the same path
/// where these agree.
pub open spec fn steps(path: Seq<char>) -> Seq<Seq<char>> {
    steps_of(pieces(path, '/'))
}

/// How many of the first `n` components are left without those at their end that
/// say nothing.
pub open spec fn end_of(parts: Seq<Seq<char>>, n: int) -> int
    decreases n,
{
    if n <= 0 || n > parts.len() {
        0
    } else if idle(parts[n - 1]) {
        end_of(parts, n - 1)
    } else {
        n
    }
}

/// The place from `i` on of the component behind `k` components that say
/// something.
pub open spec fn past(parts: Seq<Seq<char>>, i: int, k: int) -> int
    decreases parts.len() - i,
{
    if i < 0 || i >= parts.len() {
        parts.len() as int
    } else if idle(parts[i]) {
        past(parts, i + 1, k)
    } else if k <= 0 {
        i
    } else {
        past(parts, i + 1, k - 1)
    }
}

/// The text of the first `n` components, without a tail that says nothing.
pub open spec fn front(parts: Seq<Seq<char>>, n: int) -> Seq<char> {
    let end = end_of(parts, n);
    if end == 0 {
        lead(parts)
    } else {
        joined(parts.subrange(0, end), "/"@)
    }
}

proof fn end_is_inside(parts: Seq<Seq<char>>, n: int)
    requires
        0 <= n <= parts.len(),
    ensures
        0 <= end_of(parts, n) <= n,
        end_of(parts, n) > 0 ==> !idle(parts[end_of(parts, n) - 1]),
        forall|j: int| end_of(parts, n) <= j < n ==> idle(#[trigger] parts[j]),
    decreases n,
{
    if n > 0 && idle(parts[n - 1]) {
        end_is_inside(parts, n - 1);
    }
}

/// The components of a path that say something.
#[verifier::loop_isolation(false)]
pub fn path_segments(path: &str) -> (r: Vec<String>)
    ensures
        views(r@) == segments(path@),
{
    let parts = split(path, '/');
    let mut out: Vec<String> = Vec::new();
    let mut i: usize = 0;
    assert(views(out@) =~= Seq::<Seq<char>>::empty());
    while i < parts.len()
        invariant
            i <= parts@.len(),
            views(out@) == plain_parts(views(parts@), i as int),
        decreases parts@.len() - i,
    {
        let p = parts[i].as_str();
        assert(views(parts@)[i as int] == p@);
        if !is_idle(p) {
            add_item(&mut out, copy(p));
        }
        i += 1;
    }
    out
}

/// Where a path with these components starts.
fn lead_text(parts: &Vec<String>) -> (r: String)
    ensures
        r@ == lead(views(parts@)),
{
    let ghost ps = views(parts@);
    if parts.len() > 1 {
        assert(ps[0] == parts@[0]@);
        if parts[0].as_str().is_empty() {
            return copy("/");
        }
    }
    if parts.len() > 0 {
        assert(ps[0] == parts@[0]@);
        if same(parts[0].as_str(), ".") {
            return copy(".");
        }
    }
    let s = String::new();
    assert(s@ =~= Seq::<char>::empty());
    s
}

/// Where a path starts, and then its components.
pub fn path_steps(path: &str) -> (r: Vec<String>)
    ensures
        views(r@) == steps(path@),
{
    let parts = split(path, '/');
    let start = lead_text(&parts);
    let mut out: Vec<String> = Vec::new();
    assert(views(out@) =~= Seq::<Seq<char>>::empty());
    if !start.as_str().is_empty() {
        add_item(&mut out, start);
    }
    let ghost head = views(out@);
    let plain = path_segments(path);
    let ghost all = segments(path@);
    let mut i: usize = 0;
    assert(head + all.take(0) =~= head);
    while i < plain.len()
        invariant
            i <= plain@.len(),
            all == views(plain@),
            views(out@) == head + all.take(i as int),
        decreases plain@.len() - i,
    {
        add_item(&mut out, copy(plain[i].as_str()));
        assert(head + all.take(i + 1) =~= (head + all.take(i as int)).push(all[i as int]));
        i += 1;
    }
    assert(all.take(plain@.len() as int) =~= all);
    assert(views(out@) =~= steps(path@));
    out
}

/// How many components are left without those at the end that say nothing.
fn end_place(parts: &Vec<String>, n: usize) -> (r: usize)
    requires
        n <= parts@.len(),
    ensures
        r == end_of(views(parts@), n as int),
        r <= n,
{
    let ghost ps = views(parts@);
    let mut e: usize = n;
    while e > 0 && is_idle(parts[e - 1].as_str())
        invariant
            e <= n <= parts@.len(),
            ps == views(parts@),
            end_of(ps, n as int) == end_of(ps, e as int),
        decreases e,
    {
        assert(ps[e - 1] == parts@[e - 1]@);
        e -= 1;
    }
    assert(e > 0 ==> ps[e - 1] == parts@[e - 1]@);
    e
}

/// The components from `i` up to `e` as a path.
fn join_range(parts: &Vec<String>, i: usize, e: usize) -> (r: String)
    requires
        i <= e <= parts@.len(),
    ensures
        r@ == joined(views(parts@).subrange(i as int, e as int), "/"@),
{
    let ghost all = views(parts@);
    let mut out: Vec<String> = Vec::new();
    let mut k: usize = i;
    assert(views(out@) =~= all.subrange(i as int, i as int));
    while k < e
        invariant
            i <= k <= e <= parts@.len(),
            all == views(parts@),
            views(out@) == all.subrange(i as int, k as int),
        decreases e - k,
    {
        add_item(&mut out, copy(parts[k].as_str()));
        assert(all.subrange(i as int, k + 1) =~= all.subrange(i as int, k as int).push(all[k as int]));
        k += 1;
    }
    join(&out, "/")
}

/// The text of the first `n` components, without a tail that says nothing.
fn front_text(parts: &Vec<String>, n: usize) -> (r: String)
    requires
        n <= parts@.len(),
    ensures
        r@ == front(views(parts@), n as int),
{
    let e = end_place(parts, n);
    if e == 0 {
        lead_text(parts)
    } else {
        join_range(parts, 0, e)
    }
}

// ---------------------------------------------------------------------------
// Directories and names
// ---------------------------------------------------------------------------

/// The directory part of a path: empty for a path without one.
pub open spec fn directory(path: Seq<char>) -> Seq<char> {
    let parts = pieces(path, '/');
    let end = end_of(parts, parts.len() as int);
    if end == 0 {
        Seq::empty()
    } else {
        front(parts, end - 1)
    }
}

/// The directory part of a path.
pub fn parent_dir(path: &str) -> (r: String)
    ensures
        r@ == directory(path@),
{
    let parts = split(path, '/');
    let e = end_place(&parts, parts.len());
    assert(views(parts@).len() == parts@.len());
    if e == 0 {
        let s = String::new();
        assert(s@ =~= Seq::<char>::empty());
        s
    } else {
        front_text(&parts, e - 1)
    }
}

/// The last component of a path; empty where it names no file.
pub open spec fn base(path: Seq<char>) -> Seq<char> {
    let parts = pieces(path, '/');
    let end = end_of(parts, parts.len() as int);
    if end == 0 || parts[end - 1] == ".."@ {
        Seq::empty()
    } else {
        parts[end - 1]
    }
}

/// The last component of a path.
pub fn base_name(path: &str) -> (r: String)
    ensures
        r@ == base(path@),
{
    let parts = split(path, '/');
    let e = end_place(&parts, parts.len());
    assert(views(parts@).len() == parts@.len());
    if e > 0 {
        assert(views(parts@)[e - 1] == parts@[e - 1]@);
        if !same(parts[e - 1].as_str(), "..") {
            return copy(parts[e - 1].as_str());
        }
    }
    let s = String::new();
    assert(s@ =~= Seq::<char>::empty());
    s
}

/// The extension of a path with its dot: what the file name holds from its last
/// dot on, unless that dot is the first character.
pub open spec fn dotted_extension(path: Seq<char>) -> Option<Seq<char>> {
    let name = base(path);
    match rfind(name, "."@) {
        Some(i) => if i > 0 && name != ".."@ {
            Some("."@ + name.skip(i + 1))
        } else {
            None
        },
        None => None,
    }
}

/// The extension of a path with its dot.
pub fn extension(path: &str) -> (r: Option<String>)
    ensures
        crate::text::opt_view(r) == dotted_extension(path@),
{
    let name = base_name(path);
    let c = chars_of(name.as_str());
    let dot = chars_of(".");
    proof {
        reveal_strlit(".");
    }
    let n: usize = c.len();
    match crate::strings::rfind_in(c.as_slice(), dot.as_slice()) {
        Some(i) => {
            if i > 0 && !same(name.as_str(), "..") {
                let ext = crate::text::string_of(c.as_slice(), i + 1, n);
                Some(concat2(".", ext.as_str()))
            } else {
                None
            }
        },
        None => None,
    }
}

/// Whether a path's extension is one of the given ones.
pub open spec fn extension_among(path: Seq<char>, extensions: Seq<&'static str>) -> bool {
    match dotted_extension(path) {
        Some(e) => listed(extensions, e),
        None => false,
    }
}

/// Tells whether a path's extension is one of the given ones.
pub fn has_extension(path: &str, extensions: &[&'static str]) -> (r: bool)
    ensures
        r == extension_among(path@, extensions@),
{
    match extension(path) {
        Some(e) => crate::strings::one_of(e.as_str(), extensions),
        None => false,
    }
}

/// The first `n` components once folded hold no empty component, no `.` and no
/// `..`.
pub proof fn folded_is_plain(parts: Seq<Seq<char>>, n: int)
    requires
        0 <= n <= parts.len(),
    ensures
        forall|i: int|
            0 <= i < folded(parts, n).len() ==> (#[trigger] folded(parts, n)[i]).len() > 0 && folded(parts, n)[i]
                != "."@ && folded(parts, n)[i] != ".."@,
    decreases n,
{
    if n > 0 {
        folded_is_plain(parts, n - 1);
        let a = folded(parts, n - 1);
        let b = folded(parts, n);
        assert forall|i: int| 0 <= i < b.len() implies (#[trigger] b[i]).len() > 0 && b[i] != "."@ && b[i] != ".."@ by {
            if i < a.len() {
                assert(b[i] == a[i]);
            }
        }
    }
}

/// Whether a path is a directory or lies below it, component by component.
pub open spec fn under_dir(path: Seq<char>, dir: Seq<char>) -> bool {
    let p = steps(path);
    let d = steps(dir);
    &&& d.len() <= p.len()
    &&& forall|i: int| 0 <= i < d.len() ==> #[trigger] d[i] == p[i]
}

/// Tells whether a list begins with another one.
#[verifier::loop_isolation(false)]
fn begins_with(p: &Vec<String>, d: &Vec<String>) -> (r: bool)
    ensures
        r == (d@.len() <= p@.len() && forall|i: int|
            0 <= i < d@.len() ==> #[trigger] views(d@)[i] == views(p@)[i]),
{
    let ghost ps = views(p@);
    let ghost ds = views(d@);
    if d.len() > p.len() {
        return false;
    }
    let mut i: usize = 0;
    while i < d.len()
        invariant
            i <= d@.len() <= p@.len(),
            forall|j: int| 0 <= j < i ==> #[trigger] ds[j] == ps[j],
        decreases d@.len() - i,
    {
        assert(ds[i as int] == d@[i as int]@);
        assert(ps[i as int] == p@[i as int]@);
        if !same(d[i].as_str(), p[i].as_str()) {
            return false;
        }
        i += 1;
    }
    true
}

/// Tells whether a path is a directory or lies below it.
pub fn is_under(path: &str, dir: &str) -> (r: bool)
    ensures
        r == under_dir(path@, dir@),
{
    let p = path_steps(path);
    let d = path_steps(dir);
    assert(views(p@).len() == p@.len() && views(d@).len() == d@.len());
    begins_with(&p, &d)
}

/// What a path holds behind its first `k` steps.
pub open spec fn rest_of(path: Seq<char>, k: int) -> Seq<char> {
    let parts = pieces(path, '/');
    let end = end_of(parts, parts.len() as int);
    if k <= 0 {
        front(parts, parts.len() as int)
    } else {
        let i = past(parts, 0, if lead(parts).len() == 0 { k } else { k - 1 });
        if i >= end {
            Seq::empty()
        } else {
            joined(parts.subrange(i, end), "/"@)
        }
    }
}

/// What a path holds below a directory; `None` where it does not lie below it.
pub open spec fn below_dir(path: Seq<char>, dir: Seq<char>) -> Option<Seq<char>> {
    if under_dir(path, dir) {
        Some(rest_of(path, steps(dir).len() as int))
    } else {
        None
    }
}

/// What a path holds behind its first `k` steps.
fn rest_text(path: &str, k: usize) -> (r: String)
    ensures
        r@ == rest_of(path@, k as int),
{
    let parts = split(path, '/');
    let ghost ps = views(parts@);
    assert(ps.len() == parts@.len());
    if k == 0 {
        return front_text(&parts, parts.len());
    }
    let start = lead_text(&parts);
    let mut left: usize = if start.as_str().is_empty() {
        k
    } else {
        k - 1
    };
    let ghost count = left as int;
    let e = end_place(&parts, parts.len());
    let mut i: usize = 0;
    while i < parts.len() && (left > 0 || is_idle(parts[i].as_str()))
        invariant
            i <= parts@.len(),
            ps == views(parts@),
            past(ps, 0, count) == past(ps, i as int, left as int),
        decreases parts@.len() - i,
    {
        assert(ps[i as int] == parts@[i as int]@);
        if !is_idle(parts[i].as_str()) {
            left -= 1;
        }
        i += 1;
    }
    assert(i < parts@.len() ==> ps[i as int] == parts@[i as int]@);
    assert(past(ps, 0, count) == i);
    if i >= e {
        let s = String::new();
        assert(s@ =~= Seq::<char>::empty());
        s
    } else {
        join_range(&parts, i, e)
    }
}

/// What a path holds below a directory.
pub fn below(path: &str, dir: &str) -> (r: Option<String>)
    ensures
        crate::text::opt_view(r) == below_dir(path@, dir@),
{
    let d = path_steps(dir);
    assert(views(d@).len() == d@.len());
    if is_under(path, dir) {
        Some(rest_text(path, d.len()))
    } else {
        None
    }
}

/// A path relative to the project, or else to the language root, or else as it
/// is.
pub open spec fn relative_path(file: Seq<char>, project_root: Seq<char>, lang_root: Seq<char>) -> Seq<char> {
    match below_dir(file, project_root) {
        Some(r) => r,
        None => match below_dir(file, lang_root) {
            Some(r) => r,
            None => file,
        },
    }
}

/// A path relative to the project, or else to the language root, or else as it
/// is.
pub fn relative_to(file: &str, project_root: &str, lang_root: &str) -> (r: String)
    ensures
        r@ == relative_path(file@, project_root@, lang_root@),
{
    match below(file, project_root) {
        Some(r) => r,
        None => match below(file, lang_root) {
            Some(r) => r,
            None => copy(file),
        },
    }
}

/// A path below a directory; one that is absolute stays as it is.
pub open spec fn placed_below(dir: Seq<char>, path: Seq<char>) -> Seq<char> {
    if begins(path, "/"@) {
        path
    } else if dir.len() == 0 || dir.last() == '/' {
        dir + path
    } else {
        dir + "/"@ + path
    }
}

/// A path below a directory; one that is absolute stays as it is.
pub fn place_below(dir: &str, path: &str) -> (r: String)
    ensures
        r@ == placed_below(dir@, path@),
{
    if starts_with(path, "/") {
        return copy(path);
    }
    let c = chars_of(dir);
    if c.len() == 0 || c[c.len() - 1] == '/' {
        concat2(dir, path)
    } else {
        concat3(dir, "/", path)
    }
}

// ---------------------------------------------------------------------------
// Taking a directory off and putting it before
// ---------------------------------------------------------------------------

proof fn plain_of_prefix(a: Seq<Seq<char>>, b: Seq<Seq<char>>, n: int)
    requires
        0 <= n <= a.len(),
    ensures
        plain_parts(a + b, n) == plain_parts(a, n),
    decreases n,
{
    if n > 0 {
        plain_of_prefix(a, b, n - 1);
        assert((a + b)[n - 1] == a[n - 1]);
    }
}

/// The components of two lists that say something, one after the other.
proof fn plain_of_sum(a: Seq<Seq<char>>, b: Seq<Seq<char>>)
    ensures
        plain_parts(a + b, (a + b).len() as int) == plain_parts(a, a.len() as int) + plain_parts(b, b.len() as int),
    decreases b.len(),
{
    if b.len() == 0 {
        assert(a + b =~= a);
    } else {
        let c = b.drop_last();
        plain_of_sum(a, c);
        assert(c + seq![b.last()] =~= b);
        assert((a + c) + seq![b.last()] =~= a + b);
        plain_of_prefix(a + c, seq![b.last()], (a + c).len() as int);
        plain_of_prefix(c, seq![b.last()], c.len() as int);
        assert((a + b).last() == b.last());
        assert(plain_parts(a + b, (a + b).len() as int) =~= plain_parts(a, a.len() as int) + plain_parts(
            b,
            b.len() as int,
        ));
    }
}

proof fn idle_parts_say_nothing(parts: Seq<Seq<char>>, n: int)
    requires
        0 <= n <= parts.len(),
        forall|j: int| 0 <= j < n ==> idle(#[trigger] parts[j]),
    ensures
        plain_parts(parts, n).len() == 0,
    decreases n,
{
    if n > 0 {
        idle_parts_say_nothing(parts, n - 1);
    }
}

/// What stands before the place behind `k` components holds `k` of them, or all
/// of them where there are fewer.
proof fn past_skips(parts: Seq<Seq<char>>, i: int, k: int)
    requires
        0 <= i <= parts.len(),
        0 <= k,
    ensures
        ({
            let q = past(parts, i, k);
            let skipped = parts.subrange(i, q);
            &&& i <= q <= parts.len()
            &&& plain_parts(skipped, skipped.len() as int).len() <= k
            &&& q < parts.len() ==> !idle(parts[q]) && plain_parts(skipped, skipped.len() as int).len() == k
        }),
    decreases parts.len() - i,
{
    let q = past(parts, i, k);
    if i < parts.len() {
        let one = seq![parts[i]];
        reveal_with_fuel(plain_parts, 2);
        if idle(parts[i]) || k > 0 {
            past_skips(parts, i + 1, if idle(parts[i]) { k } else { k - 1 });
            assert(parts.subrange(i, q) =~= one + parts.subrange(i + 1, q));
            plain_of_sum(one, parts.subrange(i + 1, q));
            assert(plain_parts(one, 1).len() == if idle(parts[i]) { 0int } else { 1int });
        }
    }
}

/// The texts of two lists that are joined, one after the other.
proof fn joined_of_sum(a: Seq<Seq<char>>, b: Seq<Seq<char>>)
    requires
        a.len() > 0,
        b.len() > 0,
    ensures
        joined(a + b, "/"@) == joined(a, "/"@) + "/"@ + joined(b, "/"@),
    decreases b.len(),
{
    assert((a + b).last() == b.last());
    if b.len() == 1 {
        assert((a + b).drop_last() =~= a);
    } else {
        joined_of_sum(a, b.drop_last());
        assert((a + b).drop_last() =~= a + b.drop_last());
        assert(joined(a + b, "/"@) =~= joined(a, "/"@) + "/"@ + joined(b, "/"@));
    }
}

/// A slash between two texts parts their components.
proof fn pieces_of_sum(x: Seq<char>, y: Seq<char>)
    ensures
        pieces(x + "/"@ + y, '/') == pieces(x, '/') + pieces(y, '/'),
{
    let a = pieces(x, '/');
    let b = pieces(y, '/');
    pieces_lack(x, '/');
    pieces_lack(y, '/');
    joined_of_pieces(x);
    joined_of_pieces(y);
    joined_of_sum(a, b);
    assert forall|i: int| 0 <= i < (a + b).len() implies lacks(#[trigger] (a + b)[i], '/') by {
        if i < a.len() {
            assert((a + b)[i] == a[i]);
        } else {
            assert((a + b)[i] == b[i - a.len()]);
        }
    }
    pieces_of_joined(a + b);
}

/// A text without a slash is its own and only component.
proof fn pieces_of_name(s: Seq<char>)
    requires
        lacks(s, '/'),
    ensures
        pieces(s, '/') == seq![s],
{
    lacking_is_not_found(s, '/', 0);
}

/// The components of a stretch of a path.
proof fn pieces_of_range(path: Seq<char>, i: int, e: int)
    requires
        0 <= i < e <= pieces(path, '/').len(),
    ensures
        pieces(joined(pieces(path, '/').subrange(i, e), "/"@), '/') == pieces(path, '/').subrange(i, e),
{
    let part = pieces(path, '/').subrange(i, e);
    pieces_lack(path, '/');
    assert forall|j: int| 0 <= j < part.len() implies lacks(#[trigger] part[j], '/') by {
        assert(part[j] == pieces(path, '/')[i + j]);
    }
    pieces_of_joined(part);
}

/// Only the empty path has no steps.
proof fn only_nothing_has_no_steps(path: Seq<char>)
    ensures
        steps(path).len() == 0 <==> path.len() == 0,
{
    let parts = pieces(path, '/');
    pieces_lack(path, '/');
    joined_of_pieces(path);
    if path.len() == 0 {
        pieces_of_name(path);
        assert(parts =~= seq![path]);
        reveal_with_fuel(plain_parts, 2);
        reveal_strlit(".");
        assert("."@.len() == 1);
    } else {
        reveal_strlit("/");
        reveal_strlit(".");
        if lead(parts).len() == 0 {
            assert(parts[0].len() > 0 && parts[0] != "."@) by {
                if parts.len() == 1 {
                    assert(path == parts[0]);
                }
            }
            let one = seq![parts[0]];
            let rest = parts.skip(1);
            assert(one + rest =~= parts);
            plain_of_sum(one, rest);
            reveal_with_fuel(plain_parts, 2);
            assert(plain_parts(one, 1).len() == 1);
        }
    }
}

/// Without a tail that says nothing a path takes the same steps.
proof fn front_takes_the_same_steps(path: Seq<char>)
    ensures
        steps(front(pieces(path, '/'), pieces(path, '/').len() as int)) == steps(path),
{
    let parts = pieces(path, '/');
    let n = parts.len() as int;
    let end = end_of(parts, n);
    pieces_lack(path, '/');
    end_is_inside(parts, n);
    reveal_strlit("/");
    reveal_strlit(".");
    reveal_with_fuel(plain_parts, 3);
    if end == 0 {
        idle_parts_say_nothing(parts, n);
        let start = lead(parts);
        if start == "/"@ {
            let none = Seq::<char>::empty();
            pieces_of_sum(none, none);
            pieces_of_name(none);
            assert(none + "/"@ + none =~= start);
            assert(pieces(start, '/') =~= seq![none, none]);
        } else {
            assert(lacks(start, '/'));
            pieces_of_name(start);
        }
        assert(steps(start) =~= steps(path));
    } else {
        pieces_of_range(path, 0, end);
        let kept = parts.subrange(0, end);
        let tail = parts.subrange(end, n);
        assert(kept + tail =~= parts);
        plain_of_sum(kept, tail);
        idle_parts_say_nothing(tail, tail.len() as int);
        assert(kept[0] == parts[0]);
        assert(lead(kept) == lead(parts));
        assert(steps(front(parts, n)) =~= steps(path));
    }
}

/// The steps of a path below a directory that is named: those of the directory,
/// and then the components of the path.
proof fn steps_of_placed(dir: Seq<char>, rest: Seq<char>)
    requires
        dir.len() > 0,
        !begins(rest, "/"@),
    ensures
        steps(placed_below(dir, rest)) == steps(dir) + segments(rest),
{
    reveal_strlit("/");
    reveal_strlit(".");
    reveal_with_fuel(plain_parts, 2);
    let d = pieces(dir, '/');
    let r = pieces(rest, '/');
    pieces_lack(dir, '/');
    pieces_lack(rest, '/');
    joined_of_pieces(dir);
    if dir.last() == '/' {
        let none = Seq::<char>::empty();
        let short = dir.drop_last();
        let a = pieces(short, '/');
        pieces_lack(short, '/');
        pieces_of_sum(short, rest);
        pieces_of_sum(short, none);
        pieces_of_name(none);
        assert(short + "/"@ + none =~= dir);
        assert(short + "/"@ + rest =~= dir + rest);
        plain_of_sum(a, r);
        plain_of_sum(a, seq![none]);
        assert((a + r)[0] == a[0] && d[0] == a[0]);
        assert(lead(a + r) == lead(d));
        assert(steps(placed_below(dir, rest)) =~= steps(dir) + segments(rest));
    } else {
        pieces_of_sum(dir, rest);
        plain_of_sum(d, r);
        assert((d + r)[0] == d[0]);
        if d.len() == 1 {
            assert(dir == d[0]);
        }
        assert(lead(d + r) == lead(d));
        assert(steps(placed_below(dir, rest)) =~= steps(dir) + segments(rest));
    }
}

/// Taking a directory off a path and putting it before again gives the same path.
pub proof fn placing_undoes_taking_off(dir: Seq<char>, path: Seq<char>)
    requires
        below_dir(path, dir) is Some,
    ensures
        steps(placed_below(dir, below_dir(path, dir)->0)) == steps(path),
{
    let parts = pieces(path, '/');
    let n = parts.len() as int;
    let rest = below_dir(path, dir)->0;
    only_nothing_has_no_steps(dir);
    reveal_strlit("/");
    reveal_strlit(".");
    if dir.len() == 0 {
        front_takes_the_same_steps(path);
        assert(dir + rest =~= rest);
    } else {
        let k = steps(dir).len() as int;
        let head = lead(parts);
        let c = if head.len() == 0 { k } else { k - 1 };
        let i = past(parts, 0, c);
        let end = end_of(parts, n);
        pieces_lack(path, '/');
        past_skips(parts, 0, c);
        end_is_inside(parts, n);
        let skipped = parts.subrange(0, i);
        let plain = segments(path);
        assert(parts =~= skipped + parts.subrange(i, n));
        plain_of_sum(skipped, parts.subrange(i, n));
        assert(plain.len() >= c);
        if i >= end {
            let behind = parts.subrange(i, n);
            idle_parts_say_nothing(behind, behind.len() as int);
            pieces_of_name(rest);
            reveal_with_fuel(plain_parts, 2);
            assert(segments(rest) =~= Seq::<Seq<char>>::empty());
            assert(plain.len() == c);
        } else {
            pieces_of_range(path, i, end);
            let kept = parts.subrange(i, end);
            let tail = parts.subrange(end, n);
            assert(parts.subrange(i, n) =~= kept + tail);
            plain_of_sum(kept, tail);
            idle_parts_say_nothing(tail, tail.len() as int);
            assert(segments(rest) =~= plain.skip(c));
            assert(!begins(rest, "/"@)) by {
                assert(kept[0] == parts[i]);
                assert(lacks(parts[i], '/'));
                if kept.len() == 1 {
                    assert(rest == kept[0]);
                } else {
                    joined_front(kept, "/"@);
                }
                assert(rest[0] == parts[i][0] && parts[i][0] != '/');
                assert("/"@[0] == '/');
                if begins(rest, "/"@) {
                    assert(rest.subrange(0, 1)[0] == rest[0]);
                }
            }
        }
        steps_of_placed(dir, rest);
        assert(steps(dir) =~= steps(path).take(k));
        assert(steps(dir) + segments(rest) =~= steps(path));
    }
}

/// Whether a search for roots found none but the directory it started from.
pub open spec fn fell_back(found: Seq<String>, root: Seq<char>) -> bool {
    found.len() == 1 && steps(found[0]@) == steps(root)
}

/// The roots that a search found. The directory it started from is no root where
/// the search fell back to it and it holds nothing.
pub fn kept_roots(found: Vec<String>, root: &str, root_holds: bool) -> (r: Vec<String>)
    ensures
        fell_back(found@, root@) && !root_holds ==> r@.len() == 0,
        !(fell_back(found@, root@) && !root_holds) ==> r@ == found@,
{
    if found.len() == 1 && !root_holds {
        let a = path_steps(found[0].as_str());
        let b = path_steps(root);
        if same_texts(&a, &b) {
            return Vec::new();
        }
    }
    found
}

}
