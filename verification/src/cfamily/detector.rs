//! Detecting C and C++ projects, and which files are theirs.
//!
//! A project declares how it is built, never what it is, so markers only drive
//! the search for roots, and the extensions of the files say which dialect is
//! there.

use vstd::prelude::*;

use crate::cfamily::headers::{
    AMBIGUOUS_HEADER_EXTENSIONS, CPP_HEADER_EXTENSIONS, CPP_SOURCE_EXTENSIONS, C_SOURCE_EXTENSIONS,
};
use crate::cfamily::Dialect;
use crate::paths::{
    below, below_dir, directory, extension_among, fell_back, has_extension, kept_roots, parent_dir, path_segments,
    segments,
};
use crate::strings::{
    before_first, begins, contains_char, has_char, lines, split_words, starts_with, strip_around, strip_front, strip_prefix,
    text_lines, trim_start, trimmed_start, until, without_around, words,
};
use crate::text::{add_item, ascii_lowercase, chars_of, copy, opt_view, same, string_of, to_ascii_lower, views};

verus! {

/// Files that say where a project starts.
pub const C_FAMILY_MARKERS: [&'static str; 4] = ["CMakeLists.txt", "Makefile", "meson.build", "configure.ac"];

/// Everything the C adapter may be handed.
pub const C_EXTENSIONS: [&'static str; 2] = [".c", ".h"];

/// Everything the C++ adapter may be handed. Both adapters collect `.h`, and
/// exactly one of them keeps a given file.
pub const CPP_EXTENSIONS: [&'static str; 9] = [
    ".cpp",
    ".cc",
    ".cxx",
    ".c++",
    ".hpp",
    ".hh",
    ".hxx",
    ".h++",
    ".h",
];

/// Build trees, at any depth.
pub const C_SKIP_ANYWHERE: [&'static str; 1] = ["_build"];

/// Vendored trees, which stand at the root of a project and nowhere else.
pub const C_SKIP_AT_ROOT: [&'static str; 4] = ["vendor", "third_party", "external", "subprojects"];

/// How the names of CMake's build trees begin.
pub const CMAKE_BUILD_PREFIX: &'static str = "cmake-build";

/// Whether one of the components is a build tree of CMake.
pub open spec fn build_part(parts: Seq<Seq<char>>) -> bool {
    exists|i: int| 0 <= i < parts.len() && begins(#[trigger] parts[i], CMAKE_BUILD_PREFIX@)
}

/// Whether one of the directories between a root and a file is a build tree of
/// CMake. The file's own name does not count.
pub open spec fn built_below(path: Seq<char>, root: Seq<char>) -> bool {
    match below_dir(path, root) {
        Some(rel) => build_part(segments(directory(rel))),
        None => false,
    }
}

/// Tells whether one of the directories between a root and a file is a build
/// tree of CMake.
#[verifier::loop_isolation(false)]
pub fn in_cmake_build_dir(path: &str, root: &str) -> (r: bool)
    ensures
        r == built_below(path@, root@),
{
    match below(path, root) {
        Some(rel) => {
            let dir = parent_dir(rel.as_str());
            let parts = path_segments(dir.as_str());
            let ghost ps = segments(dir@);
            let mut i: usize = 0;
            while i < parts.len()
                invariant
                    i <= parts@.len(),
                    forall|j: int| 0 <= j < i ==> !begins(#[trigger] ps[j], CMAKE_BUILD_PREFIX@),
                decreases parts@.len() - i,
            {
                assert(ps[i as int] == parts@[i as int]@);
                if starts_with(parts[i].as_str(), CMAKE_BUILD_PREFIX) {
                    return true;
                }
                i += 1;
            }
            assert(!build_part(ps));
            false
        },
        None => false,
    }
}

/// The first `n` files that lie in no build tree of CMake.
pub open spec fn outside_builds(files: Seq<Seq<char>>, root: Seq<char>, n: int) -> Seq<Seq<char>>
    decreases n,
{
    if n <= 0 || n > files.len() {
        Seq::empty()
    } else if built_below(files[n - 1], root) {
        outside_builds(files, root, n - 1)
    } else {
        outside_builds(files, root, n - 1).push(files[n - 1])
    }
}

/// Drops the files that lie in a build tree of CMake, keeping the order.
#[verifier::loop_isolation(false)]
pub fn keep_sources(files: &Vec<String>, root: &str) -> (r: Vec<String>)
    ensures
        views(r@) == outside_builds(views(files@), root@, files@.len() as int),
{
    let mut out: Vec<String> = Vec::new();
    let mut i: usize = 0;
    assert(views(out@) =~= Seq::<Seq<char>>::empty());
    while i < files.len()
        invariant
            i <= files@.len(),
            views(out@) == outside_builds(views(files@), root@, i as int),
        decreases files@.len() - i,
    {
        assert(views(files@)[i as int] == files@[i as int]@);
        if !in_cmake_build_dir(files[i].as_str(), root) {
            add_item(&mut out, copy(files[i].as_str()));
        }
        i += 1;
    }
    out
}

/// Whether a file has one of some extensions.
pub open spec fn some_source(files: Seq<Seq<char>>, extensions: Seq<&'static str>) -> bool {
    exists|i: int| 0 <= i < files.len() && extension_among(#[trigger] files[i], extensions)
}

/// Tells whether a file has one of some extensions.
#[verifier::loop_isolation(false)]
pub fn any_source(files: &Vec<String>, extensions: &[&'static str]) -> (r: bool)
    ensures
        r == some_source(views(files@), extensions@),
{
    let ghost fs = views(files@);
    let mut i: usize = 0;
    while i < files.len()
        invariant
            i <= files@.len(),
            forall|j: int| 0 <= j < i ==> !extension_among(#[trigger] fs[j], extensions@),
        decreases files@.len() - i,
    {
        assert(fs[i as int] == files@[i as int]@);
        if has_extension(files[i].as_str(), extensions) {
            return true;
        }
        i += 1;
    }
    false
}

/// Whether files hold C++: only extensions that name it count.
pub open spec fn holds_cpp(files: Seq<Seq<char>>) -> bool {
    some_source(files, CPP_SOURCE_EXTENSIONS@) || some_source(files, CPP_HEADER_EXTENSIONS@)
}

/// Whether files hold C. Headers alone count as C where nothing of C++ is
/// there: a library of headers has to belong to somebody.
pub open spec fn holds_c(files: Seq<Seq<char>>) -> bool {
    some_source(files, C_SOURCE_EXTENSIONS@) || (some_source(files, AMBIGUOUS_HEADER_EXTENSIONS@) && !holds_cpp(files))
}

/// Tells whether the files under a root hold C++.
pub fn is_cpp_project(files: &Vec<String>) -> (r: bool)
    ensures
        r == holds_cpp(views(files@)),
{
    any_source(files, &CPP_SOURCE_EXTENSIONS) || any_source(files, &CPP_HEADER_EXTENSIONS)
}

/// Tells whether the files under a root hold C.
pub fn is_c_project(files: &Vec<String>) -> (r: bool)
    ensures
        r == holds_c(views(files@)),
{
    any_source(files, &C_SOURCE_EXTENSIONS) || (any_source(files, &AMBIGUOUS_HEADER_EXTENSIONS) && !is_cpp_project(files))
}

/// Files of the family belong to a dialect: where there is a source or header
/// of either, one of the two holds.
pub proof fn every_source_is_held(files: Seq<Seq<char>>)
    requires
        some_source(files, C_SOURCE_EXTENSIONS@) || some_source(files, AMBIGUOUS_HEADER_EXTENSIONS@) || some_source(
            files,
            CPP_SOURCE_EXTENSIONS@,
        ) || some_source(files, CPP_HEADER_EXTENSIONS@),
    ensures
        holds_c(files) || holds_cpp(files),
{
}

/// Whether files hold a dialect.
pub open spec fn holds_dialect(files: Seq<Seq<char>>, dialect: Dialect) -> bool {
    match dialect {
        Dialect::C => holds_c(files),
        Dialect::Cpp => holds_cpp(files),
    }
}

/// Tells whether the files under a root hold a dialect.
pub fn is_of(files: &Vec<String>, dialect: Dialect) -> (r: bool)
    ensures
        r == holds_dialect(views(files@), dialect),
{
    match dialect {
        Dialect::C => is_c_project(files),
        Dialect::Cpp => is_cpp_project(files),
    }
}

/// The roots among those that a search for markers found.
///
/// The search falls back to the directory it started from. That is kept where
/// it holds code of the dialect, because loose sources without a build system
/// are a project too, and dropped where it does not.
pub fn family_roots(found: Vec<String>, root: &str, root_holds: bool) -> (r: Vec<String>)
    ensures
        fell_back(found@, root@) && !root_holds ==> r@.len() == 0,
        !(fell_back(found@, root@) && !root_holds) ==> r@ == found@,
{
    kept_roots(found, root, root_holds)
}

/// The name that a line gives the project. A name that would have to be
/// evaluated is none.
pub open spec fn named_by(line: Seq<char>) -> Option<Seq<char>> {
    let s = trimmed_start(line);
    if s.len() >= 7 && ascii_lowercase(s.take(7)) == "project"@ {
        match strip_front(trimmed_start(s.skip(7)), "("@) {
            Some(arguments) => {
                let w = words(before_first(arguments, ")"@));
                if w.len() == 0 || w[0].len() == 0 || has_char(w[0], '$') {
                    None
                } else {
                    Some(without_around(w[0], '"'))
                }
            },
            None => None,
        }
    } else {
        None
    }
}

/// The name that the first line from `i` on gives which names the project.
pub open spec fn named_from(all: Seq<Seq<char>>, i: int) -> Option<Seq<char>>
    decreases all.len() - i,
{
    if i < 0 || i >= all.len() {
        None
    } else {
        match named_by(all[i]) {
            Some(n) => Some(n),
            None => named_from(all, i + 1),
        }
    }
}

/// The name that a line gives the project.
fn name_in_line(line: &str) -> (r: Option<String>)
    ensures
        opt_view(r) == named_by(line@),
{
    let s = trim_start(line);
    let c = chars_of(s.as_str());
    if c.len() < 7 {
        return None;
    }
    let head = string_of(c.as_slice(), 0, 7);
    assert(head@ =~= s@.take(7));
    let lower = to_ascii_lower(head.as_str());
    if !same(lower.as_str(), "project") {
        return None;
    }
    let tail = string_of(c.as_slice(), 7, c.len());
    assert(tail@ =~= s@.skip(7));
    let rest = trim_start(tail.as_str());
    match strip_prefix(rest.as_str(), "(") {
        Some(arguments) => {
            let first = until(arguments.as_str(), ")");
            let w = split_words(first.as_str());
            let ghost ws = words(first@);
            assert(ws.len() == w@.len());
            if w.len() == 0 {
                return None;
            }
            assert(ws[0] == w@[0]@);
            if w[0].as_str().is_empty() || contains_char(w[0].as_str(), '$') {
                return None;
            }
            Some(strip_around(w[0].as_str(), '"'))
        },
        None => None,
    }
}

/// The name that a listfile gives the project. Commands are not told apart by
/// case, and only the first argument is read.
#[verifier::loop_isolation(false)]
pub fn cmake_project_name(text: &str) -> (r: Option<String>)
    ensures
        opt_view(r) == named_from(text_lines(text@), 0),
{
    let all = lines(text);
    let ghost ls = views(all@);
    let mut i: usize = 0;
    while i < all.len()
        invariant
            i <= all@.len(),
            named_from(ls, 0) == named_from(ls, i as int),
        decreases all@.len() - i,
    {
        assert(ls[i as int] == all@[i as int]@);
        if let Some(n) = name_in_line(all[i].as_str()) {
            return Some(n);
        }
        i += 1;
    }
    None
}

/// The name of a project: as its listfile gives it, or that of its directory.
pub open spec fn family_project(listfile: Option<Seq<char>>, directory: Seq<char>) -> Seq<char> {
    match listfile {
        Some(text) => match named_from(text_lines(text), 0) {
            Some(n) => n,
            None => directory,
        },
        None => directory,
    }
}

/// The name of a project.
pub fn project_name(listfile: &Option<String>, directory: &str) -> (r: String)
    ensures
        r@ == family_project(opt_view(*listfile), directory@),
{
    match listfile {
        Some(text) => match cmake_project_name(text.as_str()) {
            Some(n) => n,
            None => copy(directory),
        },
        None => copy(directory),
    }
}

/// The name of a C project.
pub fn c_detect_project_name(listfile: &Option<String>, directory: &str) -> (r: String)
    ensures
        r@ == family_project(opt_view(*listfile), directory@),
{
    project_name(listfile, directory)
}

/// The name of a C++ project.
pub fn cpp_detect_project_name(listfile: &Option<String>, directory: &str) -> (r: String)
    ensures
        r@ == family_project(opt_view(*listfile), directory@),
{
    project_name(listfile, directory)
}

}
