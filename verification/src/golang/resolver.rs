//! Reading what the Go type checker answers.

use vstd::prelude::*;

use crate::adapter::{ResolvedRef, ResolvedView};
use crate::paths::{is_under, path_segments, segments, under_dir};
use crate::status::ResolverStatus;
use crate::strings::{number_of, parse_u32, pieces, split};
use crate::text::{copy, opt_view, same};

verus! {

/// A place in a file, as the type checker gives it.
#[derive(Debug)]
pub struct Answer {
    pub path: String,
    pub line: u32,
    pub col: u32,
}

/// The mathematical reading of an answer.
pub struct AnswerView {
    pub path: Seq<char>,
    pub line: u32,
    pub col: u32,
}

impl View for Answer {
    type V = AnswerView;

    open spec fn view(&self) -> AnswerView {
        AnswerView { path: self.path@, line: self.line, col: self.col }
    }
}

/// What a raw answer says: a path, a line and a column, parted by tabs. An
/// empty path, a missing part or a number that does not fit says nothing.
pub open spec fn answer_in(raw: Seq<char>) -> Option<AnswerView> {
    let parts = pieces(raw, '\t');
    if parts.len() >= 3 && parts[0].len() > 0 {
        match (number_of(parts[1]), number_of(parts[2])) {
            (Some(line), Some(col)) => Some(AnswerView { path: parts[0], line, col }),
            _ => None,
        }
    } else {
        None
    }
}

/// Reads a raw answer.
pub fn parse_answer(raw: &str) -> (r: Option<Answer>)
    ensures
        opt_view(r) == answer_in(raw@),
{
    let parts = split(raw, '\t');
    let ghost all = pieces(raw@, '\t');
    if parts.len() < 3 {
        assert(all.len() < 3);
        return None;
    }
    assert(all[0] == parts@[0]@ && all[1] == parts@[1]@ && all[2] == parts@[2]@);
    if parts[0].as_str().is_empty() {
        return None;
    }
    match (parse_u32(parts[1].as_str()), parse_u32(parts[2].as_str())) {
        (Some(line), Some(col)) => Some(Answer { path: copy(parts[0].as_str()), line, col }),
        _ => None,
    }
}

/// Whether `pkg` and `mod` stand side by side from the `i`-th component on.
pub open spec fn cache_from(parts: Seq<Seq<char>>, i: int) -> bool
    decreases parts.len() - i,
{
    if i < 0 || i + 1 >= parts.len() {
        false
    } else {
        (parts[i] == "pkg"@ && parts[i + 1] == "mod"@) || cache_from(parts, i + 1)
    }
}

/// Whether a path lies in a module cache: `.../pkg/mod/...`.
pub open spec fn cached(path: Seq<char>) -> bool {
    cache_from(segments(path), 0)
}

/// Tells whether a path lies in a module cache.
#[verifier::loop_isolation(false)]
pub fn in_mod_cache(path: &str) -> (r: bool)
    ensures
        r == cached(path@),
{
    let parts = path_segments(path);
    let ghost all = segments(path@);
    let n: usize = parts.len();
    let mut i: usize = 0;
    while i < n && i < n - 1
        invariant
            i <= n == parts@.len(),
            cache_from(all, 0) == cache_from(all, i as int),
        decreases n - i,
    {
        assert(all[i as int] == parts@[i as int]@ && all[i + 1] == parts@[i + 1]@);
        if same(parts[i].as_str(), "pkg") && same(parts[i + 1].as_str(), "mod") {
            return true;
        }
        i += 1;
    }
    false
}

/// A directory, as it was given and with symbolic links resolved.
pub struct Base {
    pub given: String,
    pub resolved: String,
}

/// The mathematical reading of a directory.
pub struct BaseView {
    pub given: Seq<char>,
    pub resolved: Seq<char>,
}

impl View for Base {
    type V = BaseView;

    open spec fn view(&self) -> BaseView {
        BaseView { given: self.given@, resolved: self.resolved@ }
    }
}

impl BaseView {
    /// Whether a path lies in the directory. A symbolic link may stand on
    /// either side, so that both forms of both are compared.
    pub open spec fn holds(self, given: Seq<char>, resolved: Seq<char>) -> bool {
        under_dir(given, self.given) || under_dir(resolved, self.given) || under_dir(given, self.resolved) || under_dir(
            resolved,
            self.resolved,
        )
    }
}

impl Base {
    /// Tells whether a path lies in the directory.
    fn holds(&self, given: &str, resolved: &str) -> (r: bool)
        ensures
            r == self@.holds(given@, resolved@),
    {
        is_under(given, self.given.as_str()) || is_under(resolved, self.given.as_str()) || is_under(
            given,
            self.resolved.as_str(),
        ) || is_under(resolved, self.resolved.as_str())
    }
}

/// Where a target comes from.
pub open spec fn target_origin(
    given: Seq<char>,
    resolved: Seq<char>,
    root: Option<BaseView>,
    goroot: Option<BaseView>,
) -> Seq<char> {
    if cached(resolved) || cached(given) {
        "third_party"@
    } else if root is Some && root->0.holds(given, resolved) {
        "internal"@
    } else if goroot is Some && goroot->0.holds(given, resolved) {
        "stdlib"@
    } else {
        "unknown"@
    }
}

/// Where a target comes from, by its path and by its path with symbolic links
/// resolved.
pub fn classify(given: &str, resolved: &str, root: &Option<Base>, goroot: &Option<Base>) -> (r: &'static str)
    ensures
        r@ == target_origin(given@, resolved@, opt_view(*root), opt_view(*goroot)),
{
    if in_mod_cache(resolved) || in_mod_cache(given) {
        return "third_party";
    }
    if let Some(b) = root {
        if b.holds(given, resolved) {
            return "internal";
        }
    }
    if let Some(b) = goroot {
        if b.holds(given, resolved) {
            return "stdlib";
        }
    }
    "unknown"
}

/// The definition that an answer stands for. The type checker names nothing but
/// a place.
pub open spec fn resolved_of(
    answer: AnswerView,
    resolved: Seq<char>,
    root: Option<BaseView>,
    goroot: Option<BaseView>,
) -> ResolvedView {
    ResolvedView {
        full_name: Seq::empty(),
        file_path: Some(answer.path),
        line: answer.line,
        col: answer.col,
        kind: Seq::empty(),
        origin: target_origin(answer.path, resolved, root, goroot),
    }
}

/// The definition that an answer stands for; `resolved` is the answer's path
/// with symbolic links resolved.
pub fn resolved_ref(answer: &Answer, resolved: &str, root: &Option<Base>, goroot: &Option<Base>) -> (r: ResolvedRef)
    ensures
        r@ == resolved_of(answer@, resolved@, opt_view(*root), opt_view(*goroot)),
{
    let empty = String::new();
    assert(empty@ =~= Seq::<char>::empty());
    ResolvedRef {
        full_name: copy(empty.as_str()),
        file_path: Some(copy(answer.path.as_str())),
        line: answer.line,
        col: answer.col,
        kind: empty,
        origin: copy(classify(answer.path.as_str(), resolved, root, goroot)),
    }
}

/// The status of a type checker session: only a positive handle is open.
pub fn session_status(handle: i32) -> (r: ResolverStatus)
    ensures
        r == (if handle > 0 {
            ResolverStatus::Complete
        } else {
            ResolverStatus::Unavailable
        }),
{
    if handle > 0 {
        ResolverStatus::Complete
    } else {
        ResolverStatus::Unavailable
    }
}

}
