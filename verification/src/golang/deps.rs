//! Reading go.mod, and telling where an import comes from.

use vstd::prelude::*;

use crate::dependencies::distinct;
use crate::strings::{
    after_last, begins, char_found_later, contains_char, cut, find_char, find_char_in, find_char_is_first, find_in,
    find_is_first, has_char, lines, pieces, split, split_words, starts_with, strip_front, strip_prefix,
    strip_trailing, tail_after, text_lines, trim, trim_start, trimmed, trimmed_start, without_trailing, words,
};
use crate::text::{add_item, add_new, chars_of, concat2, copy, is_space, opt_view, same, space, string_of, views};
use crate::paths::{fell_back, kept_roots};

verus! {

/// The extensions of Go sources.
pub const GO_EXTENSIONS: [&'static str; 1] = [".go"];

/// The files that mark a module root.
pub const GO_MARKERS: [&'static str; 1] = ["go.mod"];

/// The directories that a search for module roots does not enter.
pub const GO_EXCLUDED_DIRS: [&'static str; 4] = ["vendor", ".git", "node_modules", "testdata"];

/// Whether a text starts with a blank or a tab.
pub open spec fn starts_blank(s: Seq<char>) -> bool {
    s.len() > 0 && (s[0] == ' ' || s[0] == '\t')
}

/// Tells whether a text starts with a blank or a tab.
fn is_blank_start(s: &str) -> (r: bool)
    ensures
        r == starts_blank(s@),
{
    let c = chars_of(s);
    c.len() > 0 && (c[0] == ' ' || c[0] == '\t')
}

// ---------------------------------------------------------------------------
// The module directive
// ---------------------------------------------------------------------------

/// The module path that a line declares. `module` is a word of its own.
pub open spec fn module_line(line: Seq<char>) -> Option<Seq<char>> {
    match strip_front(trimmed_start(line), "module"@) {
        Some(rest) => if starts_blank(rest) && words(rest).len() > 0 {
            Some(words(rest)[0])
        } else {
            None
        },
        None => None,
    }
}

/// The module path that the lines from `i` on declare first.
pub open spec fn module_from(all: Seq<Seq<char>>, i: int) -> Option<Seq<char>>
    decreases all.len() - i,
{
    if i < 0 || i >= all.len() {
        None
    } else if module_line(all[i]) is Some {
        module_line(all[i])
    } else {
        module_from(all, i + 1)
    }
}

/// The module path that a go.mod declares.
pub open spec fn declared_module(text: Seq<char>) -> Option<Seq<char>> {
    module_from(text_lines(text), 0)
}

/// Reads the module path that a line declares.
fn read_module_line(line: &str) -> (r: Option<String>)
    ensures
        opt_view(r) == module_line(line@),
{
    let start = trim_start(line);
    match strip_prefix(start.as_str(), "module") {
        Some(rest) => {
            if is_blank_start(rest.as_str()) {
                let w = split_words(rest.as_str());
                if w.len() > 0 {
                    assert(views(w@)[0] == w@[0]@);
                    return Some(copy(w[0].as_str()));
                }
            }
            None
        },
        None => None,
    }
}

/// The module path from the `module` directive of a go.mod.
#[verifier::loop_isolation(false)]
pub fn module_path_in(text: &str) -> (r: Option<String>)
    ensures
        opt_view(r) == declared_module(text@),
{
    let all = lines(text);
    let mut i: usize = 0;
    while i < all.len()
        invariant
            i <= all@.len(),
            module_from(views(all@), 0) == module_from(views(all@), i as int),
        decreases all@.len() - i,
    {
        assert(views(all@)[i as int] == all@[i as int]@);
        let found = read_module_line(all[i].as_str());
        if found.is_some() {
            return found;
        }
        i += 1;
    }
    None
}

// ---------------------------------------------------------------------------
// The require directives
// ---------------------------------------------------------------------------

/// Whether a text is white space alone.
pub open spec fn all_space(s: Seq<char>) -> bool {
    forall|i: int| 0 <= i < s.len() ==> is_space(#[trigger] s[i])
}

/// The module that a line of a block names: its first word, unless the line is
/// empty or a comment.
pub open spec fn block_entry(line: Seq<char>) -> Option<Seq<char>> {
    let entry = trimmed(line);
    if entry.len() == 0 || begins(entry, "//"@) || words(entry).len() == 0 {
        None
    } else {
        Some(words(entry)[0])
    }
}

/// The modules that the first `n` lines of a block name.
pub open spec fn block_entries(all: Seq<Seq<char>>, n: int) -> Seq<Seq<char>>
    decreases n,
{
    if n <= 0 || n > all.len() {
        Seq::empty()
    } else {
        match block_entry(all[n - 1]) {
            Some(m) => block_entries(all, n - 1).push(m),
            None => block_entries(all, n - 1),
        }
    }
}

/// The modules that the `require ( .. )` blocks of a text name. Only white
/// space may stand between the word and the bracket; a block that is not closed
/// ends the reading.
pub open spec fn block_modules(s: Seq<char>) -> Seq<Seq<char>>
    decreases s.len(),
{
    match cut(s, "require"@) {
        Some(parts) => {
            let after = parts.1;
            if after.len() < s.len() {
                match find_char(after, '(') {
                    Some(open) => if 0 <= open < after.len() && all_space(after.take(open)) {
                        let body = after.skip(open + 1);
                        match find_char(body, ')') {
                            Some(close) => if 0 <= close < body.len() {
                                let inner = text_lines(body.take(close));
                                block_entries(inner, inner.len() as int) + block_modules(body.skip(close))
                            } else {
                                Seq::empty()
                            },
                            None => Seq::empty(),
                        }
                    } else {
                        block_modules(after)
                    },
                    None => block_modules(after),
                }
            } else {
                Seq::empty()
            }
        },
        None => Seq::empty(),
    }
}

/// A text without the blanks and tabs at its start.
pub open spec fn unindented(s: Seq<char>) -> Seq<char>
    decreases s.len(),
{
    if starts_blank(s) {
        unindented(s.skip(1))
    } else {
        s
    }
}

/// The module that a single-line directive names. It carries a version.
pub open spec fn required_line(line: Seq<char>) -> Option<Seq<char>> {
    match strip_front(unindented(line), "require"@) {
        Some(after) => if starts_blank(after) && words(after).len() >= 2 && words(after)[0] != "("@ {
            Some(words(after)[0])
        } else {
            None
        },
        None => None,
    }
}

/// The modules that single-line directives among the first `n` lines name.
pub open spec fn required_lines(all: Seq<Seq<char>>, n: int) -> Seq<Seq<char>>
    decreases n,
{
    if n <= 0 || n > all.len() {
        Seq::empty()
    } else {
        match required_line(all[n - 1]) {
            Some(m) => required_lines(all, n - 1).push(m),
            None => required_lines(all, n - 1),
        }
    }
}

/// Every module that a go.mod requires, in blocks first, then line by line;
/// some may come more than once.
pub open spec fn all_required(text: Seq<char>) -> Seq<Seq<char>> {
    block_modules(text) + required_lines(text_lines(text), text_lines(text).len() as int)
}

/// Tells whether characters are white space alone.
fn is_all_space(c: &[char], from: usize, to: usize) -> (r: bool)
    requires
        from <= to <= c@.len(),
    ensures
        r == all_space(c@.subrange(from as int, to as int)),
{
    let ghost s = c@.subrange(from as int, to as int);
    let mut i: usize = from;
    while i < to
        invariant
            from <= i <= to <= c@.len(),
            s == c@.subrange(from as int, to as int),
            forall|j: int| 0 <= j < i - from ==> is_space(#[trigger] s[j]),
        decreases to - i,
    {
        if !space(c[i]) {
            assert(s[i - from] == c@[i as int]);
            return false;
        }
        i += 1;
    }
    true
}

/// Reads the modules that the lines of a block name.
fn read_block(body: &str, out: &mut Vec<String>)
    ensures
        views(final(out)@) == views(old(out)@) + block_entries(text_lines(body@), text_lines(body@).len() as int),
{
    let all = lines(body);
    let ghost start = views(out@);
    let mut i: usize = 0;
    assert(start + Seq::<Seq<char>>::empty() =~= start);
    while i < all.len()
        invariant
            i <= all@.len(),
            views(out@) == start + block_entries(views(all@), i as int),
        decreases all@.len() - i,
    {
        assert(views(all@)[i as int] == all@[i as int]@);
        let entry = trim(all[i].as_str());
        if !entry.as_str().is_empty() && !starts_with(entry.as_str(), "//") {
            let w = split_words(entry.as_str());
            if w.len() > 0 {
                assert(views(w@)[0] == w@[0]@);
                let ghost before_add = views(out@);
                add_item(out, copy(w[0].as_str()));
                assert(views(out@) =~= start + block_entries(views(all@), i + 1));
            }
        }
        i += 1;
    }
}

/// Reads the modules that the `require` blocks of a text name.
fn read_blocks(text: &str) -> (r: Vec<String>)
    ensures
        views(r@) == block_modules(text@),
{
    let c = chars_of(text);
    let word = chars_of("require");
    let n: usize = c.len();
    let mut out: Vec<String> = Vec::new();
    let mut k: usize = 0;
    proof {
        reveal_strlit("require");
        assert(c@.skip(0) =~= c@);
        assert(views(out@) =~= Seq::<Seq<char>>::empty());
        assert(views(out@) + block_modules(c@.skip(0)) =~= block_modules(c@));
    }
    loop
        invariant
            k <= c@.len(),
            n == c@.len(),
            c@ == text@,
            word@ == "require"@,
            word@.len() == 7,
            views(out@) + block_modules(c@.skip(k as int)) == block_modules(c@),
        decreases c@.len() - k,
    {
        let ghost rest = c@.skip(k as int);
        proof {
            crate::strings::find_shifted(c@, word@, k as int, k as int);
            find_is_first(rest, word@, 0);
            assert(views(out@) + Seq::<Seq<char>>::empty() =~= views(out@));
        }
        match find_in(c.as_slice(), word.as_slice(), k) {
            Some(start) => {
                let a: usize = start + word.len();
                let ghost after = c@.skip(a as int);
                proof {
                    assert(rest.skip(start - k + 7) =~= after);
                    char_found_later(c@, '(', a as int, a as int);
                    find_char_is_first(after, '(', 0);
                }
                match find_char_in(c.as_slice(), '(', a) {
                    Some(open) => {
                        assert(c@.subrange(a as int, open as int) =~= after.take(open - a));
                        if is_all_space(c.as_slice(), a, open) {
                            let b: usize = open + 1;
                            let ghost body = c@.skip(b as int);
                            proof {
                                assert(after.skip(open - a + 1) =~= body);
                                char_found_later(c@, ')', b as int, b as int);
                                find_char_is_first(body, ')', 0);
                            }
                            match find_char_in(c.as_slice(), ')', b) {
                                Some(close) => {
                                    let inner = string_of(c.as_slice(), b, close);
                                    let ghost before_add = views(out@);
                                    read_block(inner.as_str(), &mut out);
                                    proof {
                                        assert(inner@ =~= body.take(close - b));
                                        assert(body.skip(close - b) =~= c@.skip(close as int));
                                        let es = block_entries(text_lines(inner@), text_lines(inner@).len() as int);
                                        assert((before_add + es) + block_modules(c@.skip(close as int)) =~= before_add + (
                                        es + block_modules(c@.skip(close as int))));
                                    }
                                    k = close;
                                },
                                None => {
                                    return out;
                                },
                            }
                        } else {
                            k = a;
                        }
                    },
                    None => {
                        k = a;
                    },
                }
            },
            None => {
                return out;
            },
        }
    }
}

/// A text without the blanks and tabs at its start.
fn unindent(s: &str) -> (r: String)
    ensures
        r@ == unindented(s@),
{
    let a = chars_of(s);
    let mut i: usize = 0;
    assert(a@.skip(0) =~= a@);
    while i < a.len() && (a[i] == ' ' || a[i] == '\t')
        invariant
            i <= a@.len(),
            unindented(a@) == unindented(a@.skip(i as int)),
        decreases a@.len() - i,
    {
        assert(a@.skip(i as int).skip(1) =~= a@.skip(i + 1));
        i += 1;
    }
    string_of(a.as_slice(), i, a.len())
}

/// Reads the module that a single-line directive names.
fn read_required_line(line: &str) -> (r: Option<String>)
    ensures
        opt_view(r) == required_line(line@),
{
    let start = unindent(line);
    match strip_prefix(start.as_str(), "require") {
        Some(after) => {
            if is_blank_start(after.as_str()) {
                let w = split_words(after.as_str());
                if w.len() >= 2 {
                    assert(views(w@)[0] == w@[0]@);
                    if !same(w[0].as_str(), "(") {
                        return Some(copy(w[0].as_str()));
                    }
                }
            }
            None
        },
        None => None,
    }
}

/// The modules that a go.mod requires, each once.
pub fn required_modules_in(text: &str) -> (r: Vec<String>)
    ensures
        views(r@) == distinct(all_required(text@), all_required(text@).len() as int),
{
    let mut all = read_blocks(text);
    let ghost start = views(all@);
    let ls = lines(text);
    let mut i: usize = 0;
    assert(start + Seq::<Seq<char>>::empty() =~= start);
    while i < ls.len()
        invariant
            i <= ls@.len(),
            views(all@) == start + required_lines(views(ls@), i as int),
        decreases ls@.len() - i,
    {
        assert(views(ls@)[i as int] == ls@[i as int]@);
        if let Some(m) = read_required_line(ls[i].as_str()) {
            add_item(&mut all, m);
            assert(views(all@) =~= start + required_lines(views(ls@), i + 1));
        }
        i += 1;
    }
    let mut out: Vec<String> = Vec::new();
    let mut k: usize = 0;
    assert(views(out@) =~= Seq::<Seq<char>>::empty());
    while k < all.len()
        invariant
            k <= all@.len(),
            views(out@) == distinct(views(all@), k as int),
        decreases all@.len() - k,
    {
        assert(views(all@)[k as int] == all@[k as int]@);
        add_new(&mut out, copy(all[k].as_str()));
        k += 1;
    }
    out
}

// ---------------------------------------------------------------------------
// Names and roots
// ---------------------------------------------------------------------------

/// The last segment of a module path.
pub open spec fn last_segment(path: Seq<char>) -> Seq<char> {
    after_last(without_trailing(path, '/'), "/"@)
}

/// The name of a project: the last segment of its module path, or the name of
/// its directory.
pub fn project_name(own_module: Option<&str>, directory: &str) -> (r: String)
    ensures
        r@ == (match own_module {
            Some(path) => last_segment(path@),
            None => directory@,
        }),
{
    match own_module {
        Some(path) => {
            let p = strip_trailing(path, '/');
            tail_after(p.as_str(), "/")
        },
        None => copy(directory),
    }
}

/// The module path of a project with this go.mod.
pub open spec fn manifest_module(manifest: Option<Seq<char>>) -> Option<Seq<char>> {
    match manifest {
        Some(text) => declared_module(text),
        None => None,
    }
}

/// Reads the module path of a project; `manifest` is its go.mod, where it has
/// one.
pub fn go_read_module_path(manifest: &Option<String>) -> (r: Option<String>)
    ensures
        opt_view(r) == manifest_module(opt_view(*manifest)),
{
    match manifest {
        Some(text) => module_path_in(text.as_str()),
        None => None,
    }
}

/// The modules that a project requires, each once; `manifest` is its go.mod,
/// where it has one.
pub fn go_parse_dependencies(manifest: &Option<String>) -> (r: Vec<String>)
    ensures
        views(r@) == (match *manifest {
            Some(text) => distinct(all_required(text@), all_required(text@).len() as int),
            None => Seq::<Seq<char>>::empty(),
        }),
{
    match manifest {
        Some(text) => required_modules_in(text.as_str()),
        None => {
            let none: Vec<String> = Vec::new();
            assert(views(none@) =~= Seq::<Seq<char>>::empty());
            none
        },
    }
}

/// The name of a project; `manifest` is its go.mod, where it has one.
pub fn go_detect_project_name(manifest: &Option<String>, directory: &str) -> (r: String)
    ensures
        r@ == (match manifest_module(opt_view(*manifest)) {
            Some(path) => last_segment(path),
            None => directory@,
        }),
{
    match go_read_module_path(manifest) {
        Some(path) => project_name(Some(path.as_str()), directory),
        None => project_name(None, directory),
    }
}

/// The module roots among those that a search found.
///
/// The search falls back to the directory it started from; a Go project does
/// not want that where the directory holds no go.mod.
pub fn go_roots(found: Vec<String>, root: &str, root_is_go: bool) -> (r: Vec<String>)
    ensures
        fell_back(found@, root@) && !root_is_go ==> r@.len() == 0,
        !(fell_back(found@, root@) && !root_is_go) ==> r@ == found@,
{
    kept_roots(found, root, root_is_go)
}

// ---------------------------------------------------------------------------
// Import classification
// ---------------------------------------------------------------------------

/// Whether an import path is a module path or lies below it.
pub open spec fn within_module(import_path: Seq<char>, module: Seq<char>) -> bool {
    import_path == module || begins(import_path, module + "/"@)
}

/// Whether one of the modules contains the import path.
pub open spec fn within_some(import_path: Seq<char>, modules: Seq<Seq<char>>) -> bool {
    exists|i: int| 0 <= i < modules.len() && within_module(import_path, #[trigger] modules[i])
}

/// The first segment of a path.
pub open spec fn first_segment(path: Seq<char>) -> Seq<char> {
    pieces(path, '/')[0]
}

/// Where an import comes from. A path of the standard library has no dot in its
/// first segment.
pub open spec fn import_origin(
    import_path: Seq<char>,
    own_module: Option<Seq<char>>,
    required: Seq<Seq<char>>,
) -> Seq<char> {
    if own_module is Some && within_module(import_path, own_module->0) {
        "internal"@
    } else if !has_char(first_segment(import_path), '.') {
        "stdlib"@
    } else if within_some(import_path, required) {
        "third_party"@
    } else {
        "unknown"@
    }
}

/// Tells whether an import path is a module path or lies below it.
fn is_within(import_path: &str, module: &str) -> (r: bool)
    ensures
        r == within_module(import_path@, module@),
{
    if same(import_path, module) {
        return true;
    }
    let prefix = concat2(module, "/");
    starts_with(import_path, prefix.as_str())
}

/// Tells where an import comes from.
#[verifier::loop_isolation(false)]
pub fn classify_import(import_path: &str, own_module: Option<&str>, required: &Vec<String>) -> (r: &'static str)
    ensures
        r@ == import_origin(
            import_path@,
            match own_module {
                Some(m) => Some(m@),
                None => None,
            },
            views(required@),
        ),
{
    if let Some(m) = own_module {
        if is_within(import_path, m) {
            return "internal";
        }
    }
    let parts = split(import_path, '/');
    proof {
        crate::golang::deps::pieces_not_empty(import_path@, '/');
        assert(views(parts@)[0] == parts@[0]@);
    }
    if !contains_char(parts[0].as_str(), '.') {
        return "stdlib";
    }
    let mut i: usize = 0;
    while i < required.len()
        invariant
            i <= required@.len(),
            forall|j: int| 0 <= j < i ==> !within_module(import_path@, #[trigger] views(required@)[j]),
        decreases required@.len() - i,
    {
        assert(views(required@)[i as int] == required@[i as int]@);
        if is_within(import_path, required[i].as_str()) {
            assert(within_some(import_path@, views(required@)));
            return "third_party";
        }
        i += 1;
    }
    "unknown"
}

/// There is always a first piece.
pub proof fn pieces_not_empty(s: Seq<char>, c: char)
    ensures
        pieces(s, c).len() > 0,
{
}

/// Tells where a Go import comes from.
pub fn classify_go_import(import_path: &str, own_module: Option<&str>, required: Option<Vec<String>>) -> (r:
    &'static str)
    ensures
        r@ == import_origin(
            import_path@,
            match own_module {
                Some(m) => Some(m@),
                None => None,
            },
            match required {
                Some(v) => views(v@),
                None => Seq::empty(),
            },
        ),
{
    match required {
        Some(v) => classify_import(import_path, own_module, &v),
        None => {
            let none: Vec<String> = Vec::new();
            assert(views(none@) =~= Seq::<Seq<char>>::empty());
            classify_import(import_path, own_module, &none)
        },
    }
}

/// The origin of an import does not depend on the order in which the required
/// modules are listed.
pub proof fn origin_ignores_order(
    import_path: Seq<char>,
    own_module: Option<Seq<char>>,
    a: Seq<Seq<char>>,
    b: Seq<Seq<char>>,
)
    requires
        forall|x: Seq<char>| #[trigger] a.contains(x) <==> b.contains(x),
    ensures
        import_origin(import_path, own_module, a) == import_origin(import_path, own_module, b),
{
    if within_some(import_path, a) {
        let i = choose|i: int| 0 <= i < a.len() && within_module(import_path, #[trigger] a[i]);
        assert(a.contains(a[i]));
        assert(b.contains(a[i]));
        let j = choose|j: int| 0 <= j < b.len() && b[j] == a[i];
        assert(within_module(import_path, b[j]));
    }
    if within_some(import_path, b) {
        let i = choose|i: int| 0 <= i < b.len() && within_module(import_path, #[trigger] b[i]);
        assert(b.contains(b[i]));
        assert(a.contains(b[i]));
        let j = choose|j: int| 0 <= j < a.len() && a[j] == b[i];
        assert(within_module(import_path, a[j]));
    }
}

}
