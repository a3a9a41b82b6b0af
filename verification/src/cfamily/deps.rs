//! The packages that a C or C++ project declares in its build files.
//!
//! A declaration is read, never guessed: no package is made up from the name of
//! a header, and nothing here evaluates a variable.

use vstd::prelude::*;

use crate::dependencies::{sort_names, sorted_names};
use crate::json::{
    list_view, list_view_is_pointwise, object_view, object_view_is_pointwise, parse_json, parsed_json, Json, JsonView,
};
use crate::paths::{components, path_segments, path_steps, place_below, placed_below, segments, split_path, steps};
use crate::strings::{
    before_first, begins, contains_char, has_char, join, joined, lines, listed, one_of, starts_with, strip_around,
    strip_back, strip_front, strip_prefix, strip_suffix, text_lines, trim, trimmed, until, without_around,
};
use crate::text::{
    add_all_new, add_item, add_new, alphanumeric, chars_of, concat2, copy, holds, is_alphanumeric, is_space, lowercase,
    opt_view, same, space, string_of, string_of_all, to_lower, views, with_all_new, with_new,
};

verus! {

/// How far `add_subdirectory` is followed.
pub const MAX_SUBDIRECTORY_DEPTH: usize = 4;

/// Directories that hold a vendored package.
pub const VENDOR_DIRS: [&'static str; 7] = [
    "vendor",
    "vendored",
    "third_party",
    "thirdparty",
    "external",
    "subprojects",
    "deps",
];

/// Arguments of link commands that are no libraries.
pub const LINK_KEYWORDS: [&'static str; 14] = [
    "PRIVATE",
    "PUBLIC",
    "INTERFACE",
    "LINK_PRIVATE",
    "LINK_PUBLIC",
    "LINK_INTERFACE_LIBRARIES",
    "REQUIRED",
    "QUIET",
    "OPTIONAL",
    "IMPORTED_TARGET",
    "GLOBAL",
    "NO_CMAKE_PATH",
    "debug",
    "optimized",
];

/// Commands that name something which the project builds itself.
pub const TARGET_COMMANDS: [&'static str; 4] = [
    "add_library",
    "add_executable",
    "add_custom_target",
    "add_subdirectory",
];

// ---------------------------------------------------------------------------
// Commands
// ---------------------------------------------------------------------------

/// One invocation in a listfile. The name is in lower case: names of commands
/// are not told apart by case.
#[derive(Debug)]
pub struct Command {
    pub name: String,
    pub args: Vec<String>,
}

/// The mathematical reading of an invocation.
pub struct CommandView {
    pub name: Seq<char>,
    pub args: Seq<Seq<char>>,
}

impl View for Command {
    type V = CommandView;

    open spec fn view(&self) -> CommandView {
        CommandView { name: self.name@, args: views(self.args@) }
    }
}

/// Whether a character can stand in a name.
pub open spec fn name_char(c: char) -> bool {
    is_alphanumeric(c) || c == '_'
}

/// Tells whether a character can stand in a name.
pub fn is_name_char(c: char) -> (r: bool)
    ensures
        r == name_char(c),
{
    alphanumeric(c) || c == '_'
}

/// Where the line ends that holds position `i`.
pub open spec fn line_end(s: Seq<char>, i: int) -> int
    decreases s.len() - i,
{
    if i < 0 || i >= s.len() || s[i] == '\n' {
        i
    } else {
        line_end(s, i + 1)
    }
}

/// The position behind the delimiter that closes a quoted run. A backslash
/// takes the next character with it.
pub open spec fn quote_end(s: Seq<char>, i: int, delimiter: char) -> int
    decreases s.len() - i,
{
    if i < 0 || i >= s.len() {
        i
    } else if s[i] == '\\' {
        if i + 1 < s.len() {
            quote_end(s, i + 2, delimiter)
        } else {
            i + 1
        }
    } else if s[i] == delimiter {
        i + 1
    } else {
        quote_end(s, i + 1, delimiter)
    }
}

/// The end of a line lies behind its start.
pub proof fn line_end_bounds(s: Seq<char>, i: int)
    requires
        0 <= i <= s.len(),
    ensures
        i <= line_end(s, i) <= s.len(),
    decreases s.len() - i,
{
    if i < s.len() && s[i] != '\n' {
        line_end_bounds(s, i + 1);
    }
}

/// The end of a quoted run lies behind its start.
pub proof fn quote_end_bounds(s: Seq<char>, i: int, delimiter: char)
    requires
        0 <= i <= s.len(),
    ensures
        i <= quote_end(s, i, delimiter) <= s.len(),
    decreases s.len() - i,
{
    if i < s.len() {
        if s[i] == '\\' {
            if i + 1 < s.len() {
                quote_end_bounds(s, i + 2, delimiter);
            }
        } else if s[i] != delimiter {
            quote_end_bounds(s, i + 1, delimiter);
        }
    }
}

/// Where the line ends that holds position `i`.
#[verifier::loop_isolation(false)]
fn end_of_line(s: &[char], i: usize) -> (r: usize)
    requires
        i <= s@.len(),
    ensures
        r == line_end(s@, i as int),
        i <= r <= s@.len(),
{
    let n: usize = s.len();
    let mut k: usize = i;
    while k < n && s[k] != '\n'
        invariant
            i <= k <= n == s@.len(),
            line_end(s@, i as int) == line_end(s@, k as int),
        decreases n - k,
    {
        k += 1;
    }
    k
}

/// The position behind the delimiter that closes a quoted run.
#[verifier::loop_isolation(false)]
fn end_of_quote(s: &[char], i: usize, delimiter: char) -> (r: usize)
    requires
        i <= s@.len(),
    ensures
        r == quote_end(s@, i as int, delimiter),
        i <= r <= s@.len(),
{
    let n: usize = s.len();
    let mut k: usize = i;
    while k < n
        invariant
            i <= k <= n == s@.len(),
            quote_end(s@, i as int, delimiter) == quote_end(s@, k as int, delimiter),
        decreases n - k,
    {
        if s[k] == '\\' {
            if k + 1 < n {
                k += 2;
            } else {
                return k + 1;
            }
        } else if s[k] == delimiter {
            return k + 1;
        } else {
            k += 1;
        }
    }
    k
}

/// The list with a word behind it, unless the word is empty.
pub open spec fn with_word(args: Seq<Seq<char>>, word: Seq<char>) -> Seq<Seq<char>> {
    if word.len() == 0 {
        args
    } else {
        args.push(word)
    }
}

/// The arguments from position `i` up to the closing bracket, parted by blanks.
/// The delimiters of a quoted argument are dropped and its content is kept
/// whole; nested brackets do not end the list.
pub open spec fn arguments(
    s: Seq<char>,
    i: int,
    args: Seq<Seq<char>>,
    current: Seq<char>,
    depth: nat,
    quote: Option<char>,
) -> Seq<Seq<char>>
    decreases s.len() - i,
{
    if i < 0 || i >= s.len() {
        with_word(args, current)
    } else {
        let c = s[i];
        match quote {
            Some(d) => if c == '\\' {
                if i + 1 < s.len() {
                    arguments(s, i + 2, args, current.push(s[i + 1]), depth, quote)
                } else {
                    with_word(args, current)
                }
            } else if c == d {
                arguments(s, i + 1, args, current, depth, None)
            } else {
                arguments(s, i + 1, args, current.push(c), depth, quote)
            },
            None => if c == '"' || c == '\'' {
                arguments(s, i + 1, args, current, depth, Some(c))
            } else if c == '#' {
                proof {
                    line_end_bounds(s, i + 1);
                }
                arguments(s, line_end(s, i + 1), args, current, depth, None)
            } else if c == '(' {
                arguments(s, i + 1, args, current.push(c), depth + 1, None)
            } else if c == ')' {
                if depth <= 1 {
                    with_word(args, current)
                } else {
                    arguments(s, i + 1, args, current.push(c), (depth - 1) as nat, None)
                }
            } else if is_space(c) {
                arguments(s, i + 1, with_word(args, current), Seq::empty(), depth, None)
            } else {
                arguments(s, i + 1, args, current.push(c), depth, None)
            },
        }
    }
}

/// Adds a word to a list and empties it, unless it is empty.
fn take_word(args: &mut Vec<String>, word: &mut Vec<char>)
    ensures
        views(final(args)@) == with_word(views(old(args)@), old(word)@),
        final(word)@ == Seq::<char>::empty(),
{
    if word.len() > 0 {
        add_item(args, string_of_all(word.as_slice()));
    }
    word.clear();
}

/// The arguments from a position up to the closing bracket.
#[verifier::loop_isolation(false)]
fn read_arguments(s: &[char], from: usize) -> (r: Vec<String>)
    requires
        0 < from <= s@.len(),
    ensures
        views(r@) == arguments(s@, from as int, Seq::empty(), Seq::empty(), 1, None),
{
    let n: usize = s.len();
    let mut args: Vec<String> = Vec::new();
    let mut current: Vec<char> = Vec::new();
    let mut depth: usize = 1;
    let mut quote: Option<char> = None;
    let mut i: usize = from;
    let ghost all = arguments(s@, from as int, Seq::empty(), Seq::empty(), 1, None);
    assert(views(args@) =~= Seq::<Seq<char>>::empty());
    assert(current@ =~= Seq::<char>::empty());
    while i < n
        invariant
            from <= i <= n == s@.len(),
            1 <= depth <= 1 + (i - from),
            all == arguments(s@, i as int, views(args@), current@, depth as nat, quote),
        decreases n - i,
    {
        let c = s[i];
        match quote {
            Some(d) => {
                if c == '\\' {
                    if i + 1 < n {
                        current.push(s[i + 1]);
                        i += 2;
                    } else {
                        i += 1;
                        assert(all == with_word(views(args@), current@));
                        take_word(&mut args, &mut current);
                        return args;
                    }
                } else if c == d {
                    quote = None;
                    i += 1;
                } else {
                    current.push(c);
                    i += 1;
                }
            },
            None => {
                if c == '"' || c == '\'' {
                    quote = Some(c);
                    i += 1;
                } else if c == '#' {
                    i = end_of_line(s, i + 1);
                } else if c == '(' {
                    current.push(c);
                    depth += 1;
                    i += 1;
                } else if c == ')' {
                    if depth == 1 {
                        take_word(&mut args, &mut current);
                        return args;
                    }
                    current.push(c);
                    depth -= 1;
                    i += 1;
                } else if space(c) {
                    take_word(&mut args, &mut current);
                    i += 1;
                } else {
                    current.push(c);
                    i += 1;
                }
            },
        }
    }
    take_word(&mut args, &mut current);
    args
}

/// Every invocation from position `i` on, given the word that is being read and
/// the last one before it. The scan goes on inside the arguments, because calls
/// nest.
pub open spec fn invocations(s: Seq<char>, i: int, word: Seq<char>, previous: Seq<char>) -> Seq<CommandView>
    decreases s.len() - i,
{
    let none = Seq::<char>::empty();
    if i < 0 || i >= s.len() {
        Seq::empty()
    } else if s[i] == '#' {
        proof {
            line_end_bounds(s, i + 1);
        }
        invocations(s, line_end(s, i + 1), none, none)
    } else if s[i] == '"' || s[i] == '\'' {
        proof {
            quote_end_bounds(s, i + 1, s[i]);
        }
        invocations(s, quote_end(s, i + 1, s[i]), none, none)
    } else if s[i] == '(' {
        let name = if word.len() == 0 {
            previous
        } else {
            word
        };
        let rest = invocations(
            s,
            i + 1,
            none,
            if word.len() == 0 {
                none
            } else {
                previous
            },
        );
        if name.len() == 0 {
            rest
        } else {
            seq![
                CommandView {
                    name: lowercase(name),
                    args: arguments(s, i + 1, Seq::empty(), Seq::empty(), 1, None),
                },
            ] + rest
        }
    } else if name_char(s[i]) {
        invocations(s, i + 1, word.push(s[i]), previous)
    } else if is_space(s[i]) {
        if word.len() == 0 {
            invocations(s, i + 1, word, previous)
        } else {
            invocations(s, i + 1, none, word)
        }
    } else {
        invocations(s, i + 1, none, none)
    }
}

/// Every invocation of a listfile.
pub open spec fn commands_in(text: Seq<char>) -> Seq<CommandView> {
    invocations(text, 0, Seq::empty(), Seq::empty())
}

/// Every invocation of a listfile, with its arguments split.
#[verifier::loop_isolation(false)]
#[verifier::rlimit(40)]
pub fn commands(text: &str) -> (r: Vec<Command>)
    ensures
        views(r@) == commands_in(text@),
{
    let s = chars_of(text);
    let n: usize = s.len();
    let mut out: Vec<Command> = Vec::new();
    let mut word: Vec<char> = Vec::new();
    let mut previous: Vec<char> = Vec::new();
    let mut i: usize = 0;
    let ghost all = commands_in(text@);
    assert(word@ =~= Seq::<char>::empty());
    assert(previous@ =~= Seq::<char>::empty());
    assert(views(out@) + all =~= all);
    while i < n
        invariant
            i <= n == s@.len(),
            s@ == text@,
            all == views(out@) + invocations(s@, i as int, word@, previous@),
        decreases n - i,
    {
        let c = s[i];
        if c == '#' {
            i = end_of_line(s.as_slice(), i + 1);
            word.clear();
            previous.clear();
        } else if c == '"' || c == '\'' {
            i = end_of_quote(s.as_slice(), i + 1, c);
            word.clear();
            previous.clear();
        } else if c == '(' {
            let mut name: Vec<char> = Vec::new();
            let ghost here = invocations(s@, i as int, word@, previous@);
            if word.len() == 0 {
                std::mem::swap(&mut name, &mut previous);
                assert(previous@ =~= Seq::<char>::empty());
                assert(word@ =~= Seq::<char>::empty());
            } else {
                std::mem::swap(&mut name, &mut word);
                assert(word@ =~= Seq::<char>::empty());
            }
            let ghost rest = invocations(s@, i + 1, word@, previous@);
            if name.len() > 0 {
                let args = read_arguments(s.as_slice(), i + 1);
                let written = string_of_all(name.as_slice());
                let ghost before_add = views(out@);
                let command = Command { name: to_lower(written.as_str()), args };
                assert(here == seq![command@] + rest);
                add_item(&mut out, command);
                assert(views(out@) + rest =~= before_add + here);
            }
            i += 1;
        } else if is_name_char(c) {
            word.push(c);
            i += 1;
        } else if space(c) {
            if word.len() > 0 {
                previous.clear();
                std::mem::swap(&mut previous, &mut word);
                assert(word@ =~= Seq::<char>::empty());
            }
            i += 1;
        } else {
            word.clear();
            previous.clear();
            i += 1;
        }
    }
    assert(views(out@) + Seq::<CommandView>::empty() =~= views(out@));
    out
}

// ---------------------------------------------------------------------------
// Names
// ---------------------------------------------------------------------------

/// Whether a version constraint begins with a character.
pub open spec fn constraint_mark(c: char) -> bool {
    c == '<' || c == '>' || c == '=' || c == '!' || c == '~' || c == '^' || c == '@'
}

/// Where a version constraint begins, from position `i` on.
pub open spec fn constraint_from(s: Seq<char>, i: int) -> int
    decreases s.len() - i,
{
    if i < 0 || i >= s.len() || constraint_mark(s[i]) {
        i
    } else {
        constraint_from(s, i + 1)
    }
}

/// What stands before a version constraint.
pub open spec fn unconstrained(s: Seq<char>) -> Seq<char> {
    s.take(constraint_from(s, 0))
}

/// What stands before a version constraint.
#[verifier::loop_isolation(false)]
fn without_constraint(s: &str) -> (r: String)
    ensures
        r@ == unconstrained(s@),
{
    let c = chars_of(s);
    let n: usize = c.len();
    let mut i: usize = 0;
    while i < n && !(c[i] == '<' || c[i] == '>' || c[i] == '=' || c[i] == '!' || c[i] == '~' || c[i] == '^' || c[i]
        == '@')
        invariant
            i <= n == c@.len(),
            constraint_from(c@, 0) == constraint_from(c@, i as int),
        decreases n - i,
    {
        i += 1;
    }
    string_of(c.as_slice(), 0, i)
}

/// An argument without the separator and the quotes around it. The separator
/// comes off first, because it stands behind the closing quote.
pub open spec fn unwrapped(raw: Seq<char>) -> Seq<char> {
    trimmed(without_around(without_around(trimmed(without_around(trimmed(raw), ',')), '"'), '\''))
}

/// A library's name without the flag that links it.
pub open spec fn unflagged(s: Seq<char>) -> Seq<char> {
    match strip_front(s, "-l"@) {
        Some(r) => r,
        None => s,
    }
}

/// The package of an imported target, and its name without a version.
pub open spec fn package_name(s: Seq<char>) -> Seq<char> {
    trimmed(unconstrained(before_first(s, "::"@)))
}

/// The package that an argument names. What a configure run would have to
/// evaluate, a keyword, another linker flag and a path name none.
pub open spec fn package_in(raw: Seq<char>) -> Option<Seq<char>> {
    let name = unwrapped(raw);
    let bare = unflagged(name);
    let package = package_name(bare);
    if name.len() == 0 || has_char(name, '$') || listed(LINK_KEYWORDS@, name) {
        None
    } else if begins(bare, "-"@) || has_char(bare, '/') || has_char(bare, '\\') {
        None
    } else if package.len() == 0 || !is_alphanumeric(package[0]) {
        None
    } else {
        Some(package)
    }
}

/// The package that an argument names.
pub fn sanitize(raw: &str) -> (r: Option<String>)
    ensures
        opt_view(r) == package_in(raw@),
{
    let a = trim(raw);
    let b = strip_around(a.as_str(), ',');
    let c = trim(b.as_str());
    let d = strip_around(c.as_str(), '"');
    let e = strip_around(d.as_str(), '\'');
    let name = trim(e.as_str());
    if name.as_str().is_empty() || contains_char(name.as_str(), '$') || one_of(name.as_str(), &LINK_KEYWORDS) {
        return None;
    }
    let bare = match strip_prefix(name.as_str(), "-l") {
        Some(r) => r,
        None => name,
    };
    if starts_with(bare.as_str(), "-") || contains_char(bare.as_str(), '/') || contains_char(bare.as_str(), '\\') {
        return None;
    }
    let target = until(bare.as_str(), "::");
    let versionless = without_constraint(target.as_str());
    let package = trim(versionless.as_str());
    let first = chars_of(package.as_str());
    if first.len() == 0 || !alphanumeric(first[0]) {
        return None;
    }
    Some(package)
}

/// The first component from `i` on that is not empty.
pub open spec fn first_part(parts: Seq<Seq<char>>, i: int) -> Option<Seq<char>>
    decreases parts.len() - i,
{
    if i < 0 || i >= parts.len() {
        None
    } else if parts[i].len() > 0 {
        Some(parts[i])
    } else {
        first_part(parts, i + 1)
    }
}

/// The last of the first `n` components that is neither empty nor `.`.
pub open spec fn last_part(parts: Seq<Seq<char>>, n: int) -> Option<Seq<char>>
    decreases n,
{
    if n <= 0 || n > parts.len() {
        None
    } else if parts[n - 1].len() > 0 && parts[n - 1] != "."@ {
        Some(parts[n - 1])
    } else {
        last_part(parts, n - 1)
    }
}

/// The package of a vendored subdirectory. The first component decides: a
/// directory of the project itself names none.
pub open spec fn vendored(path: Seq<char>) -> Option<Seq<char>> {
    let parts = components(path);
    match (first_part(parts, 0), last_part(parts, parts.len() as int)) {
        (Some(first), Some(last)) => if listed(VENDOR_DIRS@, first) {
            package_in(last)
        } else {
            None
        },
        _ => None,
    }
}

/// The package of a vendored subdirectory.
#[verifier::loop_isolation(false)]
pub fn vendored_name(path: &str) -> (r: Option<String>)
    ensures
        opt_view(r) == vendored(path@),
{
    let parts = split_path(path);
    let n: usize = parts.len();
    let ghost all = components(path@);
    let mut i: usize = 0;
    while i < n && parts[i].as_str().is_empty()
        invariant
            i <= n == parts@.len(),
            first_part(all, 0) == first_part(all, i as int),
        decreases n - i,
    {
        assert(all[i as int] == parts@[i as int]@);
        i += 1;
    }
    if i == n {
        return None;
    }
    assert(all[i as int] == parts@[i as int]@);
    if !one_of(parts[i].as_str(), &VENDOR_DIRS) {
        return None;
    }
    let mut k: usize = n;
    while k > 0
        invariant
            k <= n == parts@.len(),
            last_part(all, n as int) == last_part(all, k as int),
        decreases k,
    {
        let p = parts[k - 1].as_str();
        assert(all[k - 1] == p@);
        if !p.is_empty() && !same(p, ".") {
            return sanitize(p);
        }
        k -= 1;
    }
    None
}

// ---------------------------------------------------------------------------
// CMake
// ---------------------------------------------------------------------------

/// The names with a package that an argument names.
pub open spec fn with_package(names: Seq<Seq<char>>, raw: Seq<char>) -> Seq<Seq<char>> {
    match package_in(raw) {
        Some(p) => with_new(names, p),
        None => names,
    }
}

/// Adds the package that an argument names.
fn add_package(names: &mut Vec<String>, raw: &str)
    ensures
        views(final(names)@) == with_package(views(old(names)@), raw@),
{
    if let Some(p) = sanitize(raw) {
        add_new(names, p);
    }
}

/// The target that a command declares.
pub open spec fn target_of(c: CommandView) -> Option<Seq<char>> {
    if listed(TARGET_COMMANDS@, c.name) && c.args.len() > 0 && !has_char(c.args[0], '$') {
        Some(c.args[0])
    } else {
        None
    }
}

/// The targets that the first `n` commands declare, each once.
pub open spec fn targets_of(commands: Seq<CommandView>, n: int) -> Seq<Seq<char>>
    decreases n,
{
    if n <= 0 || n > commands.len() {
        Seq::empty()
    } else {
        match target_of(commands[n - 1]) {
            Some(t) => with_new(targets_of(commands, n - 1), t),
            None => targets_of(commands, n - 1),
        }
    }
}

/// The names with the packages among the arguments from `from` up to `n` that
/// are no targets of the project.
pub open spec fn with_args(
    names: Seq<Seq<char>>,
    targets: Seq<Seq<char>>,
    args: Seq<Seq<char>>,
    from: int,
    n: int,
) -> Seq<Seq<char>>
    decreases n,
{
    if n <= from || n <= 0 || n > args.len() {
        names
    } else {
        let earlier = with_args(names, targets, args, from, n - 1);
        if targets.contains(args[n - 1]) {
            earlier
        } else {
            with_package(earlier, args[n - 1])
        }
    }
}

/// What a listfile declares: packages, and the subdirectories it adds.
pub struct EntriesView {
    pub names: Seq<Seq<char>>,
    pub subdirectories: Seq<Seq<char>>,
}

/// What a listfile declares, after one command.
pub open spec fn with_command(e: EntriesView, targets: Seq<Seq<char>>, c: CommandView) -> EntriesView {
    let n = c.args.len() as int;
    if c.name == "find_package"@ || c.name == "fetchcontent_declare"@ || c.name == "find_dependency"@ {
        if n > 0 {
            EntriesView { names: with_package(e.names, c.args[0]), ..e }
        } else {
            e
        }
    } else if c.name == "pkg_check_modules"@ || c.name == "pkg_search_module"@ {
        // The first argument is the prefix of the variables that are set.
        EntriesView { names: with_args(e.names, Seq::empty(), c.args, 1, n), ..e }
    } else if c.name == "target_link_libraries"@ {
        // The first argument is the target that is linked.
        EntriesView { names: with_args(e.names, targets, c.args, 1, n), ..e }
    } else if c.name == "link_libraries"@ {
        EntriesView { names: with_args(e.names, targets, c.args, 0, n), ..e }
    } else if c.name == "add_subdirectory"@ && n > 0 && !has_char(c.args[0], '$') {
        EntriesView {
            names: match vendored(c.args[0]) {
                Some(p) => with_new(e.names, p),
                None => e.names,
            },
            subdirectories: e.subdirectories.push(c.args[0]),
        }
    } else {
        e
    }
}

/// What the first `n` commands of a listfile declare.
pub open spec fn with_commands(commands: Seq<CommandView>, targets: Seq<Seq<char>>, n: int) -> EntriesView
    decreases n,
{
    if n <= 0 || n > commands.len() {
        EntriesView { names: Seq::empty(), subdirectories: Seq::empty() }
    } else {
        with_command(with_commands(commands, targets, n - 1), targets, commands[n - 1])
    }
}

/// What a listfile declares.
pub open spec fn entries_in(text: Seq<char>) -> EntriesView {
    let cs = commands_in(text);
    with_commands(cs, targets_of(cs, cs.len() as int), cs.len() as int)
}

/// What a listfile declares: packages, and the subdirectories it adds.
#[derive(Debug)]
pub struct Entries {
    pub names: Vec<String>,
    pub subdirectories: Vec<String>,
}

impl View for Entries {
    type V = EntriesView;

    open spec fn view(&self) -> EntriesView {
        EntriesView { names: views(self.names@), subdirectories: views(self.subdirectories@) }
    }
}

/// The targets that commands declare.
#[verifier::loop_isolation(false)]
fn declared_targets(list: &Vec<Command>) -> (r: Vec<String>)
    ensures
        views(r@) == targets_of(views(list@), list@.len() as int),
{
    let mut out: Vec<String> = Vec::new();
    let mut i: usize = 0;
    assert(views(out@) =~= Seq::<Seq<char>>::empty());
    while i < list.len()
        invariant
            i <= list@.len(),
            views(out@) == targets_of(views(list@), i as int),
        decreases list@.len() - i,
    {
        let c = &list[i];
        assert(views(list@)[i as int] == c@);
        assert(c@.args.len() == c.args@.len());
        if one_of(c.name.as_str(), &TARGET_COMMANDS) && c.args.len() > 0 {
            assert(c@.args[0] == c.args@[0]@);
            if !contains_char(c.args[0].as_str(), '$') {
                add_new(&mut out, copy(c.args[0].as_str()));
            }
        }
        i += 1;
    }
    out
}

/// Adds the packages among arguments that are no targets of the project.
#[verifier::loop_isolation(false)]
fn add_args(names: &mut Vec<String>, targets: &Vec<String>, args: &Vec<String>, from: usize)
    ensures
        views(final(names)@) == with_args(
            views(old(names)@),
            views(targets@),
            views(args@),
            from as int,
            args@.len() as int,
        ),
{
    let ghost start = views(names@);
    let mut i: usize = from;
    if from >= args.len() {
        return;
    }
    while i < args.len()
        invariant
            from <= i <= args@.len(),
            views(names@) == with_args(start, views(targets@), views(args@), from as int, i as int),
        decreases args@.len() - i,
    {
        assert(views(args@)[i as int] == args@[i as int]@);
        if !holds(targets, args[i].as_str()) {
            add_package(names, args[i].as_str());
        }
        i += 1;
    }
}

/// What a listfile declares.
#[verifier::loop_isolation(false)]
pub fn cmake_entries(text: &str) -> (r: Entries)
    ensures
        r@ == entries_in(text@),
{
    let list = commands(text);
    let targets = declared_targets(&list);
    let none: Vec<String> = Vec::new();
    assert(views(none@) =~= Seq::<Seq<char>>::empty());
    let mut out = Entries { names: Vec::new(), subdirectories: Vec::new() };
    let mut i: usize = 0;
    assert(out@.names =~= Seq::<Seq<char>>::empty());
    assert(out@.subdirectories =~= Seq::<Seq<char>>::empty());
    while i < list.len()
        invariant
            i <= list@.len(),
            out@ == with_commands(views(list@), views(targets@), i as int),
        decreases list@.len() - i,
    {
        let c = &list[i];
        assert(views(list@)[i as int] == c@);
        assert(c@.args.len() == c.args@.len());
        let name = c.name.as_str();
        if same(name, "find_package") || same(name, "fetchcontent_declare") || same(name, "find_dependency") {
            if c.args.len() > 0 {
                assert(c@.args[0] == c.args@[0]@);
                add_package(&mut out.names, c.args[0].as_str());
            }
        } else if same(name, "pkg_check_modules") || same(name, "pkg_search_module") {
            add_args(&mut out.names, &none, &c.args, 1);
        } else if same(name, "target_link_libraries") {
            add_args(&mut out.names, &targets, &c.args, 1);
        } else if same(name, "link_libraries") {
            add_args(&mut out.names, &targets, &c.args, 0);
        } else if same(name, "add_subdirectory") && c.args.len() > 0 {
            assert(c@.args[0] == c.args@[0]@);
            let path = c.args[0].as_str();
            if !contains_char(path, '$') {
                if let Some(p) = vendored_name(path) {
                    add_new(&mut out.names, p);
                }
                add_item(&mut out.subdirectories, copy(path));
            }
        }
        i += 1;
    }
    out
}

/// A directory's path without the components that say nothing, so that one path
/// has one text.
pub open spec fn tidied(path: Seq<char>) -> Seq<char> {
    if begins(path, "/"@) {
        "/"@ + joined(segments(path), "/"@)
    } else {
        joined(steps(path), "/"@)
    }
}

/// A directory's path without the components that say nothing.
fn tidy(path: &str) -> (r: String)
    ensures
        r@ == tidied(path@),
{
    if starts_with(path, "/") {
        let parts = path_segments(path);
        concat2("/", join(&parts, "/").as_str())
    } else {
        let parts = path_steps(path);
        join(&parts, "/")
    }
}

/// The directory that a listfile of another directory adds.
pub open spec fn added_dir(dir: Seq<char>, sub: Seq<char>) -> Seq<char> {
    tidied(placed_below(dir, sub))
}

/// A directory whose listfile is to be read, and how deep it lies.
pub struct Visit {
    pub dir: String,
    pub depth: usize,
}

impl View for Visit {
    type V = (Seq<char>, usize);

    open spec fn view(&self) -> (Seq<char>, usize) {
        (self.dir@, self.depth)
    }
}

/// How far the walk over listfiles has come.
pub struct WalkView {
    /// The directories still to be visited, the next one last.
    pub stack: Seq<(Seq<char>, usize)>,
    pub seen: Seq<Seq<char>>,
    pub names: Seq<Seq<char>>,
    pub current: Option<(Seq<char>, usize)>,
}

impl WalkView {
    /// The walk that starts at a root.
    pub open spec fn start(root: Seq<char>) -> WalkView {
        WalkView { stack: seq![(tidied(root), 0usize)], seen: Seq::empty(), names: Seq::empty(), current: None }
    }

    /// The walk at its next directory: the first one that is not too deep and
    /// was not visited.
    pub open spec fn advanced(self) -> WalkView
        decreases self.stack.len(),
    {
        if self.stack.len() == 0 {
            WalkView { current: None, ..self }
        } else {
            let top = self.stack.last();
            if top.1 > MAX_SUBDIRECTORY_DEPTH || self.seen.contains(top.0) {
                WalkView { stack: self.stack.drop_last(), ..self }.advanced()
            } else {
                WalkView {
                    stack: self.stack.drop_last(),
                    seen: self.seen.push(top.0),
                    current: Some(top),
                    ..self
                }
            }
        }
    }

    /// The walk after the listfile of the current directory was read. What it
    /// adds is visited next, in the order in which it is added.
    pub open spec fn fed(self, text: Seq<char>) -> WalkView {
        match self.current {
            None => self,
            Some(here) => {
                let e = entries_in(text);
                WalkView {
                    stack: pushed(self.stack, here, e.subdirectories, e.subdirectories.len() as int),
                    names: with_all_new(self.names, e.names, e.names.len() as int),
                    current: None,
                    ..self
                }
            },
        }
    }
}

/// The stack with the last `n` of some subdirectories on it, the first of them
/// on top.
pub open spec fn pushed(
    stack: Seq<(Seq<char>, usize)>,
    here: (Seq<char>, usize),
    subs: Seq<Seq<char>>,
    n: int,
) -> Seq<(Seq<char>, usize)>
    decreases n,
{
    if n <= 0 || n > subs.len() {
        stack
    } else {
        pushed(stack, here, subs, n - 1).push((added_dir(here.0, subs[subs.len() - n]), (here.1 + 1) as usize))
    }
}

/// The walk over the listfile of a root and those of every subdirectory that is
/// added. The walk names a directory, and is fed the text of its listfile.
pub struct ListWalk {
    stack: Vec<Visit>,
    seen: Vec<String>,
    names: Vec<String>,
    current: Option<Visit>,
}

impl View for ListWalk {
    type V = WalkView;

    closed spec fn view(&self) -> WalkView {
        WalkView {
            stack: views(self.stack@),
            seen: views(self.seen@),
            names: views(self.names@),
            current: opt_view(self.current),
        }
    }
}

impl ListWalk {
    /// No directory is visited that lies too deep.
    pub closed spec fn wf(&self) -> bool {
        self.current is Some ==> self.current->0.depth <= MAX_SUBDIRECTORY_DEPTH
    }

    /// The walk that starts at a root.
    pub fn new(root: &str) -> (r: ListWalk)
        ensures
            r.wf(),
            r@ == WalkView::start(root@),
    {
        let mut stack: Vec<Visit> = Vec::new();
        stack.push(Visit { dir: tidy(root), depth: 0 });
        let r = ListWalk { stack, seen: Vec::new(), names: Vec::new(), current: None };
        assert(r@.stack =~= WalkView::start(root@).stack);
        assert(r@.seen =~= Seq::<Seq<char>>::empty());
        assert(r@.names =~= Seq::<Seq<char>>::empty());
        r
    }

    /// The next directory whose listfile is to be read.
    #[verifier::loop_isolation(false)]
    pub fn next_dir(&mut self) -> (r: Option<String>)
        requires
            old(self).wf(),
        ensures
            final(self).wf(),
            final(self)@ == old(self)@.advanced(),
            match r {
                Some(dir) => final(self)@.current is Some && dir@ == (final(self)@.current->0).0,
                None => final(self)@.current is None,
            },
    {
        let ghost goal = self@.advanced();
        self.current = None;
        assert(self@.advanced() == goal) by {
            current_is_replaced(old(self)@, self@);
        }
        while self.stack.len() > 0
            invariant
                self.current is None,
                self@.advanced() == goal,
            decreases self.stack@.len(),
        {
            let ghost before = self@;
            let ghost before_stack = self.stack@;
            let top = self.stack.pop();
            assert(views(self.stack@) =~= before.stack.drop_last());
            if let Some(v) = top {
                assert(before.stack.last() == v@);
                if v.depth <= MAX_SUBDIRECTORY_DEPTH && !holds(&self.seen, v.dir.as_str()) {
                    let dir = copy(v.dir.as_str());
                    add_item(&mut self.seen, copy(v.dir.as_str()));
                    self.current = Some(v);
                    assert(self@ == goal);
                    return Some(dir);
                }
                assert(self@ == WalkView { stack: before.stack.drop_last(), ..before });
            }
        }
        assert(self@.stack =~= Seq::<(Seq<char>, usize)>::empty());
        None
    }

    /// Takes the text of the listfile of the current directory.
    #[verifier::loop_isolation(false)]
    pub fn feed(&mut self, text: &str)
        requires
            old(self).wf(),
        ensures
            final(self).wf(),
            final(self)@ == old(self)@.fed(text@),
    {
        let mut current: Option<Visit> = None;
        std::mem::swap(&mut current, &mut self.current);
        if let Some(here) = current {
            let e = cmake_entries(text);
            let ghost subs = e@.subdirectories;
            let ghost start = views(self.stack@);
            add_all_new(&mut self.names, &e.names);
            let ghost names = views(self.names@);
            let ghost seen = views(self.seen@);
            let n: usize = e.subdirectories.len();
            let mut i: usize = n;
            while i > 0
                invariant
                    i <= n == e.subdirectories@.len(),
                    subs.len() == n,
                    views(self.stack@) == pushed(start, here@, subs, n - i),
                    views(self.names@) == names,
                    views(self.seen@) == seen,
                    self.current is None,
                decreases i,
            {
                let sub = e.subdirectories[i - 1].as_str();
                assert(subs[i - 1] == sub@);
                let whole = place_below(here.dir.as_str(), sub);
                let dir = tidy(whole.as_str());
                add_item(&mut self.stack, Visit { dir, depth: here.depth + 1 });
                i -= 1;
            }
        }
    }

    /// The packages found so far.
    pub fn found(self) -> (r: Vec<String>)
        ensures
            views(r@) == self@.names,
    {
        self.names
    }
}

/// What a walk goes on to does not depend on where it is.
proof fn current_is_replaced(a: WalkView, b: WalkView)
    requires
        a.stack == b.stack,
        a.seen == b.seen,
        a.names == b.names,
    ensures
        a.advanced() == b.advanced(),
    decreases a.stack.len(),
{
    if a.stack.len() > 0 {
        let top = a.stack.last();
        if top.1 > MAX_SUBDIRECTORY_DEPTH || a.seen.contains(top.0) {
            current_is_replaced(
                WalkView { stack: a.stack.drop_last(), ..a },
                WalkView { stack: b.stack.drop_last(), ..b },
            );
        }
    }
}

/// A walk never names a directory twice, nor one that lies too deep.
pub proof fn walk_names_new_directories(w: WalkView)
    ensures
        match w.advanced().current {
            Some(here) => !w.seen.contains(here.0) && here.1 <= MAX_SUBDIRECTORY_DEPTH
                && w.advanced().seen == w.seen.push(here.0),
            None => w.advanced().seen == w.seen,
        },
    decreases w.stack.len(),
{
    if w.stack.len() > 0 {
        let top = w.stack.last();
        if top.1 > MAX_SUBDIRECTORY_DEPTH || w.seen.contains(top.0) {
            walk_names_new_directories(WalkView { stack: w.stack.drop_last(), ..w });
        }
    }
}

// ---------------------------------------------------------------------------
// vcpkg
// ---------------------------------------------------------------------------

/// The name that an entry of a vcpkg manifest gives: it is a text, or an object
/// with a name.
pub open spec fn entry_name(entry: JsonView) -> Option<Seq<char>> {
    match entry {
        JsonView::Text(s) => Some(s),
        JsonView::Object(_) => match entry.get("name"@) {
            Some(v) => v.as_text(),
            None => None,
        },
        _ => None,
    }
}

/// The names with those of the first `n` entries.
pub open spec fn with_entries(names: Seq<Seq<char>>, entries: Seq<JsonView>, n: int) -> Seq<Seq<char>>
    decreases n,
{
    if n <= 0 || n > entries.len() {
        names
    } else {
        let earlier = with_entries(names, entries, n - 1);
        match entry_name(entries[n - 1]) {
            Some(raw) => with_package(earlier, raw),
            None => earlier,
        }
    }
}

/// The names with those that an object lists under `dependencies`.
pub open spec fn with_declared(names: Seq<Seq<char>>, object: JsonView) -> Seq<Seq<char>> {
    match object.get("dependencies"@) {
        Some(JsonView::List(entries)) => with_entries(names, entries, entries.len() as int),
        _ => names,
    }
}

/// The names with those of the first `n` features.
pub open spec fn with_features(names: Seq<Seq<char>>, features: Seq<(Seq<char>, JsonView)>, n: int) -> Seq<Seq<char>>
    decreases n,
{
    if n <= 0 || n > features.len() {
        names
    } else {
        with_declared(with_features(names, features, n - 1), features[n - 1].1)
    }
}

/// The packages of a vcpkg manifest, those of its features included.
pub open spec fn vcpkg_packages(manifest: Option<JsonView>) -> Seq<Seq<char>> {
    match manifest {
        Some(JsonView::Object(o)) => {
            let own = with_declared(Seq::empty(), JsonView::Object(o));
            match JsonView::Object(o).get("features"@) {
                Some(JsonView::Object(features)) => with_features(own, features, features.len() as int),
                _ => own,
            }
        },
        _ => Seq::empty(),
    }
}

/// Adds the names that an object lists under `dependencies`.
#[verifier::loop_isolation(false)]
fn add_declared(names: &mut Vec<String>, object: &Json)
    ensures
        views(final(names)@) == with_declared(views(old(names)@), object@),
{
    if let Some(Json::List(v)) = object.get("dependencies") {
        let ghost start = views(names@);
        let ghost entries = list_view(v@, v@.len());
        proof {
            list_view_is_pointwise(v@, v@.len());
        }
        let mut i: usize = 0;
        while i < v.len()
            invariant
                i <= v@.len(),
                views(names@) == with_entries(start, entries, i as int),
            decreases v@.len() - i,
        {
            let e = &v[i];
            assert(entries[i as int] == e@);
            match e {
                Json::Text(s) => {
                    add_package(names, s.as_str());
                },
                Json::Object(_) => {
                    if let Some(x) = e.get("name") {
                        if let Some(s) = x.as_text() {
                            add_package(names, s);
                        }
                    }
                },
                _ => {},
            }
            i += 1;
        }
    }
}

/// The packages of a manifest that was read.
#[verifier::loop_isolation(false)]
pub fn manifest_packages(manifest: &Option<Json>) -> (r: Vec<String>)
    ensures
        views(r@) == vcpkg_packages(opt_view(*manifest)),
{
    let mut names: Vec<String> = Vec::new();
    assert(views(names@) =~= Seq::<Seq<char>>::empty());
    if let Some(m) = manifest {
        if let Json::Object(_) = m {
            add_declared(&mut names, m);
            if let Some(Json::Object(v)) = m.get("features") {
                let ghost own = views(names@);
                let ghost features = object_view(v@, v@.len());
                proof {
                    object_view_is_pointwise(v@, v@.len());
                }
                let mut i: usize = 0;
                while i < v.len()
                    invariant
                        i <= v@.len(),
                        views(names@) == with_features(own, features, i as int),
                    decreases v@.len() - i,
                {
                    assert(features[i as int].1 == v@[i as int].value@);
                    add_declared(&mut names, &v[i].value);
                    i += 1;
                }
            }
        }
    }
    names
}

/// The packages of a vcpkg manifest; none where it is not JSON.
pub fn vcpkg_names(text: &str) -> (r: Vec<String>)
    ensures
        views(r@) == vcpkg_packages(parsed_json(text@)),
{
    let manifest = parse_json(text);
    manifest_packages(&manifest)
}

// ---------------------------------------------------------------------------
// Conan and meson
// ---------------------------------------------------------------------------

/// The name of the section that a line opens.
pub open spec fn section_of(line: Seq<char>) -> Option<Seq<char>> {
    match strip_front(line, "["@) {
        Some(rest) => match strip_back(rest, "]"@) {
            Some(name) => Some(trimmed(name)),
            None => None,
        },
        None => None,
    }
}

/// Whether a section lists requirements.
pub open spec fn requiring(section: Seq<char>) -> bool {
    section == "requires"@ || section == "tool_requires"@ || section == "build_requires"@
}

/// Whether the lines behind the first `n` stand in a section of requirements.
pub open spec fn inside_after(all: Seq<Seq<char>>, n: int) -> bool
    decreases n,
{
    if n <= 0 || n > all.len() {
        false
    } else {
        match section_of(trimmed(all[n - 1])) {
            Some(section) => requiring(section),
            None => inside_after(all, n - 1),
        }
    }
}

/// The packages that the first `n` lines of a `conanfile.txt` require. A
/// requirement is a package and a version, with a slash between them.
pub open spec fn conan_lines(all: Seq<Seq<char>>, n: int) -> Seq<Seq<char>>
    decreases n,
{
    if n <= 0 || n > all.len() {
        Seq::empty()
    } else {
        let earlier = conan_lines(all, n - 1);
        let line = trimmed(all[n - 1]);
        if section_of(line) is Some || !inside_after(all, n - 1) || line.len() == 0 || begins(line, "#"@) {
            earlier
        } else {
            with_package(earlier, before_first(line, "/"@))
        }
    }
}

/// The packages that a `conanfile.txt` requires.
#[verifier::loop_isolation(false)]
pub fn conan_txt_names(text: &str) -> (r: Vec<String>)
    ensures
        views(r@) == conan_lines(text_lines(text@), text_lines(text@).len() as int),
{
    let all = lines(text);
    let ghost ls = views(all@);
    let mut names: Vec<String> = Vec::new();
    let mut inside = false;
    let mut i: usize = 0;
    assert(views(names@) =~= Seq::<Seq<char>>::empty());
    while i < all.len()
        invariant
            i <= all@.len(),
            inside == inside_after(ls, i as int),
            views(names@) == conan_lines(ls, i as int),
        decreases all@.len() - i,
    {
        assert(ls[i as int] == all@[i as int]@);
        let line = trim(all[i].as_str());
        let section: Option<String> = match strip_prefix(line.as_str(), "[") {
            Some(rest) => match strip_suffix(rest.as_str(), "]") {
                Some(name) => Some(trim(name.as_str())),
                None => None,
            },
            None => None,
        };
        match section {
            Some(name) => {
                inside = same(name.as_str(), "requires") || same(name.as_str(), "tool_requires") || same(
                    name.as_str(),
                    "build_requires",
                );
            },
            None => {
                if inside && !line.as_str().is_empty() && !starts_with(line.as_str(), "#") {
                    let head = until(line.as_str(), "/");
                    add_package(&mut names, head.as_str());
                }
            },
        }
        i += 1;
    }
    names
}

/// Whether a word introduces requirements.
pub open spec fn requiring_word(word: Seq<char>) -> bool {
    word == "requires"@ || word == "test_requires"@ || word == "tool_requires"@
}

/// Whether a requirement is introduced from position `i` on, given the word
/// that is being read.
pub open spec fn mentions_from(line: Seq<char>, i: int, word: Seq<char>) -> bool
    decreases line.len() - i,
{
    if i < 0 || i >= line.len() {
        requiring_word(word)
    } else if name_char(line[i]) {
        mentions_from(line, i + 1, word.push(line[i]))
    } else {
        requiring_word(word) || mentions_from(line, i + 1, Seq::empty())
    }
}

/// Tells whether a word introduces requirements.
fn is_requiring_word(word: &Vec<char>) -> (r: bool)
    ensures
        r == requiring_word(word@),
{
    let w = string_of_all(word.as_slice());
    same(w.as_str(), "requires") || same(w.as_str(), "test_requires") || same(w.as_str(), "tool_requires")
}

/// Tells whether a line introduces requirements.
#[verifier::loop_isolation(false)]
fn mentions_requires(line: &str) -> (r: bool)
    ensures
        r == mentions_from(line@, 0, Seq::empty()),
{
    let c = chars_of(line);
    let n: usize = c.len();
    let mut word: Vec<char> = Vec::new();
    let mut i: usize = 0;
    assert(word@ =~= Seq::<char>::empty());
    while i < n
        invariant
            i <= n == c@.len(),
            mentions_from(c@, 0, Seq::empty()) == mentions_from(c@, i as int, word@),
        decreases n - i,
    {
        if is_name_char(c[i]) {
            word.push(c[i]);
        } else {
            if is_requiring_word(&word) {
                return true;
            }
            word.clear();
        }
        i += 1;
    }
    is_requiring_word(&word)
}

/// Every quoted run from position `i` on, delimiters dropped.
pub open spec fn quoted_from(
    line: Seq<char>,
    i: int,
    current: Seq<char>,
    quote: Option<char>,
) -> Seq<Seq<char>>
    decreases line.len() - i,
{
    if i < 0 || i >= line.len() {
        Seq::empty()
    } else {
        match quote {
            Some(d) => if line[i] == d {
                seq![current] + quoted_from(line, i + 1, Seq::empty(), None)
            } else {
                quoted_from(line, i + 1, current.push(line[i]), quote)
            },
            None => if line[i] == '"' || line[i] == '\'' {
                quoted_from(line, i + 1, current, Some(line[i]))
            } else {
                quoted_from(line, i + 1, current, None)
            },
        }
    }
}

/// Every quoted run of a line.
pub open spec fn quoted_in(line: Seq<char>) -> Seq<Seq<char>> {
    quoted_from(line, 0, Seq::empty(), None)
}

/// Every quoted run of a line.
#[verifier::loop_isolation(false)]
pub fn quoted_strings(line: &str) -> (r: Vec<String>)
    ensures
        views(r@) == quoted_in(line@),
{
    let c = chars_of(line);
    let n: usize = c.len();
    let mut out: Vec<String> = Vec::new();
    let mut current: Vec<char> = Vec::new();
    let mut quote: Option<char> = None;
    let mut i: usize = 0;
    let ghost all = quoted_in(line@);
    assert(current@ =~= Seq::<char>::empty());
    assert(views(out@) + all =~= all);
    while i < n
        invariant
            i <= n == c@.len(),
            all == views(out@) + quoted_from(c@, i as int, current@, quote),
        decreases n - i,
    {
        let x = c[i];
        match quote {
            Some(d) => {
                if x == d {
                    let ghost rest = quoted_from(c@, i + 1, Seq::empty(), None);
                    let ghost before_add = views(out@);
                    let run = string_of_all(current.as_slice());
                    add_item(&mut out, run);
                    current.clear();
                    quote = None;
                    assert(views(out@) + rest =~= before_add + (seq![run@] + rest));
                } else {
                    current.push(x);
                }
            },
            None => {
                if x == '"' || x == '\'' {
                    quote = Some(x);
                }
            },
        }
        i += 1;
    }
    assert(views(out@) + Seq::<Seq<char>>::empty() =~= views(out@));
    out
}

/// The quote that is open behind the first `n` characters.
pub open spec fn quote_after(line: Seq<char>, n: int) -> Option<char>
    decreases n,
{
    if n <= 0 || n > line.len() {
        None
    } else {
        match quote_after(line, n - 1) {
            Some(d) => if line[n - 1] == d {
                None
            } else {
                Some(d)
            },
            None => if line[n - 1] == '"' || line[n - 1] == '\'' {
                Some(line[n - 1])
            } else {
                None
            },
        }
    }
}

/// The brackets of one direction among the first `n` characters, outside
/// quotes.
pub open spec fn brackets(line: Seq<char>, opening: bool, n: int) -> nat
    decreases n,
{
    if n <= 0 || n > line.len() {
        0
    } else {
        let c = line[n - 1];
        let counted = quote_after(line, n - 1) is None && (if opening {
            c == '(' || c == '[' || c == '{'
        } else {
            c == ')' || c == ']' || c == '}'
        });
        brackets(line, opening, n - 1) + (if counted {
            1nat
        } else {
            0nat
        })
    }
}

/// How much deeper a line leaves the nesting of brackets.
pub open spec fn balance(line: Seq<char>) -> int {
    brackets(line, true, line.len() as int) - brackets(line, false, line.len() as int)
}

/// The opening and the closing brackets of a line, outside quotes.
#[verifier::loop_isolation(false)]
fn bracket_counts(line: &str) -> (r: (usize, usize))
    ensures
        r.0 - r.1 == balance(line@),
{
    let c = chars_of(line);
    let n: usize = c.len();
    let mut up: usize = 0;
    let mut down: usize = 0;
    let mut quote: Option<char> = None;
    let mut i: usize = 0;
    while i < n
        invariant
            i <= n == c@.len(),
            up <= i,
            down <= i,
            quote == quote_after(c@, i as int),
            up == brackets(c@, true, i as int),
            down == brackets(c@, false, i as int),
        decreases n - i,
    {
        let x = c[i];
        match quote {
            Some(d) => {
                if x == d {
                    quote = None;
                }
            },
            None => {
                if x == '"' || x == '\'' {
                    quote = Some(x);
                } else if x == '(' || x == '[' || x == '{' {
                    up += 1;
                } else if x == ')' || x == ']' || x == '}' {
                    down += 1;
                }
            },
        }
        i += 1;
    }
    (up, down)
}

/// How deep the nesting of brackets is behind the first `n` lines, counted from
/// the lines that were read. It never falls below zero.
pub open spec fn open_after(all: Seq<Seq<char>>, n: int) -> nat
    decreases n,
{
    if n <= 0 || n > all.len() {
        0
    } else {
        let before = open_after(all, n - 1);
        if before == 0 && !mentions_from(all[n - 1], 0, Seq::empty()) {
            0
        } else if before + balance(all[n - 1]) < 0 {
            0
        } else {
            (before + balance(all[n - 1])) as nat
        }
    }
}

/// The names with the first `n` quoted requirements. A requirement carries a
/// version; another quoted word is no package.
pub open spec fn with_quoted(names: Seq<Seq<char>>, quoted: Seq<Seq<char>>, n: int) -> Seq<Seq<char>>
    decreases n,
{
    if n <= 0 || n > quoted.len() {
        names
    } else {
        let earlier = with_quoted(names, quoted, n - 1);
        if has_char(quoted[n - 1], '/') {
            with_package(earlier, before_first(quoted[n - 1], "/"@))
        } else {
            earlier
        }
    }
}

/// The packages that the first `n` lines of a `conanfile.py` require: what is
/// quoted in a line that introduces requirements, and in the lines up to the
/// bracket that closes the list.
pub open spec fn recipe_lines(all: Seq<Seq<char>>, n: int) -> Seq<Seq<char>>
    decreases n,
{
    if n <= 0 || n > all.len() {
        Seq::empty()
    } else {
        let earlier = recipe_lines(all, n - 1);
        let line = all[n - 1];
        if open_after(all, n - 1) == 0 && !mentions_from(line, 0, Seq::empty()) {
            earlier
        } else {
            with_quoted(earlier, quoted_in(line), quoted_in(line).len() as int)
        }
    }
}

/// Adds the quoted requirements of a line.
#[verifier::loop_isolation(false)]
fn add_quoted(names: &mut Vec<String>, line: &str)
    ensures
        views(final(names)@) == with_quoted(views(old(names)@), quoted_in(line@), quoted_in(line@).len() as int),
{
    let quoted = quoted_strings(line);
    let ghost start = views(names@);
    let mut i: usize = 0;
    while i < quoted.len()
        invariant
            i <= quoted@.len(),
            views(names@) == with_quoted(start, views(quoted@), i as int),
        decreases quoted@.len() - i,
    {
        let q = quoted[i].as_str();
        assert(views(quoted@)[i as int] == q@);
        if contains_char(q, '/') {
            let head = until(q, "/");
            add_package(names, head.as_str());
        }
        i += 1;
    }
}

/// The packages that a `conanfile.py` requires.
#[verifier::loop_isolation(false)]
pub fn conan_py_names(text: &str) -> (r: Vec<String>)
    ensures
        views(r@) == recipe_lines(text_lines(text@), text_lines(text@).len() as int),
{
    let all = lines(text);
    let ghost ls = views(all@);
    let total: usize = all.len();
    let mut names: Vec<String> = Vec::new();
    let mut open: u128 = 0;
    let mut i: usize = 0;
    assert(views(names@) =~= Seq::<Seq<char>>::empty());
    while i < total
        invariant
            i <= total == all@.len(),
            open == open_after(ls, i as int),
            open <= i * usize::MAX,
            views(names@) == recipe_lines(ls, i as int),
        decreases total - i,
    {
        let line = all[i].as_str();
        assert(ls[i as int] == line@);
        let ghost was = open;
        if open > 0 || mentions_requires(line) {
            add_quoted(&mut names, line);
            let (up, down) = bracket_counts(line);
            assert(was + up <= (i + 1) * usize::MAX <= u128::MAX) by (nonlinear_arith)
                requires
                    was <= i * usize::MAX,
                    up <= usize::MAX,
                    i + 1 <= usize::MAX,
                    usize::MAX <= 0xffff_ffff_ffff_ffff,
            ;
            let risen: u128 = open + up as u128;
            open = if risen < down as u128 {
                0
            } else {
                risen - down as u128
            };
        } else {
            assert(was <= (i + 1) * usize::MAX) by (nonlinear_arith)
                requires
                    was <= i * usize::MAX,
            ;
        }
        i += 1;
    }
    names
}

/// The packages that the first `n` commands of a meson file ask for.
pub open spec fn meson_commands(commands: Seq<CommandView>, n: int) -> Seq<Seq<char>>
    decreases n,
{
    if n <= 0 || n > commands.len() {
        Seq::empty()
    } else {
        let earlier = meson_commands(commands, n - 1);
        let c = commands[n - 1];
        if c.name == "dependency"@ && c.args.len() > 0 {
            with_package(earlier, c.args[0])
        } else {
            earlier
        }
    }
}

/// The packages that a meson file asks for.
#[verifier::loop_isolation(false)]
pub fn meson_names(text: &str) -> (r: Vec<String>)
    ensures
        views(r@) == meson_commands(commands_in(text@), commands_in(text@).len() as int),
{
    let list = commands(text);
    let mut names: Vec<String> = Vec::new();
    let mut i: usize = 0;
    assert(views(names@) =~= Seq::<Seq<char>>::empty());
    while i < list.len()
        invariant
            i <= list@.len(),
            views(names@) == meson_commands(views(list@), i as int),
        decreases list@.len() - i,
    {
        let c = &list[i];
        assert(views(list@)[i as int] == c@);
        assert(c@.args.len() == c.args@.len());
        if same(c.name.as_str(), "dependency") && c.args.len() > 0 {
            assert(c@.args[0] == c.args@[0]@);
            add_package(&mut names, c.args[0].as_str());
        }
        i += 1;
    }
    names
}

// ---------------------------------------------------------------------------
// All build files
// ---------------------------------------------------------------------------

/// The texts of the build files that a root has, and what its listfiles
/// declare.
pub struct BuildFiles {
    pub cmake: Vec<String>,
    pub vcpkg: Option<String>,
    pub conan_txt: Option<String>,
    pub conan_py: Option<String>,
    pub meson: Option<String>,
}

/// The list with names, each once.
pub open spec fn union(names: Seq<Seq<char>>, more: Seq<Seq<char>>) -> Seq<Seq<char>> {
    with_all_new(names, more, more.len() as int)
}

impl BuildFiles {
    /// Every package that a root declares.
    pub open spec fn packages(self) -> Seq<Seq<char>> {
        let cmake = union(Seq::empty(), views(self.cmake@));
        let vcpkg = match self.vcpkg {
            Some(t) => union(cmake, vcpkg_packages(parsed_json(t@))),
            None => cmake,
        };
        let txt = match self.conan_txt {
            Some(t) => union(vcpkg, conan_lines(text_lines(t@), text_lines(t@).len() as int)),
            None => vcpkg,
        };
        let py = match self.conan_py {
            Some(t) => union(txt, recipe_lines(text_lines(t@), text_lines(t@).len() as int)),
            None => txt,
        };
        match self.meson {
            Some(t) => union(py, meson_commands(commands_in(t@), commands_in(t@).len() as int)),
            None => py,
        }
    }
}

/// Every package that a root declares, from every build file it has: a project
/// may build with one tool and fetch with another, and both are declarations.
pub fn dependencies(files: &BuildFiles) -> (r: Vec<String>)
    ensures
        views(r@) == files.packages(),
{
    let mut names: Vec<String> = Vec::new();
    assert(views(names@) =~= Seq::<Seq<char>>::empty());
    add_all_new(&mut names, &files.cmake);
    assert(views(files.cmake@).len() == files.cmake@.len());
    if let Some(t) = &files.vcpkg {
        let more = vcpkg_names(t.as_str());
        add_all_new(&mut names, &more);
    }
    if let Some(t) = &files.conan_txt {
        let more = conan_txt_names(t.as_str());
        add_all_new(&mut names, &more);
    }
    if let Some(t) = &files.conan_py {
        let more = conan_py_names(t.as_str());
        add_all_new(&mut names, &more);
    }
    if let Some(t) = &files.meson {
        let more = meson_names(t.as_str());
        add_all_new(&mut names, &more);
    }
    names
}

/// The declared packages of a C or C++ project, in ascending order.
pub fn c_parse_dependencies(files: &BuildFiles) -> (r: Vec<String>)
    ensures
        views(r@) == sorted_names(files.packages()),
{
    let names = dependencies(files);
    sort_names(&names)
}

}
