//! What the build files of C and C++ promise.

use vstd::prelude::*;

use crate::cfamily::deps::{
    arguments, conan_lines, entry_name, inside_after, invocations, meson_commands, name_char, package_in, section_of,
    target_of, targets_of, union, unwrapped, vendored, with_args, with_command, with_entries, with_package,
    with_quoted, CommandView, EntriesView,
};
use crate::json::JsonView;
use crate::strings::{before_first, begins, has_char, trimmed};
use crate::text::{is_alphanumeric, is_space, lowercase, with_all_new, with_new};

verus! {

proof fn new_is_held<A>(s: Seq<A>, x: A, y: A)
    ensures
        with_new(s, x).contains(y) <==> s.contains(y) || y == x,
{
    let r = with_new(s, x);
    if !s.contains(x) {
        assert(r[s.len() as int] == x);
        if s.contains(y) {
            let i = choose|i: int| 0 <= i < s.len() && s[i] == y;
            assert(r[i] == y);
        }
    }
}

proof fn package_is_held(names: Seq<Seq<char>>, raw: Seq<char>, p: Seq<char>)
    ensures
        with_package(names, raw).contains(p) <==> names.contains(p) || package_in(raw) == Some(p),
{
    if package_in(raw) is Some {
        new_is_held(names, package_in(raw)->0, p);
    }
}

/// Two lists of names are joined to a list of the names of both.
pub proof fn unions_hold_both(names: Seq<Seq<char>>, more: Seq<Seq<char>>, n: int, x: Seq<char>)
    requires
        0 <= n <= more.len(),
    ensures
        with_all_new(names, more, n).contains(x) <==> names.contains(x) || exists|j: int| 0 <= j < n && #[trigger] more[j] == x,
        n == more.len() ==> with_all_new(names, more, n) == union(names, more),
    decreases n,
{
    if n > 0 {
        unions_hold_both(names, more, n - 1, x);
        new_is_held(with_all_new(names, more, n - 1), more[n - 1], x);
        assert(more[n - 1] == more[n - 1]);
    }
}

/// A name of a package is not empty and begins with a letter or digit; what holds a
/// variable, a path or a flag names none.
pub proof fn packages_have_plain_names(raw: Seq<char>, p: Seq<char>)
    ensures
        package_in(raw) == Some(p) ==> p.len() > 0 && is_alphanumeric(p[0]),
        has_char(unwrapped(raw), '$') ==> package_in(raw) is None,
        unwrapped(raw).len() == 0 ==> package_in(raw) is None,
        unwrapped(raw) == "PRIVATE"@ || unwrapped(raw) == "PUBLIC"@ || unwrapped(raw) == "INTERFACE"@ ==> package_in(raw)
            is None,
{
    let table = crate::cfamily::deps::LINK_KEYWORDS@;
    assert(table[0]@ == "PRIVATE"@ && table[1]@ == "PUBLIC"@ && table[2]@ == "INTERFACE"@);
}

/// The packages of a list of arguments are those of each argument from a place on, but of
/// none that is a target of the project.
pub proof fn arguments_name_packages(names: Seq<Seq<char>>, targets: Seq<Seq<char>>, args: Seq<Seq<char>>, from: int, n: int, p: Seq<char>)
    requires
        0 <= from,
        0 <= n <= args.len(),
    ensures
        with_args(names, targets, args, from, n).contains(p) <==> names.contains(p) || exists|j: int|
            from <= j < n && !targets.contains(#[trigger] args[j]) && package_in(args[j]) == Some(p),
    decreases n,
{
    if n > from && n > 0 {
        arguments_name_packages(names, targets, args, from, n - 1, p);
        package_is_held(with_args(names, targets, args, from, n - 1), args[n - 1], p);
    }
}

/// The targets of the project are the first arguments of the commands that make targets.
pub proof fn commands_make_targets(commands: Seq<CommandView>, n: int, t: Seq<char>)
    requires
        0 <= n <= commands.len(),
    ensures
        targets_of(commands, n).contains(t) <==> exists|j: int| 0 <= j < n && target_of(#[trigger] commands[j]) == Some(t),
    decreases n,
{
    if n > 0 {
        commands_make_targets(commands, n - 1, t);
        if target_of(commands[n - 1]) is Some {
            new_is_held(targets_of(commands, n - 1), target_of(commands[n - 1])->0, t);
        }
    }
}

/// A library and an executable are targets, called by their first argument, unless that is a
/// variable.
pub proof fn libraries_and_executables_are_targets(c: CommandView)
    requires
        c.name == "add_library"@ || c.name == "add_executable"@,
        c.args.len() > 0,
    ensures
        !has_char(c.args[0], '$') ==> target_of(c) == Some(c.args[0]),
        has_char(c.args[0], '$') ==> target_of(c) is None,
{
    let table = crate::cfamily::deps::TARGET_COMMANDS@;
    assert(table[0]@ == "add_library"@ && table[1]@ == "add_executable"@);
    assert(crate::strings::listed(table, c.name));
}

/// A package that is looked for is a dependency, and so is every library that is linked and
/// is no target of the project. The first argument of a link is what is linked, and that of
/// a search for modules is a prefix.
pub proof fn commands_name_dependencies(e: EntriesView, targets: Seq<Seq<char>>, c: CommandView, p: Seq<char>)
    ensures
        ({
            let after = with_command(e, targets, c);
            let n = c.args.len() as int;
            &&& c.name == "find_package"@ && n > 0 ==> (after.names.contains(p) <==> e.names.contains(p) || package_in(
                c.args[0],
            ) == Some(p))
            &&& c.name == "target_link_libraries"@ ==> (after.names.contains(p) <==> e.names.contains(p) || exists|j: int|
                1 <= j < n && !targets.contains(#[trigger] c.args[j]) && package_in(c.args[j]) == Some(p))
            &&& c.name == "link_libraries"@ ==> (after.names.contains(p) <==> e.names.contains(p) || exists|j: int|
                0 <= j < n && !targets.contains(#[trigger] c.args[j]) && package_in(c.args[j]) == Some(p))
            &&& c.name == "pkg_check_modules"@ ==> (after.names.contains(p) <==> e.names.contains(p) || exists|j: int|
                1 <= j < n && package_in(#[trigger] c.args[j]) == Some(p))
            &&& c.name == "add_subdirectory"@ && n > 0 && !has_char(c.args[0], '$') ==> after.subdirectories
                == e.subdirectories.push(c.args[0]) && (after.names.contains(p) <==> e.names.contains(p) || vendored(c.args[0])
                == Some(p))
            &&& c.name == "set"@ ==> after == e
        }),
{
    reveal_strlit("find_package");
    reveal_strlit("fetchcontent_declare");
    reveal_strlit("find_dependency");
    reveal_strlit("pkg_check_modules");
    reveal_strlit("pkg_search_module");
    reveal_strlit("target_link_libraries");
    reveal_strlit("link_libraries");
    reveal_strlit("add_subdirectory");
    reveal_strlit("set");
    assert("find_package"@.len() == 12 && "fetchcontent_declare"@.len() == 20 && "find_dependency"@.len() == 15);
    assert("pkg_check_modules"@.len() == 17 && "pkg_search_module"@.len() == 17 && "target_link_libraries"@.len() == 21);
    assert("link_libraries"@.len() == 14 && "add_subdirectory"@.len() == 16 && "set"@.len() == 3);
    let n = c.args.len() as int;
    let none = Seq::<Seq<char>>::empty();
    if n > 0 {
        package_is_held(e.names, c.args[0], p);
        if vendored(c.args[0]) is Some {
            new_is_held(e.names, vendored(c.args[0])->0, p);
        }
    }
    arguments_name_packages(e.names, targets, c.args, 1, n, p);
    arguments_name_packages(e.names, targets, c.args, 0, n, p);
    arguments_name_packages(e.names, none, c.args, 1, n, p);
}

/// A bracket behind a word is a call of that word, in lower case; the word may stand before
/// blanks. A bracket behind nothing is no call.
pub proof fn brackets_behind_words_are_calls(s: Seq<char>, i: int, word: Seq<char>, previous: Seq<char>)
    requires
        0 <= i < s.len(),
        s[i] == '(',
    ensures
        ({
            let r = invocations(s, i, word, previous);
            let args = arguments(s, i + 1, Seq::empty(), Seq::empty(), 1, None);
            &&& word.len() > 0 ==> r.len() > 0 && r[0].name == lowercase(word) && r[0].args == args
            &&& word.len() == 0 && previous.len() > 0 ==> r.len() > 0 && r[0].name == lowercase(previous) && r[0].args == args
            &&& word.len() == 0 && previous.len() == 0 ==> r == invocations(s, i + 1, word, previous)
        }),
{
    let none = Seq::<char>::empty();
    if word.len() == 0 {
        assert(word =~= none);
    }
    if previous.len() == 0 {
        assert(previous =~= none);
    }
}

/// A word grows by the characters of names, and is kept over a blank.
pub proof fn words_grow_by_characters_of_names(s: Seq<char>, i: int, word: Seq<char>, previous: Seq<char>)
    requires
        0 <= i < s.len(),
        s[i] != '#' && s[i] != '"' && s[i] != '\'' && s[i] != '(',
    ensures
        name_char(s[i]) ==> invocations(s, i, word, previous) == invocations(s, i + 1, word.push(s[i]), previous),
        !name_char(s[i]) && is_space(s[i]) && word.len() > 0 ==> invocations(s, i, word, previous) == invocations(
            s,
            i + 1,
            Seq::empty(),
            word,
        ),
        !name_char(s[i]) && !is_space(s[i]) ==> invocations(s, i, word, previous) == invocations(
            s,
            i + 1,
            Seq::empty(),
            Seq::empty(),
        ),
{
}

/// The packages of a list of entries are those of its texts and of the names of its objects.
pub proof fn entries_name_packages(names: Seq<Seq<char>>, entries: Seq<JsonView>, n: int, p: Seq<char>)
    requires
        0 <= n <= entries.len(),
    ensures
        with_entries(names, entries, n).contains(p) <==> names.contains(p) || exists|j: int|
            0 <= j < n && entry_name(#[trigger] entries[j]) is Some && package_in(entry_name(entries[j])->0) == Some(p),
    decreases n,
{
    if n > 0 {
        entries_name_packages(names, entries, n - 1, p);
        if entry_name(entries[n - 1]) is Some {
            package_is_held(with_entries(names, entries, n - 1), entry_name(entries[n - 1])->0, p);
        }
    }
}

/// An entry is called by its text, or by the name that its object gives.
pub proof fn entries_have_names(entry: JsonView, s: Seq<char>)
    ensures
        entry == JsonView::Text(s) ==> entry_name(entry) == Some(s),
        entry is Object && entry.get("name"@) == Some(JsonView::Text(s)) ==> entry_name(entry) == Some(s),
        entry is Object && entry.get("name"@) is None ==> entry_name(entry) is None,
{
}

/// The packages of a list of requirements are those of its lines that stand in a section of
/// requirements, before the version. Comments name none.
pub proof fn lines_of_requirements_name_packages(all: Seq<Seq<char>>, n: int, p: Seq<char>)
    requires
        0 <= n <= all.len(),
    ensures
        conan_lines(all, n).contains(p) <==> exists|j: int|
            0 <= j < n && inside_after(all, j) && section_of(trimmed(#[trigger] all[j])) is None && trimmed(all[j]).len() > 0
                && !begins(trimmed(all[j]), "#"@) && package_in(before_first(trimmed(all[j]), "/"@)) == Some(p),
    decreases n,
{
    if n > 0 {
        lines_of_requirements_name_packages(all, n - 1, p);
        package_is_held(conan_lines(all, n - 1), before_first(trimmed(all[n - 1]), "/"@), p);
    }
}

/// A line belongs to the section that was opened last before it.
pub proof fn lines_belong_to_the_last_section(all: Seq<Seq<char>>, n: int, j: int)
    requires
        0 <= j < n <= all.len(),
        forall|i: int| j < i < n ==> section_of(trimmed(#[trigger] all[i])) is None,
    ensures
        section_of(trimmed(all[j])) is Some ==> (inside_after(all, n) <==> section_of(trimmed(all[j]))->0 == "requires"@
            || section_of(trimmed(all[j]))->0 == "tool_requires"@ || section_of(trimmed(all[j]))->0 == "build_requires"@),
    decreases n,
{
    if j < n - 1 {
        assert(section_of(trimmed(all[n - 1])) is None);
        lines_belong_to_the_last_section(all, n - 1, j);
    }
}

/// The packages of a recipe are those that it quotes with a version.
pub proof fn quoted_references_name_packages(names: Seq<Seq<char>>, quoted: Seq<Seq<char>>, n: int, p: Seq<char>)
    requires
        0 <= n <= quoted.len(),
    ensures
        with_quoted(names, quoted, n).contains(p) <==> names.contains(p) || exists|j: int|
            0 <= j < n && has_char(#[trigger] quoted[j], '/') && package_in(before_first(quoted[j], "/"@)) == Some(p),
    decreases n,
{
    if n > 0 {
        quoted_references_name_packages(names, quoted, n - 1, p);
        package_is_held(with_quoted(names, quoted, n - 1), before_first(quoted[n - 1], "/"@), p);
    }
}

/// The packages of a build definition are the first arguments of its calls for a
/// dependency.
pub proof fn calls_for_dependencies_name_packages(commands: Seq<CommandView>, n: int, p: Seq<char>)
    requires
        0 <= n <= commands.len(),
    ensures
        meson_commands(commands, n).contains(p) <==> exists|j: int|
            0 <= j < n && (#[trigger] commands[j]).name == "dependency"@ && commands[j].args.len() > 0 && package_in(
                commands[j].args[0],
            ) == Some(p),
    decreases n,
{
    if n > 0 {
        calls_for_dependencies_name_packages(commands, n - 1, p);
        if commands[n - 1].args.len() > 0 {
            package_is_held(meson_commands(commands, n - 1), commands[n - 1].args[0], p);
        }
    }
}

}
