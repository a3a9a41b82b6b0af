//! What paths promise.

use vstd::prelude::*;

use crate::paths::{
    base, below_dir, directory, dotted_extension, end_of, folded, front, idle, lead, past, plain_parts, relative_path,
    segments, steps, under_dir,
};
use crate::strings::{joined, lacks, pieces, pieces_of_joined, rfind, rfind_is_last};

verus! {

/// Whether the parts of a path are names: not empty, not a dot, and without a slash.
pub open spec fn are_names(parts: Seq<Seq<char>>) -> bool {
    forall|i: int| 0 <= i < parts.len() ==> (#[trigger] parts[i]).len() > 0 && parts[i] != "."@ && lacks(parts[i], '/')
}

proof fn names_are_plain(parts: Seq<Seq<char>>, n: int)
    requires
        are_names(parts),
        0 <= n <= parts.len(),
    ensures
        plain_parts(parts, n) == parts.take(n),
        end_of(parts, n) == n,
    decreases n,
{
    if n > 0 {
        names_are_plain(parts, n - 1);
        assert(!idle(parts[n - 1]));
        assert(parts.take(n) =~= parts.take(n - 1).push(parts[n - 1]));
    } else {
        assert(parts.take(0) =~= Seq::<Seq<char>>::empty());
    }
}

proof fn names_are_pieces(parts: Seq<Seq<char>>)
    requires
        are_names(parts),
        parts.len() > 0,
    ensures
        pieces(joined(parts, "/"@), '/') == parts,
        lead(parts).len() == 0,
{
    assert forall|i: int| 0 <= i < parts.len() implies lacks(#[trigger] parts[i], '/') by {
        assert(parts[i].len() > 0);
    }
    pieces_of_joined(parts);
    assert(parts[0].len() > 0 && parts[0] != "."@);
}

/// A path of names has these names as its segments and as its steps; its directory is the
/// path without the last of them, and its base is the last.
pub proof fn paths_are_made_of_names(parts: Seq<Seq<char>>)
    requires
        are_names(parts),
        parts.len() > 0,
    ensures
        segments(joined(parts, "/"@)) == parts,
        steps(joined(parts, "/"@)) == parts,
        directory(joined(parts, "/"@)) == joined(parts.drop_last(), "/"@),
        parts.last() != ".."@ ==> base(joined(parts, "/"@)) == parts.last(),
{
    let n = parts.len() as int;
    names_are_pieces(parts);
    names_are_plain(parts, n);
    names_are_plain(parts, n - 1);
    assert(parts.take(n) =~= parts);
    assert(parts.subrange(0, n - 1) =~= parts.drop_last());
    if n == 1 {
        assert(parts.drop_last() =~= Seq::<Seq<char>>::empty());
        assert(front(parts, 0) =~= Seq::<char>::empty());
    }
}

/// A path below a directory is found below it, and what is left is the path from the
/// directory on. A path that parts from the directory is not below it.
pub proof fn paths_lie_below_their_directories(dir: Seq<Seq<char>>, rest: Seq<Seq<char>>)
    requires
        are_names(dir),
        are_names(rest),
        dir.len() > 0,
        rest.len() > 0,
    ensures
        under_dir(joined(dir + rest, "/"@), joined(dir, "/"@)),
        below_dir(joined(dir + rest, "/"@), joined(dir, "/"@)) == Some(joined(rest, "/"@)),
{
    let all = dir + rest;
    assert forall|i: int| 0 <= i < all.len() implies (#[trigger] all[i]).len() > 0 && all[i] != "."@ && lacks(all[i], '/') by {
        if i < dir.len() {
            assert(all[i] == dir[i]);
        } else {
            assert(all[i] == rest[i - dir.len()]);
        }
    }
    paths_are_made_of_names(all);
    paths_are_made_of_names(dir);
    names_are_pieces(all);
    names_are_plain(all, all.len() as int);
    past_counts(all, 0, dir.len() as int);
    assert(all.subrange(dir.len() as int, all.len() as int) =~= rest);
    assert forall|i: int| 0 <= i < dir.len() implies #[trigger] dir[i] == all[i] by {}
}

proof fn past_counts(parts: Seq<Seq<char>>, i: int, k: int)
    requires
        are_names(parts),
        0 <= i <= parts.len(),
        0 <= k <= parts.len() - i,
    ensures
        past(parts, i, k) == i + k,
    decreases parts.len() - i,
{
    if i < parts.len() {
        assert(!idle(parts[i]));
        if k > 0 {
            past_counts(parts, i + 1, k - 1);
        }
    }
}

/// A path that differs from a directory in one of its steps is not below it.
pub proof fn paths_apart_are_not_below(path: Seq<char>, dir: Seq<char>, i: int)
    requires
        0 <= i < steps(dir).len(),
        i >= steps(path).len() || steps(path)[i] != steps(dir)[i],
    ensures
        !under_dir(path, dir),
        below_dir(path, dir) is None,
{
    let d = steps(dir);
    assert(d[i] == d[i]);
}

/// A file is shown below the project, else below its own root, else as it is.
pub proof fn files_are_shown_below_the_project(file: Seq<char>, project: Seq<char>, root: Seq<char>, rel: Seq<char>)
    ensures
        below_dir(file, project) == Some(rel) ==> relative_path(file, project, root) == rel,
        below_dir(file, project) is None && below_dir(file, root) == Some(rel) ==> relative_path(file, project, root) == rel,
        below_dir(file, project) is None && below_dir(file, root) is None ==> relative_path(file, project, root) == file,
{
}

/// Folding a path skips what says nothing, goes up at two dots and down at a name.
pub proof fn folding_goes_up_and_down(parts: Seq<Seq<char>>, n: int)
    requires
        0 < n <= parts.len(),
    ensures
        ({
            let before = folded(parts, n - 1);
            let after = folded(parts, n);
            let p = parts[n - 1];
            &&& p.len() == 0 || p == "."@ ==> after == before
            &&& p == ".."@ && before.len() > 0 ==> after == before.drop_last()
            &&& p == ".."@ && before.len() == 0 ==> after == before
            &&& p.len() > 0 && p != "."@ && p != ".."@ ==> after == before.push(p)
        }),
        folded(parts, 0).len() == 0,
{
    reveal_strlit(".");
    reveal_strlit("..");
    assert("."@.len() != ".."@.len());
}

/// The extension of a file is what its name ends in from the last dot on. A name without a
/// dot, or with one only in front, has none.
pub proof fn extensions_begin_at_the_last_dot(path: Seq<char>, stem: Seq<char>, ext: Seq<char>)
    requires
        base(path) == stem + "."@ + ext,
        stem.len() > 0,
        ext.len() > 0,
        lacks(ext, '.'),
    ensures
        dotted_extension(path) == Some("."@ + ext),
{
    reveal_strlit(".");
    reveal_strlit("..");
    let name = stem + "."@ + ext;
    let k = stem.len() as int;
    rfind_is_last(name, "."@, name.len() - 1);
    assert(name.subrange(k, k + 1) =~= "."@);
    assert(crate::strings::occurs_at(name, "."@, k));
    match rfind(name, "."@) {
        Some(i) => {
            if i > k {
                assert(name.subrange(i, i + 1)[0] == "."@[0]);
                assert(name[i] == ext[i - k - 1]);
                assert(ext[i - k - 1] != '.');
            }
            if i < k {
                assert(!crate::strings::occurs_at(name, "."@, k));
            }
        },
        None => {
            assert(!crate::strings::occurs_at(name, "."@, k));
        },
    }
    assert(name.skip(k + 1) =~= ext);
    assert(name.len() > 2 || name.len() == 2);
    if name == ".."@ {
        assert(name.len() == 2);
        assert(stem.len() + 1 + ext.len() >= 3);
    }
}

}
