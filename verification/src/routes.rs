//! What the keys of routes promise: however the two sides of a contract write
//! a route, they meet on one key, and a key is its own key.

use vstd::prelude::*;

use crate::boundaries::{
    collapsed, colon_param, colons_collapsed, http_verb, normalized, numbers_collapsed, numeric_segment, params_collapsed, rooted,
    without_host, without_tail, HTTP_VERBS,
};
use crate::strings::{
    before_first, cut, find, find_char, find_char_from, find_char_is_first, find_is_first, joined, joined_front,
    joined_of_pieces, lacks, occurs_at, pieces, pieces_lack, pieces_of_joined, trimmed,
    without_trailing,
};
use crate::text::{all_ascii, is_numeric, is_space, uppercase};

verus! {

// ---------------------------------------------------------------------------
// Splitting and joining
// ---------------------------------------------------------------------------

/// A slash at the end adds an empty piece.
proof fn pieces_of_longer(s: Seq<char>)
    requires
        s.len() > 0,
        s.last() == '/',
    ensures
        pieces(s, '/') == pieces(s.drop_last(), '/').push(Seq::empty()),
{
    reveal_strlit("/");
    let shorter = s.drop_last();
    let parts = pieces(shorter, '/').push(Seq::empty());
    pieces_lack(shorter, '/');
    joined_of_pieces(shorter);
    assert forall|i: int| 0 <= i < parts.len() implies lacks(#[trigger] parts[i], '/') by {
        if i < parts.len() - 1 {
            assert(parts[i] == pieces(shorter, '/')[i]);
        }
    }
    assert(parts.drop_last() =~= pieces(shorter, '/'));
    assert(joined(parts, "/"@) =~= s);
    pieces_of_joined(parts);
}

/// Without the slashes at its end a path keeps its first pieces.
proof fn pieces_without_tail(s: Seq<char>)
    ensures
        ({
            let t = without_trailing(s, '/');
            &&& t.len() <= s.len() && t == s.take(t.len() as int)
            &&& t.len() > 0 ==> t.last() != '/'
            &&& pieces(t, '/').len() <= pieces(s, '/').len()
            &&& forall|i: int| 0 <= i < pieces(t, '/').len() ==> #[trigger] pieces(t, '/')[i] == pieces(s, '/')[i]
        }),
    decreases s.len(),
{
    if s.len() > 0 && s.last() == '/' {
        pieces_without_tail(s.drop_last());
        pieces_of_longer(s);
        let t = without_trailing(s, '/');
        assert(s.drop_last().take(t.len() as int) =~= s.take(t.len() as int));
        let shorter = pieces(s.drop_last(), '/');
        assert forall|i: int| 0 <= i < pieces(t, '/').len() implies #[trigger] pieces(t, '/')[i] == pieces(s, '/')[i] by {
            assert(pieces(s, '/')[i] == shorter[i]);
        }
    } else {
        assert(s.take(s.len() as int) =~= s);
    }
}

/// What none of some strings has, their join has not either.
proof fn joined_lacks(parts: Seq<Seq<char>>, c: char)
    requires
        c != '/',
        forall|i: int| 0 <= i < parts.len() ==> lacks(#[trigger] parts[i], c),
    ensures
        lacks(joined(parts, "/"@), c),
    decreases parts.len(),
{
    reveal_strlit("/");
    if parts.len() >= 2 {
        assert forall|i: int| 0 <= i < parts.drop_last().len() implies lacks(#[trigger] parts.drop_last()[i], c) by {
            assert(parts.drop_last()[i] == parts[i]);
        }
        joined_lacks(parts.drop_last(), c);
        assert(lacks(parts[parts.len() - 1], c));
        let s = joined(parts, "/"@);
        let head = joined(parts.drop_last(), "/"@);
        assert forall|i: int| 0 <= i < s.len() implies #[trigger] s[i] != c by {
            if i < head.len() {
                assert(s[i] == head[i]);
            } else if i > head.len() {
                assert(s[i] == parts.last()[i - head.len() - 1]);
            }
        }
    } else if parts.len() == 1 {
        assert(lacks(parts[0], c));
    }
}

// ---------------------------------------------------------------------------
// Collapsing
// ---------------------------------------------------------------------------

/// The first position in two texts, of which the first lacks the character.
proof fn found_behind(x: Seq<char>, y: Seq<char>, c: char, i: int)
    requires
        0 <= i <= y.len(),
    ensures
        find_char_from(x + y, c, x.len() + i) == (match find_char_from(y, c, i) {
            Some(j) => Some(x.len() + j),
            None => None,
        }),
    decreases y.len() - i,
{
    if i < y.len() {
        assert((x + y)[x.len() + i] == y[i]);
        found_behind(x, y, c, i + 1);
    }
}

/// A character is not found where it is lacking.
proof fn skips_lacking(x: Seq<char>, y: Seq<char>, c: char, i: int)
    requires
        lacks(x, c),
        0 <= i <= x.len(),
    ensures
        find_char_from(x + y, c, i) == find_char_from(x + y, c, x.len() as int),
    decreases x.len() - i,
{
    if i < x.len() {
        assert((x + y)[i] == x[i]);
        skips_lacking(x, y, c, i + 1);
    }
}

/// Nothing is collapsed in a text before the first opening character.
proof fn collapses_behind(x: Seq<char>, y: Seq<char>, open: char, close: char)
    requires
        lacks(x, open),
    ensures
        collapsed(x + y, open, close) == x + collapsed(y, open, close),
{
    skips_lacking(x, y, open, 0);
    found_behind(x, y, open, 0);
    find_char_is_first(y, open, 0);
    match find_char(y, open) {
        Some(i) => {
            find_char_is_first(y, close, i);
            found_behind(x, y, close, i);
            match find_char_from(y, close, i) {
                Some(j) => {
                    assert((x + y).take(x.len() + i) =~= x + y.take(i));
                    assert((x + y).skip(x.len() + j + 1) =~= y.skip(j + 1));
                    let tail = collapsed(y.skip(j + 1), open, close);
                    assert(x + (y.take(i) + "{}"@ + tail) =~= (x + y.take(i)) + "{}"@ + tail);
                },
                None => {},
            }
        },
        None => {},
    }
}

/// What is enclosed is collapsed.
proof fn collapses_enclosed(name: Seq<char>, y: Seq<char>, open: char, close: char)
    requires
        open != close,
        lacks(name, close),
    ensures
        collapsed(seq![open] + name + seq![close] + y, open, close) == "{}"@ + collapsed(y, open, close),
{
    let head = seq![open] + name;
    let s = head + (seq![close] + y);
    assert(seq![open] + name + seq![close] + y =~= s);
    assert(s[0] == open);
    assert(find_char(s, open) == Some(0int));
    assert(lacks(head, close)) by {
        assert forall|i: int| 0 <= i < head.len() implies #[trigger] head[i] != close by {
            if i > 0 {
                assert(head[i] == name[i - 1]);
            }
        }
    }
    skips_lacking(head, seq![close] + y, close, 0);
    assert(s[head.len() as int] == close);
    assert(find_char_from(s, close, 0) == Some(head.len() as int));
    assert(s.take(0) =~= Seq::<char>::empty());
    assert(s.skip(head.len() as int + 1) =~= y);
    assert(Seq::<char>::empty() + "{}"@ + collapsed(y, open, close) =~= "{}"@ + collapsed(y, open, close));
}

/// What was lacking is lacking still when something is collapsed.
proof fn collapsed_lacks(s: Seq<char>, open: char, close: char, c: char)
    requires
        lacks(s, c),
        c != '{',
        c != '}',
    ensures
        lacks(collapsed(s, open, close), c),
    decreases s.len(),
{
    reveal_strlit("{}");
    find_char_is_first(s, open, 0);
    if let Some(i) = find_char(s, open) {
        find_char_is_first(s, close, i);
        if let Some(j) = find_char_from(s, close, i) {
            let rest = s.skip(j + 1);
            assert forall|k: int| 0 <= k < rest.len() implies #[trigger] rest[k] != c by {
                assert(rest[k] == s[j + 1 + k]);
            }
            collapsed_lacks(rest, open, close, c);
            let out = collapsed(s, open, close);
            let tail = collapsed(rest, open, close);
            assert forall|k: int| 0 <= k < out.len() implies #[trigger] out[k] != c by {
                if k < i {
                    assert(out[k] == s[k]);
                } else if k >= i + 2 {
                    assert(out[k] == tail[k - i - 2]);
                }
            }
        }
    }
}

/// A text that begins with a slash still does when something is collapsed.
proof fn collapsed_keeps_the_slash(s: Seq<char>, open: char, close: char)
    requires
        s.len() > 0,
        s[0] == '/',
        open != '/',
    ensures
        collapsed(s, open, close).len() > 0,
        collapsed(s, open, close)[0] == '/',
{
    find_char_is_first(s, open, 0);
    if let Some(i) = find_char(s, open) {
        find_char_is_first(s, close, i);
    }
}

/// Whether nothing is enclosed by angle brackets.
pub open spec fn unangled(s: Seq<char>) -> bool {
    forall|i: int, j: int| 0 <= i < j < s.len() ==> !(#[trigger] s[i] == '<' && #[trigger] s[j] == '>')
}

/// Where nothing is enclosed, nothing is collapsed.
proof fn unangled_stays(s: Seq<char>)
    requires
        unangled(s),
    ensures
        collapsed(s, '<', '>') == s,
{
    find_char_is_first(s, '<', 0);
    if let Some(i) = find_char(s, '<') {
        find_char_is_first(s, '>', i);
    }
}

/// When everything enclosed is collapsed, nothing is enclosed.
proof fn collapsed_is_unangled(s: Seq<char>)
    ensures
        unangled(collapsed(s, '<', '>')),
    decreases s.len(),
{
    reveal_strlit("{}");
    find_char_is_first(s, '<', 0);
    if let Some(i) = find_char(s, '<') {
        find_char_is_first(s, '>', i);
        if let Some(j) = find_char_from(s, '>', i) {
            let tail = collapsed(s.skip(j + 1), '<', '>');
            collapsed_is_unangled(s.skip(j + 1));
            let out = collapsed(s, '<', '>');
            assert forall|a: int, b: int| 0 <= a < b < out.len() implies !(#[trigger] out[a] == '<' && #[trigger] out[b]
                == '>') by {
                if a < i {
                    assert(out[a] == s[a]);
                } else if a >= i + 2 {
                    assert(out[a] == tail[a - i - 2]);
                    assert(out[b] == tail[b - i - 2]);
                }
            }
        }
    }
}

/// Whether each string of a list is the one of another list in its place, or
/// has no angle brackets.
spec fn tamed(u: Seq<Seq<char>>, v: Seq<Seq<char>>) -> bool {
    &&& u.len() == v.len()
    &&& forall|i: int| 0 <= i < v.len() ==> #[trigger] v[i] == u[i] || (lacks(v[i], '<') && lacks(v[i], '>'))
}

/// A character that the join of tamed strings has, the join had before.
proof fn tamed_has_no_more(u: Seq<Seq<char>>, v: Seq<Seq<char>>, c: char, k: int) -> (j: int)
    requires
        tamed(u, v),
        c == '<' || c == '>',
        0 <= k < joined(v, "/"@).len(),
        joined(v, "/"@)[k] == c,
    ensures
        0 <= j < joined(u, "/"@).len(),
        joined(u, "/"@)[j] == c,
    decreases v.len(),
{
    reveal_strlit("/");
    if v.len() == 1 {
        assert(v[0] == u[0] || lacks(v[0], c));
        k
    } else {
        let head = joined(v.drop_last(), "/"@);
        let before = joined(u.drop_last(), "/"@);
        assert(tamed(u.drop_last(), v.drop_last())) by {
            assert forall|i: int| 0 <= i < v.drop_last().len() implies #[trigger] v.drop_last()[i] == u.drop_last()[i] || (
            lacks(v.drop_last()[i], '<') && lacks(v.drop_last()[i], '>')) by {
                assert(v.drop_last()[i] == v[i]);
            }
        }
        if k < head.len() {
            assert(joined(v, "/"@)[k] == head[k]);
            let j = tamed_has_no_more(u.drop_last(), v.drop_last(), c, k);
            assert(joined(u, "/"@)[j] == before[j]);
            j
        } else {
            let o = k - head.len() - 1;
            assert(k != head.len());
            assert(joined(v, "/"@)[k] == v.last()[o]);
            assert(v[v.len() - 1] == u[u.len() - 1] || lacks(v[v.len() - 1], c));
            assert(joined(u, "/"@)[before.len() + 1 + o] == u.last()[o]);
            before.len() + 1 + o
        }
    }
}

/// Taming strings encloses nothing.
proof fn tamed_is_unangled(u: Seq<Seq<char>>, v: Seq<Seq<char>>)
    requires
        tamed(u, v),
        unangled(joined(u, "/"@)),
    ensures
        unangled(joined(v, "/"@)),
    decreases v.len(),
{
    reveal_strlit("/");
    let x = joined(u, "/"@);
    let y = joined(v, "/"@);
    if v.len() == 1 {
        assert(v[0] == u[0] || lacks(v[0], '<'));
    } else if v.len() >= 2 {
        let head = joined(v.drop_last(), "/"@);
        let before = joined(u.drop_last(), "/"@);
        assert(tamed(u.drop_last(), v.drop_last())) by {
            assert forall|i: int| 0 <= i < v.drop_last().len() implies #[trigger] v.drop_last()[i] == u.drop_last()[i] || (
            lacks(v.drop_last()[i], '<') && lacks(v.drop_last()[i], '>')) by {
                assert(v.drop_last()[i] == v[i]);
            }
        }
        assert(unangled(before)) by {
            assert forall|a: int, b: int| 0 <= a < b < before.len() implies !(#[trigger] before[a] == '<'
                && #[trigger] before[b] == '>') by {
                assert(x[a] == before[a] && x[b] == before[b]);
            }
        }
        tamed_is_unangled(u.drop_last(), v.drop_last());
        assert(v[v.len() - 1] == u[u.len() - 1] || (lacks(v[v.len() - 1], '<') && lacks(v[v.len() - 1], '>')));
        assert forall|a: int, b: int| 0 <= a < b < y.len() implies !(#[trigger] y[a] == '<' && #[trigger] y[b] == '>') by {
            if y[a] == '<' && y[b] == '>' {
                if b < head.len() {
                    assert(y[a] == head[a] && y[b] == head[b]);
                } else {
                    assert(b != head.len());
                    let o = b - head.len() - 1;
                    assert(y[b] == v.last()[o]);
                    assert(x[before.len() + 1 + o] == u.last()[o]);
                    if a < head.len() {
                        assert(y[a] == head[a]);
                        let j = tamed_has_no_more(u.drop_last(), v.drop_last(), '<', a);
                        assert(x[j] == before[j]);
                    } else {
                        assert(a != head.len());
                        let m = a - head.len() - 1;
                        assert(y[a] == v.last()[m]);
                        assert(x[before.len() + 1 + m] == u.last()[m]);
                    }
                }
            }
        }
    }
}

// ---------------------------------------------------------------------------
// Fixed points
// ---------------------------------------------------------------------------

/// Whether a path is a key as it stands.
pub open spec fn canonical(p: Seq<char>) -> bool {
    &&& p.len() > 0 && p[0] == '/'
    &&& p.len() > 1 ==> p.last() != '/'
    &&& lacks(p, '?') && lacks(p, '#')
    &&& unangled(p)
    &&& settled(p)
    &&& forall|i: int|
        0 <= i < pieces(p, '/').len() ==> !colon_param(i, #[trigger] pieces(p, '/')[i]) && !numeric_segment(
            pieces(p, '/')[i],
        )
}

/// Whether a path has no white space around it, no scheme in it, and nothing in
/// its braces.
pub open spec fn settled(p: Seq<char>) -> bool {
    trimmed(p) == p && cut(p, "://"@) is None && collapsed(p, '{', '}') == p
}

/// What lacks a character is not cut at it.
proof fn lacking_is_whole(s: Seq<char>, p: Seq<char>)
    requires
        p.len() == 1,
        lacks(s, p[0]),
    ensures
        before_first(s, p) == s,
{
    find_is_first(s, p, 0);
    if let Some(i) = find(s, p) {
        assert(s.subrange(i, i + 1)[0] == s[i]);
    }
}

/// What precedes the first occurrence of a character lacks it.
proof fn cut_off_lacks(s: Seq<char>, p: Seq<char>)
    requires
        p.len() == 1,
    ensures
        lacks(before_first(s, p), p[0]),
{
    find_is_first(s, p, 0);
    let r = before_first(s, p);
    assert forall|k: int| 0 <= k < r.len() implies #[trigger] r[k] != p[0] by {
        assert(r[k] == s[k]);
        if s[k] == p[0] {
            assert(s.subrange(k, k + 1) =~= p);
            assert(occurs_at(s, p, k));
        }
    }
}

/// A path that is a key as it stands is its own key.
pub proof fn canonical_paths_are_fixed_points(p: Seq<char>)
    requires
        canonical(p),
    ensures
        normalized(p) == p,
{
    reveal_strlit("?");
    reveal_strlit("#");
    reveal_strlit("/");
    lacking_is_whole(p, "?"@);
    lacking_is_whole(p, "#"@);
    unangled_stays(p);
    let parts = pieces(p, '/');
    assert(colons_collapsed(parts) =~= parts);
    joined_of_pieces(p);
    assert(params_collapsed(p) == p);
    assert(numbers_collapsed(parts) =~= parts);
    if p.len() > 1 {
        assert(without_trailing(p, '/') == p);
    }
}

/// What a character lacks when it is cut at another one.
proof fn cut_off_keeps_lacking(s: Seq<char>, p: Seq<char>, c: char)
    requires
        lacks(s, c),
    ensures
        lacks(before_first(s, p), c),
{
    let r = before_first(s, p);
    find_is_first(s, p, 0);
    assert forall|k: int| 0 <= k < r.len() implies #[trigger] r[k] != c by {
        assert(r[k] == s[k]);
    }
}

/// A key begins with a slash, has no query, no fragment, no slash at its end
/// but for the root, nothing in angle brackets, no parameter in colon style and
/// no number for a segment.
pub proof fn keys_are_plain(raw: Seq<char>)
    ensures
        ({
            let p = normalized(raw);
            &&& p.len() > 0 && p[0] == '/'
            &&& p.len() > 1 ==> p.last() != '/'
            &&& lacks(p, '?') && lacks(p, '#')
            &&& unangled(p)
            &&& forall|i: int|
                0 <= i < pieces(p, '/').len() ==> !colon_param(i, #[trigger] pieces(p, '/')[i]) && !numeric_segment(
                    pieces(p, '/')[i],
                )
        }),
{
    reveal_strlit("?");
    reveal_strlit("#");
    reveal_strlit("/");
    reveal_strlit("{}");
    let host_free = without_host(trimmed(raw));
    let no_query = before_first(host_free, "?"@);
    let path = before_first(no_query, "#"@);
    cut_off_lacks(host_free, "?"@);
    cut_off_lacks(no_query, "#"@);
    cut_off_keeps_lacking(no_query, "#"@, '?');
    let x = rooted(path);
    assert(lacks(x, '?') && lacks(x, '#')) by {
        assert forall|k: int| 0 <= k < x.len() implies #[trigger] x[k] != '?' && x[k] != '#' by {
            if !(path.len() > 0 && path[0] == '/') && k > 0 {
                assert(x[k] == path[k - 1]);
            }
        }
    }
    let a = collapsed(x, '{', '}');
    let b = collapsed(a, '<', '>');
    collapsed_keeps_the_slash(x, '{', '}');
    collapsed_keeps_the_slash(a, '<', '>');
    collapsed_lacks(x, '{', '}', '?');
    collapsed_lacks(x, '{', '}', '#');
    collapsed_lacks(a, '<', '>', '?');
    collapsed_lacks(a, '<', '>', '#');
    collapsed_is_unangled(a);
    let bs = pieces(b, '/');
    pieces_lack(b, '/');
    joined_of_pieces(b);
    let cs = colons_collapsed(bs);
    assert forall|i: int| 0 <= i < cs.len() implies lacks(#[trigger] cs[i], '/') by {
        assert(lacks(bs[i], '/'));
    }
    pieces_of_joined(cs);
    let ns = numbers_collapsed(cs);
    assert forall|i: int| 0 <= i < ns.len() implies lacks(#[trigger] ns[i], '/') by {
        assert(lacks(cs[i], '/'));
    }
    pieces_of_joined(ns);
    let w = joined(ns, "/"@);
    assert(normalized(raw) == without_tail(w));
    // The first piece is empty, so the path begins with a slash.
    find_char_is_first(b, '/', 0);
    assert(find_char(b, '/') == Some(0int));
    assert(b.take(0) =~= Seq::<char>::empty());
    assert(bs[0] == Seq::<char>::empty());
    pieces_lack(b.skip(1), '/');
    assert(bs.len() >= 2);
    assert(cs[0] == Seq::<char>::empty());
    assert(ns[0] == Seq::<char>::empty());
    joined_front(ns, "/"@);
    assert(w[0] == '/');
    // Brackets, queries and fragments.
    assert(tamed(bs, ns)) by {
        assert forall|i: int| 0 <= i < ns.len() implies #[trigger] ns[i] == bs[i] || (lacks(ns[i], '<') && lacks(
            ns[i],
            '>',
        )) by {
            assert(cs[i] == bs[i] || cs[i] == "{}"@);
        }
    }
    tamed_is_unangled(bs, ns);
    assert(lacks(w, '?') && lacks(w, '#')) by {
        assert forall|i: int| 0 <= i < bs.len() implies lacks(#[trigger] bs[i], '?') && lacks(bs[i], '#') by {
            piece_lacks(b, '?', i);
            piece_lacks(b, '#', i);
        }
        assert forall|i: int| 0 <= i < ns.len() implies lacks(#[trigger] ns[i], '?') && lacks(ns[i], '#') by {
            assert(cs[i] == bs[i] || cs[i] == "{}"@);
            assert(lacks(bs[i], '?') && lacks(bs[i], '#'));
        }
        joined_lacks(ns, '?');
        joined_lacks(ns, '#');
    }
    // Colons and numbers.
    assert forall|i: int| 0 <= i < ns.len() implies !colon_param(i, #[trigger] ns[i]) && !numeric_segment(ns[i]) by {
        assert(!is_numeric('{'));
        let brace = "{}"@;
        assert(!is_numeric(brace[0]));
        assert(!colon_param(i, cs[i]));
    }
    // The end.
    let p = normalized(raw);
    if w.len() > 1 {
        pieces_without_tail(w);
        let t = without_trailing(w, '/');
        if t.len() == 0 {
            assert(p =~= seq!['/']);
            root_pieces();
        } else {
            assert(p == t);
            assert(t[0] == w[0]);
            assert forall|i: int, j: int| 0 <= i < j < t.len() implies !(#[trigger] t[i] == '<' && #[trigger] t[j]
                == '>') by {
                assert(t[i] == w[i] && t[j] == w[j]);
            }
            assert forall|k: int| 0 <= k < t.len() implies #[trigger] t[k] != '?' && t[k] != '#' by {
                assert(t[k] == w[k]);
            }
            assert forall|i: int| 0 <= i < pieces(p, '/').len() implies !colon_param(
                i,
                #[trigger] pieces(p, '/')[i],
            ) && !numeric_segment(pieces(p, '/')[i]) by {
                assert(pieces(t, '/')[i] == ns[i]);
            }
        }
    } else {
        assert(p == w);
    }
}

/// The pieces of the root are empty.
proof fn root_pieces()
    ensures
        forall|i: int|
            0 <= i < pieces(seq!['/'], '/').len() ==> (#[trigger] pieces(seq!['/'], '/')[i]).len() == 0,
{
    let s = seq!['/'];
    find_char_is_first(s, '/', 0);
    assert(s[0] == '/');
    assert(find_char(s, '/') == Some(0int));
    let rest = s.skip(1);
    assert(rest =~= Seq::<char>::empty());
    assert(find_char(rest, '/') is None);
    assert(pieces(rest, '/') == seq![rest]);
    assert(pieces(s, '/') == seq![s.take(0)] + pieces(rest, '/'));
    assert(s.take(0).len() == 0);
}

/// A piece of a text lacks what the text lacks.
proof fn piece_lacks(s: Seq<char>, c: char, i: int)
    requires
        lacks(s, c),
        0 <= i < pieces(s, '/').len(),
    ensures
        lacks(pieces(s, '/')[i], c),
    decreases s.len(),
{
    find_char_is_first(s, '/', 0);
    if let Some(k) = find_char(s, '/') {
        let rest = s.skip(k + 1);
        if i == 0 {
            assert forall|j: int| 0 <= j < k implies #[trigger] s.take(k)[j] != c by {
                assert(s.take(k)[j] == s[j]);
            }
        } else {
            assert forall|j: int| 0 <= j < rest.len() implies #[trigger] rest[j] != c by {
                assert(rest[j] == s[k + 1 + j]);
            }
            piece_lacks(rest, c, i - 1);
            assert(pieces(s, '/')[i] == pieces(rest, '/')[i - 1]);
        }
    }
}

/// The key of a key is the key itself, unless white space ends it, a scheme
/// stands in it, or braces enclose something in it.
pub proof fn keys_are_fixed_points(raw: Seq<char>)
    requires
        settled(normalized(raw)),
    ensures
        normalized(normalized(raw)) == normalized(raw),
{
    keys_are_plain(raw);
    canonical_paths_are_fixed_points(normalized(raw));
}


// ---------------------------------------------------------------------------
// Clean paths
// ---------------------------------------------------------------------------

/// Whether every opening brace is closed somewhere behind it.
pub open spec fn closing(s: Seq<char>) -> bool {
    forall|i: int| 0 <= i < s.len() && #[trigger] s[i] == '{' ==> has_from(s, '}', i + 1)
}

/// Whether a character occurs from a position on.
pub open spec fn has_from(s: Seq<char>, c: char, i: int) -> bool {
    exists|j: int| i <= j < s.len() && #[trigger] s[j] == c
}

/// Whether a text has no scheme in it.
pub open spec fn unschemed(s: Seq<char>) -> bool {
    forall|i: int| 0 <= i < s.len() - 2 ==> !(#[trigger] s[i] == ':' && s[i + 1] == '/' && s[i + 2] == '/')
}

/// Whether a path has no white space, no query, no fragment and no scheme, and
/// every brace that it opens is closed.
pub open spec fn clean(raw: Seq<char>) -> bool {
    &&& forall|i: int| 0 <= i < raw.len() ==> !is_space(#[trigger] raw[i])
    &&& lacks(raw, '?')
    &&& lacks(raw, '#')
    &&& unschemed(raw)
    &&& closing(raw)
}

/// Whether every opening brace is closed at once.
spec fn tight(s: Seq<char>) -> bool {
    forall|i: int| 0 <= i < s.len() && #[trigger] s[i] == '{' ==> i + 1 < s.len() && s[i + 1] == '}'
}

/// What is closed is tight once its braces are collapsed.
proof fn closing_gets_tight(s: Seq<char>)
    requires
        closing(s),
    ensures
        tight(collapsed(s, '{', '}')),
    decreases s.len(),
{
    reveal_strlit("{}");
    find_char_is_first(s, '{', 0);
    if let Some(i) = find_char(s, '{') {
        assert(s[i] == '{');
        assert(has_from(s, '}', i + 1));
        find_char_is_first(s, '}', i);
        let j = find_char_from(s, '}', i)->0;
        let rest = s.skip(j + 1);
        assert forall|k: int| 0 <= k < rest.len() && #[trigger] rest[k] == '{' implies has_from(rest, '}', k + 1) by {
            assert(s[j + 1 + k] == '{');
            let m = choose|m: int| j + 1 + k + 1 <= m < s.len() && #[trigger] s[m] == '}';
            assert(rest[m - j - 1] == '}');
        }
        closing_gets_tight(rest);
        let tail = collapsed(rest, '{', '}');
        let out = collapsed(s, '{', '}');
        assert forall|k: int| 0 <= k < out.len() && #[trigger] out[k] == '{' implies k + 1 < out.len() && out[k + 1]
            == '}' by {
            if k < i {
                assert(out[k] == s[k]);
            } else if k >= i + 2 {
                assert(out[k] == tail[k - i - 2]);
                assert(out[k + 1] == tail[k + 1 - i - 2]);
            }
        }
    }
}

/// Collapsing angle brackets parts no brace from its end.
proof fn tight_stays(s: Seq<char>)
    requires
        tight(s),
    ensures
        tight(collapsed(s, '<', '>')),
    decreases s.len(),
{
    reveal_strlit("{}");
    find_char_is_first(s, '<', 0);
    if let Some(i) = find_char(s, '<') {
        find_char_is_first(s, '>', i);
        if let Some(j) = find_char_from(s, '>', i) {
            let rest = s.skip(j + 1);
            assert forall|k: int| 0 <= k < rest.len() && #[trigger] rest[k] == '{' implies k + 1 < rest.len() && rest[k
                + 1] == '}' by {
                assert(s[j + 1 + k] == '{');
                assert(rest[k + 1] == s[j + 1 + k + 1]);
            }
            tight_stays(rest);
            let tail = collapsed(rest, '<', '>');
            let out = collapsed(s, '<', '>');
            assert forall|k: int| 0 <= k < out.len() && #[trigger] out[k] == '{' implies k + 1 < out.len() && out[k + 1]
                == '}' by {
                if k < i {
                    assert(out[k] == s[k]);
                    assert(s[k + 1] == '}');
                    assert(k + 1 < i);
                    assert(out[k + 1] == s[k + 1]);
                } else if k >= i + 2 {
                    assert(out[k] == tail[k - i - 2]);
                    assert(out[k + 1] == tail[k + 1 - i - 2]);
                }
            }
        }
    }
}

/// The pieces of a tight text are tight.
proof fn piece_is_tight(s: Seq<char>, i: int)
    requires
        tight(s),
        0 <= i < pieces(s, '/').len(),
    ensures
        tight(pieces(s, '/')[i]),
    decreases s.len(),
{
    find_char_is_first(s, '/', 0);
    if let Some(k) = find_char(s, '/') {
        let rest = s.skip(k + 1);
        if i == 0 {
            let head = s.take(k);
            assert forall|j: int| 0 <= j < head.len() && #[trigger] head[j] == '{' implies j + 1 < head.len() && head[j
                + 1] == '}' by {
                assert(s[j] == '{');
                assert(s[j + 1] == '}');
            }
        } else {
            assert forall|j: int| 0 <= j < rest.len() && #[trigger] rest[j] == '{' implies j + 1 < rest.len() && rest[j
                + 1] == '}' by {
                assert(s[k + 1 + j] == '{');
                assert(rest[j + 1] == s[k + 1 + j + 1]);
            }
            piece_is_tight(rest, i - 1);
            assert(pieces(s, '/')[i] == pieces(rest, '/')[i - 1]);
        }
    }
}

/// The join of tight texts is tight.
proof fn joined_is_tightly_braced(parts: Seq<Seq<char>>)
    requires
        forall|i: int| 0 <= i < parts.len() ==> tight(#[trigger] parts[i]),
    ensures
        tight(joined(parts, "/"@)),
    decreases parts.len(),
{
    reveal_strlit("/");
    if parts.len() == 1 {
        assert(tight(parts[0]));
    } else if parts.len() >= 2 {
        let fewer = parts.drop_last();
        assert forall|i: int| 0 <= i < fewer.len() implies tight(#[trigger] fewer[i]) by {
            assert(fewer[i] == parts[i]);
        }
        joined_is_tightly_braced(fewer);
        let head = joined(fewer, "/"@);
        let last = parts[parts.len() - 1];
        assert(tight(last));
        let s = joined(parts, "/"@);
        assert forall|k: int| 0 <= k < s.len() && #[trigger] s[k] == '{' implies k + 1 < s.len() && s[k + 1] == '}' by {
            if k < head.len() {
                assert(s[k] == head[k]);
                assert(s[k + 1] == head[k + 1]);
            } else if k > head.len() {
                let o = k - head.len() - 1;
                assert(s[k] == last[o]);
                assert(s[k + 1] == last[o + 1]);
            }
        }
    }
}

/// What is tight has nothing in its braces.
proof fn tight_is_collapsed(s: Seq<char>)
    requires
        tight(s),
    ensures
        collapsed(s, '{', '}') == s,
    decreases s.len(),
{
    reveal_strlit("{}");
    find_char_is_first(s, '{', 0);
    if let Some(i) = find_char(s, '{') {
        assert(s[i + 1] == '}');
        find_char_is_first(s, '}', i);
        assert(find_char_from(s, '}', i) == Some(i + 1));
        let rest = s.skip(i + 2);
        assert forall|k: int| 0 <= k < rest.len() && #[trigger] rest[k] == '{' implies k + 1 < rest.len() && rest[k + 1]
            == '}' by {
            assert(s[i + 2 + k] == '{');
            assert(rest[k + 1] == s[i + 2 + k + 1]);
        }
        tight_is_collapsed(rest);
        assert(s =~= s.take(i) + "{}"@ + rest);
    }
}

/// Collapsing brings no scheme about.
proof fn unschemed_stays(s: Seq<char>, open: char, close: char)
    requires
        unschemed(s),
    ensures
        unschemed(collapsed(s, open, close)),
    decreases s.len(),
{
    reveal_strlit("{}");
    find_char_is_first(s, open, 0);
    if let Some(i) = find_char(s, open) {
        find_char_is_first(s, close, i);
        if let Some(j) = find_char_from(s, close, i) {
            let rest = s.skip(j + 1);
            assert forall|k: int| 0 <= k < rest.len() - 2 implies !(#[trigger] rest[k] == ':' && rest[k + 1] == '/'
                && rest[k + 2] == '/') by {
                assert(rest[k] == s[j + 1 + k]);
                assert(rest[k + 1] == s[j + 1 + k + 1]);
                assert(rest[k + 2] == s[j + 1 + k + 2]);
            }
            unschemed_stays(rest, open, close);
            let tail = collapsed(rest, open, close);
            let out = collapsed(s, open, close);
            assert(out[i] == '{' && out[i + 1] == '}');
            assert forall|k: int| 0 <= k < out.len() - 2 implies !(#[trigger] out[k] == ':' && out[k + 1] == '/' && out[k
                + 2] == '/') by {
                if k + 2 < i {
                    assert(out[k] == s[k] && out[k + 1] == s[k + 1] && out[k + 2] == s[k + 2]);
                } else if k >= i + 2 {
                    assert(out[k] == tail[k - i - 2]);
                    assert(out[k + 1] == tail[k + 1 - i - 2]);
                    assert(out[k + 2] == tail[k + 2 - i - 2]);
                }
            }
        }
    }
}

/// Whether each string of a list is the one of another list in its place, or
/// empty braces.
spec fn braced(u: Seq<Seq<char>>, v: Seq<Seq<char>>) -> bool {
    &&& u.len() == v.len()
    &&& forall|i: int| 0 <= i < v.len() ==> #[trigger] v[i] == u[i] || v[i] == "{}"@
}

/// Empty braces in place of segments bring no scheme about.
proof fn braced_is_unschemed(u: Seq<Seq<char>>, v: Seq<Seq<char>>)
    requires
        braced(u, v),
        v.len() > 0,
        unschemed(joined(u, "/"@)),
        forall|i: int| 0 <= i < v.len() ==> lacks(#[trigger] v[i], '/'),
    ensures
        ({
            let x = joined(u, "/"@);
            let y = joined(v, "/"@);
            &&& unschemed(y)
            &&& y.len() > 0 && y.last() == ':' ==> x.len() > 0 && x.last() == ':'
            &&& y.len() > 1 && y[y.len() - 2] == ':' && y.last() == '/' ==> x.len() > 1 && x[x.len() - 2] == ':' && x.last()
                == '/'
        }),
    decreases v.len(),
{
    reveal_strlit("/");
    reveal_strlit("{}");
    let x = joined(u, "/"@);
    let y = joined(v, "/"@);
    let n = v.len() as int;
    let a = u[n - 1];
    let b = v[n - 1];
    assert(b == a || b == "{}"@);
    assert(lacks(b, '/'));
    if n == 1 {
        assert forall|i: int| 0 <= i < y.len() - 2 implies !(#[trigger] y[i] == ':' && y[i + 1] == '/' && y[i + 2]
            == '/') by {
            assert(y[i + 1] == b[i + 1]);
        }
        assert(y == b);
    } else {
        let fewer = v.drop_last();
        let before = u.drop_last();
        assert(braced(before, fewer)) by {
            assert forall|i: int| 0 <= i < fewer.len() implies #[trigger] fewer[i] == before[i] || fewer[i] == "{}"@ by {
                assert(fewer[i] == v[i]);
            }
        }
        assert forall|i: int| 0 <= i < fewer.len() implies lacks(#[trigger] fewer[i], '/') by {
            assert(fewer[i] == v[i]);
        }
        let g = joined(before, "/"@);
        let h = joined(fewer, "/"@);
        assert forall|i: int| 0 <= i < g.len() - 2 implies !(#[trigger] g[i] == ':' && g[i + 1] == '/' && g[i + 2]
            == '/') by {
            assert(x[i] == g[i] && x[i + 1] == g[i + 1] && x[i + 2] == g[i + 2]);
        }
        braced_is_unschemed(before, fewer);
        assert forall|i: int| 0 <= i < y.len() - 2 implies !(#[trigger] y[i] == ':' && y[i + 1] == '/' && y[i + 2]
            == '/') by {
            if i + 2 < h.len() {
                assert(y[i] == h[i] && y[i + 1] == h[i + 1] && y[i + 2] == h[i + 2]);
            } else if i + 2 == h.len() {
                assert(y[i] == h[i] && y[i + 1] == h[i + 1]);
                if y[i] == ':' && y[i + 1] == '/' {
                    let m = g.len() - 2;
                    assert(x[m] == g[m] && x[m + 1] == g[m + 1] && x[m + 2] == '/');
                }
            } else {
                assert(y[i + 2] == b[i + 2 - h.len() - 1]);
            }
        }
        if b.len() > 0 {
            assert(y.last() == b.last());
            if b.last() == ':' {
                assert(b == a);
                assert(x.last() == a.last());
            }
        } else {
            assert(a == b);
            assert(y.last() == '/');
            assert(x.last() == '/');
            if y.len() > 1 {
                assert(y[y.len() - 2] == h.last());
                if h.last() == ':' {
                    assert(x[x.len() - 2] == g.last());
                }
            }
        }
    }
}

/// The key of a path from which host, query and fragment are gone.
spec fn key_of(x: Seq<char>) -> Seq<char> {
    without_tail(joined(numbers_collapsed(pieces(params_collapsed(x), '/')), "/"@))
}

/// What a clean path keeps on its way to a key.
proof fn clean_steps(x: Seq<char>)
    requires
        x.len() > 0,
        x[0] == '/',
        closing(x),
        unschemed(x),
        forall|i: int| 0 <= i < x.len() ==> !is_space(#[trigger] x[i]),
    ensures
        tight(key_of(x)),
        unschemed(key_of(x)),
        forall|i: int| 0 <= i < key_of(x).len() ==> !is_space(#[trigger] key_of(x)[i]),
{
    reveal_strlit("/");
    reveal_strlit("{}");
    let a = collapsed(x, '{', '}');
    let b = collapsed(a, '<', '>');
    closing_gets_tight(x);
    tight_stays(a);
    unschemed_stays(x, '{', '}');
    unschemed_stays(a, '<', '>');
    let bs = pieces(b, '/');
    pieces_lack(b, '/');
    joined_of_pieces(b);
    let cs = colons_collapsed(bs);
    assert forall|i: int| 0 <= i < cs.len() implies lacks(#[trigger] cs[i], '/') by {
        assert(lacks(bs[i], '/'));
    }
    pieces_of_joined(cs);
    let ns = numbers_collapsed(cs);
    assert forall|i: int| 0 <= i < ns.len() implies lacks(#[trigger] ns[i], '/') && tight(ns[i]) && (ns[i] == bs[i]
        || ns[i] == "{}"@) by {
        assert(lacks(cs[i], '/'));
        piece_is_tight(b, i);
        let braces = "{}"@;
        assert(tight(braces));
        assert(cs[i] == bs[i] || cs[i] == "{}"@);
    }
    pieces_of_joined(ns);
    let w = joined(ns, "/"@);
    assert(braced(bs, ns));
    braced_is_unschemed(bs, ns);
    let p = key_of(x);
    assert(p == without_tail(w));
    // White space.
    assert forall|i: int| 0 <= i < w.len() implies !is_space(#[trigger] w[i]) by {
        let c = w[i];
        if is_space(c) {
            assert(lacks(x, c));
            collapsed_lacks(x, '{', '}', c);
            collapsed_lacks(a, '<', '>', c);
            assert forall|k: int| 0 <= k < ns.len() implies lacks(#[trigger] ns[k], c) by {
                piece_lacks(b, c, k);
                assert(ns[k] == bs[k] || ns[k] == "{}"@);
            }
            joined_lacks(ns, c);
        }
    }
    // The end.
    pieces_without_tail(w);
    let t = without_trailing(w, '/');
    if w.len() > 1 && t.len() > 0 {
        assert(p == t);
        assert forall|i: int| 0 <= i < pieces(t, '/').len() implies tight(#[trigger] pieces(t, '/')[i]) by {
            assert(pieces(t, '/')[i] == ns[i]);
        }
        joined_is_tightly_braced(pieces(t, '/'));
        joined_of_pieces(t);
        assert forall|i: int| 0 <= i < t.len() - 2 implies !(#[trigger] t[i] == ':' && t[i + 1] == '/' && t[i + 2]
            == '/') by {
            assert(t[i] == w[i] && t[i + 1] == w[i + 1] && t[i + 2] == w[i + 2]);
        }
        assert forall|i: int| 0 <= i < t.len() implies !is_space(#[trigger] t[i]) by {
            assert(t[i] == w[i]);
        }
    } else if w.len() > 1 {
        assert(p =~= seq!['/']);
    } else {
        assert(p == w);
        joined_is_tightly_braced(ns);
    }
}

/// A text without a scheme in it is not cut at one.
proof fn unschemed_is_whole(s: Seq<char>)
    requires
        unschemed(s),
    ensures
        cut(s, "://"@) is None,
{
    reveal_strlit("://");
    find_is_first(s, "://"@, 0);
    if let Some(i) = find(s, "://"@) {
        let found = s.subrange(i, i + 3);
        assert(found[0] == s[i] && found[1] == s[i + 1] && found[2] == s[i + 2]);
    }
}

/// The key of a clean path is its own key.
pub proof fn clean_paths_have_fixed_keys(raw: Seq<char>)
    requires
        clean(raw),
    ensures
        normalized(normalized(raw)) == normalized(raw),
{
    reveal_strlit("?");
    reveal_strlit("#");
    reveal_strlit("/");
    if raw.len() > 0 {
        untrimmed(raw);
    } else {
        assert(trimmed(raw) =~= raw);
    }
    unschemed_is_whole(raw);
    lacking_is_whole(raw, "?"@);
    lacking_is_whole(raw, "#"@);
    let x = rooted(raw);
    assert(normalized(raw) == key_of(x));
    if !(raw.len() > 0 && raw[0] == '/') {
        assert forall|i: int| 0 <= i < x.len() && #[trigger] x[i] == '{' implies has_from(x, '}', i + 1) by {
            assert(raw[i - 1] == '{');
            let m = choose|m: int| i <= m < raw.len() && #[trigger] raw[m] == '}';
            assert(x[m + 1] == '}');
        }
        assert forall|i: int| 0 <= i < x.len() - 2 implies !(#[trigger] x[i] == ':' && x[i + 1] == '/' && x[i + 2]
            == '/') by {
            if i > 0 {
                assert(x[i] == raw[i - 1] && x[i + 1] == raw[i] && x[i + 2] == raw[i + 1]);
            }
        }
        assert forall|i: int| 0 <= i < x.len() implies !is_space(#[trigger] x[i]) by {
            if i > 0 {
                assert(x[i] == raw[i - 1]);
            }
        }
    }
    clean_steps(x);
    keys_are_plain(raw);
    let p = normalized(raw);
    tight_is_collapsed(p);
    unschemed_is_whole(p);
    untrimmed(p);
    keys_are_fixed_points(raw);
}

// ---------------------------------------------------------------------------
// Spellings
// ---------------------------------------------------------------------------

/// How a segment of a route is written.
pub enum Spelling {
    /// As it is.
    Literal,
    /// A parameter in braces.
    Braces,
    /// A parameter in angle brackets.
    Angles,
    /// A parameter after a colon.
    Colon,
    /// A number in place of a parameter.
    Number,
}

/// A segment of a route: how it is written, and its text or the name of the
/// parameter.
pub type Segment = (Spelling, Seq<char>);

/// Whether a text has no character with a meaning in a route, and no white
/// space.
pub open spec fn wordlike(s: Seq<char>) -> bool {
    forall|i: int|
        0 <= i < s.len() ==> #[trigger] s[i] != '/' && s[i] != '{' && s[i] != '}' && s[i] != '<' && s[i] != '>' && s[i]
            != '?' && s[i] != '#' && !is_space(s[i])
}

/// Whether a segment is written as it says. Between brackets the name may be
/// missing.
pub open spec fn spelled_well(part: Segment) -> bool {
    &&& wordlike(part.1)
    &&& part.1.len() > 0 || part.0 is Braces || part.0 is Angles
    &&& part.0 is Literal ==> part.1[0] != ':' && !numeric_segment(part.1)
    &&& part.0 is Number ==> numeric_segment(part.1)
}

/// A segment in writing.
pub open spec fn spelled(part: Segment) -> Seq<char> {
    match part.0 {
        Spelling::Braces => seq!['{'] + part.1 + seq!['}'],
        Spelling::Angles => seq!['<'] + part.1 + seq!['>'],
        Spelling::Colon => seq![':'] + part.1,
        Spelling::Literal | Spelling::Number => part.1,
    }
}

/// A segment in a key.
pub open spec fn keyed(part: Segment) -> Seq<char> {
    match part.0 {
        Spelling::Literal => part.1,
        _ => "{}"@,
    }
}

/// A route in writing.
pub open spec fn route(parts: Seq<Segment>) -> Seq<char> {
    "/"@ + joined(parts.map_values(|p: Segment| spelled(p)), "/"@)
}

/// The key of a route.
pub open spec fn route_key(parts: Seq<Segment>) -> Seq<char> {
    "/"@ + joined(parts.map_values(|p: Segment| keyed(p)), "/"@)
}

/// Segments that stand alone, one after the other: no two slashes meet.
proof fn joined_is_tight(parts: Seq<Seq<char>>)
    requires
        parts.len() > 0,
        forall|i: int| 0 <= i < parts.len() ==> (#[trigger] parts[i]).len() > 0 && lacks(parts[i], '/'),
    ensures
        ({
            let s = joined(parts, "/"@);
            &&& s.len() > 0 && s[0] != '/'
            &&& s.last() == parts.last().last()
            &&& forall|i: int| 0 <= i < s.len() - 1 ==> !(#[trigger] s[i] == '/' && s[i + 1] == '/')
        }),
    decreases parts.len(),
{
    reveal_strlit("/");
    let s = joined(parts, "/"@);
    let last = parts[parts.len() - 1];
    assert(last.len() > 0 && lacks(last, '/'));
    if parts.len() > 1 {
        let fewer = parts.drop_last();
        assert forall|i: int| 0 <= i < fewer.len() implies (#[trigger] fewer[i]).len() > 0 && lacks(fewer[i], '/') by {
            assert(fewer[i] == parts[i]);
        }
        joined_is_tight(fewer);
        let head = joined(fewer, "/"@);
        assert(fewer.last() == parts[parts.len() - 2]);
        assert(head.last() != '/') by {
            assert(lacks(parts[parts.len() - 2], '/'));
        }
        assert(s[0] == head[0]);
        assert(s.last() == last.last());
        assert forall|i: int| 0 <= i < s.len() - 1 implies !(#[trigger] s[i] == '/' && s[i + 1] == '/') by {
            if i + 1 < head.len() {
                assert(s[i] == head[i] && s[i + 1] == head[i + 1]);
            } else if i + 1 == head.len() {
                assert(s[i] == head.last());
            } else {
                assert(s[i + 1] == last[i + 1 - head.len() - 1]);
            }
        }
    }
}

/// Whether each string of a list has neither of two brackets, and stays, or is
/// enclosed by them, and becomes empty braces.
spec fn bracketed(u: Seq<Seq<char>>, v: Seq<Seq<char>>, open: char, close: char) -> bool {
    &&& u.len() == v.len()
    &&& forall|i: int|
        0 <= i < u.len() ==> {
            ||| lacks(#[trigger] u[i], open) && v[i] == u[i]
            ||| v[i] == "{}"@ && u[i].len() >= 2 && u[i] == seq![open] + inside(u[i]) + seq![close] && lacks(
                inside(u[i]),
                close,
            )
        }
}

/// A text without its first and last characters.
spec fn inside(s: Seq<char>) -> Seq<char> {
    s.subrange(1, s.len() - 1)
}

/// Collapsing goes segment by segment.
proof fn collapses_by_segment(u: Seq<Seq<char>>, v: Seq<Seq<char>>, open: char, close: char)
    requires
        u.len() > 0,
        open != close,
        open != '/',
        bracketed(u, v, open, close),
    ensures
        collapsed(joined(u, "/"@), open, close) == joined(v, "/"@),
    decreases u.len(),
{
    reveal_strlit("/");
    let none = Seq::<char>::empty();
    assert(collapsed(none, open, close) == none) by {
        assert(find_char(none, open) is None);
    }
    let first = u[0];
    assert((lacks(first, open) && v[0] == first) || (v[0] == "{}"@ && first == seq![open] + inside(first) + seq![close]
        && lacks(inside(first), close)));
    if u.len() == 1 {
        if lacks(first, open) && v[0] == first {
            collapses_behind(first, none, open, close);
            assert(first + none =~= first);
        } else {
            collapses_enclosed(inside(first), none, open, close);
            assert(seq![open] + inside(first) + seq![close] + none =~= first);
            assert("{}"@ + none =~= "{}"@);
        }
    } else {
        joined_front(u, "/"@);
        joined_front(v, "/"@);
        let rest = joined(u.skip(1), "/"@);
        let after = joined(v.skip(1), "/"@);
        assert(bracketed(u.skip(1), v.skip(1), open, close)) by {
            assert forall|i: int| 0 <= i < u.skip(1).len() implies {
                ||| lacks(#[trigger] u.skip(1)[i], open) && v.skip(1)[i] == u.skip(1)[i]
                ||| v.skip(1)[i] == "{}"@ && u.skip(1)[i].len() >= 2 && u.skip(1)[i] == seq![open] + inside(u.skip(1)[i])
                    + seq![close] && lacks(inside(u.skip(1)[i]), close)
            } by {
                assert(u.skip(1)[i] == u[i + 1]);
                assert(v.skip(1)[i] == v[i + 1]);
            }
        }
        collapses_by_segment(u.skip(1), v.skip(1), open, close);
        collapses_behind("/"@, rest, open, close);
        let tail = "/"@ + rest;
        assert(first + "/"@ + rest =~= first + tail);
        assert(v[0] + "/"@ + after =~= v[0] + ("/"@ + after));
        if lacks(first, open) && v[0] == first {
            collapses_behind(first, tail, open, close);
        } else {
            collapses_enclosed(inside(first), tail, open, close);
        }
    }
}

/// A text that begins and ends without white space is not trimmed.
proof fn untrimmed(s: Seq<char>)
    requires
        s.len() > 0,
        !is_space(s[0]),
        !is_space(s.last()),
    ensures
        trimmed(s) == s,
{
}

/// Segments after a slash are the pieces behind an empty one.
proof fn rooted_pieces(parts: Seq<Seq<char>>)
    requires
        parts.len() > 0,
        forall|i: int| 0 <= i < parts.len() ==> lacks(#[trigger] parts[i], '/'),
    ensures
        pieces("/"@ + joined(parts, "/"@), '/') == seq![Seq::<char>::empty()] + parts,
        joined(seq![Seq::<char>::empty()] + parts, "/"@) == "/"@ + joined(parts, "/"@),
{
    reveal_strlit("/");
    let all = seq![Seq::<char>::empty()] + parts;
    assert forall|i: int| 0 <= i < all.len() implies lacks(#[trigger] all[i], '/') by {
        if i > 0 {
            assert(all[i] == parts[i - 1]);
        }
    }
    joined_front(all, "/"@);
    assert(all.skip(1) =~= parts);
    assert(Seq::<char>::empty() + "/"@ + joined(parts, "/"@) =~= "/"@ + joined(parts, "/"@));
    pieces_of_joined(all);
}

/// A segment with its braces collapsed.
spec fn unbraced(part: Segment) -> Seq<char> {
    if part.0 is Braces {
        "{}"@
    } else {
        spelled(part)
    }
}

/// A segment with its brackets collapsed.
spec fn unbracketed(part: Segment) -> Seq<char> {
    if part.0 is Angles {
        "{}"@
    } else {
        unbraced(part)
    }
}

/// A segment with its brackets and its colon collapsed.
spec fn named(part: Segment) -> Seq<char> {
    if part.0 is Colon {
        "{}"@
    } else {
        unbracketed(part)
    }
}

/// What each way to write a segment gives.
proof fn segment_is_read(part: Segment)
    requires
        spelled_well(part),
    ensures
        lacks(spelled(part), '/') && lacks(spelled(part), '?') && lacks(spelled(part), '#'),
        spelled(part).len() > 0 && !is_space(spelled(part).last()),
        lacks(spelled(part), '{') && unbraced(part) == spelled(part) || unbraced(part) == "{}"@ && spelled(part).len() >= 2
            && spelled(part) == seq!['{'] + inside(spelled(part)) + seq!['}'] && lacks(inside(spelled(part)), '}'),
        lacks(unbraced(part), '<') && unbracketed(part) == unbraced(part) || unbracketed(part) == "{}"@ && unbraced(
            part,
        ).len() >= 2 && unbraced(part) == seq!['<'] + inside(unbraced(part)) + seq!['>'] && lacks(
            inside(unbraced(part)),
            '>',
        ),
        lacks(unbracketed(part), '/'),
        lacks(named(part), '/'),
        lacks(keyed(part), '/'),
        keyed(part).len() > 0,
        forall|i: int| i > 0 ==> #[trigger] colon_param(i, unbracketed(part)) == (part.0 is Colon),
        numeric_segment(named(part)) == (part.0 is Number),
{
    reveal_strlit("{}");
    let name = part.1;
    let s = spelled(part);
    assert forall|i: int| 0 <= i < s.len() implies #[trigger] s[i] != '/' && s[i] != '?' && s[i] != '#' by {
        match part.0 {
            Spelling::Braces | Spelling::Angles => {
                if 0 < i < s.len() - 1 {
                    assert(s[i] == name[i - 1]);
                }
            },
            Spelling::Colon => {
                if i > 0 {
                    assert(s[i] == name[i - 1]);
                }
            },
            _ => {},
        }
    }
    if part.0 is Braces || part.0 is Angles {
        assert(inside(s) =~= name);
    }
    if !(part.0 is Braces) {
        assert forall|i: int| 0 <= i < s.len() implies #[trigger] s[i] != '{' by {
            if part.0 is Angles && 0 < i < s.len() - 1 {
                assert(s[i] == name[i - 1]);
            }
            if part.0 is Colon && i > 0 {
                assert(s[i] == name[i - 1]);
            }
        }
        if !(part.0 is Angles) {
            assert forall|i: int| 0 <= i < s.len() implies #[trigger] s[i] != '<' by {
                if part.0 is Colon && i > 0 {
                    assert(s[i] == name[i - 1]);
                }
            }
        }
    }
    match part.0 {
        Spelling::Colon => {
            assert(s.last() == name.last());
        },
        Spelling::Number => {
            assert(is_numeric(name[0]));
        },
        _ => {},
    }
    let braces = "{}"@;
    assert(!is_numeric(braces[0]));
}

/// A route has one key, however its parameters are written: in braces, in angle
/// brackets, after a colon, or as a number.
pub proof fn routes_have_one_key(parts: Seq<Segment>)
    requires
        parts.len() > 0,
        forall|i: int| 0 <= i < parts.len() ==> spelled_well(#[trigger] parts[i]),
    ensures
        normalized(route(parts)) == route_key(parts),
{
    reveal_strlit("/");
    reveal_strlit("?");
    reveal_strlit("#");
    reveal_strlit("://");
    let written = parts.map_values(|p: Segment| spelled(p));
    let first = parts.map_values(|p: Segment| unbraced(p));
    let second = parts.map_values(|p: Segment| unbracketed(p));
    let third = parts.map_values(|p: Segment| named(p));
    let fourth = parts.map_values(|p: Segment| keyed(p));
    assert forall|i: int| 0 <= i < parts.len() implies spelled_well(#[trigger] parts[i]) && written[i] == spelled(parts[i])
        && first[i] == unbraced(parts[i]) && second[i] == unbracketed(parts[i]) && third[i] == named(parts[i]) && fourth[i]
        == keyed(parts[i]) by {}
    let s = route(parts);
    let body = joined(written, "/"@);
    assert forall|i: int| 0 <= i < written.len() implies (#[trigger] written[i]).len() > 0 && lacks(written[i], '/')
        && lacks(written[i], '?') && lacks(written[i], '#') by {
        segment_is_read(parts[i]);
    }
    joined_is_tight(written);
    joined_lacks(written, '?');
    joined_lacks(written, '#');
    // Neither white space, scheme, query nor fragment.
    segment_is_read(parts[parts.len() - 1]);
    assert(s.last() == body.last());
    assert(written.last() == spelled(parts[parts.len() - 1]));
    untrimmed(s);
    find_is_first(s, "://"@, 0);
    assert(cut(s, "://"@) is None) by {
        if let Some(i) = find(s, "://"@) {
            let found = s.subrange(i, i + 3);
            assert(found[1] == '/' && found[2] == '/');
            assert(s[i + 1] == '/' && s[i + 2] == '/');
            assert(body[i] == '/' && body[i + 1] == '/');
        }
    }
    assert forall|i: int| 0 <= i < s.len() implies #[trigger] s[i] != '?' && s[i] != '#' by {
        if i > 0 {
            assert(s[i] == body[i - 1]);
        }
    }
    lacking_is_whole(s, "?"@);
    lacking_is_whole(s, "#"@);
    assert(rooted(s) == s);
    // Brackets.
    assert(bracketed(written, first, '{', '}')) by {
        assert forall|i: int| 0 <= i < written.len() implies {
            ||| lacks(#[trigger] written[i], '{') && first[i] == written[i]
            ||| first[i] == "{}"@ && written[i].len() >= 2 && written[i] == seq!['{'] + inside(written[i]) + seq!['}']
                && lacks(inside(written[i]), '}')
        } by {
            segment_is_read(parts[i]);
        }
    }
    collapses_by_segment(written, first, '{', '}');
    collapses_behind("/"@, body, '{', '}');
    assert(bracketed(first, second, '<', '>')) by {
        assert forall|i: int| 0 <= i < first.len() implies {
            ||| lacks(#[trigger] first[i], '<') && second[i] == first[i]
            ||| second[i] == "{}"@ && first[i].len() >= 2 && first[i] == seq!['<'] + inside(first[i]) + seq!['>'] && lacks(
                inside(first[i]),
                '>',
            )
        } by {
            segment_is_read(parts[i]);
        }
    }
    collapses_by_segment(first, second, '<', '>');
    collapses_behind("/"@, joined(first, "/"@), '<', '>');
    // Colons.
    let root = seq![Seq::<char>::empty()];
    assert forall|i: int| 0 <= i < parts.len() implies lacks(#[trigger] second[i], '/') && lacks(third[i], '/') && lacks(
        fourth[i],
        '/',
    ) by {
        segment_is_read(parts[i]);
    }
    rooted_pieces(second);
    assert(colons_collapsed(root + second) =~= root + third) by {
        assert forall|i: int| 0 <= i < (root + second).len() implies #[trigger] colons_collapsed(root + second)[i] == (root
            + third)[i] by {
            if i > 0 {
                segment_is_read(parts[i - 1]);
                assert((root + second)[i] == unbracketed(parts[i - 1]));
                assert((root + third)[i] == named(parts[i - 1]));
            }
        }
    }
    assert forall|i: int| 0 <= i < third.len() implies lacks(#[trigger] third[i], '/') by {
        assert(lacks(second[i], '/'));
    }
    rooted_pieces(third);
    assert(params_collapsed(s) == "/"@ + joined(third, "/"@));
    // Numbers.
    assert(numbers_collapsed(root + third) =~= root + fourth) by {
        assert forall|i: int| 0 <= i < (root + third).len() implies #[trigger] numbers_collapsed(root + third)[i] == (root
            + fourth)[i] by {
            if i > 0 {
                segment_is_read(parts[i - 1]);
                assert((root + third)[i] == named(parts[i - 1]));
                assert((root + fourth)[i] == keyed(parts[i - 1]));
            }
        }
    }
    assert forall|i: int| 0 <= i < fourth.len() implies (#[trigger] fourth[i]).len() > 0 && lacks(fourth[i], '/') by {
        segment_is_read(parts[i]);
    }
    rooted_pieces(fourth);
    joined_is_tight(fourth);
    let key = "/"@ + joined(fourth, "/"@);
    assert(key.last() == joined(fourth, "/"@).last());
    segment_is_read(parts[parts.len() - 1]);
    assert(key.last() != '/') by {
        assert(fourth[fourth.len() - 1] == keyed(parts[parts.len() - 1]));
    }
    assert(without_tail(key) == key);
}

/// Two sides that write the parameters of a route in different ways meet on
/// one key.
pub proof fn spellings_meet(a: Seq<Segment>, b: Seq<Segment>)
    requires
        a.len() > 0,
        a.len() == b.len(),
        forall|i: int| 0 <= i < a.len() ==> spelled_well(#[trigger] a[i]),
        forall|i: int| 0 <= i < b.len() ==> spelled_well(#[trigger] b[i]),
        forall|i: int|
            0 <= i < a.len() ==> ((#[trigger] a[i]).0 is Literal) == (b[i].0 is Literal) && (a[i].0 is Literal ==> a[i].1
                == b[i].1),
    ensures
        normalized(route(a)) == normalized(route(b)),
{
    routes_have_one_key(a);
    routes_have_one_key(b);
    let x = a.map_values(|p: Segment| keyed(p));
    let y = b.map_values(|p: Segment| keyed(p));
    assert(x =~= y) by {
        assert forall|i: int| 0 <= i < a.len() implies x[i] == y[i] by {
            assert((a[i].0 is Literal) == (b[i].0 is Literal));
        }
    }
}


/// A client that names a host meets a server that does not: the scheme and the
/// host of a route have no part in its key.
pub proof fn hosts_do_not_matter(scheme: Seq<char>, host: Seq<char>, path: Seq<char>)
    requires
        scheme.len() > 0,
        lacks(scheme, ':'),
        !is_space(scheme[0]),
        lacks(host, '/'),
        path.len() > 0,
        path[0] == '/',
        !is_space(path.last()),
        cut(path, "://"@) is None,
    ensures
        normalized(scheme + "://"@ + host + path) == normalized(path),
{
    reveal_strlit("://");
    let s = scheme + "://"@ + host + path;
    assert(s[0] == scheme[0]);
    assert(s.last() == path.last());
    untrimmed(s);
    untrimmed(path);
    let k = scheme.len() as int;
    find_is_first(s, "://"@, 0);
    assert(s.subrange(k, k + 3) =~= "://"@);
    assert(occurs_at(s, "://"@, k));
    assert forall|j: int| 0 <= j < k implies !occurs_at(s, "://"@, j) by {
        if occurs_at(s, "://"@, j) {
            assert(s.subrange(j, j + 3)[0] == ':');
            assert(s[j] == scheme[j]);
        }
    }
    assert(find(s, "://"@) == Some(k));
    let after = host + path;
    assert(s.skip(k + 3) =~= after);
    skips_lacking(host, path, '/', 0);
    assert(after[host.len() as int] == path[0]);
    assert(find_char(after, '/') == Some(host.len() as int));
    assert(after.skip(host.len() as int) =~= path);
}

/// What does not occur in a text does not occur in its beginning.
proof fn absent_from_the_front(x: Seq<char>, y: Seq<char>, p: Seq<char>)
    requires
        find(x + y, p) is None,
    ensures
        find(x, p) is None,
{
    find_is_first(x + y, p, 0);
    find_is_first(x, p, 0);
    if let Some(i) = find(x, p) {
        assert((x + y).subrange(i, i + p.len()) =~= x.subrange(i, i + p.len()));
        assert(occurs_at(x + y, p, i));
    }
}

/// What follows a character is cut off.
proof fn cuts_at(x: Seq<char>, p: Seq<char>, y: Seq<char>)
    requires
        p.len() == 1,
        lacks(x, p[0]),
    ensures
        before_first(x + p + y, p) == x,
{
    let s = x + p + y;
    let k = x.len() as int;
    find_is_first(s, p, 0);
    assert(s.subrange(k, k + 1) =~= p);
    assert(occurs_at(s, p, k));
    assert forall|j: int| 0 <= j < k implies !occurs_at(s, p, j) by {
        if occurs_at(s, p, j) {
            assert(s.subrange(j, j + 1)[0] == s[j]);
            assert(s[j] == x[j]);
        }
    }
    assert(s.take(k) =~= x);
}

/// What a client asks after the path has no part in the key.
pub proof fn queries_do_not_matter(path: Seq<char>, query: Seq<char>)
    requires
        path.len() > 0,
        !is_space(path[0]),
        !is_space(path.last()),
        lacks(path, '?'),
        query.len() > 0 ==> !is_space(query.last()),
        cut(path + "?"@ + query, "://"@) is None,
    ensures
        normalized(path + "?"@ + query) == normalized(path),
{
    reveal_strlit("?");
    let s = path + "?"@ + query;
    assert(trimmed(s) == s) by {
        assert(s[0] == path[0]);
        if query.len() > 0 {
            assert(s.last() == query.last());
        } else {
            assert(s.last() == '?');
        }
        untrimmed(s);
    }
    assert(trimmed(path) == path) by {
        untrimmed(path);
    }
    assert(cut(path, "://"@) is None) by {
        assert(s =~= path + ("?"@ + query));
        absent_from_the_front(path, "?"@ + query, "://"@);
    }
    assert(without_host(s) == s && without_host(path) == path);
    assert(before_first(s, "?"@) == path) by {
        cuts_at(path, "?"@, query);
    }
    assert(before_first(path, "?"@) == path) by {
        lacking_is_whole(path, "?"@);
    }
}

// ---------------------------------------------------------------------------
// Verbs
// ---------------------------------------------------------------------------

/// The capitals of an HTTP verb in small letters; `None` for what is no verb.
pub open spec fn capital_verb(verb: Seq<char>) -> Option<Seq<char>> {
    if verb == "get"@ {
        Some("GET"@)
    } else if verb == "post"@ {
        Some("POST"@)
    } else if verb == "put"@ {
        Some("PUT"@)
    } else if verb == "patch"@ {
        Some("PATCH"@)
    } else if verb == "delete"@ {
        Some("DELETE"@)
    } else if verb == "head"@ {
        Some("HEAD"@)
    } else if verb == "options"@ {
        Some("OPTIONS"@)
    } else {
        None
    }
}

proof fn small_and_capital(small: Seq<char>, capital: Seq<char>)
    requires
        small.len() == capital.len(),
        forall|i: int|
            0 <= i < small.len() ==> 'a' <= #[trigger] small[i] <= 'z' && capital[i] as int == small[i] as int - 32,
    ensures
        uppercase(small) == capital,
{
    assert(all_ascii(small));
    assert(crate::text::ascii_uppercase(small) =~= capital);
}

/// The verbs are those seven, and their upper case is their capitals.
pub proof fn capital_verbs_hold(verb: Seq<char>)
    ensures
        http_verb(verb) <==> capital_verb(verb) is Some,
        capital_verb(verb) is Some ==> uppercase(verb) == capital_verb(verb)->0,
{
    reveal_strlit("get");
    reveal_strlit("post");
    reveal_strlit("put");
    reveal_strlit("patch");
    reveal_strlit("delete");
    reveal_strlit("head");
    reveal_strlit("options");
    reveal_strlit("GET");
    reveal_strlit("POST");
    reveal_strlit("PUT");
    reveal_strlit("PATCH");
    reveal_strlit("DELETE");
    reveal_strlit("HEAD");
    reveal_strlit("OPTIONS");
    small_and_capital("get"@, "GET"@);
    small_and_capital("post"@, "POST"@);
    small_and_capital("put"@, "PUT"@);
    small_and_capital("patch"@, "PATCH"@);
    small_and_capital("delete"@, "DELETE"@);
    small_and_capital("head"@, "HEAD"@);
    small_and_capital("options"@, "OPTIONS"@);
    let all = HTTP_VERBS@;
    assert(all[0]@ == "get"@ && all[1]@ == "post"@ && all[2]@ == "put"@ && all[3]@ == "patch"@ && all[4]@ == "delete"@
        && all[5]@ == "head"@ && all[6]@ == "options"@);
}

/// Keys of a verb and a path tell the verb: they are the same only where the verbs
/// are, and with the same path exactly where the verbs are.
pub proof fn verbs_part_keys(a: Seq<char>, b: Seq<char>, path: Seq<char>, other: Seq<char>)
    requires
        capital_verb(a) is Some,
        capital_verb(b) is Some,
    ensures
        capital_verb(a)->0 + " "@ + path == capital_verb(b)->0 + " "@ + other ==> a == b && path == other,
        a == b && path == other ==> capital_verb(a)->0 + " "@ + path == capital_verb(b)->0 + " "@ + other,
{
    reveal_strlit("get");
    reveal_strlit("post");
    reveal_strlit("put");
    reveal_strlit("patch");
    reveal_strlit("delete");
    reveal_strlit("head");
    reveal_strlit("options");
    reveal_strlit("GET");
    reveal_strlit("POST");
    reveal_strlit("PUT");
    reveal_strlit("PATCH");
    reveal_strlit("DELETE");
    reveal_strlit("HEAD");
    reveal_strlit("OPTIONS");
    reveal_strlit(" ");
    let (v, w) = (capital_verb(a)->0, capital_verb(b)->0);
    let (x, y) = (v + " "@ + path, w + " "@ + other);
    if x == y {
        assert(x[v.len() as int] == ' ');
        assert(y[w.len() as int] == ' ');
        assert(forall|i: int| 0 <= i < v.len() ==> #[trigger] v[i] != ' ');
        assert(forall|i: int| 0 <= i < w.len() ==> #[trigger] w[i] != ' ');
        if v.len() < w.len() {
            assert(y[v.len() as int] == w[v.len() as int]);
        }
        if w.len() < v.len() {
            assert(x[w.len() as int] == v[w.len() as int]);
        }
        assert(v.len() == w.len());
        assert(v =~= x.take(v.len() as int));
        assert(w =~= y.take(w.len() as int));
        assert(v == w);
        assert(v[0] == w[0] && v[1] == w[1]);
        assert(path =~= x.skip(v.len() as int + 1));
        assert(other =~= y.skip(w.len() as int + 1));
    }
}

}
