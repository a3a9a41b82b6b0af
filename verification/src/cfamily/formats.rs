//! What the format strings of URLs promise: a client that writes its path with a
//! format meets the route that names a parameter in its place.

use vstd::prelude::*;

use crate::boundaries::normalized;
use crate::cfamily::boundary::{
    format_pattern, pattern_from, specifier_end, specifier_end_bounds, FORMAT_CONVERSIONS, FORMAT_MODIFIERS, PLACEHOLDER,
};
use crate::routes::{keyed, route, route_key, routes_have_one_key, spelled, spelled_well, Segment, Spelling};
use crate::strings::{find_char_is_first, has_char, joined, joined_front, lacks};

verus! {

/// Whether a text is what follows the percent sign of a format specifier: any
/// modifiers, and a conversion at the end.
pub open spec fn is_specifier(s: Seq<char>) -> bool {
    &&& s.len() > 0
    &&& has_char(FORMAT_CONVERSIONS@, s.last())
    &&& forall|i: int|
        0 <= i < s.len() - 1 ==> has_char(FORMAT_MODIFIERS@, #[trigger] s[i]) && !has_char(FORMAT_CONVERSIONS@, s[i])
}

/// A segment of a format: a literal, or a specifier in place of a parameter.
pub open spec fn formatted(part: Segment) -> Seq<char> {
    match part.0 {
        Spelling::Literal => part.1,
        _ => seq!['%'] + part.1,
    }
}

/// Whether a segment can stand in a format.
pub open spec fn formatted_well(part: Segment) -> bool {
    if part.0 is Literal {
        spelled_well(part) && lacks(part.1, '%')
    } else {
        is_specifier(part.1)
    }
}

/// A path in a format.
pub open spec fn format_of(parts: Seq<Segment>) -> Seq<char> {
    "/"@ + joined(parts.map_values(|p: Segment| formatted(p)), "/"@)
}

/// A segment with nothing between the braces of a parameter.
pub open spec fn unnamed(part: Segment) -> Segment {
    match part.0 {
        Spelling::Literal => part,
        _ => (Spelling::Braces, Seq::<char>::empty()),
    }
}

/// The end of a specifier does not depend on what stands before it.
proof fn specifier_end_behind(x: Seq<char>, y: Seq<char>, i: int)
    requires
        0 <= i <= y.len(),
    ensures
        specifier_end(x + y, x.len() + i) == x.len() + specifier_end(y, i),
    decreases y.len() - i,
{
    if i < y.len() {
        assert((x + y)[x.len() + i] == y[i]);
        if !(has_char(FORMAT_CONVERSIONS@, y[i]) || !has_char(FORMAT_MODIFIERS@, y[i])) {
            specifier_end_behind(x, y, i + 1);
        }
    }
}

/// The pattern of the rest of a format does not depend on what stands before it.
proof fn pattern_behind(x: Seq<char>, y: Seq<char>, i: int)
    requires
        0 <= i <= y.len(),
    ensures
        pattern_from(x + y, x.len() + i) == pattern_from(y, i),
    decreases y.len() - i,
{
    let s = x + y;
    let k = x.len() + i;
    if i < y.len() {
        assert(s[k] == y[i]);
        if y[i] != '%' {
            pattern_behind(x, y, i + 1);
        } else if i + 1 < y.len() && y[i + 1] == '%' {
            assert(s[k + 1] == y[i + 1]);
            pattern_behind(x, y, i + 2);
        } else {
            if i + 1 < y.len() {
                assert(s[k + 1] == y[i + 1]);
            }
            specifier_end_behind(x, y, i + 1);
            specifier_end_bounds(y, i + 1);
            pattern_behind(x, y, specifier_end(y, i + 1));
        }
    }
}

/// What holds no percent sign is its own pattern.
proof fn pattern_of_plain(x: Seq<char>, y: Seq<char>)
    requires
        lacks(x, '%'),
    ensures
        format_pattern(x + y) == x + format_pattern(y),
    decreases x.len(),
{
    if x.len() == 0 {
        assert(x + y =~= y);
        assert(x + format_pattern(y) =~= format_pattern(y));
    } else {
        let head = seq![x[0]];
        let rest = x.skip(1);
        assert(x + y =~= head + (rest + y));
        assert((x + y)[0] == x[0]);
        assert forall|i: int| 0 <= i < rest.len() implies #[trigger] rest[i] != '%' by {
            assert(rest[i] == x[i + 1]);
        }
        pattern_of_plain(rest, y);
        pattern_behind(head, rest + y, 0);
        assert(head + (rest + format_pattern(y)) =~= x + format_pattern(y));
    }
}

/// Where a specifier ends that begins at `i`.
proof fn specifier_is_whole(s: Seq<char>, y: Seq<char>, i: int)
    requires
        is_specifier(s),
        0 <= i < s.len(),
    ensures
        specifier_end(s + y, i) == s.len(),
    decreases s.len() - i,
{
    assert((s + y)[i] == s[i]);
    if i < s.len() - 1 {
        specifier_is_whole(s, y, i + 1);
    }
}

/// A percent sign is no part of a specifier.
proof fn percent_is_no_mark()
    ensures
        !has_char(FORMAT_MODIFIERS@, '%'),
        !has_char(FORMAT_CONVERSIONS@, '%'),
{
    reveal_strlit("-+ #0123456789.*'hlLqjzt");
    reveal_strlit("diouxXeEfFgGaAcspn");
    let modifiers = FORMAT_MODIFIERS@;
    let conversions = FORMAT_CONVERSIONS@;
    assert forall|i: int| 0 <= i < modifiers.len() implies #[trigger] modifiers[i] != '%' by {}
    assert forall|i: int| 0 <= i < conversions.len() implies #[trigger] conversions[i] != '%' by {}
    find_char_is_first(modifiers, '%', 0);
    find_char_is_first(conversions, '%', 0);
}

/// A whole specifier becomes a placeholder.
proof fn pattern_of_specifier(sp: Seq<char>, y: Seq<char>)
    requires
        is_specifier(sp),
    ensures
        format_pattern(seq!['%'] + sp + y) == PLACEHOLDER@ + format_pattern(y),
{
    percent_is_no_mark();
    let s = seq!['%'] + sp + y;
    let sign = seq!['%'];
    assert(s =~= sign + (sp + y));
    assert(s[1] == sp[0]);
    assert(sp[0] != '%') by {
        if sp.len() > 1 {
            assert(has_char(FORMAT_MODIFIERS@, sp[0]));
        }
    }
    specifier_is_whole(sp, y, 0);
    specifier_end_behind(sign, sp + y, 0);
    let before = sign + sp;
    assert(s =~= before + y);
    pattern_behind(before, y, 0);
}

/// Formats are read segment by segment.
proof fn pattern_by_segment(parts: Seq<Segment>)
    requires
        parts.len() > 0,
        forall|i: int| 0 <= i < parts.len() ==> formatted_well(#[trigger] parts[i]),
    ensures
        format_pattern(joined(parts.map_values(|p: Segment| formatted(p)), "/"@)) == joined(
            parts.map_values(|p: Segment| unnamed(p)).map_values(|p: Segment| spelled(p)),
            "/"@,
        ),
    decreases parts.len(),
{
    reveal_strlit("/");
    reveal_strlit("{}");
    let u = parts.map_values(|p: Segment| formatted(p));
    let v = parts.map_values(|p: Segment| unnamed(p)).map_values(|p: Segment| spelled(p));
    let first = parts[0];
    let none = Seq::<char>::empty();
    assert(formatted_well(first));
    assert(v[0] == spelled(unnamed(first)));
    assert(format_pattern(none) == none);
    if !(first.0 is Literal) {
        assert(v[0] =~= PLACEHOLDER@);
    }
    if parts.len() == 1 {
        assert(u[0] + none =~= u[0]);
        assert(v[0] + none =~= v[0]);
        if first.0 is Literal {
            pattern_of_plain(first.1, none);
        } else {
            pattern_of_specifier(first.1, none);
        }
    } else {
        joined_front(u, "/"@);
        joined_front(v, "/"@);
        let rest = parts.skip(1);
        assert(u.skip(1) =~= rest.map_values(|p: Segment| formatted(p)));
        assert(v.skip(1) =~= rest.map_values(|p: Segment| unnamed(p)).map_values(|p: Segment| spelled(p)));
        assert forall|i: int| 0 <= i < rest.len() implies formatted_well(#[trigger] rest[i]) by {
            assert(rest[i] == parts[i + 1]);
        }
        pattern_by_segment(rest);
        let tail = joined(u.skip(1), "/"@);
        let after = joined(v.skip(1), "/"@);
        pattern_of_plain("/"@, tail);
        assert(u[0] + "/"@ + tail =~= u[0] + ("/"@ + tail));
        assert(v[0] + "/"@ + after =~= v[0] + ("/"@ + after));
        if first.0 is Literal {
            pattern_of_plain(first.1, "/"@ + tail);
        } else {
            pattern_of_specifier(first.1, "/"@ + tail);
        }
    }
}

/// A path that is written with a format has the key of the route that names a
/// parameter where the format has a specifier.
pub proof fn formats_meet_routes(parts: Seq<Segment>)
    requires
        parts.len() > 0,
        forall|i: int| 0 <= i < parts.len() ==> formatted_well(#[trigger] parts[i]),
    ensures
        format_pattern(format_of(parts)) == route(parts.map_values(|p: Segment| unnamed(p))),
        normalized(format_pattern(format_of(parts))) == route_key(parts),
{
    reveal_strlit("/");
    let bare = parts.map_values(|p: Segment| unnamed(p));
    let body = joined(parts.map_values(|p: Segment| formatted(p)), "/"@);
    pattern_by_segment(parts);
    pattern_of_plain("/"@, body);
    assert forall|i: int| 0 <= i < bare.len() implies spelled_well(#[trigger] bare[i]) by {
        assert(formatted_well(parts[i]));
    }
    routes_have_one_key(bare);
    assert(bare.map_values(|p: Segment| keyed(p)) =~= parts.map_values(|p: Segment| keyed(p)));
}

}
