//! Searching, trimming, cutting and joining strings.

use vstd::prelude::*;

use crate::text::{add_item, chars_of, is_digit, is_space, same, space, string_of, string_of_all, views};

verus! {

// ---------------------------------------------------------------------------
// Specifications
// ---------------------------------------------------------------------------

/// Whether `p` occurs in `s` at position `i`.
pub open spec fn occurs_at(s: Seq<char>, p: Seq<char>, i: int) -> bool {
    0 <= i && i + p.len() <= s.len() && s.subrange(i, i + p.len()) == p
}

/// Whether `s` begins with `p`.
pub open spec fn begins(s: Seq<char>, p: Seq<char>) -> bool {
    occurs_at(s, p, 0)
}

/// Whether `s` ends with `p`.
pub open spec fn ends(s: Seq<char>, p: Seq<char>) -> bool {
    occurs_at(s, p, s.len() - p.len())
}

/// The first position from `i` on at which `p` occurs in `s`.
pub open spec fn find_from(s: Seq<char>, p: Seq<char>, i: int) -> Option<int>
    decreases s.len() - i + 1,
{
    if i < 0 || i + p.len() > s.len() {
        None
    } else if occurs_at(s, p, i) {
        Some(i)
    } else {
        find_from(s, p, i + 1)
    }
}

/// The first position at which `p` occurs in `s`.
pub open spec fn find(s: Seq<char>, p: Seq<char>) -> Option<int> {
    find_from(s, p, 0)
}

/// The last position up to `i` at which `p` occurs in `s`.
pub open spec fn rfind_to(s: Seq<char>, p: Seq<char>, i: int) -> Option<int>
    decreases i + 1,
{
    if i < 0 {
        None
    } else if occurs_at(s, p, i) {
        Some(i)
    } else {
        rfind_to(s, p, i - 1)
    }
}

/// The last position at which `p` occurs in `s`.
pub open spec fn rfind(s: Seq<char>, p: Seq<char>) -> Option<int> {
    rfind_to(s, p, s.len() - p.len())
}

/// Whether `p` occurs in `s`.
pub open spec fn has(s: Seq<char>, p: Seq<char>) -> bool {
    find(s, p) is Some
}

/// The first position from `i` on of the character `c`.
pub open spec fn find_char_from(s: Seq<char>, c: char, i: int) -> Option<int>
    decreases s.len() - i,
{
    if i < 0 || i >= s.len() {
        None
    } else if s[i] == c {
        Some(i)
    } else {
        find_char_from(s, c, i + 1)
    }
}

/// The first position of the character `c`.
pub open spec fn find_char(s: Seq<char>, c: char) -> Option<int> {
    find_char_from(s, c, 0)
}

/// Whether the character `c` occurs in `s`.
pub open spec fn has_char(s: Seq<char>, c: char) -> bool {
    find_char(s, c) is Some
}

/// What follows the last occurrence of `p`; the whole string where there is none.
pub open spec fn after_last(s: Seq<char>, p: Seq<char>) -> Seq<char> {
    match rfind(s, p) {
        Some(i) => s.skip(i + p.len()),
        None => s,
    }
}

/// What precedes and what follows the first occurrence of `p`.
pub open spec fn cut(s: Seq<char>, p: Seq<char>) -> Option<(Seq<char>, Seq<char>)> {
    match find(s, p) {
        Some(i) => Some((s.take(i), s.skip(i + p.len()))),
        None => None,
    }
}

/// What precedes the first occurrence of `p`; the whole string where there is none.
pub open spec fn before_first(s: Seq<char>, p: Seq<char>) -> Seq<char> {
    match find(s, p) {
        Some(i) => s.take(i),
        None => s,
    }
}

/// `s` without the prefix `p`, where it begins with it.
pub open spec fn strip_front(s: Seq<char>, p: Seq<char>) -> Option<Seq<char>> {
    if begins(s, p) {
        Some(s.skip(p.len() as int))
    } else {
        None
    }
}

/// `s` without the suffix `p`, where it ends with it.
pub open spec fn strip_back(s: Seq<char>, p: Seq<char>) -> Option<Seq<char>> {
    if ends(s, p) {
        Some(s.take(s.len() - p.len()))
    } else {
        None
    }
}

/// `s` without the white space at its start.
pub open spec fn trimmed_start(s: Seq<char>) -> Seq<char>
    decreases s.len(),
{
    if s.len() > 0 && is_space(s[0]) {
        trimmed_start(s.skip(1))
    } else {
        s
    }
}

/// `s` without the white space at its end.
pub open spec fn trimmed_end(s: Seq<char>) -> Seq<char>
    decreases s.len(),
{
    if s.len() > 0 && is_space(s.last()) {
        trimmed_end(s.drop_last())
    } else {
        s
    }
}

/// `s` without the white space at both ends.
pub open spec fn trimmed(s: Seq<char>) -> Seq<char> {
    trimmed_end(trimmed_start(s))
}

/// `s` without the leading run of the character `c`.
pub open spec fn without_leading(s: Seq<char>, c: char) -> Seq<char>
    decreases s.len(),
{
    if s.len() > 0 && s[0] == c {
        without_leading(s.skip(1), c)
    } else {
        s
    }
}

/// `s` without the trailing run of the character `c`.
pub open spec fn without_trailing(s: Seq<char>, c: char) -> Seq<char>
    decreases s.len(),
{
    if s.len() > 0 && s.last() == c {
        without_trailing(s.drop_last(), c)
    } else {
        s
    }
}

/// `s` without the runs of the character `c` at both ends.
pub open spec fn without_around(s: Seq<char>, c: char) -> Seq<char> {
    without_trailing(without_leading(s, c), c)
}

/// The pieces of `s` between occurrences of the character `c`.
pub open spec fn pieces(s: Seq<char>, c: char) -> Seq<Seq<char>>
    decreases s.len(),
{
    match find_char(s, c) {
        Some(i) => if 0 <= i < s.len() {
            seq![s.take(i)] + pieces(s.skip(i + 1), c)
        } else {
            seq![s]
        },
        None => seq![s],
    }
}

/// The strings of a list with `sep` between each two of them.
pub open spec fn joined(parts: Seq<Seq<char>>, sep: Seq<char>) -> Seq<char>
    decreases parts.len(),
{
    if parts.len() == 0 {
        Seq::empty()
    } else if parts.len() == 1 {
        parts[0]
    } else {
        joined(parts.drop_last(), sep) + sep + parts.last()
    }
}

/// A line without the carriage return at its end.
pub open spec fn without_cr(s: Seq<char>) -> Seq<char> {
    if s.len() > 0 && s.last() == '\r' {
        s.drop_last()
    } else {
        s
    }
}

/// The lines of a text: each ends at a line feed or at a carriage return and a
/// line feed; a last line may have neither.
pub open spec fn text_lines(s: Seq<char>) -> Seq<Seq<char>>
    decreases s.len(),
{
    if s.len() == 0 {
        Seq::empty()
    } else {
        match find_char(s, '\n') {
            Some(i) => if 0 <= i < s.len() {
                seq![without_cr(s.take(i))] + text_lines(s.skip(i + 1))
            } else {
                seq![s]
            },
            None => seq![s],
        }
    }
}

/// The first position from `i` on of a white space character, or the length.
pub open spec fn space_from(s: Seq<char>, i: int) -> int
    decreases s.len() - i,
{
    if i < 0 || i >= s.len() {
        s.len() as int
    } else if is_space(s[i]) {
        i
    } else {
        space_from(s, i + 1)
    }
}

/// The words of a text: its longest runs without white space.
pub open spec fn words(s: Seq<char>) -> Seq<Seq<char>>
    decreases s.len(),
{
    if s.len() == 0 {
        Seq::empty()
    } else if is_space(s[0]) {
        words(s.skip(1))
    } else {
        let k = space_from(s, 0);
        if 0 < k <= s.len() {
            seq![s.take(k)] + words(s.skip(k))
        } else {
            Seq::empty()
        }
    }
}

/// `s` with every occurrence of `p`, read from the left, replaced by `r`.
pub open spec fn replaced(s: Seq<char>, p: Seq<char>, r: Seq<char>) -> Seq<char>
    decreases s.len(),
{
    match find(s, p) {
        Some(i) => if p.len() > 0 && 0 <= i && i + p.len() <= s.len() {
            s.take(i) + r + replaced(s.skip(i + p.len()), p, r)
        } else {
            s
        },
        None => s,
    }
}

/// Whether string `a` comes before string `b`: the order of their first
/// differing characters, a prefix before what extends it.
pub open spec fn before(a: Seq<char>, b: Seq<char>) -> bool
    decreases a.len(),
{
    if b.len() == 0 {
        false
    } else if a.len() == 0 {
        true
    } else if a[0] != b[0] {
        a[0] < b[0]
    } else {
        before(a.skip(1), b.skip(1))
    }
}

/// The order of strings is that of a dictionary: behind a common beginning the
/// smaller character decides, and what ends first comes first.
pub proof fn before_is_lexicographic(common: Seq<char>, a: Seq<char>, b: Seq<char>)
    requires
        b.len() > 0,
        a.len() > 0 ==> a[0] < b[0],
    ensures
        before(common + a, common + b),
        !before(common + b, common + a),
    decreases common.len(),
{
    if common.len() == 0 {
        assert(common + a =~= a);
        assert(common + b =~= b);
    } else {
        let rest = common.skip(1);
        before_is_lexicographic(rest, a, b);
        assert((common + a).skip(1) =~= rest + a);
        assert((common + b).skip(1) =~= rest + b);
    }
}

// ---------------------------------------------------------------------------
// Facts
// ---------------------------------------------------------------------------

/// The first occurrence counted from an offset is the first of what follows.
pub proof fn char_found_later(s: Seq<char>, c: char, k: int, i: int)
    requires
        0 <= k <= i,
        k <= s.len(),
    ensures
        find_char_from(s, c, i) == (match find_char_from(s.skip(k), c, i - k) {
            Some(j) => Some(j + k),
            None => None,
        }),
    decreases s.len() - i,
{
    if i < s.len() {
        assert(s.skip(k)[i - k] == s[i]);
        char_found_later(s, c, k, i + 1);
    }
}

/// The first of some strings that are joined.
pub proof fn joined_front(parts: Seq<Seq<char>>, sep: Seq<char>)
    requires
        parts.len() >= 2,
    ensures
        joined(parts, sep) == parts[0] + sep + joined(parts.skip(1), sep),
    decreases parts.len(),
{
    if parts.len() == 2 {
        assert(joined(parts.drop_last(), sep) == parts[0]);
        assert(joined(parts.skip(1), sep) == parts[1]);
    } else {
        joined_front(parts.drop_last(), sep);
        assert(parts.skip(1).drop_last() =~= parts.drop_last().skip(1));
        assert(joined(parts.skip(1), sep) == joined(parts.drop_last().skip(1), sep) + sep + parts.last());
        assert(joined(parts, sep) =~= parts[0] + sep + joined(parts.skip(1), sep));
    }
}

/// Whether a character does not occur.
pub open spec fn lacks(s: Seq<char>, c: char) -> bool {
    forall|i: int| 0 <= i < s.len() ==> #[trigger] s[i] != c
}

/// What lacks a character has no first position of it.
pub proof fn lacking_is_not_found(s: Seq<char>, c: char, i: int)
    requires
        lacks(s, c),
    ensures
        find_char_from(s, c, i) is None,
    decreases s.len() - i,
{
    if 0 <= i < s.len() {
        lacking_is_not_found(s, c, i + 1);
    }
}

/// The pieces of a text lack what it is split at.
pub proof fn pieces_lack(s: Seq<char>, c: char)
    ensures
        pieces(s, c).len() > 0,
        forall|i: int| 0 <= i < pieces(s, c).len() ==> lacks(#[trigger] pieces(s, c)[i], c),
    decreases s.len(),
{
    find_char_is_first(s, c, 0);
    if let Some(i) = find_char(s, c) {
        pieces_lack(s.skip(i + 1), c);
        let rest = pieces(s.skip(i + 1), c);
        assert forall|k: int| 0 <= k < pieces(s, c).len() implies lacks(#[trigger] pieces(s, c)[k], c) by {
            if k > 0 {
                assert(pieces(s, c)[k] == rest[k - 1]);
            }
        }
    }
}

/// Splitting undoes joining.
pub proof fn pieces_of_joined(parts: Seq<Seq<char>>)
    requires
        parts.len() > 0,
        forall|i: int| 0 <= i < parts.len() ==> lacks(#[trigger] parts[i], '/'),
    ensures
        pieces(joined(parts, "/"@), '/') == parts,
    decreases parts.len(),
{
    reveal_strlit("/");
    let s = joined(parts, "/"@);
    if parts.len() == 1 {
        lacking_is_not_found(s, '/', 0);
        assert(pieces(s, '/') =~= parts);
    } else {
        joined_front(parts, "/"@);
        let rest = parts.skip(1);
        assert forall|i: int| 0 <= i < rest.len() implies lacks(#[trigger] rest[i], '/') by {
            assert(rest[i] == parts[i + 1]);
        }
        pieces_of_joined(rest);
        let k = parts[0].len() as int;
        find_char_is_first(s, '/', 0);
        assert(s[k] == '/');
        assert forall|i: int| 0 <= i < k implies #[trigger] s[i] != '/' by {
            assert(s[i] == parts[0][i]);
        }
        assert(find_char(s, '/') == Some(k));
        assert(s.take(k) =~= parts[0]);
        assert(s.skip(k + 1) =~= joined(rest, "/"@));
        assert(pieces(s, '/') =~= parts);
    }
}

/// Joining undoes splitting.
pub proof fn joined_of_pieces(s: Seq<char>)
    ensures
        joined(pieces(s, '/'), "/"@) == s,
    decreases s.len(),
{
    reveal_strlit("/");
    find_char_is_first(s, '/', 0);
    if let Some(i) = find_char(s, '/') {
        let rest = s.skip(i + 1);
        joined_of_pieces(rest);
        pieces_lack(rest, '/');
        let parts = pieces(s, '/');
        assert(parts =~= seq![s.take(i)] + pieces(rest, '/'));
        joined_front(parts, "/"@);
        assert(parts.skip(1) =~= pieces(rest, '/'));
        assert(s =~= s.take(i) + "/"@ + rest);
    }
}

/// What `find_char_from` returns is the first position of the character.
pub proof fn find_char_is_first(s: Seq<char>, c: char, i: int)
    requires
        0 <= i,
    ensures
        match find_char_from(s, c, i) {
            Some(k) => i <= k < s.len() && s[k] == c && forall|j: int| i <= j < k ==> s[j] != c,
            None => forall|j: int| i <= j < s.len() ==> s[j] != c,
        },
    decreases s.len() - i,
{
    if i < s.len() && s[i] != c {
        find_char_is_first(s, c, i + 1);
    }
}

/// What `find_from` returns is the first occurrence.
pub proof fn find_is_first(s: Seq<char>, p: Seq<char>, i: int)
    requires
        0 <= i,
    ensures
        match find_from(s, p, i) {
            Some(k) => i <= k && occurs_at(s, p, k) && forall|j: int| i <= j < k ==> !occurs_at(s, p, j),
            None => forall|j: int| i <= j ==> !occurs_at(s, p, j),
        },
    decreases s.len() - i + 1,
{
    if i + p.len() <= s.len() && !occurs_at(s, p, i) {
        find_is_first(s, p, i + 1);
    }
}

/// What `rfind_to` returns is the last occurrence.
pub proof fn rfind_is_last(s: Seq<char>, p: Seq<char>, i: int)
    ensures
        match rfind_to(s, p, i) {
            Some(k) => 0 <= k <= i && occurs_at(s, p, k) && forall|j: int| k < j <= i ==> !occurs_at(s, p, j),
            None => forall|j: int| j <= i ==> !occurs_at(s, p, j),
        },
    decreases i + 1,
{
    if i >= 0 && !occurs_at(s, p, i) {
        rfind_is_last(s, p, i - 1);
    }
}

/// The order of strings is irreflexive.
pub proof fn before_irreflexive(a: Seq<char>)
    ensures
        !before(a, a),
    decreases a.len(),
{
    if a.len() > 0 {
        before_irreflexive(a.skip(1));
    }
}

/// The order of strings is transitive.
pub proof fn before_transitive(a: Seq<char>, b: Seq<char>, c: Seq<char>)
    requires
        before(a, b),
        before(b, c),
    ensures
        before(a, c),
    decreases a.len(),
{
    if a.len() > 0 && b.len() > 0 && c.len() > 0 && a[0] == b[0] && b[0] == c[0] {
        before_transitive(a.skip(1), b.skip(1), c.skip(1));
    }
}

/// Of two strings one comes first, or they are the same.
pub proof fn before_total(a: Seq<char>, b: Seq<char>)
    ensures
        before(a, b) || before(b, a) || a == b,
    decreases a.len(),
{
    if a.len() > 0 && b.len() > 0 && a[0] == b[0] {
        before_total(a.skip(1), b.skip(1));
        if a.skip(1) == b.skip(1) {
            assert forall|i: int| 0 <= i < a.len() implies a[i] == b[i] by {
                if i > 0 {
                    assert(a.skip(1)[i - 1] == b.skip(1)[i - 1]);
                }
            }
            assert(a.skip(1).len() == b.skip(1).len());
            assert(a =~= b);
        }
    } else if a.len() == 0 && b.len() == 0 {
        assert(a =~= b);
    }
}

// ---------------------------------------------------------------------------
// Operations on lists of characters
// ---------------------------------------------------------------------------

/// Tells whether `p` occurs in `s` at position `i`.
pub fn occurs(s: &[char], p: &[char], i: usize) -> (r: bool)
    ensures
        r == occurs_at(s@, p@, i as int),
{
    if p.len() > s.len() || i > s.len() - p.len() {
        return false;
    }
    let n: usize = s.len();
    let mut k: usize = 0;
    while k < p.len()
        invariant
            k <= p@.len(),
            i + p@.len() <= s@.len(),
            n == s@.len(),
            forall|j: int| 0 <= j < k ==> s@[i + j] == p@[j],
        decreases p@.len() - k,
    {
        if s[i + k] != p[k] {
            proof {
                let w = s@.subrange(i as int, i + p@.len());
                assert(w[k as int] == s@[i + k]);
            }
            return false;
        }
        k += 1;
    }
    assert(s@.subrange(i as int, i + p@.len()) =~= p@);
    true
}

/// Finds the first occurrence of `p` in `s` from `from` on.
pub fn find_in(s: &[char], p: &[char], from: usize) -> (r: Option<usize>)
    ensures
        match r {
            Some(k) => find_from(s@, p@, from as int) == Some(k as int) && from <= k && k + p@.len() <= s@.len(),
            None => find_from(s@, p@, from as int) is None,
        },
{
    if p.len() > s.len() || from > s.len() - p.len() {
        return None;
    }
    let mut i: usize = from;
    loop
        invariant
            from <= i,
            i + p@.len() <= s@.len(),
            find_from(s@, p@, from as int) == find_from(s@, p@, i as int),
        decreases s@.len() - i,
    {
        if occurs(s, p, i) {
            return Some(i);
        }
        if i == s.len() - p.len() {
            assert(find_from(s@, p@, i + 1) is None);
            return None;
        }
        i += 1;
    }
}

/// Finds the last occurrence of `p` in `s`.
pub fn rfind_in(s: &[char], p: &[char]) -> (r: Option<usize>)
    ensures
        match r {
            Some(k) => rfind(s@, p@) == Some(k as int) && k + p@.len() <= s@.len(),
            None => rfind(s@, p@) is None,
        },
{
    if p.len() > s.len() {
        return None;
    }
    let mut i: usize = s.len() - p.len();
    loop
        invariant
            i + p@.len() <= s@.len(),
            rfind(s@, p@) == rfind_to(s@, p@, i as int),
        decreases i,
    {
        if occurs(s, p, i) {
            return Some(i);
        }
        if i == 0 {
            assert(rfind_to(s@, p@, -1) is None);
            return None;
        }
        i -= 1;
    }
}

/// Finds the first `c` in `s` from `from` on.
pub fn find_char_in(s: &[char], c: char, from: usize) -> (r: Option<usize>)
    ensures
        match r {
            Some(k) => find_char_from(s@, c, from as int) == Some(k as int) && from <= k < s@.len(),
            None => find_char_from(s@, c, from as int) is None,
        },
{
    let mut i: usize = from;
    while i < s.len()
        invariant
            from <= i,
            find_char_from(s@, c, from as int) == find_char_from(s@, c, i as int),
        decreases s@.len() - i,
    {
        if s[i] == c {
            return Some(i);
        }
        i += 1;
    }
    None
}

// ---------------------------------------------------------------------------
// Operations on strings
// ---------------------------------------------------------------------------

/// Tells whether `s` begins with `p`.
pub fn starts_with(s: &str, p: &str) -> (r: bool)
    ensures
        r == begins(s@, p@),
{
    let a = chars_of(s);
    let b = chars_of(p);
    occurs(a.as_slice(), b.as_slice(), 0)
}

/// Tells whether `s` ends with `p`.
pub fn ends_with(s: &str, p: &str) -> (r: bool)
    ensures
        r == ends(s@, p@),
{
    let a = chars_of(s);
    let b = chars_of(p);
    if b.len() > a.len() {
        return false;
    }
    occurs(a.as_slice(), b.as_slice(), a.len() - b.len())
}

/// Tells whether `p` occurs in `s`.
pub fn contains(s: &str, p: &str) -> (r: bool)
    ensures
        r == has(s@, p@),
{
    let a = chars_of(s);
    let b = chars_of(p);
    find_in(a.as_slice(), b.as_slice(), 0).is_some()
}

/// Tells whether the character `c` occurs in `s`.
pub fn contains_char(s: &str, c: char) -> (r: bool)
    ensures
        r == has_char(s@, c),
{
    let a = chars_of(s);
    find_char_in(a.as_slice(), c, 0).is_some()
}

/// Cuts `s` at the first occurrence of `p`.
pub fn split_once(s: &str, p: &str) -> (r: Option<(String, String)>)
    ensures
        match r {
            Some(x) => cut(s@, p@) == Some((x.0@, x.1@)),
            None => cut(s@, p@) is None,
        },
{
    let a = chars_of(s);
    let b = chars_of(p);
    let n: usize = a.len();
    match find_in(a.as_slice(), b.as_slice(), 0) {
        Some(i) => {
            let l = string_of(a.as_slice(), 0, i);
            let r = string_of(a.as_slice(), i + b.len(), n);
            Some((l, r))
        },
        None => None,
    }
}

/// What precedes the first occurrence of `p`, or the whole string.
pub fn until(s: &str, p: &str) -> (r: String)
    ensures
        r@ == before_first(s@, p@),
{
    let a = chars_of(s);
    let b = chars_of(p);
    match find_in(a.as_slice(), b.as_slice(), 0) {
        Some(i) => string_of(a.as_slice(), 0, i),
        None => string_of_all(a.as_slice()),
    }
}

/// What follows the last occurrence of `p`, or the whole string.
pub fn tail_after(s: &str, p: &str) -> (r: String)
    ensures
        r@ == after_last(s@, p@),
{
    let a = chars_of(s);
    let b = chars_of(p);
    let n: usize = a.len();
    match rfind_in(a.as_slice(), b.as_slice()) {
        Some(i) => string_of(a.as_slice(), i + b.len(), n),
        None => string_of_all(a.as_slice()),
    }
}

/// `s` without the prefix `p`.
pub fn strip_prefix(s: &str, p: &str) -> (r: Option<String>)
    ensures
        match r {
            Some(x) => strip_front(s@, p@) == Some(x@),
            None => strip_front(s@, p@) is None,
        },
{
    let a = chars_of(s);
    let b = chars_of(p);
    if occurs(a.as_slice(), b.as_slice(), 0) {
        Some(string_of(a.as_slice(), b.len(), a.len()))
    } else {
        None
    }
}

/// `s` without the suffix `p`.
pub fn strip_suffix(s: &str, p: &str) -> (r: Option<String>)
    ensures
        match r {
            Some(x) => strip_back(s@, p@) == Some(x@),
            None => strip_back(s@, p@) is None,
        },
{
    let a = chars_of(s);
    let b = chars_of(p);
    if b.len() <= a.len() && occurs(a.as_slice(), b.as_slice(), a.len() - b.len()) {
        Some(string_of(a.as_slice(), 0, a.len() - b.len()))
    } else {
        None
    }
}

/// The position at which the white space at the start of `s` ends.
fn leading_space(s: &[char]) -> (r: usize)
    ensures
        r <= s@.len(),
        trimmed_start(s@) == s@.skip(r as int),
{
    let mut i: usize = 0;
    assert(s@.skip(0) =~= s@);
    while i < s.len() && space(s[i])
        invariant
            i <= s@.len(),
            trimmed_start(s@) == trimmed_start(s@.skip(i as int)),
        decreases s@.len() - i,
    {
        assert(s@.skip(i as int).skip(1) =~= s@.skip(i + 1));
        i += 1;
    }
    i
}

/// The position after `from` at which the white space at the end of `s` starts.
fn trailing_space(s: &[char], from: usize) -> (r: usize)
    requires
        from <= s@.len(),
    ensures
        from <= r <= s@.len(),
        trimmed_end(s@.skip(from as int)) == s@.subrange(from as int, r as int),
{
    let mut i: usize = s.len();
    assert(s@.skip(from as int) =~= s@.subrange(from as int, i as int));
    while i > from && space(s[i - 1])
        invariant
            from <= i <= s@.len(),
            trimmed_end(s@.skip(from as int)) == trimmed_end(s@.subrange(from as int, i as int)),
        decreases i,
    {
        assert(s@.subrange(from as int, i as int).drop_last() =~= s@.subrange(from as int, i - 1));
        i -= 1;
    }
    i
}

/// `s` without the white space at both ends.
pub fn trim(s: &str) -> (r: String)
    ensures
        r@ == trimmed(s@),
{
    let a = chars_of(s);
    let i = leading_space(a.as_slice());
    let j = trailing_space(a.as_slice(), i);
    string_of(a.as_slice(), i, j)
}

/// `s` without the white space at its start.
pub fn trim_start(s: &str) -> (r: String)
    ensures
        r@ == trimmed_start(s@),
{
    let a = chars_of(s);
    let i = leading_space(a.as_slice());
    string_of(a.as_slice(), i, a.len())
}

/// `s` without the white space at its end.
pub fn trim_end(s: &str) -> (r: String)
    ensures
        r@ == trimmed_end(s@),
{
    let a = chars_of(s);
    let j = trailing_space(a.as_slice(), 0);
    assert(a@.skip(0) =~= a@);
    string_of(a.as_slice(), 0, j)
}

/// `s` without the leading run of `c`.
pub fn strip_leading(s: &str, c: char) -> (r: String)
    ensures
        r@ == without_leading(s@, c),
{
    let a = chars_of(s);
    let mut i: usize = 0;
    assert(a@.skip(0) =~= a@);
    while i < a.len() && a[i] == c
        invariant
            i <= a@.len(),
            without_leading(a@, c) == without_leading(a@.skip(i as int), c),
        decreases a@.len() - i,
    {
        assert(a@.skip(i as int).skip(1) =~= a@.skip(i + 1));
        i += 1;
    }
    string_of(a.as_slice(), i, a.len())
}

/// `s` without the trailing run of `c`.
pub fn strip_trailing(s: &str, c: char) -> (r: String)
    ensures
        r@ == without_trailing(s@, c),
{
    let a = chars_of(s);
    let mut i: usize = a.len();
    assert(a@.take(a@.len() as int) =~= a@);
    while i > 0 && a[i - 1] == c
        invariant
            i <= a@.len(),
            without_trailing(a@, c) == without_trailing(a@.take(i as int), c),
        decreases i,
    {
        assert(a@.take(i as int).drop_last() =~= a@.take(i - 1));
        i -= 1;
    }
    string_of(a.as_slice(), 0, i)
}

/// `s` without the runs of `c` at both ends.
pub fn strip_around(s: &str, c: char) -> (r: String)
    ensures
        r@ == without_around(s@, c),
{
    let a = strip_leading(s, c);
    strip_trailing(a.as_str(), c)
}

/// The first occurrence of `p` counted from an offset is the first of what follows it.
pub proof fn find_shifted(s: Seq<char>, p: Seq<char>, k: int, i: int)
    requires
        0 <= k <= i,
        k <= s.len(),
    ensures
        find_from(s, p, i) == (match find_from(s.skip(k), p, i - k) {
            Some(j) => Some(j + k),
            None => None,
        }),
    decreases s.len() - i + 1,
{
    if i + p.len() <= s.len() {
        assert(s.skip(k).subrange(i - k, i - k + p.len()) =~= s.subrange(i, i + p.len()));
        find_shifted(s, p, k, i + 1);
    }
}

/// The pieces of `s` between occurrences of `c`.
pub fn split(s: &str, c: char) -> (r: Vec<String>)
    ensures
        views(r@) == pieces(s@, c),
{
    let a = chars_of(s);
    let mut out: Vec<String> = Vec::new();
    let n: usize = a.len();
    let mut k: usize = 0;
    assert(a@.skip(0) =~= a@);
    assert(views(out@) =~= Seq::<Seq<char>>::empty());
    assert(views(out@) + pieces(a@.skip(0), c) =~= pieces(a@, c));
    loop
        invariant
            k <= a@.len(),
            n == a@.len(),
            a@ == s@,
            views(out@) + pieces(a@.skip(k as int), c) == pieces(a@, c),
        decreases a@.len() - k,
    {
        let ghost rest = a@.skip(k as int);
        proof {
            char_found_later(a@, c, k as int, k as int);
            find_char_is_first(rest, c, 0);
        }
        match find_char_in(a.as_slice(), c, k) {
            Some(i) => {
                let piece = string_of(a.as_slice(), k, i);
                let ghost before_add = views(out@);
                add_item(&mut out, piece);
                proof {
                    assert(piece@ =~= rest.take(i - k));
                    assert(rest.skip(i - k + 1) =~= a@.skip(i + 1));
                    assert(pieces(rest, c) == seq![rest.take(i - k)] + pieces(rest.skip(i - k + 1), c));
                    assert(views(out@) + pieces(a@.skip(i + 1), c) =~= before_add + (seq![piece@] + pieces(
                        a@.skip(i + 1),
                        c,
                    )));
                }
                k = i + 1;
            },
            None => {
                let piece = string_of(a.as_slice(), k, a.len());
                let ghost before_add = views(out@);
                add_item(&mut out, piece);
                proof {
                    assert(piece@ =~= rest);
                    assert(views(out@) =~= before_add + seq![rest]);
                }
                return out;
            },
        }
    }
}

/// The lines of a text.
pub fn lines(s: &str) -> (r: Vec<String>)
    ensures
        views(r@) == text_lines(s@),
{
    let a = chars_of(s);
    let mut out: Vec<String> = Vec::new();
    let mut k: usize = 0;
    assert(a@.skip(0) =~= a@);
    assert(views(out@) =~= Seq::<Seq<char>>::empty());
    assert(views(out@) + text_lines(a@.skip(0)) =~= text_lines(a@));
    while k < a.len()
        invariant
            k <= a@.len(),
            a@ == s@,
            views(out@) + text_lines(a@.skip(k as int)) == text_lines(a@),
        decreases a@.len() - k,
    {
        let ghost rest = a@.skip(k as int);
        proof {
            char_found_later(a@, '\n', k as int, k as int);
            find_char_is_first(rest, '\n', 0);
        }
        match find_char_in(a.as_slice(), '\n', k) {
            Some(i) => {
                let e: usize = if i > k && a[i - 1] == '\r' {
                    i - 1
                } else {
                    i
                };
                let piece = string_of(a.as_slice(), k, e);
                let ghost before_add = views(out@);
                add_item(&mut out, piece);
                proof {
                    let line = rest.take(i - k);
                    if i > k {
                        assert(line.last() == a@[i - 1]);
                    }
                    assert(piece@ =~= without_cr(line));
                    assert(rest.skip(i - k + 1) =~= a@.skip(i + 1));
                    assert(views(out@) + text_lines(a@.skip(i + 1)) =~= before_add + (seq![piece@] + text_lines(
                        a@.skip(i + 1),
                    )));
                }
                k = i + 1;
            },
            None => {
                let piece = string_of(a.as_slice(), k, a.len());
                let ghost before_add = views(out@);
                add_item(&mut out, piece);
                proof {
                    assert(piece@ =~= rest);
                    assert(views(out@) =~= before_add + seq![rest]);
                    assert(text_lines(rest) == seq![rest]);
                }
                return out;
            },
        }
    }
    proof {
        assert(text_lines(a@.skip(k as int)) =~= Seq::<Seq<char>>::empty());
        assert(views(out@) + Seq::<Seq<char>>::empty() =~= views(out@));
    }
    out
}

/// The first white space counted from an offset.
proof fn space_shifted(s: Seq<char>, k: int, i: int)
    requires
        0 <= k <= i <= s.len(),
    ensures
        space_from(s, i) == space_from(s.skip(k), i - k) + k,
        i <= space_from(s, i) <= s.len(),
    decreases s.len() - i,
{
    if i < s.len() {
        assert(s.skip(k)[i - k] == s[i]);
        space_shifted(s, k, i + 1);
    }
}

/// The words of a text.
pub fn split_words(s: &str) -> (r: Vec<String>)
    ensures
        views(r@) == words(s@),
{
    let a = chars_of(s);
    let mut out: Vec<String> = Vec::new();
    let mut k: usize = 0;
    assert(a@.skip(0) =~= a@);
    assert(views(out@) =~= Seq::<Seq<char>>::empty());
    assert(views(out@) + words(a@.skip(0)) =~= words(a@));
    while k < a.len()
        invariant
            k <= a@.len(),
            a@ == s@,
            views(out@) + words(a@.skip(k as int)) == words(a@),
        decreases a@.len() - k,
    {
        let ghost rest = a@.skip(k as int);
        assert(rest[0] == a@[k as int]);
        if space(a[k]) {
            assert(rest.skip(1) =~= a@.skip(k + 1));
            k += 1;
        } else {
            let mut e: usize = k;
            while e < a.len() && !space(a[e])
                invariant
                    k <= e <= a@.len(),
                    space_from(a@, k as int) == space_from(a@, e as int),
                decreases a@.len() - e,
            {
                e += 1;
            }
            proof {
                space_shifted(a@, k as int, k as int);
                assert(space_from(a@, k as int) == e);
                assert(space_from(rest, 0) == e - k);
                assert(space_from(a@, k as int) == space_from(a@, k + 1));
                space_shifted(a@, k as int, k + 1);
            }
            let piece = string_of(a.as_slice(), k, e);
            let ghost before_add = views(out@);
            add_item(&mut out, piece);
            proof {
                assert(piece@ =~= rest.take(e - k));
                assert(rest.skip(e - k) =~= a@.skip(e as int));
                assert(views(out@) + words(a@.skip(e as int)) =~= before_add + (seq![piece@] + words(a@.skip(e as int))));
            }
            k = e;
        }
    }
    proof {
        assert(words(a@.skip(k as int)) =~= Seq::<Seq<char>>::empty());
        assert(views(out@) + Seq::<Seq<char>>::empty() =~= views(out@));
    }
    out
}

/// The strings of a list with `sep` between each two of them.
pub fn join(parts: &Vec<String>, sep: &str) -> (r: String)
    ensures
        r@ == joined(views(parts@), sep@),
{
    let mut out = String::new();
    let mut i: usize = 0;
    assert(views(parts@).take(0) =~= Seq::<Seq<char>>::empty());
    while i < parts.len()
        invariant
            i <= parts@.len(),
            out@ == joined(views(parts@).take(i as int), sep@),
        decreases parts@.len() - i,
    {
        let ghost next = views(parts@).take(i + 1);
        assert(next.drop_last() =~= views(parts@).take(i as int));
        assert(next.last() == parts@[i as int]@);
        if i > 0 {
            out.append(sep);
        }
        let ghost before_add = out@;
        out.append(parts[i].as_str());
        proof {
            if i == 0 {
                assert(before_add =~= Seq::<char>::empty());
                assert(out@ =~= parts@[0]@);
            }
        }
        i += 1;
    }
    assert(views(parts@).take(parts@.len() as int) =~= views(parts@));
    out
}

/// `s` with every occurrence of `p` replaced by `r`.
pub fn replace(s: &str, p: &str, r: &str) -> (out: String)
    requires
        p@.len() > 0,
    ensures
        out@ == replaced(s@, p@, r@),
{
    let a = chars_of(s);
    let b = chars_of(p);
    let n: usize = a.len();
    let mut out = String::new();
    let mut k: usize = 0;
    assert(a@.skip(0) =~= a@);
    assert(out@ + replaced(a@.skip(0), b@, r@) =~= replaced(a@, b@, r@));
    loop
        invariant
            k <= a@.len(),
            n == a@.len(),
            b@.len() > 0,
            a@ == s@,
            b@ == p@,
            out@ + replaced(a@.skip(k as int), b@, r@) == replaced(a@, b@, r@),
        decreases a@.len() - k,
    {
        let ghost rest = a@.skip(k as int);
        proof {
            find_shifted(a@, b@, k as int, k as int);
            find_is_first(rest, b@, 0);
        }
        match find_in(a.as_slice(), b.as_slice(), k) {
            Some(i) => {
                let ghost before_add = out@;
                let piece = string_of(a.as_slice(), k, i);
                out.append(piece.as_str());
                out.append(r);
                proof {
                    assert(piece@ =~= rest.take(i - k));
                    assert(rest.skip(i - k + b@.len()) =~= a@.skip(i + b@.len()));
                    assert(out@ + replaced(a@.skip(i + b@.len()), b@, r@) =~= before_add + (piece@ + r@ + replaced(
                        a@.skip(i + b@.len()),
                        b@,
                        r@,
                    )));
                }
                k = i + b.len();
            },
            None => {
                let piece = string_of(a.as_slice(), k, a.len());
                out.append(piece.as_str());
                assert(piece@ =~= rest);
                return out;
            },
        }
    }
}

/// Tells whether string `a` comes before string `b`.
pub fn less(a: &str, b: &str) -> (r: bool)
    ensures
        r == before(a@, b@),
{
    let x = chars_of(a);
    let y = chars_of(b);
    let mut i: usize = 0;
    assert(x@.skip(0) =~= x@);
    assert(y@.skip(0) =~= y@);
    while i < x.len() && i < y.len()
        invariant
            i <= x@.len(),
            i <= y@.len(),
            x@ == a@,
            y@ == b@,
            before(a@, b@) == before(x@.skip(i as int), y@.skip(i as int)),
        decreases x@.len() - i,
    {
        assert(x@.skip(i as int)[0] == x@[i as int]);
        assert(y@.skip(i as int)[0] == y@[i as int]);
        if x[i] != y[i] {
            return x[i] < y[i];
        }
        assert(x@.skip(i as int).skip(1) =~= x@.skip(i + 1));
        assert(y@.skip(i as int).skip(1) =~= y@.skip(i + 1));
        i += 1;
    }
    i < y.len()
}

/// Whether a list of literals holds a text.
pub open spec fn listed(list: Seq<&'static str>, s: Seq<char>) -> bool {
    exists|i: int| 0 <= i < list.len() && (#[trigger] list[i])@ == s
}

/// Tells whether one of the listed strings is `s`.
pub fn one_of(s: &str, list: &[&str]) -> (r: bool)
    ensures
        r == exists|i: int| 0 <= i < list@.len() && (#[trigger] list@[i])@ == s@,
{
    let mut i: usize = 0;
    while i < list.len()
        invariant
            i <= list@.len(),
            forall|j: int| 0 <= j < i ==> (#[trigger] list@[j])@ != s@,
        decreases list@.len() - i,
    {
        if same(list[i], s) {
            return true;
        }
        i += 1;
    }
    false
}

/// The decimal digit of a number below ten.
pub open spec fn digit(n: nat) -> char {
    (48 + n) as char
}

/// The decimal notation of a number.
pub open spec fn decimal(n: nat) -> Seq<char>
    decreases n,
{
    if n < 10 {
        seq![digit(n)]
    } else {
        decimal(n / 10).push(digit(n % 10))
    }
}

/// Different numbers have different notations.
pub proof fn decimals_differ(n: nat, m: nat)
    requires
        decimal(n) == decimal(m),
    ensures
        n == m,
    decreases n,
{
    let a = decimal(n);
    let b = decimal(m);
    decimal_is_not_empty(n / 10);
    decimal_is_not_empty(m / 10);
    assert(a.last() == digit(n % 10) && b.last() == digit(m % 10));
    assert(n % 10 == m % 10);
    if n >= 10 && m >= 10 {
        assert(a.drop_last() =~= decimal(n / 10));
        assert(b.drop_last() =~= decimal(m / 10));
        decimals_differ(n / 10, m / 10);
    }
}

/// A notation has at least one digit, and nothing but digits.
pub proof fn decimal_is_not_empty(n: nat)
    ensures
        decimal(n).len() > 0,
        forall|i: int| 0 <= i < decimal(n).len() ==> '0' <= #[trigger] decimal(n)[i] <= '9',
    decreases n,
{
    if n >= 10 {
        decimal_is_not_empty(n / 10);
    }
}

/// Writes a number in decimal notation.
pub fn decimal_text(n: u64) -> (r: String)
    ensures
        r@ == decimal(n as nat),
{
    decimal_wide(n as u128)
}

/// Writes a long number in decimal notation.
pub fn decimal_wide(n: u128) -> (r: String)
    ensures
        r@ == decimal(n as nat),
    decreases n,
{
    let mut s = if n < 10 {
        String::new()
    } else {
        decimal_wide(n / 10)
    };
    let d: u8 = (n % 10) as u8;
    s.push((48 + d) as char);
    proof {
        if n < 10 {
            assert(s@ =~= decimal(n as nat));
        }
    }
    s
}

/// Whether every character is a decimal digit.
pub open spec fn all_digits(s: Seq<char>) -> bool {
    forall|i: int| 0 <= i < s.len() ==> is_digit(#[trigger] s[i])
}

/// The number that the first `n` digits write.
pub open spec fn digits_value(s: Seq<char>, n: int) -> nat
    decreases n,
{
    if n <= 0 || n > s.len() {
        0
    } else {
        (digits_value(s, n - 1) * 10 + (s[n - 1] as int - '0' as int)) as nat
    }
}

/// The digits of a number that may stand behind a plus sign.
pub open spec fn unsigned_part(s: Seq<char>) -> Seq<char> {
    if s.len() > 0 && s[0] == '+' {
        s.skip(1)
    } else {
        s
    }
}

/// The number that a text writes in decimal notation, where it fits 32 bits.
pub open spec fn number_of(s: Seq<char>) -> Option<u32> {
    let d = unsigned_part(s);
    if d.len() > 0 && all_digits(d) && digits_value(d, d.len() as int) <= u32::MAX {
        Some(digits_value(d, d.len() as int) as u32)
    } else {
        None
    }
}

/// More digits write no smaller number.
proof fn digits_value_grows(s: Seq<char>, n: int, m: int)
    requires
        all_digits(s),
        0 <= n <= m <= s.len(),
    ensures
        digits_value(s, n) <= digits_value(s, m),
    decreases m - n,
{
    if n < m {
        digits_value_grows(s, n, m - 1);
        assert(is_digit(s[m - 1]));
    }
}

/// Reads a number in decimal notation.
#[verifier::loop_isolation(false)]
pub fn parse_u32(s: &str) -> (r: Option<u32>)
    ensures
        r == number_of(s@),
{
    let c = chars_of(s);
    let n: usize = c.len();
    let from: usize = if n > 0 && c[0] == '+' {
        1
    } else {
        0
    };
    let ghost d = unsigned_part(s@);
    assert(d.len() == n - from);
    assert forall|k: int| 0 <= k < d.len() implies #[trigger] d[k] == c@[k + from] by {}
    if from == n {
        return None;
    }
    let mut value: u64 = 0;
    let mut i: usize = from;
    while i < n
        invariant
            from <= i <= n,
            value == digits_value(d, i - from),
            value <= u32::MAX,
            forall|k: int| 0 <= k < i - from ==> is_digit(#[trigger] d[k]),
        decreases n - i,
    {
        let x = c[i];
        assert(d[i - from] == x);
        if !(x >= '0' && x <= '9') {
            assert(!is_digit(d[i - from]));
            return None;
        }
        value = value * 10 + (x as u64 - '0' as u64);
        assert(value == digits_value(d, i + 1 - from));
        if value > u32::MAX as u64 {
            proof {
                if all_digits(d) {
                    digits_value_grows(d, i + 1 - from, d.len() as int);
                }
            }
            return None;
        }
        i += 1;
    }
    Some(value as u32)
}

/// The pieces of `s` between occurrences of `p`.
pub open spec fn parts_by(s: Seq<char>, p: Seq<char>) -> Seq<Seq<char>>
    decreases s.len(),
{
    match cut(s, p) {
        Some(x) => if x.1.len() < s.len() {
            seq![x.0] + parts_by(x.1, p)
        } else {
            seq![s]
        },
        None => seq![s],
    }
}

/// Splits a string at each occurrence of another one.
pub fn split_by(s: &str, p: &str) -> (r: Vec<String>)
    requires
        p@.len() > 0,
    ensures
        views(r@) == parts_by(s@, p@),
{
    let mut out: Vec<String> = Vec::new();
    let mut rest = s.to_owned();
    let ghost all = parts_by(s@, p@);
    assert(views(out@) + all =~= all);
    loop
        invariant
            p@.len() > 0,
            all == views(out@) + parts_by(rest@, p@),
        ensures
            all == views(out@) + seq![rest@],
        decreases rest@.len(),
    {
        match split_once(rest.as_str(), p) {
            Some((head, tail)) => {
                proof {
                    find_is_first(rest@, p@, 0);
                    assert(tail@.len() < rest@.len());
                }
                let ghost here = views(out@);
                let ghost more = parts_by(tail@, p@);
                add_item(&mut out, head);
                assert(views(out@) + more =~= here + (seq![head@] + more));
                rest = tail;
            },
            None => {
                break;
            },
        }
    }
    let ghost here = views(out@);
    add_item(&mut out, rest);
    assert(views(out@) =~= here + seq![rest@]);
    out
}

/// `s` without its blanks.
pub open spec fn without_spaces(s: Seq<char>, n: int) -> Seq<char>
    decreases n,
{
    if n <= 0 || n > s.len() {
        Seq::empty()
    } else if is_space(s[n - 1]) {
        without_spaces(s, n - 1)
    } else {
        without_spaces(s, n - 1).push(s[n - 1])
    }
}

/// Drops every blank of a string.
pub fn drop_spaces(s: &str) -> (r: String)
    ensures
        r@ == without_spaces(s@, s@.len() as int),
{
    let c = chars_of(s);
    let mut out: Vec<char> = Vec::new();
    let mut i: usize = 0;
    while i < c.len()
        invariant
            i <= c@.len(),
            c@ == s@,
            out@ == without_spaces(s@, i as int),
        decreases c@.len() - i,
    {
        if !space(c[i]) {
            out.push(c[i]);
        }
        i += 1;
    }
    string_of_all(out.as_slice())
}

}
