//! What the functions on text promise.

use vstd::prelude::*;

use crate::ids::{hex, id_of_boundary, kind_id, sha256};
use crate::node::NodeKind;
use crate::strings::{
    after_last, all_digits, before_first, begins, cut, decimal, digit, digits_value, ends, find, find_char,
    find_char_is_first, find_is_first, has, number_of, occurs_at, replaced, rfind, rfind_is_last, space_from,
    strip_back, strip_front, text_lines, trimmed, trimmed_end, trimmed_start, unsigned_part, without_around,
    without_cr, without_leading, without_spaces, without_trailing, words,
};
use crate::text::{is_digit, is_space};

verus! {

// ---------------------------------------------------------------------------
// Trimming
// ---------------------------------------------------------------------------

proof fn start_is_trimmed(s: Seq<char>) -> (k: int)
    ensures
        0 <= k <= s.len(),
        trimmed_start(s) == s.skip(k),
        forall|i: int| 0 <= i < k ==> is_space(#[trigger] s[i]),
        k < s.len() ==> !is_space(s[k]),
    decreases s.len(),
{
    if s.len() > 0 && is_space(s[0]) {
        let rest = s.skip(1);
        let j = start_is_trimmed(rest);
        assert(rest.skip(j) =~= s.skip(j + 1));
        assert forall|i: int| 0 <= i < j + 1 implies is_space(#[trigger] s[i]) by {
            if i > 0 {
                assert(s[i] == rest[i - 1]);
            }
        }
        if j + 1 < s.len() {
            assert(s[j + 1] == rest[j]);
        }
        j + 1
    } else {
        assert(s.skip(0) =~= s);
        0
    }
}

proof fn end_is_trimmed(s: Seq<char>) -> (k: int)
    ensures
        0 <= k <= s.len(),
        trimmed_end(s) == s.take(k),
        forall|i: int| k <= i < s.len() ==> is_space(#[trigger] s[i]),
        k > 0 ==> !is_space(s[k - 1]),
    decreases s.len(),
{
    if s.len() > 0 && is_space(s.last()) {
        let rest = s.drop_last();
        let j = end_is_trimmed(rest);
        assert(rest.take(j) =~= s.take(j));
        assert forall|i: int| j <= i < s.len() implies is_space(#[trigger] s[i]) by {
            if i < s.len() - 1 {
                assert(s[i] == rest[i]);
            }
        }
        if j > 0 {
            assert(s[j - 1] == rest[j - 1]);
        }
        j
    } else {
        assert(s.take(s.len() as int) =~= s);
        s.len() as int
    }
}

/// Trimming leaves what stands between the white space at both ends, and nothing of the
/// white space.
pub proof fn trimming_leaves_the_middle(s: Seq<char>) -> (range: (int, int))
    ensures
        0 <= range.0 <= range.1 <= s.len(),
        trimmed(s) == s.subrange(range.0, range.1),
        forall|i: int| 0 <= i < range.0 ==> is_space(#[trigger] s[i]),
        forall|i: int| range.1 <= i < s.len() ==> is_space(#[trigger] s[i]),
        range.0 < range.1 ==> !is_space(s[range.0]) && !is_space(s[range.1 - 1]),
{
    let a = start_is_trimmed(s);
    let mid = s.skip(a);
    let b = end_is_trimmed(mid);
    assert(mid.take(b) =~= s.subrange(a, a + b));
    assert forall|i: int| a + b <= i < s.len() implies is_space(#[trigger] s[i]) by {
        assert(s[i] == mid[i - a]);
    }
    if b > 0 {
        assert(s[a + b - 1] == mid[b - 1]);
        assert(s[a] == mid[0]);
    }
    (a, a + b)
}

proof fn front_is_dropped(s: Seq<char>, c: char) -> (k: int)
    ensures
        0 <= k <= s.len(),
        without_leading(s, c) == s.skip(k),
        forall|i: int| 0 <= i < k ==> #[trigger] s[i] == c,
        k < s.len() ==> s[k] != c,
    decreases s.len(),
{
    if s.len() > 0 && s[0] == c {
        let rest = s.skip(1);
        let j = front_is_dropped(rest, c);
        assert(rest.skip(j) =~= s.skip(j + 1));
        assert forall|i: int| 0 <= i < j + 1 implies #[trigger] s[i] == c by {
            if i > 0 {
                assert(s[i] == rest[i - 1]);
            }
        }
        if j + 1 < s.len() {
            assert(s[j + 1] == rest[j]);
        }
        j + 1
    } else {
        assert(s.skip(0) =~= s);
        0
    }
}

proof fn back_is_dropped(s: Seq<char>, c: char) -> (k: int)
    ensures
        0 <= k <= s.len(),
        without_trailing(s, c) == s.take(k),
        forall|i: int| k <= i < s.len() ==> #[trigger] s[i] == c,
        k > 0 ==> s[k - 1] != c,
    decreases s.len(),
{
    if s.len() > 0 && s.last() == c {
        let rest = s.drop_last();
        let j = back_is_dropped(rest, c);
        assert(rest.take(j) =~= s.take(j));
        assert forall|i: int| j <= i < s.len() implies #[trigger] s[i] == c by {
            if i < s.len() - 1 {
                assert(s[i] == rest[i]);
            }
        }
        if j > 0 {
            assert(s[j - 1] == rest[j - 1]);
        }
        j
    } else {
        assert(s.take(s.len() as int) =~= s);
        s.len() as int
    }
}

/// Stripping a character from both ends leaves what stands between its runs.
pub proof fn stripping_leaves_the_middle(s: Seq<char>, c: char) -> (range: (int, int))
    ensures
        0 <= range.0 <= range.1 <= s.len(),
        without_around(s, c) == s.subrange(range.0, range.1),
        forall|i: int| 0 <= i < range.0 ==> #[trigger] s[i] == c,
        forall|i: int| range.1 <= i < s.len() ==> #[trigger] s[i] == c,
        range.0 < range.1 ==> s[range.0] != c && s[range.1 - 1] != c,
{
    let a = front_is_dropped(s, c);
    let mid = s.skip(a);
    let b = back_is_dropped(mid, c);
    assert(mid.take(b) =~= s.subrange(a, a + b));
    assert forall|i: int| a + b <= i < s.len() implies #[trigger] s[i] == c by {
        assert(s[i] == mid[i - a]);
    }
    if b > 0 {
        assert(s[a + b - 1] == mid[b - 1]);
        assert(s[a] == mid[0]);
    }
    (a, a + b)
}

// ---------------------------------------------------------------------------
// Cutting
// ---------------------------------------------------------------------------

/// A text is cut at the first occurrence of another one: the parts and what was cut at make
/// the text again, and there is no occurrence before.
pub proof fn cutting_parts_at_the_first(s: Seq<char>, p: Seq<char>)
    ensures
        match cut(s, p) {
            Some((a, b)) => s == a + p + b && before_first(s, p) == a && forall|i: int| 0 <= i < a.len() ==> !#[trigger] occurs_at(s, p, i),
            None => before_first(s, p) == s && forall|i: int| 0 <= i <= s.len() - p.len() ==> !#[trigger] occurs_at(s, p, i),
        },
{
    find_is_first(s, p, 0);
    match find(s, p) {
        Some(i) => {
            assert(s =~= s.take(i) + p + s.skip(i + p.len())) by {
                assert(occurs_at(s, p, i));
                assert(s.subrange(i, i + p.len()) =~= p);
                assert(s =~= s.take(i) + s.subrange(i, i + p.len()) + s.skip(i + p.len()));
            }
        },
        None => {},
    }
}

/// What follows the last occurrence of a text is what it says; without an occurrence it is
/// the whole.
pub proof fn the_last_part_follows_the_last_occurrence(s: Seq<char>, p: Seq<char>)
    requires
        p.len() > 0,
    ensures
        has(s, p) ==> ends(s, p + after_last(s, p)) && forall|i: int|
            s.len() - after_last(s, p).len() - p.len() < i <= s.len() - p.len() ==> !#[trigger] occurs_at(s, p, i),
        !crate::strings::has(s, p) ==> after_last(s, p) == s,
{
    find_is_first(s, p, 0);
    rfind_is_last(s, p, s.len() - p.len());
    match rfind(s, p) {
        Some(i) => {
            let rest = s.skip(i + p.len());
            assert(s.subrange(i, i + p.len()) =~= p);
            assert(s.skip(i) =~= p + rest);
            assert(s.subrange(i, s.len() as int) =~= p + rest);
            assert(ends(s, p + after_last(s, p)));
        },
        None => {
            if has(s, p) {
                let i = find(s, p)->0;
                assert(occurs_at(s, p, i));
            }
        },
    }
}

/// A prefix and a suffix come off where they are, and make the text again.
pub proof fn affixes_come_off(s: Seq<char>, p: Seq<char>)
    ensures
        strip_front(p + s, p) == Some(s),
        strip_back(s + p, p) == Some(s),
        !begins(s, p) ==> strip_front(s, p) is None,
        !ends(s, p) ==> strip_back(s, p) is None,
{
    assert((p + s).subrange(0, p.len() as int) =~= p);
    assert((p + s).skip(p.len() as int) =~= s);
    let t = s + p;
    assert(t.subrange(t.len() - p.len(), t.len() as int) =~= p);
    assert(t.take(t.len() - p.len()) =~= s);
}

// ---------------------------------------------------------------------------
// Lines, words and numbers
// ---------------------------------------------------------------------------

/// A line ends at its line feed, and the lines of the rest follow it.
pub proof fn lines_end_at_line_feeds(line: Seq<char>, rest: Seq<char>)
    requires
        forall|i: int| 0 <= i < line.len() ==> #[trigger] line[i] != '\n',
    ensures
        text_lines(line.push('\n') + rest) == seq![without_cr(line)] + text_lines(rest),
        line.len() > 0 ==> text_lines(line) == seq![line],
        text_lines(Seq::<char>::empty()).len() == 0,
{
    let s = line.push('\n') + rest;
    let k = line.len() as int;
    assert(s[k] == '\n');
    assert forall|i: int| 0 <= i < k implies #[trigger] s[i] != '\n' by {
        assert(s[i] == line[i]);
    }
    find_char_is_first(s, '\n', 0);
    find_char_is_first(line, '\n', 0);
    assert(find_char(s, '\n') == Some(k)) by {
        match find_char(s, '\n') {
            Some(i) => {
                if i < k {
                    assert(s[i] != '\n');
                }
            },
            None => {
                assert(s[k] == '\n');
            },
        }
    }
    assert(s.take(k) =~= line);
    assert(s.skip(k + 1) =~= rest);
    if line.len() > 0 {
        match find_char(line, '\n') {
            Some(i) => {
                assert(line[i] != '\n');
            },
            None => {},
        }
    }
}

proof fn space_is_first(s: Seq<char>, i: int)
    requires
        0 <= i <= s.len(),
    ensures
        i <= space_from(s, i) <= s.len(),
        forall|j: int| i <= j < space_from(s, i) ==> !is_space(#[trigger] s[j]),
        space_from(s, i) < s.len() ==> is_space(s[space_from(s, i)]),
    decreases s.len() - i,
{
    if i < s.len() && !is_space(s[i]) {
        space_is_first(s, i + 1);
    }
}

/// A text without white space is one word; white space in front says nothing; and a word
/// ends where white space follows it.
pub proof fn words_are_parted_by_spaces(word: Seq<char>, c: char, rest: Seq<char>)
    requires
        word.len() > 0,
        forall|i: int| 0 <= i < word.len() ==> !is_space(#[trigger] word[i]),
        is_space(c),
    ensures
        words(word) == seq![word],
        words(word.push(c) + rest) == seq![word] + words(rest),
        words(seq![c] + rest) == words(rest),
        words(Seq::<char>::empty()).len() == 0,
{
    space_is_first(word, 0);
    let n = word.len() as int;
    assert(!is_space(word[0]));
    if space_from(word, 0) < n {
        assert(is_space(word[space_from(word, 0)]));
    }
    assert(word.take(n) =~= word);
    assert(word.skip(n) =~= Seq::<char>::empty());
    let none = Seq::<char>::empty();
    assert(words(none) =~= Seq::<Seq<char>>::empty());
    assert(words(word) == seq![word.take(n)] + words(word.skip(n)));
    assert(words(word) =~= seq![word]);
    let s = word.push(c) + rest;
    space_is_first(s, 0);
    assert(s[n] == c);
    assert forall|i: int| 0 <= i < n implies !is_space(#[trigger] s[i]) by {
        assert(s[i] == word[i]);
    }
    let k = space_from(s, 0);
    if k < n {
        assert(!is_space(s[k]));
    }
    if k > n {
        assert(!is_space(s[n]));
    }
    assert(s.take(n) =~= word);
    assert(s.skip(n) =~= seq![c] + rest);
    let t = seq![c] + rest;
    assert(t[0] == c);
    assert(t.skip(1) =~= rest);
    assert(words(t) == words(rest));
    assert(words(s) == seq![word] + words(s.skip(n)));
}

/// Dropping blanks leaves no blank, and a text without one as it is.
pub proof fn dropping_blanks_leaves_none(s: Seq<char>, n: int)
    requires
        0 <= n <= s.len(),
    ensures
        forall|i: int| 0 <= i < without_spaces(s, n).len() ==> !is_space(#[trigger] without_spaces(s, n)[i]),
        (forall|i: int| 0 <= i < n ==> !is_space(#[trigger] s[i])) ==> without_spaces(s, n) == s.take(n),
    decreases n,
{
    if n > 0 {
        dropping_blanks_leaves_none(s, n - 1);
        let earlier = without_spaces(s, n - 1);
        let r = without_spaces(s, n);
        assert forall|i: int| 0 <= i < r.len() implies !is_space(#[trigger] r[i]) by {
            if i < earlier.len() {
                assert(r[i] == earlier[i]);
            }
        }
        if forall|i: int| 0 <= i < n ==> !is_space(#[trigger] s[i]) {
            assert(s.take(n) =~= s.take(n - 1).push(s[n - 1]));
        }
    } else {
        assert(s.take(0) =~= Seq::<char>::empty());
    }
}

/// A number is read back from its decimal notation.
pub proof fn numbers_are_read_back(n: nat)
    ensures
        all_digits(decimal(n)),
        decimal(n).len() > 0,
        digits_value(decimal(n), decimal(n).len() as int) == n,
        n <= u32::MAX ==> number_of(decimal(n)) == Some(n as u32),
    decreases n,
{
    let s = decimal(n);
    if n < 10 {
        assert(s.len() == 1 && s[0] == digit(n));
        assert(digits_value(s, 0) == 0);
        assert(digits_value(s, 1) == n);
    } else {
        let t = decimal(n / 10);
        numbers_are_read_back(n / 10);
        let k = t.len() as int;
        assert(s.len() == k + 1);
        prefix_value(t, s, k);
        assert(digits_value(s, k + 1) == (digits_value(s, k) * 10 + (s[k] as int - '0' as int)) as nat);
        assert(s[k] == digit(n % 10));
        assert forall|i: int| 0 <= i < s.len() implies is_digit(#[trigger] s[i]) by {
            if i < k {
                assert(s[i] == t[i]);
            }
        }
    }
    assert(is_digit(s[0]));
    assert(unsigned_part(s) == s);
}

proof fn prefix_value(a: Seq<char>, b: Seq<char>, n: int)
    requires
        0 <= n <= a.len() <= b.len(),
        forall|i: int| 0 <= i < a.len() ==> #[trigger] a[i] == b[i],
    ensures
        digits_value(a, n) == digits_value(b, n),
    decreases n,
{
    if n > 0 {
        prefix_value(a, b, n - 1);
        assert(a[n - 1] == b[n - 1]);
    }
}

/// A text without an occurrence is left as it is by replacing, and the first occurrence gives
/// way to the replacement.
pub proof fn occurrences_give_way(s: Seq<char>, p: Seq<char>, r: Seq<char>)
    requires
        p.len() > 0,
    ensures
        !crate::strings::has(s, p) ==> replaced(s, p, r) == s,
        cut(s, p) is Some ==> replaced(s, p, r) == (cut(s, p)->0).0 + r + replaced((cut(s, p)->0).1, p, r),
{
    find_is_first(s, p, 0);
}

// ---------------------------------------------------------------------------
// Ids
// ---------------------------------------------------------------------------

/// An id is made of the project, the kind and the qualified name, and of nothing else; that
/// of a boundary of its mechanism and its key.
pub proof fn ids_are_made_of_names(project: Seq<char>, name: Seq<char>, kind: NodeKind, mechanism: Seq<char>, key: Seq<char>)
    ensures
        kind_id(project, name, kind) == hex(
            sha256(vstd::utf8::encode_utf8(project + "::"@ + kind.name() + "::"@ + name)).take(8),
        ),
        id_of_boundary(mechanism, key) == hex(
            sha256(vstd::utf8::encode_utf8("boundary::"@ + mechanism + "::"@ + key)).take(8),
        ),
{
}

}
