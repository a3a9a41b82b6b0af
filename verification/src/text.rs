//! Characters, strings and lists of strings: the vocabulary that every other
//! module states its contracts in.
//!
//! A string is read as the sequence of its characters. The functions here are
//! the verified counterparts of the usual searching, trimming and splitting
//! operations, each with a specification of the same meaning.

use vstd::prelude::*;

verus! {

// ---------------------------------------------------------------------------
// The standard library's own string operations
// ---------------------------------------------------------------------------

/// `String::push` appends one character.
pub assume_specification[ String::push ](s: &mut String, c: char)
    ensures
        final(s)@ == old(s)@.push(c),
;

/// `str`'s `==` compares the characters of two strings.
pub assume_specification[ <str as PartialEq>::eq ](a: &str, b: &str) -> (r: bool)
    ensures
        r == (a@ == b@),
;

/// Whether every character is an ASCII one.
pub open spec fn all_ascii(s: Seq<char>) -> bool {
    forall|i: int| 0 <= i < s.len() ==> #[trigger] s[i] <= '\x7f'
}

/// What `str::to_lowercase` makes of a string that is not ASCII throughout.
pub uninterp spec fn unicode_lowercase(s: Seq<char>) -> Seq<char>;

/// The lower case of a string: letter by letter within ASCII, and Unicode's for
/// any other string.
pub open spec fn lowercase(s: Seq<char>) -> Seq<char> {
    if all_ascii(s) {
        ascii_lowercase(s)
    } else {
        unicode_lowercase(s)
    }
}

/// Calls `str::to_lowercase`. An ASCII string has its letters replaced by the
/// small ones; the lower case of any other string is Unicode's, a function of
/// its characters alone.
#[verifier::external_body]
pub(crate) fn to_lower(s: &str) -> (r: String)
    ensures
        all_ascii(s@) ==> r@ == ascii_lowercase(s@),
        !all_ascii(s@) ==> r@ == unicode_lowercase(s@),
{
    s.to_lowercase()
}

/// What `str::to_uppercase` makes of a string that is not ASCII throughout.
pub uninterp spec fn unicode_uppercase(s: Seq<char>) -> Seq<char>;

/// The upper case of a string: letter by letter within ASCII, and Unicode's for
/// any other string.
pub open spec fn uppercase(s: Seq<char>) -> Seq<char> {
    if all_ascii(s) {
        ascii_uppercase(s)
    } else {
        unicode_uppercase(s)
    }
}

/// Calls `str::to_uppercase`. An ASCII string has its letters replaced by the
/// capital ones; the upper case of any other string is Unicode's, a function of
/// its characters alone.
#[verifier::external_body]
pub(crate) fn to_upper(s: &str) -> (r: String)
    ensures
        all_ascii(s@) ==> r@ == ascii_uppercase(s@),
        !all_ascii(s@) ==> r@ == unicode_uppercase(s@),
{
    s.to_uppercase()
}

/// Whether every character is a printable ASCII one other than a quote and a
/// backslash.
pub open spec fn all_plain(s: Seq<char>) -> bool {
    forall|i: int| 0 <= i < s.len() ==> ' ' <= (#[trigger] s[i]) <= '~' && s[i] != '"' && s[i] != '\'' && s[i] != '\\'
}

/// What the `Debug` notation makes of a string that is not plain throughout.
pub uninterp spec fn debug_escaped(s: Seq<char>) -> Seq<char>;

/// A string in `Debug` notation: a plain one between double quotes, and any other
/// one with escapes too.
pub open spec fn debug_text(s: Seq<char>) -> Seq<char> {
    if all_plain(s) {
        seq!['"'] + s + seq!['"']
    } else {
        debug_escaped(s)
    }
}

/// Calls `Debug::fmt` of `str`, through `format!`. A plain string comes between
/// double quotes; what escapes any other string has is a function of its
/// characters alone.
#[verifier::external_body]
pub(crate) fn debug(s: &str) -> (r: String)
    ensures
        all_plain(s@) ==> r@ == seq!['"'] + s@ + seq!['"'],
        !all_plain(s@) ==> r@ == debug_escaped(s@),
{
    format!("{:?}", s)
}

/// What `char::is_numeric` says of a character outside ASCII.
pub uninterp spec fn unicode_numeric(c: char) -> bool;

/// Whether a character is numeric: a digit, or outside ASCII whatever Unicode
/// counts as numeric.
pub open spec fn is_numeric(c: char) -> bool {
    if c <= '\x7f' {
        '0' <= c <= '9'
    } else {
        unicode_numeric(c)
    }
}

/// Calls `char::is_numeric`. Within ASCII the numeric characters are the ten
/// digits; outside it the answer is Unicode's.
#[verifier::external_body]
pub(crate) fn numeric(c: char) -> (r: bool)
    ensures
        c <= '\x7f' ==> r == ('0' <= c <= '9'),
        c > '\x7f' ==> r == unicode_numeric(c),
{
    c.is_numeric()
}

/// What `char::is_alphanumeric` says of a character outside ASCII.
pub uninterp spec fn unicode_alphanumeric(c: char) -> bool;

/// Whether a character is a letter or a number: within ASCII the letters and
/// the ten digits, outside it whatever Unicode says.
pub open spec fn is_alphanumeric(c: char) -> bool {
    if c <= '\x7f' {
        ('0' <= c <= '9') || ('A' <= c <= 'Z') || ('a' <= c <= 'z')
    } else {
        unicode_alphanumeric(c)
    }
}

/// Calls `char::is_alphanumeric`. Within ASCII that is the letters and the ten
/// digits; outside it the answer is Unicode's.
#[verifier::external_body]
pub(crate) fn alphanumeric(c: char) -> (r: bool)
    ensures
        c <= '\x7f' ==> r == (('0' <= c <= '9') || ('A' <= c <= 'Z') || ('a' <= c <= 'z')),
        c > '\x7f' ==> r == unicode_alphanumeric(c),
{
    c.is_alphanumeric()
}

/// What `String::from_utf8_lossy` makes of a run of bytes.
pub uninterp spec fn utf8_lossy(bytes: Seq<u8>) -> Seq<char>;

/// Calls `String::from_utf8_lossy`: the bytes decoded as UTF-8, with the
/// replacement character for what does not decode. The encoding of a text is
/// decoded to that text.
#[verifier::external_body]
pub(crate) fn decode_lossy(bytes: &[u8]) -> (r: String)
    ensures
        r@ == utf8_lossy(bytes@),
        forall|s: Seq<char>| #[trigger] vstd::utf8::encode_utf8(s) == bytes@ ==> r@ == s,
{
    String::from_utf8_lossy(bytes).into_owned()
}

// ---------------------------------------------------------------------------
// Lists and their views
// ---------------------------------------------------------------------------

/// The views of the items of a sequence, in order.
pub open spec fn views<T: View>(s: Seq<T>) -> Seq<T::V> {
    s.map_values(|x: T| x@)
}

/// Appends one item to a list.
pub fn add_item<T: View>(v: &mut Vec<T>, x: T)
    ensures
        views(final(v)@) == views(old(v)@).push(x@),
        final(v)@ == old(v)@.push(x),
{
    v.push(x);
    assert(views(v@) =~= views(old(v)@).push(x@));
}

/// The view of an optional value.
pub open spec fn opt_view<T: View>(o: Option<T>) -> Option<T::V> {
    match o {
        Some(x) => Some(x@),
        None => None,
    }
}

/// Whether two strings hold the same characters.
pub fn same(a: &str, b: &str) -> (r: bool)
    ensures
        r == (a@ == b@),
{
    *a == *b
}

/// A copy of a string.
pub fn copy(s: &str) -> (r: String)
    ensures
        r@ == s@,
{
    s.to_owned()
}

/// A copy of an optional string.
pub fn copy_opt(s: &Option<String>) -> (r: Option<String>)
    ensures
        opt_view(r) == opt_view(*s),
{
    match s {
        Some(x) => Some(copy(x.as_str())),
        None => None,
    }
}

/// Whether two optional strings agree.
pub fn same_opt(a: &Option<String>, b: &Option<String>) -> (r: bool)
    ensures
        r == (opt_view(*a) == opt_view(*b)),
{
    match (a, b) {
        (Some(x), Some(y)) => same(x.as_str(), y.as_str()),
        (None, None) => true,
        _ => false,
    }
}

/// A copy of a list of strings.
pub fn copy_all(v: &Vec<String>) -> (r: Vec<String>)
    ensures
        views(r@) == views(v@),
{
    let mut out: Vec<String> = Vec::new();
    let mut i: usize = 0;
    while i < v.len()
        invariant
            i <= v@.len(),
            views(out@) == views(v@).take(i as int),
        decreases v@.len() - i,
    {
        add_item(&mut out, copy(v[i].as_str()));
        proof {
            assert(views(v@).take(i + 1) =~= views(v@).take(i as int).push(views(v@)[i as int]));
        }
        i += 1;
    }
    proof {
        assert(views(v@).take(v@.len() as int) =~= views(v@));
    }
    out
}

/// The concatenation of two strings.
pub fn concat2(a: &str, b: &str) -> (r: String)
    ensures
        r@ == a@ + b@,
{
    let mut s = a.to_owned();
    s.append(b);
    s
}

/// The concatenation of three strings.
pub fn concat3(a: &str, b: &str, c: &str) -> (r: String)
    ensures
        r@ == a@ + b@ + c@,
{
    let mut s = a.to_owned();
    s.append(b);
    s.append(c);
    s
}

/// The concatenation of four strings.
pub fn concat4(a: &str, b: &str, c: &str, d: &str) -> (r: String)
    ensures
        r@ == a@ + b@ + c@ + d@,
{
    let mut s = a.to_owned();
    s.append(b);
    s.append(c);
    s.append(d);
    s
}

/// The concatenation of five strings.
pub fn concat5(a: &str, b: &str, c: &str, d: &str, e: &str) -> (r: String)
    ensures
        r@ == a@ + b@ + c@ + d@ + e@,
{
    let mut s = a.to_owned();
    s.append(b);
    s.append(c);
    s.append(d);
    s.append(e);
    s
}

/// The characters of a string.
pub fn chars_of(s: &str) -> (r: Vec<char>)
    ensures
        r@ == s@,
{
    let mut out: Vec<char> = Vec::new();
    for c in it: s.chars()
        invariant
            out@ == s@.take(it.index() as int),
            it.seq() == s@,
    {
        out.push(c);
        assert(s@.take(it.index() + 1) =~= s@.take(it.index() as int).push(c));
    }
    assert(s@.take(s@.len() as int) =~= s@);
    out
}

/// The string made of the characters from `from` up to `to`.
pub fn string_of(c: &[char], from: usize, to: usize) -> (r: String)
    requires
        from <= to <= c@.len(),
    ensures
        r@ == c@.subrange(from as int, to as int),
{
    let mut s = String::new();
    let mut i: usize = from;
    assert(c@.subrange(from as int, from as int) =~= Seq::<char>::empty());
    while i < to
        invariant
            from <= i <= to <= c@.len(),
            s@ == c@.subrange(from as int, i as int),
        decreases to - i,
    {
        s.push(c[i]);
        proof {
            assert(c@.subrange(from as int, i + 1) =~= c@.subrange(from as int, i as int).push(c@[i as int]));
        }
        i += 1;
    }
    s
}

/// The string made of a whole list of characters.
pub fn string_of_all(c: &[char]) -> (r: String)
    ensures
        r@ == c@,
{
    let s = string_of(c, 0, c.len());
    assert(c@.subrange(0, c@.len() as int) =~= c@);
    s
}

/// The position of `x` in the list from `i` on, or `None`.
pub open spec fn position_from<A>(s: Seq<A>, x: A, i: int) -> Option<int>
    decreases s.len() - i,
{
    if i < 0 || i >= s.len() {
        None
    } else if s[i] == x {
        Some(i)
    } else {
        position_from(s, x, i + 1)
    }
}

/// The first position of `x` in the list, or `None`.
pub open spec fn position<A>(s: Seq<A>, x: A) -> Option<int> {
    position_from(s, x, 0)
}

/// `position` finds exactly what the list contains, and finds it first.
pub proof fn position_is_first<A>(s: Seq<A>, x: A, i: int)
    requires
        0 <= i,
    ensures
        match position_from(s, x, i) {
            Some(k) => i <= k < s.len() && s[k] == x && forall|j: int| i <= j < k ==> s[j] != x,
            None => forall|j: int| i <= j < s.len() ==> s[j] != x,
        },
    decreases s.len() - i,
{
    if i < s.len() && s[i] != x {
        position_is_first(s, x, i + 1);
    }
}

/// The first position of a string in a list of strings.
pub fn index_of(v: &Vec<String>, x: &str) -> (r: Option<usize>)
    ensures
        match r {
            Some(k) => position(views(v@), x@) == Some(k as int) && k < v@.len() && v@[k as int]@ == x@,
            None => position(views(v@), x@) is None,
        },
{
    let mut i: usize = 0;
    while i < v.len()
        invariant
            i <= v@.len(),
            position(views(v@), x@) == position_from(views(v@), x@, i as int),
        decreases v@.len() - i,
    {
        if same(v[i].as_str(), x) {
            return Some(i);
        }
        i += 1;
    }
    None
}

/// Whether a list of strings holds a string.
pub fn holds(v: &Vec<String>, x: &str) -> (r: bool)
    ensures
        r == views(v@).contains(x@),
{
    let k = index_of(v, x);
    proof {
        position_is_first(views(v@), x@, 0);
        if k is None && views(v@).contains(x@) {
            let j = choose|j: int| 0 <= j < views(v@).len() && views(v@)[j] == x@;
            assert(views(v@)[j] != x@);
        }
    }
    k.is_some()
}

/// A list with `x` at its end unless the list already holds it.
pub open spec fn with_new<A>(s: Seq<A>, x: A) -> Seq<A> {
    if s.contains(x) {
        s
    } else {
        s.push(x)
    }
}

/// Appends a string to a list unless the list already holds it.
pub fn add_new(v: &mut Vec<String>, x: String)
    ensures
        views(final(v)@) == with_new(views(old(v)@), x@),
{
    if !holds(v, x.as_str()) {
        add_item(v, x);
    }
}

/// The list with the first `n` of some names, each once.
pub open spec fn with_all_new(names: Seq<Seq<char>>, more: Seq<Seq<char>>, n: int) -> Seq<Seq<char>>
    decreases n,
{
    if n <= 0 || n > more.len() {
        names
    } else {
        with_new(with_all_new(names, more, n - 1), more[n - 1])
    }
}

/// Adds names, each once.
#[verifier::loop_isolation(false)]
pub fn add_all_new(names: &mut Vec<String>, more: &Vec<String>)
    ensures
        views(final(names)@) == with_all_new(views(old(names)@), views(more@), more@.len() as int),
{
    let ghost start = views(names@);
    let mut i: usize = 0;
    while i < more.len()
        invariant
            i <= more@.len(),
            views(names@) == with_all_new(start, views(more@), i as int),
        decreases more@.len() - i,
    {
        assert(views(more@)[i as int] == more@[i as int]@);
        add_new(names, copy(more[i].as_str()));
        i += 1;
    }
}

// ---------------------------------------------------------------------------
// Single characters
// ---------------------------------------------------------------------------

/// Whether a character is white space: Unicode's White_Space property.
pub open spec fn is_space(c: char) -> bool {
    ||| '\u{9}' <= c <= '\u{d}'
    ||| c == ' '
    ||| c == '\u{85}'
    ||| c == '\u{a0}'
    ||| c == '\u{1680}'
    ||| '\u{2000}' <= c <= '\u{200a}'
    ||| c == '\u{2028}'
    ||| c == '\u{2029}'
    ||| c == '\u{202f}'
    ||| c == '\u{205f}'
    ||| c == '\u{3000}'
}

/// Tells whether a character is white space.
pub fn space(c: char) -> (r: bool)
    ensures
        r == is_space(c),
{
    ('\u{9}' <= c && c <= '\u{d}') || c == ' ' || c == '\u{85}' || c == '\u{a0}' || c == '\u{1680}' || ('\u{2000}'
        <= c && c <= '\u{200a}') || c == '\u{2028}' || c == '\u{2029}' || c == '\u{202f}' || c == '\u{205f}' || c
        == '\u{3000}'
}

/// Whether a character is an ASCII digit.
pub open spec fn is_digit(c: char) -> bool {
    '0' <= c <= '9'
}

/// Whether a character is an ASCII letter or digit.
pub open spec fn is_ascii_alnum(c: char) -> bool {
    ('0' <= c <= '9') || ('A' <= c <= 'Z') || ('a' <= c <= 'z')
}

/// Tells whether a character is an ASCII letter or digit.
pub fn ascii_alnum(c: char) -> (r: bool)
    ensures
        r == is_ascii_alnum(c),
{
    ('0' <= c && c <= '9') || ('A' <= c && c <= 'Z') || ('a' <= c && c <= 'z')
}

/// The ASCII lower case of a character; every other character stays.
pub open spec fn ascii_lower(c: char) -> char {
    if 'A' <= c <= 'Z' {
        (c as u32 + 32) as char
    } else {
        c
    }
}

/// The ASCII upper case of a character.
pub open spec fn ascii_upper(c: char) -> char {
    if 'a' <= c <= 'z' {
        (c as u32 - 32) as char
    } else {
        c
    }
}

/// The ASCII upper case of a string.
pub open spec fn ascii_uppercase(s: Seq<char>) -> Seq<char> {
    s.map_values(|c: char| ascii_upper(c))
}

/// Two ASCII strings that differ in nothing but the case of their letters have
/// one upper case.
pub proof fn letter_case_does_not_matter(a: Seq<char>, b: Seq<char>)
    requires
        all_ascii(a),
        all_ascii(b),
        ascii_lowercase(a) == ascii_lowercase(b),
    ensures
        uppercase(a) == uppercase(b),
{
    let x = ascii_lowercase(a);
    let y = ascii_lowercase(b);
    assert(a.len() == x.len() && b.len() == y.len());
    assert forall|i: int| 0 <= i < a.len() implies ascii_upper(#[trigger] a[i]) == ascii_upper(b[i]) by {
        assert(x[i] == ascii_lower(a[i]));
        assert(y[i] == ascii_lower(b[i]));
    }
    assert(ascii_uppercase(a) =~= ascii_uppercase(b));
}

/// Computes the ASCII lower case of a character.
pub fn to_ascii_lower_char(c: char) -> (r: char)
    ensures
        r == ascii_lower(c),
{
    if 'A' <= c && c <= 'Z' {
        ((c as u8) + 32) as char
    } else {
        c
    }
}

/// The string with every ASCII capital in lower case.
pub open spec fn ascii_lowercase(s: Seq<char>) -> Seq<char> {
    s.map_values(|c: char| ascii_lower(c))
}

/// Computes the ASCII lower case of a string.
pub fn to_ascii_lower(s: &str) -> (r: String)
    ensures
        r@ == ascii_lowercase(s@),
{
    let c = chars_of(s);
    let mut out = String::new();
    let mut i: usize = 0;
    while i < c.len()
        invariant
            i <= c@.len(),
            out@ == ascii_lowercase(c@).take(i as int),
        decreases c@.len() - i,
    {
        out.push(to_ascii_lower_char(c[i]));
        proof {
            assert(ascii_lowercase(c@).take(i + 1) =~= ascii_lowercase(c@).take(i as int).push(
                ascii_lower(c@[i as int]),
            ));
        }
        i += 1;
    }
    proof {
        assert(ascii_lowercase(c@).take(c@.len() as int) =~= ascii_lowercase(c@));
    }
    out
}

}
