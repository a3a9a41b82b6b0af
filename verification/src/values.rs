//! Metadata values as texts.
//!
//! A value has two texts: the one that it shows as, in which a text is just
//! itself, and the canonical one, in which a text stands between quotes, so
//! that a number and a text of digits stay apart.

use vstd::prelude::*;

use crate::ids::{hex_char, hex_digit};
use crate::meta::{MetaValue, ValueView};
use crate::metrics::ResolverMetrics;
use crate::span::Span;
use crate::strings::{
    contains_char, decimal, decimal_is_not_empty, decimal_text, decimal_wide, decimals_differ, digit, has_char, join, joined, strip_trailing,
    without_trailing,
};
use crate::text::{add_item, chars_of, concat3, copy, string_of, views};

verus! {

// ---------------------------------------------------------------------------
// Fractions
// ---------------------------------------------------------------------------

/// The number of units in one, where a number is counted in hundred-millionths.
pub const ONE: u128 = 100_000_000;

/// The digits of a part of `scale`, with leading zeros: what follows the one in
/// the notation of `scale + part`, where `scale` is a power of ten.
pub open spec fn padded(part: nat, scale: nat) -> Seq<char> {
    decimal(scale + part).skip(1)
}

/// `units / scale` with a point and at least one digit behind it.
pub open spec fn fraction(units: nat, scale: nat) -> Seq<char> {
    let behind = without_trailing(padded(units % scale, scale), '0');
    decimal(units / scale) + "."@ + if behind.len() == 0 {
        "0"@
    } else {
        behind
    }
}

/// A number of hundred-millionths below one ten-thousandth, written with an
/// exponent.
pub open spec fn tiny(units: nat) -> Seq<char> {
    let digits = decimal(units);
    let behind = without_trailing(digits.skip(1), '0');
    let mantissa = if behind.len() == 0 {
        digits.take(1)
    } else {
        digits.take(1) + "."@ + behind
    };
    mantissa + "e-0"@ + seq![digit((9 - digits.len()) as nat)]
}

/// A number of hundred-millionths.
pub open spec fn hundred_millionths(units: nat) -> Seq<char> {
    if 0 < units < 10_000 {
        tiny(units)
    } else {
        fraction(units, ONE as nat)
    }
}

/// Writes a fraction.
fn fraction_text(units: u128, scale: u64) -> (r: String)
    requires
        0 < scale <= 100_000_000,
    ensures
        r@ == fraction(units as nat, scale as nat),
{
    let wide: u128 = scale as u128;
    let part: u64 = (units % wide) as u64;
    let digits = chars_of(decimal_text(scale + part).as_str());
    assert(digits@.len() >= 1);
    let tail = string_of(digits.as_slice(), 1, digits.len());
    assert(tail@ =~= padded(units as nat % scale as nat, scale as nat));
    let behind = strip_trailing(tail.as_str(), '0');
    let whole = decimal_wide(units / wide);
    if chars_of(behind.as_str()).len() == 0 {
        concat3(whole.as_str(), ".", "0")
    } else {
        concat3(whole.as_str(), ".", behind.as_str())
    }
}

/// A number below ten thousand has at most four digits.
proof fn few_digits(n: nat)
    requires
        n < 10_000,
    ensures
        1 <= decimal(n).len() <= 4,
{
    reveal_with_fuel(decimal, 5);
}

/// Writes a number with an exponent.
fn tiny_text(units: u64) -> (r: String)
    requires
        units < 10_000,
    ensures
        r@ == tiny(units as nat),
{
    proof {
        few_digits(units as nat);
    }
    let digits = chars_of(decimal_text(units).as_str());
    let first = string_of(digits.as_slice(), 0, 1);
    assert(first@ =~= decimal(units as nat).take(1));
    let tail = string_of(digits.as_slice(), 1, digits.len());
    assert(tail@ =~= decimal(units as nat).skip(1));
    let behind = strip_trailing(tail.as_str(), '0');
    let mantissa = if chars_of(behind.as_str()).len() == 0 {
        first
    } else {
        concat3(first.as_str(), ".", behind.as_str())
    };
    let exponent = decimal_text((9 - digits.len()) as u64);
    assert(exponent@ =~= seq![digit((9 - decimal(units as nat).len()) as nat)]);
    concat3(mantissa.as_str(), "e-0", exponent.as_str())
}

/// Writes a number of hundred-millionths.
fn hundred_millionths_text(units: u128) -> (r: String)
    ensures
        r@ == hundred_millionths(units as nat),
{
    if 0 < units && units < 10_000 {
        tiny_text(units as u64)
    } else {
        fraction_text(units, 100_000_000)
    }
}

// ---------------------------------------------------------------------------
// Quotes
// ---------------------------------------------------------------------------

/// How a character stands between quotes `q`: with a backslash before the quote
/// and the backslash, by a letter or its number where it is a control
/// character, and otherwise as it is.
pub open spec fn escape(c: char, q: char) -> Seq<char> {
    if c == '\\' || c == q {
        seq!['\\', c]
    } else if c == '\n' {
        seq!['\\', 'n']
    } else if c == '\r' {
        seq!['\\', 'r']
    } else if c == '\t' {
        seq!['\\', 't']
    } else if (c as int) < 32 || c as int == 127 {
        seq!['\\', 'x', hex_digit(c as int / 16), hex_digit(c as int % 16)]
    } else {
        seq![c]
    }
}

/// The first `n` characters of a text as they stand between quotes.
pub open spec fn escaped(s: Seq<char>, q: char, n: int) -> Seq<char>
    decreases n,
{
    if n <= 0 || n > s.len() {
        Seq::empty()
    } else {
        escaped(s, q, n - 1) + escape(s[n - 1], q)
    }
}

/// The quote around a text: the double one where only the single one is in it.
pub open spec fn quote_of(s: Seq<char>) -> char {
    if has_char(s, '\'') && !has_char(s, '"') {
        '"'
    } else {
        '\''
    }
}

/// A text between quotes.
pub open spec fn quoted(s: Seq<char>) -> Seq<char> {
    let q = quote_of(s);
    (seq![q] + escaped(s, q, s.len() as int)).push(q)
}

/// How a character stands between quotes tells it, whatever follows.
proof fn escapes_differ(a: char, b: char, q: char, x: Seq<char>, y: Seq<char>)
    requires
        q == '\'' || q == '"',
        escape(a, q) + x == escape(b, q) + y,
    ensures
        a == b,
        x == y,
{
    let (e, f) = (escape(a, q), escape(b, q));
    let (u, v) = (e + x, f + y);
    assert(u[0] == e[0] && v[0] == f[0]);
    if e.len() >= 2 {
        assert(u[1] == e[1]);
    }
    if f.len() >= 2 {
        assert(v[1] == f[1]);
    }
    if e.len() == 4 && f.len() == 4 {
        assert(u[2] == e[2] && u[3] == e[3]);
        assert(v[2] == f[2] && v[3] == f[3]);
        assert(a as int / 16 == b as int / 16);
        assert(a as int % 16 == b as int % 16);
    }
    assert(a == b);
    assert(u.skip(e.len() as int) =~= x);
    assert(v.skip(f.len() as int) =~= y);
}

/// The first character between quotes comes first.
proof fn escaped_front(s: Seq<char>, q: char, n: int)
    requires
        0 < n <= s.len(),
    ensures
        escaped(s, q, n) == escape(s[0], q) + escaped(s.skip(1), q, n - 1),
    decreases n,
{
    if n == 1 {
        assert(escaped(s, q, 0) =~= Seq::<char>::empty());
        assert(escaped(s.skip(1), q, 0) =~= Seq::<char>::empty());
        assert(escaped(s, q, 1) =~= escape(s[0], q) + escaped(s.skip(1), q, 0));
    } else {
        escaped_front(s, q, n - 1);
        assert(s.skip(1)[n - 2] == s[n - 1]);
        assert(escaped(s, q, n) =~= escape(s[0], q) + escaped(s.skip(1), q, n - 1));
    }
}

proof fn escaped_texts_differ(s: Seq<char>, w: Seq<char>, q: char)
    requires
        q == '\'' || q == '"',
        escaped(s, q, s.len() as int) == escaped(w, q, w.len() as int),
    ensures
        s == w,
    decreases s.len(),
{
    if s.len() > 0 {
        escaped_front(s, q, s.len() as int);
    }
    if w.len() > 0 {
        escaped_front(w, q, w.len() as int);
    }
    if s.len() == 0 || w.len() == 0 {
        assert(s =~= w);
    } else {
        escapes_differ(
            s[0],
            w[0],
            q,
            escaped(s.skip(1), q, s.len() - 1),
            escaped(w.skip(1), q, w.len() - 1),
        );
        escaped_texts_differ(s.skip(1), w.skip(1), q);
        assert(s =~= seq![s[0]] + s.skip(1));
        assert(w =~= seq![w[0]] + w.skip(1));
    }
}

/// Different texts stand differently between quotes.
pub proof fn quoted_texts_differ(s: Seq<char>, w: Seq<char>)
    requires
        quoted(s) == quoted(w),
    ensures
        s == w,
{
    let q = quote_of(s);
    assert(quoted(s)[0] == q && quoted(w)[0] == quote_of(w));
    let (a, b) = (escaped(s, q, s.len() as int), escaped(w, q, w.len() as int));
    assert(quoted(s).subrange(1, quoted(s).len() - 1) =~= a);
    assert(quoted(w).subrange(1, quoted(w).len() - 1) =~= b);
    escaped_texts_differ(s, w, q);
}

/// Writes a character between quotes.
fn push_escaped(out: &mut String, c: char, q: char)
    ensures
        final(out)@ == old(out)@ + escape(c, q),
{
    let code: u32 = c as u32;
    if c == '\\' || c == q {
        out.push('\\');
        out.push(c);
    } else if c == '\n' {
        out.push('\\');
        out.push('n');
    } else if c == '\r' {
        out.push('\\');
        out.push('r');
    } else if c == '\t' {
        out.push('\\');
        out.push('t');
    } else if code < 32 || code == 127 {
        let byte: u8 = code as u8;
        out.push('\\');
        out.push('x');
        out.push(hex_char(byte / 16));
        out.push(hex_char(byte % 16));
    } else {
        out.push(c);
    }
    assert(out@ =~= old(out)@ + escape(c, q));
}

/// Puts a text between quotes.
pub fn quote(s: &str) -> (r: String)
    ensures
        r@ == quoted(s@),
{
    let single = contains_char(s, '\'');
    let double = contains_char(s, '"');
    let q = if single && !double {
        '"'
    } else {
        '\''
    };
    let chars = chars_of(s);
    let mut out = String::new();
    out.push(q);
    let mut i: usize = 0;
    assert(out@ =~= seq![q] + escaped(s@, q, 0));
    while i < chars.len()
        invariant
            i <= chars@.len(),
            chars@ == s@,
            out@ == seq![q] + escaped(s@, q, i as int),
        decreases chars@.len() - i,
    {
        push_escaped(&mut out, chars[i], q);
        assert(out@ =~= seq![q] + escaped(s@, q, i + 1));
        i += 1;
    }
    out.push(q);
    out
}

/// The texts of a list between quotes.
pub open spec fn quoted_all(v: Seq<Seq<char>>) -> Seq<Seq<char>> {
    v.map_values(|s: Seq<char>| quoted(s))
}

/// Puts every text of a list between quotes.
fn quote_all(v: &Vec<String>) -> (r: Vec<String>)
    ensures
        views(r@) == quoted_all(views(v@)),
{
    let mut parts: Vec<String> = Vec::new();
    let mut i: usize = 0;
    let ghost all = quoted_all(views(v@));
    assert(views(parts@) =~= all.take(0));
    while i < v.len()
        invariant
            i <= v@.len(),
            all == quoted_all(views(v@)),
            views(parts@) == all.take(i as int),
        decreases v@.len() - i,
    {
        add_item(&mut parts, quote(v[i].as_str()));
        assert(all.take(i + 1) =~= all.take(i as int).push(all[i as int]));
        i += 1;
    }
    assert(all.take(v@.len() as int) =~= all);
    parts
}

// ---------------------------------------------------------------------------
// Values
// ---------------------------------------------------------------------------

/// The stable text of a source range.
pub open spec fn canonical_span(p: Span) -> Seq<char> {
    "{end_col:"@ + decimal(p.end_col as nat) + ",end_line:"@ + decimal(p.end_line as nat) + ",start_col:"@ + decimal(
        p.start_col as nat,
    ) + ",start_line:"@ + decimal(p.start_line as nat) + "}"@
}

/// Writes a source range.
fn span_text(p: &Span) -> (r: String)
    ensures
        r@ == canonical_span(*p),
{
    let mut s = copy("{end_col:");
    s.append(decimal_text(p.end_col as u64).as_str());
    s.append(",end_line:");
    s.append(decimal_text(p.end_line as u64).as_str());
    s.append(",start_col:");
    s.append(decimal_text(p.start_col as u64).as_str());
    s.append(",start_line:");
    s.append(decimal_text(p.start_line as u64).as_str());
    s.append("}");
    s
}

/// The stable text of counters.
pub open spec fn canonical_counters(m: ResolverMetrics) -> Seq<char> {
    "{external:"@ + decimal(m.external as nat) + ",internal:"@ + decimal(m.internal as nat) + ",micros:"@ + decimal(
        m.micros as nat,
    ) + ",queries:"@ + decimal(m.queries as nat) + ",resolved:"@ + decimal(m.resolved as nat) + ",unresolved:"@
        + decimal(m.unresolved as nat) + "}"@
}

/// Writes counters.
fn counters_text(m: &ResolverMetrics) -> (r: String)
    ensures
        r@ == canonical_counters(*m),
{
    let mut s = copy("{external:");
    s.append(decimal_text(m.external).as_str());
    s.append(",internal:");
    s.append(decimal_text(m.internal).as_str());
    s.append(",micros:");
    s.append(decimal_text(m.micros).as_str());
    s.append(",queries:");
    s.append(decimal_text(m.queries).as_str());
    s.append(",resolved:");
    s.append(decimal_text(m.resolved).as_str());
    s.append(",unresolved:");
    s.append(decimal_text(m.unresolved).as_str());
    s.append("}");
    s
}

/// The text of a value: a text stands as `text` says, and `sep` stands between
/// the texts of a list.
pub open spec fn value_text(v: ValueView, text: spec_fn(Seq<char>) -> Seq<char>, sep: Seq<char>) -> Seq<char> {
    match v {
        ValueView::Nothing => "None"@,
        ValueView::Flag(b) => if b {
            "True"@
        } else {
            "False"@
        },
        ValueView::Number(n) => decimal(n as nat),
        ValueView::Percent(n) => fraction(n as nat, 100),
        ValueView::Product(n) => hundred_millionths(n as nat),
        ValueView::Text(s) => text(s),
        ValueView::Texts(v) => "["@ + joined(quoted_all(v), sep) + "]"@,
        ValueView::Place(p) => canonical_span(p),
        ValueView::Counters(m) => canonical_counters(m),
    }
}

/// The canonical text of a value.
pub open spec fn canonical_value(v: ValueView) -> Seq<char> {
    value_text(v, |s: Seq<char>| quoted(s), ","@)
}

/// The text that a value shows as.
pub open spec fn shown(v: ValueView) -> Seq<char> {
    value_text(v, |s: Seq<char>| s, ", "@)
}

/// Different texts, different numbers and different flags have different canonical
/// texts, and a text is never taken for a number or a flag.
pub proof fn canonical_values_differ(s: Seq<char>, w: Seq<char>, n: u64, m: u64, b: bool)
    ensures
        canonical_value(ValueView::Text(s)) == canonical_value(ValueView::Text(w)) ==> s == w,
        canonical_value(ValueView::Number(n)) == canonical_value(ValueView::Number(m)) ==> n == m,
        canonical_value(ValueView::Flag(b)) != canonical_value(ValueView::Flag(!b)),
        canonical_value(ValueView::Text(s)) != canonical_value(ValueView::Number(n)),
        canonical_value(ValueView::Text(s)) != canonical_value(ValueView::Flag(b)),
        canonical_value(ValueView::Number(n)) != canonical_value(ValueView::Flag(b)),
{
    if quoted(s) == quoted(w) {
        quoted_texts_differ(s, w);
    }
    if decimal(n as nat) == decimal(m as nat) {
        decimals_differ(n as nat, m as nat);
    }
    decimal_is_not_empty(n as nat);
    reveal_strlit("True");
    reveal_strlit("False");
    let first = decimal(n as nat)[0];
    assert(quoted(s)[0] == quote_of(s));
    assert('0' <= first <= '9');
    assert("True"@[0] == 'T' && "False"@[0] == 'F');
}

/// Writes a value that is no text, with a separator between the texts of a
/// list.
fn other_text(v: &MetaValue, sep: &str) -> (r: String)
    requires
        !(v is Text),
    ensures
        forall|text: spec_fn(Seq<char>) -> Seq<char>| r@ == #[trigger] value_text(v@, text, sep@),
{
    match v {
        MetaValue::Nothing => copy("None"),
        MetaValue::Flag(b) => if *b {
            copy("True")
        } else {
            copy("False")
        },
        MetaValue::Number(n) => decimal_text(*n),
        MetaValue::Percent(n) => fraction_text(*n as u128, 100),
        MetaValue::Product(n) => hundred_millionths_text(*n),
        MetaValue::Text(s) => copy(s.as_str()),
        MetaValue::Texts(v) => {
            let parts = quote_all(v);
            concat3("[", join(&parts, sep).as_str(), "]")
        },
        MetaValue::Place(p) => span_text(p),
        MetaValue::Counters(m) => counters_text(m),
    }
}

impl MetaValue {
    /// The canonical text of the value.
    pub fn canonical(&self) -> (r: String)
        ensures
            r@ == canonical_value(self@),
    {
        match self {
            MetaValue::Text(s) => quote(s.as_str()),
            _ => other_text(self, ","),
        }
    }

    /// The text that the value shows as.
    pub fn show(&self) -> (r: String)
        ensures
            r@ == shown(self@),
    {
        match self {
            MetaValue::Text(s) => copy(s.as_str()),
            _ => other_text(self, ", "),
        }
    }
}

}
