//! Boundaries between services, and the normalization of their keys.
//!
//! Matching across languages only works if `@app.get("/users/{id}")` in one
//! and `fetch("/users/1")` in another reduce to the same key, so normalization
//! is shared by every adapter.

use vstd::prelude::*;

use crate::strings::{
    before_first, begins, char_found_later, cut, decimal, decimal_text, find_char, find_char_from, find_char_in,
    find_char_is_first, has, join, joined, pieces, split, split_once, starts_with, strip_trailing, trim, trimmed, until,
    without_trailing,
};
use crate::text::{
    add_item, chars_of, concat2, concat4, concat5, copy, debug, debug_text, is_numeric, numeric, string_of, views,
};

verus! {

/// Human-readable context of a port: an ordered list of names and values.
#[derive(Debug)]
pub struct Detail {
    pub pairs: Vec<(String, String)>,
}

impl View for Detail {
    type V = Seq<(Seq<char>, Seq<char>)>;

    open spec fn view(&self) -> Seq<(Seq<char>, Seq<char>)> {
        self.pairs@.map_values(|p: (String, String)| (p.0@, p.1@))
    }
}

impl Detail {
    /// No context.
    pub fn new() -> (r: Detail)
        ensures
            (r@ == Seq::<(Seq<char>, Seq<char>)>::empty()),
    {
        let r = Detail { pairs: Vec::new() };
        assert(r@ =~= Seq::<(Seq<char>, Seq<char>)>::empty());
        r
    }

    /// The context with one more pair at its end.
    pub fn with(self, key: &str, value: &str) -> (r: Detail)
        ensures
            r@ == self@.push((key@, value@)),
    {
        let mut pairs = self.pairs;
        pairs.push((copy(key), copy(value)));
        let r = Detail { pairs };
        assert(r@ =~= self@.push((key@, value@)));
        r
    }

    /// A copy of the context.
    pub fn copy(&self) -> (r: Detail)
        ensures
            r@ == self@,
    {
        let mut r = Detail::new();
        let mut i: usize = 0;
        assert(self@.take(0) =~= r@);
        while i < self.pairs.len()
            invariant
                i <= self.pairs@.len(),
                r@ == self@.take(i as int),
            decreases self.pairs@.len() - i,
        {
            r = r.with(self.pairs[i].0.as_str(), self.pairs[i].1.as_str());
            assert(self@.take(i + 1) =~= self@.take(i as int).push(self@[i as int]));
            i += 1;
        }
        assert(self@.take(self.pairs@.len() as int) =~= self@);
        r
    }
}

/// A single port on a boundary between services, found in the source.
///
/// A boundary is a contract that no compiler resolves: an HTTP route, a gRPC
/// method, a queue topic, a Temporal activity. Each side of the contract is a
/// port. Coordinates are 1-based and point at the port's site.
#[derive(Debug)]
pub struct BoundaryRef {
    /// The boundary family: `http`, `grpc`, `queue` or `temporal`.
    pub mechanism: String,
    /// `server`, which provides the contract, or `client`, which consumes it.
    pub role: String,
    /// The normalized key, such as `GET /users/{}`.
    pub key: String,
    pub line: u32,
    pub col: u32,
    /// The extractor's confidence in hundredths: full for a literal, less when
    /// inferred from context.
    pub confidence: u32,
    pub detail: Detail,
}

/// The mathematical reading of a port.
pub struct BoundaryView {
    pub mechanism: Seq<char>,
    pub role: Seq<char>,
    pub key: Seq<char>,
    pub line: u32,
    pub col: u32,
    pub confidence: u32,
    pub detail: Seq<(Seq<char>, Seq<char>)>,
}

impl View for BoundaryRef {
    type V = BoundaryView;

    open spec fn view(&self) -> BoundaryView {
        BoundaryView {
            mechanism: self.mechanism@,
            role: self.role@,
            key: self.key@,
            line: self.line,
            col: self.col,
            confidence: self.confidence,
            detail: self.detail@,
        }
    }
}

impl BoundaryRef {
    /// The port in words.
    pub fn repr(&self) -> (r: String)
        ensures
            r@ == "BoundaryRef("@ + self.mechanism@ + " "@ + self.role@ + " "@ + debug_text(self.key@) + " at "@ + decimal(
                self.line as nat,
            ) + ":"@ + decimal(self.col as nat) + ")"@,
    {
        let side = concat5("BoundaryRef(", self.mechanism.as_str(), " ", self.role.as_str(), " ");
        let place = concat4(
            side.as_str(),
            debug(self.key.as_str()).as_str(),
            " at ",
            decimal_text(self.line as u64).as_str(),
        );
        concat4(place.as_str(), ":", decimal_text(self.col as u64).as_str(), ")")
    }

    /// The same port.
    pub fn copy(&self) -> (r: BoundaryRef)
        ensures
            r@ == self@,
    {
        BoundaryRef {
            mechanism: copy(self.mechanism.as_str()),
            role: copy(self.role.as_str()),
            key: copy(self.key.as_str()),
            line: self.line,
            col: self.col,
            confidence: self.confidence,
            detail: self.detail.copy(),
        }
    }
}

/// Appends copies of ports.
pub fn add_ports(ports: &mut Vec<BoundaryRef>, more: &Vec<BoundaryRef>)
    ensures
        views(final(ports)@) == views(old(ports)@) + views(more@),
{
    let ghost start = views(ports@);
    let ghost all = views(more@);
    let mut i: usize = 0;
    assert(start + all.take(0) =~= start);
    while i < more.len()
        invariant
            i <= more@.len(),
            all == views(more@),
            views(ports@) == start + all.take(i as int),
        decreases more@.len() - i,
    {
        add_item(ports, more[i].copy());
        assert(start + all.take(i + 1) =~= (start + all.take(i as int)).push(all[i as int]));
        i += 1;
    }
    assert(all.take(more@.len() as int) =~= all);
}

// ---------------------------------------------------------------------------
// HTTP paths
// ---------------------------------------------------------------------------

/// A path with everything from an opening character to the next closing one
/// replaced by `{}`, read from the left; an opening character that is not
/// closed ends the reading.
pub open spec fn collapsed(s: Seq<char>, open: char, close: char) -> Seq<char>
    decreases s.len(),
{
    match find_char(s, open) {
        Some(i) => match find_char_from(s, close, i) {
            Some(j) => if 0 <= i && j < s.len() && i <= j {
                s.take(i) + "{}"@ + collapsed(s.skip(j + 1), open, close)
            } else {
                s
            },
            None => s,
        },
        None => s,
    }
}

/// Whether a segment is a parameter in colon style. The first segment never
/// is: a colon counts only behind a slash.
pub open spec fn colon_param(i: int, segment: Seq<char>) -> bool {
    i > 0 && segment.len() > 1 && segment[0] == ':'
}

/// The segments with colon parameters collapsed.
pub open spec fn colons_collapsed(segments: Seq<Seq<char>>) -> Seq<Seq<char>> {
    Seq::new(
        segments.len(),
        |i: int|
            if colon_param(i, segments[i]) {
                "{}"@
            } else {
                segments[i]
            },
    )
}

/// A path with its parameters collapsed: braces, then angle brackets, then
/// colon segments.
pub open spec fn params_collapsed(path: Seq<char>) -> Seq<char> {
    joined(colons_collapsed(pieces(collapsed(collapsed(path, '{', '}'), '<', '>'), '/')), "/"@)
}

/// Whether a segment is a concrete numeric id.
pub open spec fn numeric_segment(segment: Seq<char>) -> bool {
    segment.len() > 0 && forall|i: int| 0 <= i < segment.len() ==> is_numeric(#[trigger] segment[i])
}

/// The segments with numeric ids collapsed.
pub open spec fn numbers_collapsed(segments: Seq<Seq<char>>) -> Seq<Seq<char>> {
    Seq::new(
        segments.len(),
        |i: int|
            if numeric_segment(segments[i]) {
                "{}"@
            } else {
                segments[i]
            },
    )
}

/// What follows the scheme and the host of a URL; the whole text where there is
/// no scheme.
pub open spec fn without_host(s: Seq<char>) -> Seq<char> {
    match cut(s, "://"@) {
        Some(parts) => match find_char(parts.1, '/') {
            Some(i) => parts.1.skip(i),
            None => "/"@,
        },
        None => s,
    }
}

/// A path that begins with a slash.
pub open spec fn rooted(s: Seq<char>) -> Seq<char> {
    if s.len() > 0 && s[0] == '/' {
        s
    } else {
        "/"@ + s
    }
}

/// A path without the slashes at its end; the root stays.
pub open spec fn without_tail(s: Seq<char>) -> Seq<char> {
    if s.len() > 1 {
        let t = without_trailing(s, '/');
        if t.len() == 0 {
            "/"@
        } else {
            t
        }
    } else {
        s
    }
}

/// The key of a route or URL: independent of host, query, fragment and of how
/// parameters are written.
pub open spec fn normalized(raw: Seq<char>) -> Seq<char> {
    let path = before_first(before_first(without_host(trimmed(raw)), "?"@), "#"@);
    let segments = numbers_collapsed(pieces(params_collapsed(rooted(path)), '/'));
    without_tail(joined(segments, "/"@))
}

/// Collapses everything between two characters.
fn collapse(s: &str, open: char, close: char) -> (r: String)
    ensures
        r@ == collapsed(s@, open, close),
{
    let a = chars_of(s);
    let n: usize = a.len();
    let mut out = String::new();
    let mut k: usize = 0;
    assert(a@.skip(0) =~= a@);
    assert(out@ + collapsed(a@.skip(0), open, close) =~= collapsed(a@, open, close));
    loop
        invariant
            k <= a@.len(),
            n == a@.len(),
            a@ == s@,
            out@ + collapsed(a@.skip(k as int), open, close) == collapsed(a@, open, close),
        decreases a@.len() - k,
    {
        let ghost rest = a@.skip(k as int);
        let ghost before_add = out@;
        proof {
            char_found_later(a@, open, k as int, k as int);
            find_char_is_first(rest, open, 0);
        }
        let start = find_char_in(a.as_slice(), open, k);
        let end = match start {
            Some(i) => find_char_in(a.as_slice(), close, i),
            None => None,
        };
        if let (Some(i), Some(j)) = (start, end) {
            let piece = string_of(a.as_slice(), k, i);
            out.append(piece.as_str());
            out.append("{}");
            proof {
                char_found_later(a@, close, k as int, i as int);
                assert(piece@ =~= rest.take(i - k));
                assert(rest.skip(j - k + 1) =~= a@.skip(j + 1));
                assert(collapsed(rest, open, close) == rest.take(i - k) + "{}"@ + collapsed(
                    rest.skip(j - k + 1),
                    open,
                    close,
                ));
                assert(out@ + collapsed(a@.skip(j + 1), open, close) =~= before_add + (piece@ + "{}"@ + collapsed(
                    a@.skip(j + 1),
                    open,
                    close,
                )));
            }
            k = j + 1;
        } else {
            proof {
                if let Some(i) = start {
                    char_found_later(a@, close, k as int, i as int);
                }
                assert(collapsed(rest, open, close) == rest);
            }
            let piece = string_of(a.as_slice(), k, n);
            out.append(piece.as_str());
            assert(piece@ =~= rest);
            return out;
        }
    }
}

/// Tells whether a segment is a parameter in colon style.
fn is_colon_param(i: usize, segment: &str) -> (r: bool)
    ensures
        r == colon_param(i as int, segment@),
{
    let c = chars_of(segment);
    i > 0 && c.len() > 1 && c[0] == ':'
}

/// Tells whether a segment is a concrete numeric id.
fn is_numeric_segment(segment: &str) -> (r: bool)
    ensures
        r == numeric_segment(segment@),
{
    let c = chars_of(segment);
    if c.len() == 0 {
        return false;
    }
    let mut i: usize = 0;
    while i < c.len()
        invariant
            i <= c@.len(),
            c@ == segment@,
            forall|j: int| 0 <= j < i ==> is_numeric(#[trigger] c@[j]),
        decreases c@.len() - i,
    {
        if !numeric(c[i]) {
            assert(!is_numeric(segment@[i as int]));
            return false;
        }
        i += 1;
    }
    true
}

/// Collapses path parameters of every style into `{}`.
pub fn collapse_params(path: &str) -> (r: String)
    ensures
        r@ == params_collapsed(path@),
{
    let a = collapse(path, '{', '}');
    let b = collapse(a.as_str(), '<', '>');
    let segments = split(b.as_str(), '/');
    let mut out: Vec<String> = Vec::new();
    let mut i: usize = 0;
    let ghost all = colons_collapsed(views(segments@));
    assert(views(out@) =~= all.take(0));
    while i < segments.len()
        invariant
            i <= segments@.len(),
            all == colons_collapsed(views(segments@)),
            views(out@) == all.take(i as int),
        decreases segments@.len() - i,
    {
        if is_colon_param(i, segments[i].as_str()) {
            add_item(&mut out, copy("{}"));
        } else {
            add_item(&mut out, copy(segments[i].as_str()));
        }
        assert(all.take(i + 1) =~= all.take(i as int).push(all[i as int]));
        i += 1;
    }
    assert(all.take(segments@.len() as int) =~= all);
    join(&out, "/")
}

/// Drops the scheme and the host of a URL.
fn drop_host(s: &str) -> (r: String)
    ensures
        r@ == without_host(s@),
{
    match split_once(s, "://") {
        Some((_, after)) => {
            let c = chars_of(after.as_str());
            match find_char_in(c.as_slice(), '/', 0) {
                Some(i) => string_of(c.as_slice(), i, c.len()),
                None => copy("/"),
            }
        },
        None => copy(s),
    }
}

/// Makes a path begin with a slash.
fn root(s: &str) -> (r: String)
    ensures
        r@ == rooted(s@),
{
    let c = chars_of(s);
    if c.len() > 0 && c[0] == '/' {
        copy(s)
    } else {
        concat2("/", s)
    }
}

/// Drops the slashes at the end of a path.
fn drop_tail(s: &str) -> (r: String)
    ensures
        r@ == without_tail(s@),
{
    if chars_of(s).len() > 1 {
        let t = strip_trailing(s, '/');
        if chars_of(t.as_str()).len() == 0 {
            copy("/")
        } else {
            t
        }
    } else {
        copy(s)
    }
}

/// Reduces a route or URL to a key independent of host and parameters.
///
/// Strips scheme and host, query and fragment; collapses path parameters of
/// every style along with concrete numeric ids; drops the trailing slash
/// except at the root.
pub fn normalize_http_path(raw: &str) -> (r: String)
    ensures
        r@ == normalized(raw@),
{
    let trimmed_raw = trim(raw);
    let no_host = drop_host(trimmed_raw.as_str());
    let no_query = until(no_host.as_str(), "?");
    let no_fragment = until(no_query.as_str(), "#");
    let path = root(no_fragment.as_str());
    let plain = collapse_params(path.as_str());
    let segments = split(plain.as_str(), '/');
    let mut out: Vec<String> = Vec::new();
    let mut i: usize = 0;
    let ghost all = numbers_collapsed(views(segments@));
    assert(views(out@) =~= all.take(0));
    while i < segments.len()
        invariant
            i <= segments@.len(),
            all == numbers_collapsed(views(segments@)),
            views(out@) == all.take(i as int),
        decreases segments@.len() - i,
    {
        if is_numeric_segment(segments[i].as_str()) {
            add_item(&mut out, copy("{}"));
        } else {
            add_item(&mut out, copy(segments[i].as_str()));
        }
        assert(all.take(i + 1) =~= all.take(i as int).push(all[i as int]));
        i += 1;
    }
    assert(all.take(segments@.len() as int) =~= all);
    let whole = join(&out, "/");
    drop_tail(whole.as_str())
}

// ---------------------------------------------------------------------------
// Building blocks of extractors
// ---------------------------------------------------------------------------

/// The HTTP verbs, in lower case.
pub const HTTP_VERBS: [&'static str; 7] = ["get", "post", "put", "patch", "delete", "head", "options"];

/// Whether a text in lower case is an HTTP verb.
pub open spec fn http_verb(s: Seq<char>) -> bool {
    exists|i: int| 0 <= i < 7 && (#[trigger] HTTP_VERBS@[i])@ == s
}

/// Tells whether a text in lower case is an HTTP verb.
pub fn is_http_verb(s: &str) -> (r: bool)
    ensures
        r == http_verb(s@),
{
    crate::strings::one_of(s, &HTTP_VERBS)
}

/// No context.
pub open spec fn no_detail() -> Seq<(Seq<char>, Seq<char>)> {
    Seq::empty()
}

/// Whether a text reads as a path or a URL.
pub open spec fn path_like(s: Seq<char>) -> bool {
    begins(s, "/"@) || has(s, "://"@)
}

/// Tells whether a text reads as a path or a URL.
pub fn is_path(s: &str) -> (r: bool)
    ensures
        r == path_like(s@),
{
    starts_with(s, "/") || crate::strings::contains(s, "://")
}

}
