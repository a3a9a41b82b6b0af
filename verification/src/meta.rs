//! Metadata: what nodes, edges and graphs carry beside their identity.
//!
//! Metadata is an ordered list of keys and values in which no key occurs
//! twice. Order is kept because it is part of what a serialized graph shows;
//! it plays no role when two nodes are compared.

use vstd::prelude::*;

use crate::metrics::ResolverMetrics;
use crate::span::Span;
use crate::text::{add_item, copy, copy_all, same, views};
use crate::values::{shown, ONE};

verus! {

/// One metadata value.
#[derive(Debug)]
pub enum MetaValue {
    Nothing,
    Flag(bool),
    Number(u64),
    /// A confidence in hundredths.
    Percent(u32),
    /// The product of two confidences, in hundred-millionths.
    Product(u128),
    Text(String),
    Texts(Vec<String>),
    Place(Span),
    Counters(ResolverMetrics),
}

/// The mathematical reading of a metadata value.
pub enum ValueView {
    Nothing,
    Flag(bool),
    Number(u64),
    Percent(u32),
    Product(u128),
    Text(Seq<char>),
    Texts(Seq<Seq<char>>),
    Place(Span),
    Counters(ResolverMetrics),
}

impl View for MetaValue {
    type V = ValueView;

    open spec fn view(&self) -> ValueView {
        match self {
            MetaValue::Nothing => ValueView::Nothing,
            MetaValue::Flag(b) => ValueView::Flag(*b),
            MetaValue::Number(n) => ValueView::Number(*n),
            MetaValue::Percent(n) => ValueView::Percent(*n),
            MetaValue::Product(n) => ValueView::Product(*n),
            MetaValue::Text(s) => ValueView::Text(s@),
            MetaValue::Texts(v) => ValueView::Texts(views(v@)),
            MetaValue::Place(p) => ValueView::Place(*p),
            MetaValue::Counters(m) => ValueView::Counters(*m),
        }
    }
}

/// The number that a value is, in hundred-millionths: a flag counts as one or
/// nought, and a value that is neither a flag nor a number is none.
pub open spec fn number(v: ValueView) -> Option<int> {
    match v {
        ValueView::Flag(b) => Some(
            if b {
                ONE as int
            } else {
                0
            },
        ),
        ValueView::Number(n) => Some(n * ONE),
        ValueView::Percent(n) => Some(n * 1_000_000),
        ValueView::Product(n) => Some(n as int),
        _ => None,
    }
}

/// Whether two values are the same: numbers are compared as numbers, whatever
/// their scale.
pub open spec fn same_value(a: ValueView, b: ValueView) -> bool {
    match (number(a), number(b)) {
        (Some(x), Some(y)) => x == y,
        _ => a == b,
    }
}

/// Tells whether two lists of strings agree.
pub fn same_texts(a: &Vec<String>, b: &Vec<String>) -> (r: bool)
    ensures
        r == (views(a@) == views(b@)),
{
    if a.len() != b.len() {
        assert(views(a@).len() != views(b@).len());
        return false;
    }
    let mut i: usize = 0;
    while i < a.len()
        invariant
            i <= a@.len(),
            a@.len() == b@.len(),
            forall|j: int| 0 <= j < i ==> views(a@)[j] == views(b@)[j],
        decreases a@.len() - i,
    {
        if !same(a[i].as_str(), b[i].as_str()) {
            assert(views(a@)[i as int] != views(b@)[i as int]);
            return false;
        }
        i += 1;
    }
    assert(views(a@) =~= views(b@));
    true
}

impl MetaValue {
    /// A copy of the value.
    pub fn copy(&self) -> (r: MetaValue)
        ensures
            r@ == self@,
    {
        match self {
            MetaValue::Nothing => MetaValue::Nothing,
            MetaValue::Flag(b) => MetaValue::Flag(*b),
            MetaValue::Number(n) => MetaValue::Number(*n),
            MetaValue::Percent(n) => MetaValue::Percent(*n),
            MetaValue::Product(n) => MetaValue::Product(*n),
            MetaValue::Text(s) => MetaValue::Text(copy(s.as_str())),
            MetaValue::Texts(v) => MetaValue::Texts(copy_all(v)),
            MetaValue::Place(p) => MetaValue::Place(*p),
            MetaValue::Counters(m) => MetaValue::Counters(*m),
        }
    }

    /// The number that the value is, in hundred-millionths.
    pub fn as_number(&self) -> (r: Option<u128>)
        ensures
            match r {
                Some(n) => number(self@) == Some(n as int),
                None => number(self@) is None,
            },
    {
        match self {
            MetaValue::Flag(b) => if *b {
                Some(ONE)
            } else {
                Some(0)
            },
            MetaValue::Number(n) => Some((*n as u128) * ONE),
            MetaValue::Percent(n) => Some((*n as u128) * 1_000_000),
            MetaValue::Product(n) => Some(*n),
            _ => None,
        }
    }

    /// Tells whether two values are the same.
    pub fn same(&self, other: &MetaValue) -> (r: bool)
        ensures
            r == same_value(self@, other@),
    {
        match (self.as_number(), other.as_number()) {
            (Some(a), Some(b)) => {
                return a == b;
            },
            _ => {},
        }
        match (self, other) {
            (MetaValue::Nothing, MetaValue::Nothing) => true,
            (MetaValue::Text(a), MetaValue::Text(b)) => same(a.as_str(), b.as_str()),
            (MetaValue::Texts(a), MetaValue::Texts(b)) => same_texts(a, b),
            (MetaValue::Place(a), MetaValue::Place(b)) => *a == *b,
            (MetaValue::Counters(a), MetaValue::Counters(b)) => *a == *b,
            _ => false,
        }
    }

    /// A text value.
    pub fn text(s: &str) -> (r: MetaValue)
        ensures
            r@ == ValueView::Text(s@),
    {
        MetaValue::Text(copy(s))
    }
}

// ---------------------------------------------------------------------------
// Key/value lists
// ---------------------------------------------------------------------------

/// The mathematical reading of metadata: keys and values in insertion order.
pub type MetaView = Seq<(Seq<char>, ValueView)>;

/// The position of a key from `i` on.
pub open spec fn key_from(m: MetaView, key: Seq<char>, i: int) -> Option<int>
    decreases m.len() - i,
{
    if i < 0 || i >= m.len() {
        None
    } else if m[i].0 == key {
        Some(i)
    } else {
        key_from(m, key, i + 1)
    }
}

/// The value stored under a key.
pub open spec fn lookup(m: MetaView, key: Seq<char>) -> Option<ValueView> {
    match key_from(m, key, 0) {
        Some(i) => Some(m[i].1),
        None => None,
    }
}

/// The text that the value under a key shows as; empty where there is none.
pub open spec fn lookup_text(m: MetaView, key: Seq<char>) -> Seq<char> {
    match lookup(m, key) {
        Some(v) => shown(v),
        None => Seq::empty(),
    }
}

/// The metadata with a value stored under a key: in the key's place if it is
/// there, at the end if not.
pub open spec fn stored(m: MetaView, key: Seq<char>, value: ValueView) -> MetaView {
    match key_from(m, key, 0) {
        Some(i) => m.update(i, (key, value)),
        None => m.push((key, value)),
    }
}

/// What can hold values under keys.
pub trait Noted: Sized {
    /// The same with a value stored under a key.
    spec fn put(self, key: Seq<char>, value: ValueView) -> Self;
}

impl Noted for Seq<(Seq<char>, ValueView)> {
    open spec fn put(self, key: Seq<char>, value: ValueView) -> MetaView {
        stored(self, key, value)
    }
}

/// The first `n` entries of `other` stored into `m`, in order.
pub open spec fn updated_by(m: MetaView, other: MetaView, n: int) -> MetaView
    decreases n,
{
    if n <= 0 || n > other.len() {
        m
    } else {
        let before_last = updated_by(m, other, n - 1);
        stored(before_last, other[n - 1].0, other[n - 1].1)
    }
}

/// Whether no key occurs twice.
pub open spec fn keys_distinct(m: MetaView) -> bool {
    forall|i: int, j: int| 0 <= i < j < m.len() ==> m[i].0 != m[j].0
}

/// Whether two key/value lists hold the same values under the same keys,
/// whatever their order.
pub open spec fn same_entries(a: MetaView, b: MetaView) -> bool {
    &&& a.len() == b.len()
    &&& forall|i: int| 0 <= i < a.len() ==> holds_same(b, #[trigger] a[i])
}

/// Whether a key/value list holds the value of an entry under its key.
pub open spec fn holds_same(m: MetaView, e: (Seq<char>, ValueView)) -> bool {
    match lookup(m, e.0) {
        Some(v) => same_value(e.1, v),
        None => false,
    }
}

/// What `key_from` returns is the first position of the key.
pub proof fn key_from_is_first(m: MetaView, key: Seq<char>, i: int)
    requires
        0 <= i,
    ensures
        match key_from(m, key, i) {
            Some(k) => i <= k < m.len() && m[k].0 == key && forall|j: int| i <= j < k ==> m[j].0 != key,
            None => forall|j: int| i <= j < m.len() ==> m[j].0 != key,
        },
    decreases m.len() - i,
{
    if i < m.len() && m[i].0 != key {
        key_from_is_first(m, key, i + 1);
    }
}

/// Storing a value keeps the keys distinct.
pub proof fn stored_keeps_keys(m: MetaView, key: Seq<char>, value: ValueView)
    requires
        keys_distinct(m),
    ensures
        keys_distinct(stored(m, key, value)),
{
    key_from_is_first(m, key, 0);
}

/// What was stored under a key is what is found there, and every other key
/// keeps its value.
pub proof fn stored_then_found(m: MetaView, key: Seq<char>, value: ValueView, other: Seq<char>)
    ensures
        lookup(stored(m, key, value), key) == Some(value),
        other != key ==> lookup(stored(m, key, value), other) == lookup(m, other),
{
    let s = stored(m, key, value);
    key_from_is_first(m, key, 0);
    key_from_is_first(s, key, 0);
    let k = match key_from(m, key, 0) {
        Some(i) => i,
        None => m.len() as int,
    };
    assert(s[k] == (key, value));
    assert(forall|j: int| 0 <= j < k ==> s[j] == m[j]);
    if other != key {
        key_from_is_first(m, other, 0);
        key_from_is_first(s, other, 0);
        match key_from(m, other, 0) {
            Some(k) => {
                assert(s[k] == m[k]);
                match key_from(s, other, 0) {
                    Some(j) => {
                        if j < k {
                            assert(s[j].0 == m[j].0);
                        }
                    },
                    None => {},
                }
            },
            None => {
                match key_from(s, other, 0) {
                    Some(j) => {
                        if j < m.len() {
                            assert(s[j].0 == m[j].0 || s[j].0 == key);
                        }
                    },
                    None => {},
                }
            },
        }
    }
}

/// Storing entry by entry keeps the keys distinct.
pub proof fn updated_keeps_keys(m: MetaView, other: MetaView, n: int)
    requires
        keys_distinct(m),
    ensures
        keys_distinct(updated_by(m, other, n)),
    decreases n,
{
    if 0 < n <= other.len() {
        updated_keeps_keys(m, other, n - 1);
        stored_keeps_keys(updated_by(m, other, n - 1), other[n - 1].0, other[n - 1].1);
    }
}

/// One entry of a key/value list.
#[derive(Debug)]
pub struct Entry {
    pub key: String,
    pub value: MetaValue,
}

impl View for Entry {
    type V = (Seq<char>, ValueView);

    open spec fn view(&self) -> (Seq<char>, ValueView) {
        (self.key@, self.value@)
    }
}

/// An entry is found under its key.
proof fn entry_is_found(m: MetaView, i: int)
    requires
        keys_distinct(m),
        0 <= i < m.len(),
    ensures
        lookup(m, m[i].0) == Some(m[i].1),
{
    key_from_is_first(m, m[i].0, 0);
}

/// A key/value list is the same as itself.
pub proof fn entries_equal_themselves(m: MetaView)
    requires
        keys_distinct(m),
    ensures
        same_entries(m, m),
{
    assert forall|i: int| 0 <= i < m.len() implies holds_same(m, #[trigger] m[i]) by {
        entry_is_found(m, i);
    }
}

/// The keys of a key/value list.
pub open spec fn keys_of(m: MetaView) -> Seq<Seq<char>> {
    m.map_values(|e: (Seq<char>, ValueView)| e.0)
}

/// Key/value lists are the same either way round.
pub proof fn same_entries_either_way(a: MetaView, b: MetaView)
    requires
        keys_distinct(a),
        keys_distinct(b),
        same_entries(a, b),
    ensures
        same_entries(b, a),
{
    let x = keys_of(a);
    let y = keys_of(b);
    assert(x.no_duplicates()) by {
        assert forall|i: int, j: int| 0 <= i < x.len() && 0 <= j < x.len() && i != j implies x[i] != x[j] by {
            assert(x[i] == a[i].0 && x[j] == a[j].0);
        }
    }
    assert(y.no_duplicates()) by {
        assert forall|i: int, j: int| 0 <= i < y.len() && 0 <= j < y.len() && i != j implies y[i] != y[j] by {
            assert(y[i] == b[i].0 && y[j] == b[j].0);
        }
    }
    x.unique_seq_to_set();
    y.unique_seq_to_set();
    assert forall|k: Seq<char>| x.to_set().contains(k) implies y.to_set().contains(k) by {
        let i = choose|i: int| 0 <= i < x.len() && x[i] == k;
        assert(holds_same(b, a[i]));
        key_from_is_first(b, k, 0);
        let j = key_from(b, k, 0)->0;
        assert(y[j] == k);
    }
    vstd::set_lib::lemma_subset_equality(x.to_set(), y.to_set());
    assert forall|j: int| 0 <= j < b.len() implies holds_same(a, #[trigger] b[j]) by {
        assert(y[j] == b[j].0);
        assert(y.to_set().contains(y[j]));
        assert(x.to_set().contains(y[j]));
        let i = choose|i: int| 0 <= i < x.len() && x[i] == y[j];
        assert(a[i].0 == b[j].0);
        assert(holds_same(b, a[i]));
        entry_is_found(a, i);
        entry_is_found(b, j);
    }
}

/// An ordered key/value list in which no key occurs twice.
#[derive(Debug)]
pub struct Metadata {
    entries: Vec<Entry>,
}

impl View for Metadata {
    type V = MetaView;

    closed spec fn view(&self) -> MetaView {
        views(self.entries@)
    }
}

/// The position of a key in a list of entries.
fn find_key(entries: &Vec<Entry>, key: &str) -> (r: Option<usize>)
    ensures
        match r {
            Some(i) => key_from(views(entries@), key@, 0) == Some(i as int) && i < entries@.len(),
            None => key_from(views(entries@), key@, 0) is None,
        },
{
    let mut i: usize = 0;
    while i < entries.len()
        invariant
            i <= entries@.len(),
            key_from(views(entries@), key@, 0) == key_from(views(entries@), key@, i as int),
        decreases entries@.len() - i,
    {
        if same(entries[i].key.as_str(), key) {
            return Some(i);
        }
        i += 1;
    }
    None
}

impl Metadata {
    /// No key occurs twice.
    #[verifier::type_invariant]
    pub open spec fn distinct(&self) -> bool {
        keys_distinct(self@)
    }

    /// Empty metadata.
    pub fn new() -> (r: Metadata)
        ensures
            r@ == (Seq::<(Seq<char>, ValueView)>::empty()),
    {
        let r = Metadata { entries: Vec::new() };
        assert(r@ =~= Seq::<(Seq<char>, ValueView)>::empty());
        r
    }

    /// The metadata with a value stored under a key.
    pub fn with(self, key: &str, value: MetaValue) -> (r: Metadata)
        ensures
            r@ == self@.put(key@, value@),
    {
        let mut r = self;
        r.set(key, value);
        r
    }

    /// The metadata with a text stored under a key.
    pub fn with_text(self, key: &str, value: &str) -> (r: Metadata)
        ensures
            r@ == self@.put(key@, ValueView::Text(value@)),
    {
        self.with(key, MetaValue::text(value))
    }

    /// The number of entries.
    pub fn len(&self) -> (r: usize)
        ensures
            r == self@.len(),
    {
        self.entries.len()
    }

    /// The entry at a place.
    pub fn entry(&self, i: usize) -> (r: &Entry)
        requires
            i < self@.len(),
        ensures
            r@ == self@[i as int],
    {
        &self.entries[i]
    }

    /// A copy of the metadata.
    pub fn copy(&self) -> (r: Metadata)
        ensures
            r@ == self@,
    {
        proof {
            use_type_invariant(self);
        }
        let mut entries: Vec<Entry> = Vec::new();
        let mut i: usize = 0;
        while i < self.entries.len()
            invariant
                i <= self.entries@.len(),
                views(entries@) == self@.take(i as int),
            decreases self.entries@.len() - i,
        {
            let e = &self.entries[i];
            add_item(&mut entries, Entry { key: copy(e.key.as_str()), value: e.value.copy() });
            proof {
                assert(self@.take(i + 1) =~= self@.take(i as int).push(self@[i as int]));
            }
            i += 1;
        }
        assert(self@.take(self.entries@.len() as int) =~= self@);
        Metadata { entries }
    }

    /// The value stored under a key.
    pub fn get(&self, key: &str) -> (r: Option<&MetaValue>)
        ensures
            match r {
                Some(v) => lookup(self@, key@) == Some(v@),
                None => lookup(self@, key@) is None,
            },
    {
        match find_key(&self.entries, key) {
            Some(i) => Some(&self.entries[i].value),
            None => None,
        }
    }

    /// The text that the value under a key shows as; empty where there is none.
    pub fn get_text(&self, key: &str) -> (r: String)
        ensures
            r@ == lookup_text(self@, key@),
    {
        match self.get(key) {
            Some(v) => v.show(),
            None => {
                let s = String::new();
                assert(s@ =~= Seq::<char>::empty());
                s
            },
        }
    }

    /// Stores a value under a key: in the key's place if it is there, at the
    /// end if not.
    pub fn set(&mut self, key: &str, value: MetaValue)
        ensures
            final(self)@ == stored(old(self)@, key@, value@),
    {
        proof {
            use_type_invariant(&*self);
            stored_keeps_keys(self@, key@, value@);
        }
        let ghost before_set = self@;
        let mut entries: Vec<Entry> = Vec::new();
        std::mem::swap(&mut entries, &mut self.entries);
        let found = find_key(&entries, key);
        let e = Entry { key: copy(key), value };
        let ghost ev = e@;
        match found {
            Some(i) => {
                entries.set(i, e);
                assert(views(entries@) =~= before_set.update(i as int, ev));
            },
            None => {
                add_item(&mut entries, e);
            },
        }
        assert(views(entries@) == stored(before_set, key@, ev.1));
        self.entries = entries;
    }

    /// Stores every entry of `other`, in order.
    pub fn update(&mut self, other: &Metadata)
        ensures
            final(self)@ == updated_by(old(self)@, other@, other@.len() as int),
    {
        let mut i: usize = 0;
        while i < other.entries.len()
            invariant
                i <= other.entries@.len(),
                self@ == updated_by(old(self)@, other@, i as int),
            decreases other.entries@.len() - i,
        {
            let e = &other.entries[i];
            self.set(e.key.as_str(), e.value.copy());
            i += 1;
        }
    }

    /// Tells whether two key/value lists hold the same values under the same
    /// keys, whatever their order.
    pub fn same(&self, other: &Metadata) -> (r: bool)
        ensures
            r == same_entries(self@, other@),
    {
        if self.entries.len() != other.entries.len() {
            return false;
        }
        let mut i: usize = 0;
        while i < self.entries.len()
            invariant
                i <= self.entries@.len(),
                self.entries@.len() == other.entries@.len(),
                forall|j: int| 0 <= j < i ==> holds_same(other@, #[trigger] self@[j]),
            decreases self.entries@.len() - i,
        {
            let e = &self.entries[i];
            let ok = match other.get(e.key.as_str()) {
                Some(v) => e.value.same(v),
                None => false,
            };
            assert(self@[i as int] == (e.key@, e.value@));
            if !ok {
                return false;
            }
            i += 1;
        }
        true
    }

    /// Tells whether there is no entry.
    pub fn is_empty(&self) -> (r: bool)
        ensures
            r == (self@.len() == 0),
    {
        self.entries.len() == 0
    }
}

}
