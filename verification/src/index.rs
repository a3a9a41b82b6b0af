//! Lookup tables over strings.

use indexmap::IndexMap;
use vstd::hash_map::StringHashMap;
use vstd::prelude::*;

use crate::text::{copy, position, position_from, position_is_first};

verus! {

/// Declares `indexmap::IndexMap`, the hash table that keeps insertion order.
#[verifier::external_type_specification]
#[verifier::external_body]
#[verifier::reject_recursive_types(K)]
#[verifier::reject_recursive_types(V)]
#[verifier::reject_recursive_types(S)]
pub struct ExIndexMap<K, V, S>(indexmap::IndexMap<K, V, S>);

/// What an index map from strings to places holds: for each key its place.
pub uninterp spec fn index_entries(m: IndexMap<String, usize>) -> Map<Seq<char>, usize>;

/// Calls `IndexMap::new`: an empty map.
#[verifier::external_body]
fn index_new() -> (m: IndexMap<String, usize>)
    ensures
        (index_entries(m) == Map::<Seq<char>, usize>::empty()),
{
    IndexMap::new()
}

/// Calls `IndexMap::get`: the place stored under a key, or `None`.
#[verifier::external_body]
fn index_get(m: &IndexMap<String, usize>, key: &str) -> (r: Option<usize>)
    ensures
        r == (if index_entries(*m).dom().contains(key@) {
            Some(index_entries(*m)[key@])
        } else {
            None
        }),
{
    m.get(key).copied()
}

/// Calls `IndexMap::insert`: stores a place under a key, in place of what was
/// stored there.
#[verifier::external_body]
fn index_insert(m: &mut IndexMap<String, usize>, key: String, place: usize)
    ensures
        index_entries(*final(m)) == index_entries(*old(m)).insert(key@, place),
{
    m.insert(key, place);
}

/// Appending a key leaves the places of the keys before it.
pub proof fn place_after_push(keys: Seq<Seq<char>>, key: Seq<char>, x: Seq<char>)
    ensures
        position(keys.push(x), key) == (match position(keys, key) {
            Some(k) => Some(k),
            None => if key == x {
                Some(keys.len() as int)
            } else {
                None
            },
        }),
{
    let more = keys.push(x);
    position_is_first(keys, key, 0);
    position_is_first(more, key, 0);
    assert(forall|j: int| 0 <= j < keys.len() ==> more[j] == keys[j]);
    assert(more[keys.len() as int] == x);
}

/// The places of a growing list of distinct strings.
pub struct Places {
    map: IndexMap<String, usize>,
    keys: Ghost<Seq<Seq<char>>>,
}

impl View for Places {
    type V = Seq<Seq<char>>;

    closed spec fn view(&self) -> Seq<Seq<char>> {
        self.keys@
    }
}

impl Places {
    /// The table holds each of its strings, once, at its place.
    pub closed spec fn wf(&self) -> bool {
        &&& forall|i: int|
            0 <= i < self.keys@.len() ==> index_entries(self.map).dom().contains(#[trigger] self.keys@[i])
                && index_entries(self.map)[self.keys@[i]] == i
        &&& forall|k: Seq<char>| #[trigger]
            index_entries(self.map).dom().contains(k) ==> index_entries(self.map)[k] < self.keys@.len()
                && self.keys@[index_entries(self.map)[k] as int] == k
    }

    /// No string stands twice in the table.
    pub proof fn strings_are_distinct(&self)
        requires
            self.wf(),
        ensures
            forall|i: int, j: int| 0 <= i < j < self@.len() ==> #[trigger] self@[i] != #[trigger] self@[j],
    {
        assert forall|i: int, j: int| 0 <= i < j < self@.len() implies #[trigger] self@[i] != #[trigger] self@[j] by {
            assert(index_entries(self.map)[self.keys@[i]] == i);
            assert(index_entries(self.map)[self.keys@[j]] == j);
        }
    }

    /// A table without strings.
    pub fn new() -> (r: Places)
        ensures
            r.wf(),
            (r@ == Seq::<Seq<char>>::empty()),
    {
        Places { map: index_new(), keys: Ghost(Seq::empty()) }
    }

    /// The place of a string.
    pub fn get(&self, key: &str) -> (r: Option<usize>)
        requires
            self.wf(),
        ensures
            match r {
                Some(k) => position(self@, key@) == Some(k as int) && k < self@.len() && self@[k as int] == key@,
                None => position(self@, key@) is None,
            },
    {
        let r = index_get(&self.map, key);
        proof {
            position_is_first(self@, key@, 0);
            match position(self@, key@) {
                Some(k) => {
                    assert(index_entries(self.map).dom().contains(self.keys@[k]));
                },
                None => {},
            }
        }
        r
    }

    /// Appends a string that the table does not hold yet.
    pub fn add(&mut self, key: &str, at: usize)
        requires
            old(self).wf(),
            at == old(self)@.len(),
            position(old(self)@, key@) is None,
        ensures
            final(self).wf(),
            final(self)@ == old(self)@.push(key@),
    {
        proof {
            position_is_first(self@, key@, 0);
        }
        index_insert(&mut self.map, copy(key), at);
        self.keys = Ghost(self.keys@.push(key@));
        proof {
            let m = index_entries(old(self).map);
            let n = index_entries(self.map);
            assert(n == m.insert(key@, at));
            assert forall|i: int| 0 <= i < self.keys@.len() implies n.dom().contains(#[trigger] self.keys@[i])
                && n[self.keys@[i]] == i by {
                if i < old(self).keys@.len() {
                    assert(self.keys@[i] == old(self).keys@[i]);
                    assert(m.dom().contains(old(self).keys@[i]));
                }
            }
            assert forall|k: Seq<char>| #[trigger] n.dom().contains(k) implies n[k] < self.keys@.len()
                && self.keys@[n[k] as int] == k by {
                if k != key@ {
                    assert(m.dom().contains(k));
                }
            }
        }
    }
}

/// A growing list of strings under distinct keys.
pub struct Table {
    places: Places,
    values: Vec<String>,
}

/// The value that a list of keys and a list of values hold under a key.
pub open spec fn table_get(t: Seq<(Seq<char>, Seq<char>)>, key: Seq<char>) -> Option<Seq<char>>
    decreases t.len(),
{
    if t.len() == 0 {
        None
    } else if t[0].0 == key {
        Some(t[0].1)
    } else {
        table_get(t.skip(1), key)
    }
}

impl View for Table {
    type V = Seq<(Seq<char>, Seq<char>)>;

    closed spec fn view(&self) -> Seq<(Seq<char>, Seq<char>)> {
        Seq::new(self.values@.len(), |i: int| (self.places@[i], self.values@[i]@))
    }
}

/// The value found in a table is the one at the key's place.
proof fn table_get_at_place(t: Seq<(Seq<char>, Seq<char>)>, keys: Seq<Seq<char>>, key: Seq<char>, i: int)
    requires
        0 <= i <= t.len(),
        keys.len() == t.len(),
        forall|j: int| 0 <= j < t.len() ==> (#[trigger] t[j]).0 == keys[j],
    ensures
        table_get(t.skip(i), key) == (match position_from(keys, key, i) {
            Some(k) => Some(t[k].1),
            None => None,
        }),
    decreases t.len() - i,
{
    if i < t.len() {
        assert(t.skip(i)[0] == t[i]);
        assert(t.skip(i).skip(1) =~= t.skip(i + 1));
        table_get_at_place(t, keys, key, i + 1);
    }
}

impl Table {
    /// Keys and values stand side by side.
    pub closed spec fn wf(&self) -> bool {
        self.places.wf() && self.places@.len() == self.values@.len()
    }

    /// An empty table.
    pub fn new() -> (r: Table)
        ensures
            r.wf(),
            (r@ == Seq::<(Seq<char>, Seq<char>)>::empty()),
    {
        let r = Table { places: Places::new(), values: Vec::new() };
        assert(r@ =~= Seq::<(Seq<char>, Seq<char>)>::empty());
        r
    }

    /// The value stored under a key.
    pub fn get(&self, key: &str) -> (r: Option<String>)
        requires
            self.wf(),
        ensures
            match r {
                Some(v) => table_get(self@, key@) == Some(v@),
                None => table_get(self@, key@) is None,
            },
    {
        proof {
            table_get_at_place(self@, self.places@, key@, 0);
            assert(self@.skip(0) =~= self@);
        }
        match self.places.get(key) {
            Some(k) => Some(copy(self.values[k].as_str())),
            None => None,
        }
    }

    /// Stores a value under a key that is not there yet.
    pub fn add(&mut self, key: &str, value: &str)
        requires
            old(self).wf(),
            table_get(old(self)@, key@) is None,
        ensures
            final(self).wf(),
            final(self)@ == old(self)@.push((key@, value@)),
    {
        proof {
            table_get_at_place(self@, self.places@, key@, 0);
            assert(self@.skip(0) =~= self@);
        }
        self.places.add(key, self.values.len());
        self.values.push(copy(value));
        assert(self@ =~= old(self)@.push((key@, value@)));
    }
}

/// Lists of places, one list per string.
pub struct Buckets {
    slots: StringHashMap<usize>,
    lists: Vec<Vec<usize>>,
}

impl Buckets {
    /// Every string that has a list has one of its own.
    pub closed spec fn wf(&self) -> bool {
        &&& forall|k: Seq<char>| #[trigger] self.slots@.dom().contains(k) ==> self.slots@[k] < self.lists@.len()
        &&& forall|a: Seq<char>, b: Seq<char>|
            #![trigger self.slots@.dom().contains(a), self.slots@.dom().contains(b)]
            self.slots@.dom().contains(a) && self.slots@.dom().contains(b) && a != b ==> self.slots@[a]
                != self.slots@[b]
    }

    /// The list of a string.
    pub closed spec fn at(&self, key: Seq<char>) -> Seq<usize> {
        if self.slots@.dom().contains(key) {
            self.lists@[self.slots@[key] as int]@
        } else {
            Seq::empty()
        }
    }

    /// No lists.
    pub fn new() -> (r: Buckets)
        ensures
            r.wf(),
            forall|key: Seq<char>| (#[trigger] r.at(key)) == Seq::<usize>::empty(),
    {
        Buckets { slots: StringHashMap::new(), lists: Vec::new() }
    }

    /// Appends a place to the list of a string.
    pub fn add(&mut self, key: &str, place: usize)
        requires
            old(self).wf(),
        ensures
            final(self).wf(),
            forall|k: Seq<char>| #[trigger]
                final(self).at(k) == (if k == key@ {
                    old(self).at(k).push(place)
                } else {
                    old(self).at(k)
                }),
    {
        let slot: Option<usize> = match self.slots.get(key) {
            Some(s) => Some(*s),
            None => None,
        };
        match slot {
            Some(s) => {
                let mut list: Vec<usize> = Vec::new();
                std::mem::swap(&mut list, &mut self.lists[s]);
                list.push(place);
                self.lists.set(s, list);
            },
            None => {
                let mut list: Vec<usize> = Vec::new();
                list.push(place);
                let n = self.lists.len();
                self.lists.push(list);
                self.slots.insert(copy(key), n);
                assert(self.at(key@) =~= old(self).at(key@).push(place));
            },
        }
    }

    /// The length of the list of a string.
    pub fn len(&self, key: &str) -> (r: usize)
        requires
            self.wf(),
        ensures
            r == self.at(key@).len(),
    {
        match self.slots.get(key) {
            Some(s) => self.lists[*s].len(),
            None => 0,
        }
    }

    /// One place of the list of a string.
    pub fn get(&self, key: &str, i: usize) -> (r: usize)
        requires
            self.wf(),
            i < self.at(key@).len(),
        ensures
            r == self.at(key@)[i as int],
    {
        match self.slots.get(key) {
            Some(s) => self.lists[*s][i],
            None => 0,
        }
    }
}

}
