//! A log of values, each under a group and a name.
//!
//! Nothing in it is ever replaced: whether the first or the last value counts is
//! for the one to say who looks it up.

use vstd::prelude::*;

use crate::index::Buckets;
use crate::text::{copy, same, views};

verus! {

/// One row of a log.
pub struct RowView<B> {
    pub group: Seq<char>,
    pub name: Seq<char>,
    pub value: B,
}

/// The value of the first of `n` rows under a group and a name.
pub open spec fn first_row<B>(log: Seq<RowView<B>>, group: Seq<char>, name: Seq<char>, n: int) -> Option<B>
    decreases n,
{
    if n <= 0 || n > log.len() {
        None
    } else {
        match first_row(log, group, name, n - 1) {
            Some(v) => Some(v),
            None => if log[n - 1].group == group && log[n - 1].name == name {
                Some(log[n - 1].value)
            } else {
                None
            },
        }
    }
}

/// The first value under a group and a name.
pub open spec fn first_under<B>(log: Seq<RowView<B>>, group: Seq<char>, name: Seq<char>) -> Option<B> {
    first_row(log, group, name, log.len() as int)
}

/// The value of the last of `n` rows under a group and a name.
pub open spec fn last_row<B>(log: Seq<RowView<B>>, group: Seq<char>, name: Seq<char>, n: int) -> Option<B>
    decreases n,
{
    if n <= 0 || n > log.len() {
        None
    } else if log[n - 1].group == group && log[n - 1].name == name {
        Some(log[n - 1].value)
    } else {
        last_row(log, group, name, n - 1)
    }
}

/// The last value under a group and a name.
pub open spec fn last_under<B>(log: Seq<RowView<B>>, group: Seq<char>, name: Seq<char>) -> Option<B> {
    last_row(log, group, name, log.len() as int)
}

/// The values of those of the first `n` rows that are in a group.
pub open spec fn group_values<B>(log: Seq<RowView<B>>, group: Seq<char>, n: int) -> Seq<B>
    decreases n,
{
    if n <= 0 || n > log.len() {
        Seq::empty()
    } else if log[n - 1].group == group {
        group_values(log, group, n - 1).push(log[n - 1].value)
    } else {
        group_values(log, group, n - 1)
    }
}

/// The values of a group, in order.
pub open spec fn values_of<B>(log: Seq<RowView<B>>, group: Seq<char>) -> Seq<B> {
    group_values(log, group, log.len() as int)
}

/// The places of those of the first `n` rows that are in a group.
pub open spec fn group_places<B>(log: Seq<RowView<B>>, group: Seq<char>, n: int) -> Seq<usize>
    decreases n,
{
    if n <= 0 || n > log.len() {
        Seq::empty()
    } else if log[n - 1].group == group {
        group_places(log, group, n - 1).push((n - 1) as usize)
    } else {
        group_places(log, group, n - 1)
    }
}

/// The places of a group hold its rows, one for one.
pub proof fn places_hold_the_group<B>(log: Seq<RowView<B>>, group: Seq<char>, n: int)
    requires
        0 <= n <= log.len() <= usize::MAX,
    ensures
        group_places(log, group, n).len() == group_values(log, group, n).len(),
        forall|i: int|
            0 <= i < group_places(log, group, n).len() ==> {
                let p = #[trigger] group_places(log, group, n)[i];
                p < n && log[p as int].group == group && log[p as int].value == group_values(log, group, n)[i]
            },
    decreases n,
{
    if n > 0 {
        places_hold_the_group(log, group, n - 1);
    }
}

/// What a search through the places of a group does not find is not there.
proof fn absent_from_places<B>(log: Seq<RowView<B>>, group: Seq<char>, name: Seq<char>, n: int)
    requires
        0 <= n <= log.len() <= usize::MAX,
        forall|i: int|
            0 <= i < group_places(log, group, n).len() ==> log[(#[trigger] group_places(log, group, n)[i]) as int].name
                != name,
    ensures
        first_row(log, group, name, n) is None,
        last_row(log, group, name, n) is None,
    decreases n,
{
    if n > 0 {
        let shorter = group_places(log, group, n - 1);
        assert forall|i: int| 0 <= i < shorter.len() implies log[(#[trigger] shorter[i]) as int].name != name by {
            assert(group_places(log, group, n)[i] == shorter[i]);
        }
        absent_from_places(log, group, name, n - 1);
        if log[n - 1].group == group {
            let longer = group_places(log, group, n);
            assert(longer[longer.len() - 1] == (n - 1) as usize);
        }
    }
}

/// The first place of a group with a name is the first row under both.
proof fn first_among_places<B>(log: Seq<RowView<B>>, group: Seq<char>, name: Seq<char>, n: int, j: int)
    requires
        0 <= n <= log.len() <= usize::MAX,
        0 <= j < group_places(log, group, n).len(),
        log[group_places(log, group, n)[j] as int].name == name,
        forall|i: int|
            0 <= i < j ==> log[(#[trigger] group_places(log, group, n)[i]) as int].name != name,
    ensures
        first_row(log, group, name, n) == Some(log[group_places(log, group, n)[j] as int].value),
    decreases n,
{
    if n > 0 {
        let shorter = group_places(log, group, n - 1);
        let longer = group_places(log, group, n);
        assert forall|i: int| 0 <= i < shorter.len() implies #[trigger] longer[i] == shorter[i] by {}
        if j < shorter.len() {
            assert forall|i: int| 0 <= i < j implies log[(#[trigger] shorter[i]) as int].name != name by {
                assert(longer[i] == shorter[i]);
            }
            assert(longer[j] == shorter[j]);
            first_among_places(log, group, name, n - 1, j);
        } else {
            assert forall|i: int| 0 <= i < shorter.len() implies log[(#[trigger] shorter[i]) as int].name != name by {
                assert(longer[i] == shorter[i]);
            }
            absent_from_places(log, group, name, n - 1);
        }
    }
}

/// The last place of a group with a name is the last row under both.
proof fn last_among_places<B>(log: Seq<RowView<B>>, group: Seq<char>, name: Seq<char>, n: int, j: int)
    requires
        0 <= n <= log.len() <= usize::MAX,
        0 <= j < group_places(log, group, n).len(),
        log[group_places(log, group, n)[j] as int].name == name,
        forall|i: int|
            j < i < group_places(log, group, n).len() ==> log[(#[trigger] group_places(log, group, n)[i]) as int].name
                != name,
    ensures
        last_row(log, group, name, n) == Some(log[group_places(log, group, n)[j] as int].value),
    decreases n,
{
    if n > 0 {
        let shorter = group_places(log, group, n - 1);
        let longer = group_places(log, group, n);
        assert forall|i: int| 0 <= i < shorter.len() implies #[trigger] longer[i] == shorter[i] by {}
        if log[n - 1].group == group {
            if j == longer.len() - 1 {
            } else {
                assert(longer[longer.len() - 1] == (n - 1) as usize);
                assert(longer[j] == shorter[j]);
                assert forall|i: int| j < i < shorter.len() implies log[(#[trigger] shorter[i]) as int].name != name by {
                    assert(longer[i] == shorter[i]);
                }
                last_among_places(log, group, name, n - 1, j);
            }
        } else {
            last_among_places(log, group, name, n - 1, j);
        }
    }
}

/// A row more leaves the places of the rows before.
proof fn places_of_a_longer_log<B>(log: Seq<RowView<B>>, row: RowView<B>, group: Seq<char>, n: int)
    requires
        0 <= n <= log.len(),
    ensures
        group_places(log.push(row), group, n) == group_places(log, group, n),
    decreases n,
{
    if n > 0 {
        places_of_a_longer_log(log, row, group, n - 1);
        assert(log.push(row)[n - 1] == log[n - 1]);
    }
}

/// One row of a log.
pub struct LogRow<A> {
    pub group: String,
    pub name: String,
    pub value: A,
}

impl<A: View> View for LogRow<A> {
    type V = RowView<A::V>;

    open spec fn view(&self) -> RowView<A::V> {
        RowView { group: self.group@, name: self.name@, value: self.value@ }
    }
}

/// A log with an index of its groups.
pub struct Log<A> {
    rows: Vec<LogRow<A>>,
    index: Buckets,
}

impl<A: View> View for Log<A> {
    type V = Seq<RowView<A::V>>;

    closed spec fn view(&self) -> Seq<RowView<A::V>> {
        views(self.rows@)
    }
}

impl<A: View> Log<A> {
    /// Whether the index is that of the rows.
    pub closed spec fn wf(&self) -> bool {
        &&& self.index.wf()
        &&& forall|g: Seq<char>| #[trigger] self.index.at(g) == group_places(self@, g, self@.len() as int)
    }

    /// An empty log.
    pub fn new() -> (r: Log<A>)
        ensures
            r.wf(),
            r@.len() == 0,
    {
        let r = Log { rows: Vec::new(), index: Buckets::new() };
        assert(r@.len() == 0);
        assert forall|g: Seq<char>| #[trigger] r.index.at(g) == group_places(r@, g, r@.len() as int) by {
            assert(r.index.at(g) =~= Seq::<usize>::empty());
        }
        r
    }

    /// How many rows there are.
    pub fn len(&self) -> (r: usize)
        ensures
            r == self@.len(),
    {
        self.rows.len()
    }

    /// Adds a row.
    pub fn push(&mut self, group: &str, name: &str, value: A)
        requires
            old(self).wf(),
        ensures
            final(self).wf(),
            final(self)@ == old(self)@.push((RowView { group: group@, name: name@, value: value@ })),
    {
        let ghost before = self@;
        let ghost row = RowView { group: group@, name: name@, value: value@ };
        let at: usize = self.rows.len();
        self.rows.push(LogRow { group: copy(group), name: copy(name), value });
        self.index.add(group, at);
        assert(self@ =~= before.push(row));
        assert forall|g: Seq<char>| #[trigger] self.index.at(g) == group_places(self@, g, self@.len() as int) by {
            places_of_a_longer_log(before, row, g, before.len() as int);
        }
    }

    /// The first value under a group and a name.
    #[verifier::loop_isolation(false)]
    pub fn first(&self, group: &str, name: &str) -> (r: Option<&A>)
        requires
            self.wf(),
        ensures
            match r {
                Some(v) => first_under(self@, group@, name@) == Some(v@),
                None => first_under(self@, group@, name@) is None,
            },
    {
        let ghost log = self@;
        let n: usize = self.rows.len();
        let ghost places = group_places(log, group@, n as int);
        proof {
            places_hold_the_group(log, group@, n as int);
        }
        let count: usize = self.index.len(group);
        let mut i: usize = 0;
        while i < count
            invariant
                i <= count,
                forall|j: int| 0 <= j < i ==> log[(#[trigger] places[j]) as int].name != name@,
            decreases count - i,
        {
            let p = self.index.get(group, i);
            assert(p == places[i as int]);
            assert(log[p as int] == self.rows@[p as int]@);
            if same(self.rows[p].name.as_str(), name) {
                proof {
                    first_among_places(log, group@, name@, n as int, i as int);
                }
                return Some(&self.rows[p].value);
            }
            i += 1;
        }
        proof {
            absent_from_places(log, group@, name@, n as int);
        }
        None
    }

    /// The last value under a group and a name.
    #[verifier::loop_isolation(false)]
    pub fn last(&self, group: &str, name: &str) -> (r: Option<&A>)
        requires
            self.wf(),
        ensures
            match r {
                Some(v) => last_under(self@, group@, name@) == Some(v@),
                None => last_under(self@, group@, name@) is None,
            },
    {
        let ghost log = self@;
        let n: usize = self.rows.len();
        let ghost places = group_places(log, group@, n as int);
        proof {
            places_hold_the_group(log, group@, n as int);
        }
        let count: usize = self.index.len(group);
        let mut i: usize = count;
        while i > 0
            invariant
                i <= count,
                forall|j: int| i <= j < count ==> log[(#[trigger] places[j]) as int].name != name@,
            decreases i,
        {
            i -= 1;
            let p = self.index.get(group, i);
            assert(p == places[i as int]);
            assert(log[p as int] == self.rows@[p as int]@);
            if same(self.rows[p].name.as_str(), name) {
                proof {
                    last_among_places(log, group@, name@, n as int, i as int);
                }
                return Some(&self.rows[p].value);
            }
        }
        proof {
            absent_from_places(log, group@, name@, n as int);
        }
        None
    }

    /// How many rows a group has.
    pub fn group_len(&self, group: &str) -> (r: usize)
        requires
            self.wf(),
        ensures
            r == values_of(self@, group@).len(),
    {
        let n: usize = self.rows.len();
        proof {
            places_hold_the_group(self@, group@, n as int);
        }
        self.index.len(group)
    }

    /// The value of a row of a group.
    pub fn group_at(&self, group: &str, i: usize) -> (r: &A)
        requires
            self.wf(),
            i < values_of(self@, group@).len(),
        ensures
            r@ == values_of(self@, group@)[i as int],
    {
        let n: usize = self.rows.len();
        proof {
            places_hold_the_group(self@, group@, n as int);
        }
        let p = self.index.get(group, i);
        assert(p == group_places(self@, group@, self@.len() as int)[i as int]);
        assert(self@[p as int] == self.rows@[p as int]@);
        &self.rows[p].value
    }
}

}
