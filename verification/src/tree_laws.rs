//! What syntax trees promise.

use vstd::prelude::*;

use crate::selection::{pick_next, pick_nothing, picks};
use crate::tree::{capture_from, captured_from, Capture, TreeView};

verus! {

/// A field leads to the first child that stands under it.
pub proof fn fields_lead_to_the_first_child(t: TreeView, list: Seq<usize>, field: Seq<char>, i: int, j: int)
    requires
        0 <= i <= j <= list.len(),
        forall|k: int| i <= k < j ==> t.nodes[#[trigger] list[k] as int].field != Some(field),
    ensures
        j < list.len() && t.nodes[list[j] as int].field == Some(field) ==> t.field_from(list, field, i) == Some(list[j]),
        j == list.len() ==> t.field_from(list, field, i) is None,
    decreases j - i,
{
    if i < j {
        assert(t.nodes[list[i] as int].field != Some(field));
        fields_lead_to_the_first_child(t, list, field, i + 1, j);
    }
}

/// A kind leads to the first child that is of it.
pub proof fn kinds_lead_to_the_first_child(t: TreeView, list: Seq<usize>, kind: Seq<char>, i: int, j: int)
    requires
        0 <= i <= j <= list.len(),
        forall|k: int| i <= k < j ==> t.kind(#[trigger] list[k]) != kind,
    ensures
        j < list.len() && t.kind(list[j]) == kind ==> t.kind_from(list, kind, i) == Some(list[j]),
        j == list.len() ==> t.kind_from(list, kind, i) is None,
    decreases j - i,
{
    if i < j {
        assert(t.kind(list[i]) != kind);
        kinds_lead_to_the_first_child(t, list, kind, i + 1, j);
    }
}

/// Several kinds lead to the first child that is of one of them.
pub proof fn several_kinds_lead_to_the_first_child(t: TreeView, list: Seq<usize>, kinds: Seq<&'static str>, i: int, j: int)
    requires
        0 <= i <= j <= list.len(),
        forall|k: int| i <= k < j ==> !t.kind_among(#[trigger] list[k], kinds),
    ensures
        j < list.len() && t.kind_among(list[j], kinds) ==> t.kinds_from(list, kinds, i) == Some(list[j]),
        j == list.len() ==> t.kinds_from(list, kinds, i) is None,
    decreases j - i,
{
    if i < j {
        assert(!t.kind_among(list[i], kinds));
        several_kinds_lead_to_the_first_child(t, list, kinds, i + 1, j);
    }
}

/// The named children are the children that are named, in order.
pub proof fn named_children_are_selected(t: TreeView, list: Seq<usize>, n: int) -> (places: Seq<int>)
    requires
        0 <= n <= list.len(),
    ensures
        picks(list, t.named_of(list, n), places),
        forall|k: int| #[trigger] places.contains(k) <==> 0 <= k < n && t.nodes[list[k] as int].named,
    decreases n,
{
    if n == 0 {
        pick_nothing(list);
        Seq::empty()
    } else {
        let earlier = named_children_are_selected(t, list, n - 1);
        if t.nodes[list[n - 1] as int].named {
            pick_next(list, t.named_of(list, n - 1), earlier, n - 1);
            earlier.push(n - 1)
        } else {
            earlier
        }
    }
}

/// The children under a field are the children that stand under it, in order.
pub proof fn children_under_a_field_are_selected(t: TreeView, list: Seq<usize>, field: Seq<char>, n: int) -> (places: Seq<int>)
    requires
        0 <= n <= list.len(),
    ensures
        picks(list, t.all_under(list, field, n), places),
        forall|k: int| #[trigger] places.contains(k) <==> 0 <= k < n && t.nodes[list[k] as int].field == Some(field),
    decreases n,
{
    if n == 0 {
        pick_nothing(list);
        Seq::empty()
    } else {
        let earlier = children_under_a_field_are_selected(t, list, field, n - 1);
        if t.nodes[list[n - 1] as int].field == Some(field) {
            pick_next(list, t.all_under(list, field, n - 1), earlier, n - 1);
            earlier.push(n - 1)
        } else {
            earlier
        }
    }
}

/// A capture leads to the first node of its kind that spans its bytes.
pub proof fn captures_lead_to_nodes(t: TreeView, c: Capture, i: int, j: int)
    requires
        0 <= i <= j < t.nodes.len(),
        t.nodes.len() <= usize::MAX,
        t.nodes[j].symbol == c.symbol,
        t.nodes[j].start == c.start,
        t.nodes[j].end == c.end,
        forall|k: int|
            i <= k < j ==> (#[trigger] t.nodes[k]).symbol != c.symbol || t.nodes[k].start != c.start || t.nodes[k].end != c.end,
    ensures
        captured_from(t, c, i) == Some(j as usize),
    decreases j - i,
{
    if i < j {
        assert(t.nodes[i].symbol != c.symbol || t.nodes[i].start != c.start || t.nodes[i].end != c.end);
        captures_lead_to_nodes(t, c, i + 1, j);
    }
}

/// A number of a match leads to the first capture under it.
pub proof fn numbers_lead_to_captures(t: TreeView, hit: Seq<Capture>, index: u32, i: int, j: int)
    requires
        0 <= i <= j <= hit.len(),
        forall|k: int| i <= k < j ==> (#[trigger] hit[k]).index != index,
    ensures
        j < hit.len() && hit[j].index == index ==> capture_from(t, hit, index, i) == captured_from(t, hit[j], 0),
        j == hit.len() ==> capture_from(t, hit, index, i) is None,
    decreases j - i,
{
    if i < j {
        assert(hit[i].index != index);
        numbers_lead_to_captures(t, hit, index, i + 1, j);
    }
}

}
