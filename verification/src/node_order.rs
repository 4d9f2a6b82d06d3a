//! The order in which the path finder serves its frontier entries: cheaper
//! entries first, and among equally cheap ones the entry at the greater
//! position. Two entries are equal when they stand at the same position.
use std::cmp::Ordering;
use vstd::prelude::*;
use vstd::std_specs::cmp::PartialEqSpecImpl;
use vstd::std_specs::cmp::PartialOrdSpecImpl;
use crate::lumberjack::{served_no_later, Node};

verus! {

/// How `a` compares to `b`.
pub open spec fn usize_order(a: usize, b: usize) -> Ordering {
    if a < b {
        Ordering::Less
    } else if a == b {
        Ordering::Equal
    } else {
        Ordering::Greater
    }
}

/// The order of two frontier entries: by cost reversed, then by row, then by column.
pub open spec fn node_order(a: Node, b: Node) -> Ordering {
    if a.cost != b.cost {
        usize_order(b.cost, a.cost)
    } else if a.coords.0 != b.coords.0 {
        usize_order(a.coords.0, b.coords.0)
    } else {
        usize_order(a.coords.1, b.coords.1)
    }
}

/// Returns how the entry `a` compares to `b`.
pub fn node_cmp(a: &Node, b: &Node) -> (r: Ordering)
    ensures
        r == node_order(*a, *b),
{
    if a.cost != b.cost {
        if b.cost < a.cost {
            Ordering::Less
        } else {
            Ordering::Greater
        }
    } else if a.coords.0 != b.coords.0 {
        if a.coords.0 < b.coords.0 {
            Ordering::Less
        } else {
            Ordering::Greater
        }
    } else if a.coords.1 < b.coords.1 {
        Ordering::Less
    } else if a.coords.1 == b.coords.1 {
        Ordering::Equal
    } else {
        Ordering::Greater
    }
}

/// The path finder serves an entry no later than another exactly when the
/// other is not greater in the entries' order: it serves them as a max-heap would.
pub proof fn lemma_served_in_heap_order(e: Node, n: Node)
    ensures
        served_no_later(e, n) <==> node_order(n, e) != Ordering::Greater,
{
}

impl PartialEq for Node {
    fn eq(&self, other: &Self) -> (r: bool) {
        self.coords.0 == other.coords.0 && self.coords.1 == other.coords.1
    }
}

impl PartialEqSpecImpl for Node {
    open spec fn obeys_eq_spec() -> bool {
        true
    }

    open spec fn eq_spec(&self, other: &Node) -> bool {
        self.coords == other.coords
    }
}

impl PartialOrd for Node {
    fn partial_cmp(&self, other: &Self) -> (r: Option<Ordering>) {
        Some(node_cmp(self, other))
    }
}

impl PartialOrdSpecImpl for Node {
    open spec fn obeys_partial_cmp_spec() -> bool {
        true
    }

    open spec fn partial_cmp_spec(&self, other: &Node) -> Option<Ordering> {
        Some(node_order(*self, *other))
    }
}

} // verus!
