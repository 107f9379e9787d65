//! Arenas that only grow: the relation between an arena before and after
//! checking, and the measure that bounds how deep the checker recurses.
use vstd::prelude::*;

use crate::ast::{child_index, nodes_wf, Node, NodeId};

verus! {

/// `b` is `a` with nodes added, children replaced and types recorded, where
/// no node changes its kind and no node gains or loses all its children.
pub open spec fn stable(a: Seq<Node>, b: Seq<Node>) -> bool {
    &&& a.len() <= b.len()
    &&& forall|i: int|
        0 <= i < a.len() ==> {
            &&& (#[trigger] b[i]).node_type == a[i].node_type
            &&& (b[i].children@.len() == 0) == (a[i].children@.len() == 0)
        }
}

/// How far the checker may still recurse below node `id`.
pub open spec fn measure(nodes: Seq<Node>, id: NodeId) -> nat {
    if id.0 < nodes.len() && nodes[id.0 as int].children@.len() > 0 {
        (id.0 + 1) as nat
    } else {
        0
    }
}

pub open spec fn opt_measure(nodes: Seq<Node>, c: Option<NodeId>) -> nat {
    match c {
        Some(id) => measure(nodes, id),
        None => 0,
    }
}

pub broadcast proof fn lemma_stable_trans(a: Seq<Node>, b: Seq<Node>, c: Seq<Node>)
    requires
        stable(a, b),
        stable(b, c),
    ensures
        #![trigger stable(a, b), stable(b, c)]
        stable(a, c),
{
    assert forall|i: int| 0 <= i < a.len() implies {
        &&& (#[trigger] c[i]).node_type == a[i].node_type
        &&& (c[i].children@.len() == 0) == (a[i].children@.len() == 0)
    } by {
        assert(c[i].node_type == b[i].node_type);
    }
}

pub broadcast proof fn lemma_stable_measure(a: Seq<Node>, b: Seq<Node>, id: NodeId)
    requires
        stable(a, b),
        id.0 < a.len(),
    ensures
        #![trigger stable(a, b), measure(b, id)]
        measure(b, id) == measure(a, id),
{
    assert(b[id.0 as int].node_type == a[id.0 as int].node_type);
}

/// A present child of a node of a well-formed arena is checked with a
/// smaller measure than the node.
pub proof fn lemma_child_measure(nodes: Seq<Node>, id: NodeId, k: int)
    requires
        nodes_wf(nodes),
        id.0 < nodes.len(),
        0 <= k < nodes[id.0 as int].children@.len(),
        nodes[id.0 as int].children@[k] is Some,
    ensures
        0 <= child_index(nodes[id.0 as int].children@[k]) < nodes.len(),
        measure(nodes, nodes[id.0 as int].children@[k]->0) < measure(nodes, id),
{
    assert(nodes[id.0 as int].children@[k] is Some);
}

pub broadcast group group_stable {
    lemma_stable_trans,
    lemma_stable_measure,
}

} // verus!
