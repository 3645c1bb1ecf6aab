//! Proofs that the edits of the model keep a tree well formed.

use vstd::prelude::*;
use crate::base_configuration::NodeView;
use crate::identity::NodeId;
use crate::model::{relink, TreeView};

verus! {

/// In a well-formed tree, a node is not among its own children, and a node
/// without a parent is among nobody's children.
pub proof fn lemma_not_a_child(t: TreeView, parent: NodeId, node: NodeId)
    requires
        t.wf(),
        t.contains(parent),
        t.contains(node),
        node == parent || t.parent_of(node) is None,
    ensures
        !t.children_of(parent).contains(node),
{
    if t.children_of(parent).contains(node) {
        let i = choose|i: int|
            0 <= i < t.children_of(parent).len() && t.children_of(parent)[i] == node;
        assert(t.parent_of(t.children_of(parent)[i]) == Some(parent));
        let rank = choose|rank: spec_fn(NodeId) -> nat| t.ranked_by(rank);
        assert(t.contains(node));
    }
}

/// What one link made or cut does to each node.
pub proof fn lemma_relink_nodes(
    nodes: Map<NodeId, NodeView>,
    parent: NodeId,
    kids: Seq<NodeId>,
    child: NodeId,
    link: Option<NodeId>,
)
    requires
        nodes.dom().contains(parent),
        nodes.dom().contains(child),
        parent != child,
    ensures
        relink(nodes, parent, kids, child, link).dom() == nodes.dom(),
        forall|id: NodeId| #[trigger]
            nodes.dom().contains(id) ==> {
                let before = nodes[id];
                let after = relink(nodes, parent, kids, child, link)[id];
                &&& after.structure.parent == if id == child {
                    link
                } else {
                    before.structure.parent
                }
                &&& after.structure.child_uuids == if id == parent {
                    kids
                } else {
                    before.structure.child_uuids
                }
                &&& after.structure.is_first == if kids.contains(id) {
                    kids.first() == id
                } else if id == child {
                    false
                } else {
                    before.structure.is_first
                }
                &&& after.structure.is_last == if kids.contains(id) {
                    kids.last() == id
                } else if id == child {
                    false
                } else {
                    before.structure.is_last
                }
                &&& after == before.with_structure(after.structure)
            },
{
    assert(relink(nodes, parent, kids, child, link).dom() =~= nodes.dom());
}

/// The children of the parent before and after a node is attached: the
/// child is new among them, and the parent is none of them.
pub proof fn lemma_attach_kids(t: TreeView, parent: NodeId, child: NodeId)
    requires
        t.wf(),
        t.attach_error(parent, child) is None,
    ensures
        parent != child,
        !t.children_of(parent).contains(child),
        !t.children_of(parent).contains(parent),
        t.children_of(parent).push(child).no_duplicates(),
{
    assert(t.reaches(parent, parent, 0));
    assert(parent != child);
    lemma_not_a_child(t, parent, child);
    lemma_not_a_child(t, parent, parent);
    let kids0 = t.children_of(parent);
    let kids = kids0.push(child);
    assert(kids.no_duplicates()) by {
        assert forall|i: int, j: int| 0 <= i < kids.len() && 0 <= j < kids.len() && i != j implies kids[i]
            != kids[j] by {
            if i < kids0.len() && j < kids0.len() {
                assert(kids0[i] != kids0[j]);
            } else if i < kids0.len() {
                assert(kids0[i] == kids[i]);
            } else {
                assert(kids0[j] == kids[j]);
            }
        }
    }
}

/// What attaching does to each node of a well-formed tree.
pub proof fn lemma_attach_nodes(t: TreeView, parent: NodeId, child: NodeId)
    requires
        t.wf(),
        t.attach_error(parent, child) is None,
    ensures
        parent != child,
        !t.children_of(parent).contains(child),
        !t.children_of(parent).contains(parent),
        t.children_of(parent).push(child).no_duplicates(),
        t.attach(parent, child).nodes.dom() == t.nodes.dom(),
        t.attach(parent, child).policy == t.policy,
        forall|id: NodeId| #[trigger]
            t.contains(id) ==> {
                let before = t.nodes[id];
                let after = t.attach(parent, child).nodes[id];
                let kids = t.children_of(parent).push(child);
                &&& after.structure.parent == if id == child {
                    Some(parent)
                } else {
                    before.structure.parent
                }
                &&& after.structure.child_uuids == if id == parent {
                    kids
                } else {
                    before.structure.child_uuids
                }
                &&& after.structure.is_first == if kids.contains(id) {
                    kids.first() == id
                } else {
                    before.structure.is_first
                }
                &&& after.structure.is_last == if kids.contains(id) {
                    kids.last() == id
                } else {
                    before.structure.is_last
                }
                &&& after == before.with_structure(after.structure)
            },
{
    lemma_attach_kids(t, parent, child);
    let kids0 = t.children_of(parent);
    let kids = kids0.push(child);
    lemma_relink_nodes(t.nodes, parent, kids, child, Some(parent));
    assert(kids[kids0.len() as int] == child);
}

/// A step up from a node other than the goal: if the goal is reached from
/// `from`, it is reached from the parent of `from` too, in one step less.
pub proof fn lemma_reaches_step(t: TreeView, from: NodeId, to: NodeId, steps: nat)
    requires
        t.reaches(from, to, steps),
        from != to,
    ensures
        steps > 0,
        t.contains(from),
        t.parent_of(from) is Some,
        t.reaches(t.parent_of(from).unwrap(), to, (steps - 1) as nat),
{
}

/// Attaching keeps a tree free of cycles.
proof fn lemma_attach_acyclic(t: TreeView, parent: NodeId, child: NodeId)
    requires
        t.wf(),
        t.attach_error(parent, child) is None,
    ensures
        t.attach(parent, child).acyclic(),
{
    lemma_attach_nodes(t, parent, child);
    let after = t.attach(parent, child);
    let rank = choose|rank: spec_fn(NodeId) -> nat| t.ranked_by(rank);
    // Every node below the child moves down by the rank of the parent.
    let lifted = |id: NodeId|
        if t.is_ancestor_or_self(child, id) {
            (rank(id) + rank(parent) + 1) as nat
        } else {
            rank(id)
        };
    assert forall|id: NodeId| #[trigger]
        after.contains(id) && after.parent_of(id) is Some implies lifted(
        after.parent_of(id).unwrap(),
    ) < lifted(id) by {
        let up = after.parent_of(id).unwrap();
        assert(t.contains(id));
        if id == child {
            assert(t.reaches(child, child, 0));
            assert(t.is_ancestor_or_self(child, child));
            assert(!t.is_ancestor_or_self(child, parent));
        } else {
            assert(t.parent_of(id) == Some(up));
            if t.is_ancestor_or_self(child, id) {
                let steps = choose|steps: nat| t.reaches(id, child, steps);
                lemma_reaches_step(t, id, child, steps);
                assert(t.reaches(up, child, (steps - 1) as nat));
                assert(t.is_ancestor_or_self(child, up));
            } else {
                if t.is_ancestor_or_self(child, up) {
                    let steps = choose|steps: nat| t.reaches(up, child, steps);
                    assert(t.reaches(id, child, steps + 1));
                    assert(false);
                }
            }
        }
    }
    assert(after.ranked_by(lifted));
}

/// Attaching a node that can be attached keeps the tree well formed.
pub proof fn lemma_attach_wf(t: TreeView, parent: NodeId, child: NodeId)
    requires
        t.wf(),
        t.attach_error(parent, child) is None,
    ensures
        t.attach(parent, child).wf(),
{
    lemma_attach_nodes(t, parent, child);
    lemma_attach_acyclic(t, parent, child);
    let after = t.attach(parent, child);
    let kids0 = t.children_of(parent);
    let kids = kids0.push(child);
    assert forall|id: NodeId| after.contains(id) implies t.contains(id) by {}
    assert(after.keyed_by_uuid()) by {
        assert forall|id: NodeId| #[trigger] after.contains(id) implies after.nodes[id].identity.uuid
            == id by {
            assert(t.contains(id));
        }
    }
    assert(after.parent_links_valid()) by {
        assert forall|id: NodeId|
            after.contains(id) && #[trigger] after.parent_of(id) is Some implies after.contains(
            after.parent_of(id).unwrap(),
        ) && after.children_of(after.parent_of(id).unwrap()).contains(id) by {
            assert(t.contains(id));
            if id == child {
                assert(kids[kids0.len() as int] == child);
            } else {
                let up = t.parent_of(id).unwrap();
                assert(t.contains(up));
                if up == parent {
                    let i = choose|i: int| 0 <= i < kids0.len() && kids0[i] == id;
                    assert(kids[i] == id);
                }
            }
        }
    }
    assert(after.child_links_valid()) by {
        assert forall|id: NodeId, i: int|
            after.contains(id) && 0 <= i < after.children_of(id).len() implies after.contains(
            #[trigger] after.children_of(id)[i],
        ) && after.parent_of(after.children_of(id)[i]) == Some(id) by {
            assert(t.contains(id));
            if id == parent {
                if i < kids0.len() {
                    assert(kids[i] == t.children_of(parent)[i]);
                    assert(t.contains(t.children_of(parent)[i]));
                }
            } else {
                assert(t.contains(t.children_of(id)[i]));
                assert(t.parent_of(t.children_of(id)[i]) == Some(id));
            }
        }
    }
    assert(after.children_distinct()) by {
        assert forall|id: NodeId| #[trigger] after.contains(id) implies after.children_of(
            id,
        ).no_duplicates() by {
            assert(t.contains(id));
        }
    }
    assert(after.sibling_flags_valid()) by {
        assert forall|id: NodeId, i: int|
            after.contains(id) && 0 <= i < after.children_of(id).len() implies {
            &&& after.nodes[#[trigger] after.children_of(id)[i]].structure.is_first == (i == 0)
            &&& after.nodes[after.children_of(id)[i]].structure.is_last == (i
                == after.children_of(id).len() - 1)
        } by {
            assert(t.contains(id));
            let kid = after.children_of(id)[i];
            if id == parent {
                assert(kids.contains(kid));
                if i < kids0.len() {
                    assert(t.contains(t.children_of(parent)[i]));
                }
            } else {
                assert(t.contains(t.children_of(id)[i]));
                assert(t.parent_of(kid) == Some(id));
                if kids.contains(kid) {
                    let j = choose|j: int| 0 <= j < kids.len() && kids[j] == kid;
                    if j < kids0.len() {
                        assert(t.parent_of(t.children_of(parent)[j]) == Some(parent));
                    }
                    assert(false);
                }
            }
        }
        assert forall|id: NodeId| #[trigger]
            after.contains(id) && after.parent_of(id) is None implies !after.nodes[id].structure.is_first
            && !after.nodes[id].structure.is_last by {
            assert(t.contains(id));
            if kids.contains(id) {
                let j = choose|j: int| 0 <= j < kids.len() && kids[j] == id;
                if j < kids0.len() {
                    assert(t.parent_of(t.children_of(parent)[j]) == Some(parent));
                }
                assert(false);
            }
        }
    }
    assert(after.levels_respected()) by {
        assert forall|id: NodeId| #[trigger]
            after.contains(id) && after.parent_of(id) is Some implies after.policy.contains(
            (
                after.nodes[after.parent_of(id).unwrap()].identity.component_level,
                after.nodes[id].identity.component_level,
            ),
        ) by {
            assert(t.contains(id));
            if id != child {
                assert(t.contains(t.parent_of(id).unwrap()));
            }
        }
    }
    assert(after.deleted_detached()) by {
        assert forall|id: NodeId| #[trigger]
            after.contains(id) && after.nodes[id].flags.is_deleted implies after.parent_of(
            id,
        ) is None by {
            assert(t.contains(id));
        }
    }
}

/// Taking one element out of a sequence without duplicates: which elements
/// stay, and that none of them is the one taken out.
pub proof fn lemma_remove_distinct(kids: Seq<NodeId>, k: int)
    requires
        kids.no_duplicates(),
        0 <= k < kids.len(),
    ensures
        kids.remove(k).len() == kids.len() - 1,
        kids.remove(k).no_duplicates(),
        !kids.remove(k).contains(kids[k]),
        kids.index_of(kids[k]) == k,
        forall|i: int| 0 <= i < k ==> #[trigger] kids.remove(k)[i] == kids[i],
        forall|i: int| k <= i < kids.len() - 1 ==> #[trigger] kids.remove(k)[i] == kids[i + 1],
        forall|id: NodeId| #[trigger]
            kids.remove(k).contains(id) <==> kids.contains(id) && id != kids[k],
{
    let rest = kids.remove(k);
    kids.remove_ensures(k);
    assert forall|i: int, j: int| 0 <= i < rest.len() && 0 <= j < rest.len() && i != j implies rest[i]
        != rest[j] by {
        let i0 = if i < k { i } else { i + 1 };
        let j0 = if j < k { j } else { j + 1 };
        assert(rest[i] == kids[i0]);
        assert(rest[j] == kids[j0]);
    }
    assert forall|id: NodeId| #[trigger]
        rest.contains(id) <==> kids.contains(id) && id != kids[k] by {
        if rest.contains(id) {
            let i = choose|i: int| 0 <= i < rest.len() && rest[i] == id;
            let i0 = if i < k { i } else { i + 1 };
            assert(kids[i0] == id);
        }
        if kids.contains(id) && id != kids[k] {
            let i0 = choose|i: int| 0 <= i < kids.len() && kids[i] == id;
            let i = if i0 < k { i0 } else { i0 - 1 };
            assert(rest[i] == id);
        }
    }
}

/// The child that is detached stands at exactly one place among the
/// children of its parent, and names that parent.
pub proof fn lemma_detach_kids(t: TreeView, parent: NodeId, child: NodeId)
    requires
        t.wf(),
        t.detach_error(parent, child) is None,
    ensures
        parent != child,
        t.contains(child),
        t.parent_of(child) == Some(parent),
        t.children_of(parent).no_duplicates(),
        ({
            let k = t.children_of(parent).index_of(child);
            0 <= k < t.children_of(parent).len() && t.children_of(parent)[k] == child
        }),
{
    let kids0 = t.children_of(parent);
    let k = kids0.index_of(child);
    assert(0 <= k < kids0.len() && kids0[k] == child);
    assert(t.contains(kids0[k]));
    assert(t.parent_of(kids0[k]) == Some(parent));
    if parent == child {
        lemma_not_a_child(t, parent, parent);
    }
}

/// What detaching does to each node of a well-formed tree.
pub proof fn lemma_detach_nodes(t: TreeView, parent: NodeId, child: NodeId)
    requires
        t.wf(),
        t.detach_error(parent, child) is None,
    ensures
        parent != child,
        t.contains(child),
        t.parent_of(child) == Some(parent),
        ({
            let k = t.children_of(parent).index_of(child);
            0 <= k < t.children_of(parent).len() && t.children_of(parent)[k] == child
        }),
        t.detach(parent, child).nodes.dom() == t.nodes.dom(),
        t.detach(parent, child).policy == t.policy,
        forall|id: NodeId| #[trigger]
            t.contains(id) ==> {
                let before = t.nodes[id];
                let after = t.detach(parent, child).nodes[id];
                let kids = t.children_of(parent).remove(t.children_of(parent).index_of(child));
                &&& after.structure.parent == if id == child {
                    None
                } else {
                    before.structure.parent
                }
                &&& after.structure.child_uuids == if id == parent {
                    kids
                } else {
                    before.structure.child_uuids
                }
                &&& after.structure.is_first == if id == child {
                    false
                } else if kids.contains(id) {
                    kids.first() == id
                } else {
                    before.structure.is_first
                }
                &&& after.structure.is_last == if id == child {
                    false
                } else if kids.contains(id) {
                    kids.last() == id
                } else {
                    before.structure.is_last
                }
                &&& after == before.with_structure(after.structure)
            },
{
    let kids0 = t.children_of(parent);
    let k = kids0.index_of(child);
    assert(0 <= k < kids0.len() && kids0[k] == child);
    assert(t.contains(kids0[k]));
    assert(t.parent_of(kids0[k]) == Some(parent));
    if parent == child {
        lemma_not_a_child(t, parent, parent);
    }
    let kids = kids0.remove(k);
    assert(!kids.contains(child)) by {
        lemma_remove_distinct(kids0, k);
    }
    lemma_relink_nodes(t.nodes, parent, kids, child, None);
}

/// Detaching a child keeps the tree well formed.
pub proof fn lemma_detach_wf(t: TreeView, parent: NodeId, child: NodeId)
    requires
        t.wf(),
        t.detach_error(parent, child) is None,
    ensures
        t.detach(parent, child).wf(),
{
    lemma_detach_nodes(t, parent, child);
    let after = t.detach(parent, child);
    let kids0 = t.children_of(parent);
    let k = kids0.index_of(child);
    let kids = kids0.remove(k);
    lemma_remove_distinct(kids0, k);
    assert forall|id: NodeId| after.contains(id) implies t.contains(id) by {}
    assert(after.keyed_by_uuid()) by {
        assert forall|id: NodeId| #[trigger] after.contains(id) implies after.nodes[id].identity.uuid
            == id by {
            assert(t.contains(id));
        }
    }
    assert(after.parent_links_valid()) by {
        assert forall|id: NodeId|
            after.contains(id) && #[trigger] after.parent_of(id) is Some implies after.contains(
            after.parent_of(id).unwrap(),
        ) && after.children_of(after.parent_of(id).unwrap()).contains(id) by {
            assert(t.contains(id));
            let up = t.parent_of(id).unwrap();
            assert(t.contains(up));
            assert(t.children_of(up).contains(id));
        }
    }
    assert(after.child_links_valid()) by {
        assert forall|id: NodeId, i: int|
            after.contains(id) && 0 <= i < after.children_of(id).len() implies after.contains(
            #[trigger] after.children_of(id)[i],
        ) && after.parent_of(after.children_of(id)[i]) == Some(id) by {
            assert(t.contains(id));
            if id == parent {
                let i0 = if i < k { i } else { i + 1 };
                assert(kids[i] == kids0[i0]);
                assert(t.contains(t.children_of(parent)[i0]));
                assert(kids.contains(kids[i]));
            } else {
                assert(t.contains(t.children_of(id)[i]));
                assert(t.parent_of(t.children_of(id)[i]) == Some(id));
            }
        }
    }
    assert(after.children_distinct()) by {
        assert forall|id: NodeId| #[trigger] after.contains(id) implies after.children_of(
            id,
        ).no_duplicates() by {
            assert(t.contains(id));
        }
    }
    assert(after.sibling_flags_valid()) by {
        assert forall|id: NodeId, i: int|
            after.contains(id) && 0 <= i < after.children_of(id).len() implies {
            &&& after.nodes[#[trigger] after.children_of(id)[i]].structure.is_first == (i == 0)
            &&& after.nodes[after.children_of(id)[i]].structure.is_last == (i
                == after.children_of(id).len() - 1)
        } by {
            assert(t.contains(id));
            let kid = after.children_of(id)[i];
            if id == parent {
                let i0 = if i < k { i } else { i + 1 };
                assert(kids[i] == kids0[i0]);
                assert(t.contains(t.children_of(parent)[i0]));
                assert(kids.contains(kid));
            } else {
                assert(t.contains(t.children_of(id)[i]));
                assert(t.parent_of(kid) == Some(id));
                if kids.contains(kid) {
                    let j = choose|j: int| 0 <= j < kids0.len() && kids0[j] == kid;
                    assert(t.parent_of(t.children_of(parent)[j]) == Some(parent));
                    assert(false);
                }
            }
        }
        assert forall|id: NodeId| #[trigger]
            after.contains(id) && after.parent_of(id) is None implies !after.nodes[id].structure.is_first
            && !after.nodes[id].structure.is_last by {
            assert(t.contains(id));
            if id != child && kids.contains(id) {
                let j = choose|j: int| 0 <= j < kids0.len() && kids0[j] == id;
                assert(t.parent_of(t.children_of(parent)[j]) == Some(parent));
                assert(false);
            }
        }
    }
    assert(after.acyclic()) by {
        let rank = choose|rank: spec_fn(NodeId) -> nat| t.ranked_by(rank);
        assert forall|id: NodeId| #[trigger]
            after.contains(id) && after.parent_of(id) is Some implies rank(
            after.parent_of(id).unwrap(),
        ) < rank(id) by {
            assert(t.contains(id));
        }
        assert(after.ranked_by(rank));
    }
    assert(after.levels_respected()) by {
        assert forall|id: NodeId| #[trigger]
            after.contains(id) && after.parent_of(id) is Some implies after.policy.contains(
            (
                after.nodes[after.parent_of(id).unwrap()].identity.component_level,
                after.nodes[id].identity.component_level,
            ),
        ) by {
            assert(t.contains(id));
            assert(t.contains(t.parent_of(id).unwrap()));
        }
    }
    assert(after.deleted_detached()) by {
        assert forall|id: NodeId| #[trigger]
            after.contains(id) && after.nodes[id].flags.is_deleted implies after.parent_of(
            id,
        ) is None by {
            assert(t.contains(id));
        }
    }
}

/// Adding a node under an identifier that the tree does not hold yet keeps
/// the tree well formed.
pub proof fn lemma_insert_wf(t: TreeView, node: NodeView)
    requires
        t.wf(),
        !t.contains(node.identity.uuid),
    ensures
        t.insert(node).wf(),
{
    let after = t.insert(node);
    let fresh = node.identity.uuid;
    assert forall|id: NodeId| #[trigger] after.contains(id) implies id == fresh || t.contains(
        id,
    ) by {}
    assert forall|id: NodeId| t.contains(id) implies after.nodes[id] == t.nodes[id] by {}
    assert(after.keyed_by_uuid());
    assert(after.parent_links_valid()) by {
        assert forall|id: NodeId|
            after.contains(id) && #[trigger] after.parent_of(id) is Some implies after.contains(
            after.parent_of(id).unwrap(),
        ) && after.children_of(after.parent_of(id).unwrap()).contains(id) by {
            assert(t.contains(id));
            assert(t.contains(t.parent_of(id).unwrap()));
        }
    }
    assert(after.child_links_valid()) by {
        assert forall|id: NodeId, i: int|
            after.contains(id) && 0 <= i < after.children_of(id).len() implies after.contains(
            #[trigger] after.children_of(id)[i],
        ) && after.parent_of(after.children_of(id)[i]) == Some(id) by {
            assert(t.contains(id));
            assert(t.contains(t.children_of(id)[i]));
        }
    }
    assert(after.children_distinct()) by {
        assert forall|id: NodeId| #[trigger] after.contains(id) implies after.children_of(
            id,
        ).no_duplicates() by {
            if id != fresh {
                assert(t.contains(id));
            }
        }
    }
    assert(after.sibling_flags_valid()) by {
        assert forall|id: NodeId, i: int|
            after.contains(id) && 0 <= i < after.children_of(id).len() implies {
            &&& after.nodes[#[trigger] after.children_of(id)[i]].structure.is_first == (i == 0)
            &&& after.nodes[after.children_of(id)[i]].structure.is_last == (i
                == after.children_of(id).len() - 1)
        } by {
            assert(t.contains(id));
            assert(t.contains(t.children_of(id)[i]));
        }
        assert forall|id: NodeId| #[trigger]
            after.contains(id) && after.parent_of(id) is None implies !after.nodes[id].structure.is_first
            && !after.nodes[id].structure.is_last by {
            if id != fresh {
                assert(t.contains(id));
            }
        }
    }
    assert(after.acyclic()) by {
        let rank = choose|rank: spec_fn(NodeId) -> nat| t.ranked_by(rank);
        assert forall|id: NodeId| #[trigger]
            after.contains(id) && after.parent_of(id) is Some implies rank(
            after.parent_of(id).unwrap(),
        ) < rank(id) by {
            assert(t.contains(id));
        }
        assert(after.ranked_by(rank));
    }
    assert(after.levels_respected()) by {
        assert forall|id: NodeId| #[trigger]
            after.contains(id) && after.parent_of(id) is Some implies after.policy.contains(
            (
                after.nodes[after.parent_of(id).unwrap()].identity.component_level,
                after.nodes[id].identity.component_level,
            ),
        ) by {
            assert(t.contains(id));
            assert(t.contains(t.parent_of(id).unwrap()));
        }
    }
    assert(after.deleted_detached()) by {
        assert forall|id: NodeId| #[trigger]
            after.contains(id) && after.nodes[id].flags.is_deleted implies after.parent_of(
            id,
        ) is None by {
            if id != fresh {
                assert(t.contains(id));
            }
        }
    }
}

/// Detaching a node from its parent, if it has one, keeps the tree well
/// formed and leaves the node without a parent.
pub proof fn lemma_detach_if_attached_wf(t: TreeView, node: NodeId)
    requires
        t.wf(),
    ensures
        t.detach_if_attached(node).wf(),
        t.detach_if_attached(node).nodes.dom() == t.nodes.dom(),
        t.detach_if_attached(node).policy == t.policy,
        t.contains(node) ==> t.detach_if_attached(node).parent_of(node) is None,
{
    if t.contains(node) && t.parent_of(node) is Some {
        let up = t.parent_of(node).unwrap();
        assert(t.contains(up) && t.children_of(up).contains(node));
        lemma_detach_nodes(t, up, node);
        lemma_detach_wf(t, up, node);
    }
}

/// Marking a node as deleted keeps the tree well formed.
pub proof fn lemma_mark_deleted_wf(t: TreeView, node: NodeId)
    requires
        t.wf(),
    ensures
        t.mark_deleted(node).wf(),
{
    if t.contains(node) {
        let detached = t.detach_if_attached(node);
        lemma_detach_if_attached_wf(t, node);
        let after = t.mark_deleted(node);
        assert(after.nodes.dom() =~= detached.nodes.dom());
        assert forall|id: NodeId| #[trigger] after.contains(id) implies detached.contains(id) && (
        id != node ==> after.nodes[id] == detached.nodes[id]) by {}
        assert(after.keyed_by_uuid());
        assert(after.parent_links_valid()) by {
            assert forall|id: NodeId|
                after.contains(id) && #[trigger] after.parent_of(id) is Some implies after.contains(
                after.parent_of(id).unwrap(),
            ) && after.children_of(after.parent_of(id).unwrap()).contains(id) by {
                assert(detached.contains(id));
                assert(detached.contains(detached.parent_of(id).unwrap()));
            }
        }
        assert(after.child_links_valid()) by {
            assert forall|id: NodeId, i: int|
                after.contains(id) && 0 <= i < after.children_of(id).len() implies after.contains(
                #[trigger] after.children_of(id)[i],
            ) && after.parent_of(after.children_of(id)[i]) == Some(id) by {
                assert(detached.contains(id));
                assert(detached.contains(detached.children_of(id)[i]));
            }
        }
        assert(after.children_distinct()) by {
            assert forall|id: NodeId| #[trigger] after.contains(id) implies after.children_of(
                id,
            ).no_duplicates() by {
                assert(detached.contains(id));
            }
        }
        assert(after.sibling_flags_valid()) by {
            assert forall|id: NodeId, i: int|
                after.contains(id) && 0 <= i < after.children_of(id).len() implies {
                &&& after.nodes[#[trigger] after.children_of(id)[i]].structure.is_first == (i == 0)
                &&& after.nodes[after.children_of(id)[i]].structure.is_last == (i
                    == after.children_of(id).len() - 1)
            } by {
                assert(detached.contains(id));
                assert(detached.contains(detached.children_of(id)[i]));
            }
            assert forall|id: NodeId| #[trigger]
                after.contains(id) && after.parent_of(id) is None implies !after.nodes[id].structure.is_first
                && !after.nodes[id].structure.is_last by {
                assert(detached.contains(id));
            }
        }
        assert(after.acyclic()) by {
            let rank = choose|rank: spec_fn(NodeId) -> nat| detached.ranked_by(rank);
            assert forall|id: NodeId| #[trigger]
                after.contains(id) && after.parent_of(id) is Some implies rank(
                after.parent_of(id).unwrap(),
            ) < rank(id) by {
                assert(detached.contains(id));
            }
            assert(after.ranked_by(rank));
        }
        assert(after.levels_respected()) by {
            assert forall|id: NodeId| #[trigger]
                after.contains(id) && after.parent_of(id) is Some implies after.policy.contains(
                (
                    after.nodes[after.parent_of(id).unwrap()].identity.component_level,
                    after.nodes[id].identity.component_level,
                ),
            ) by {
                assert(detached.contains(id));
                assert(detached.contains(detached.parent_of(id).unwrap()));
            }
        }
        assert(after.deleted_detached()) by {
            assert forall|id: NodeId| #[trigger]
                after.contains(id) && after.nodes[id].flags.is_deleted implies after.parent_of(
                id,
            ) is None by {
                assert(detached.contains(id));
            }
        }
    }
}

/// Replacing a node by one with the same identifier, level, deletion mark
/// and place in the tree keeps the tree well formed.
pub proof fn lemma_replace_wf(t: TreeView, id: NodeId, node: NodeView)
    requires
        t.wf(),
        t.contains(id),
        node.identity.uuid == id,
        node.identity.component_level == t.nodes[id].identity.component_level,
        node.flags.is_deleted == t.nodes[id].flags.is_deleted,
        node.structure == t.nodes[id].structure,
    ensures
        t.replace(id, node).wf(),
{
    let after = t.replace(id, node);
    assert(after.nodes.dom() =~= t.nodes.dom());
    assert forall|x: NodeId| #[trigger] after.contains(x) implies t.contains(x)
        && after.nodes[x].structure == t.nodes[x].structure && after.nodes[x].identity.uuid
        == t.nodes[x].identity.uuid && after.nodes[x].identity.component_level
        == t.nodes[x].identity.component_level && after.nodes[x].flags.is_deleted
        == t.nodes[x].flags.is_deleted by {}
    assert(after.keyed_by_uuid());
    assert(after.parent_links_valid()) by {
        assert forall|x: NodeId|
            after.contains(x) && #[trigger] after.parent_of(x) is Some implies after.contains(
            after.parent_of(x).unwrap(),
        ) && after.children_of(after.parent_of(x).unwrap()).contains(x) by {
            assert(t.contains(x));
            assert(t.parent_of(x) is Some);
            assert(t.contains(t.parent_of(x).unwrap()));
            assert(after.contains(t.parent_of(x).unwrap()));
        }
    }
    assert(after.child_links_valid()) by {
        assert forall|x: NodeId, i: int|
            after.contains(x) && 0 <= i < after.children_of(x).len() implies after.contains(
            #[trigger] after.children_of(x)[i],
        ) && after.parent_of(after.children_of(x)[i]) == Some(x) by {
            assert(t.contains(x));
            assert(t.contains(t.children_of(x)[i]));
            assert(after.contains(t.children_of(x)[i]));
        }
    }
    assert(after.children_distinct()) by {
        assert forall|x: NodeId| #[trigger] after.contains(x) implies after.children_of(
            x,
        ).no_duplicates() by {
            assert(t.contains(x));
        }
    }
    assert(after.sibling_flags_valid()) by {
        assert forall|x: NodeId, i: int|
            after.contains(x) && 0 <= i < after.children_of(x).len() implies {
            &&& after.nodes[#[trigger] after.children_of(x)[i]].structure.is_first == (i == 0)
            &&& after.nodes[after.children_of(x)[i]].structure.is_last == (i
                == after.children_of(x).len() - 1)
        } by {
            assert(t.contains(x));
            assert(t.contains(t.children_of(x)[i]));
            assert(after.contains(t.children_of(x)[i]));
        }
        assert forall|x: NodeId| #[trigger]
            after.contains(x) && after.parent_of(x) is None implies !after.nodes[x].structure.is_first
            && !after.nodes[x].structure.is_last by {
            assert(t.contains(x));
        }
    }
    assert(after.acyclic()) by {
        let rank = choose|rank: spec_fn(NodeId) -> nat| t.ranked_by(rank);
        assert forall|x: NodeId| #[trigger]
            after.contains(x) && after.parent_of(x) is Some implies rank(
            after.parent_of(x).unwrap(),
        ) < rank(x) by {
            assert(t.contains(x));
        }
        assert(after.ranked_by(rank));
    }
    assert(after.levels_respected()) by {
        assert forall|x: NodeId| #[trigger]
            after.contains(x) && after.parent_of(x) is Some implies after.policy.contains(
            (
                after.nodes[after.parent_of(x).unwrap()].identity.component_level,
                after.nodes[x].identity.component_level,
            ),
        ) by {
            assert(t.contains(x));
            assert(t.parent_of(x) is Some);
            assert(t.contains(t.parent_of(x).unwrap()));
            assert(after.contains(t.parent_of(x).unwrap()));
        }
    }
    assert(after.deleted_detached()) by {
        assert forall|x: NodeId| #[trigger]
            after.contains(x) && after.nodes[x].flags.is_deleted implies after.parent_of(
            x,
        ) is None by {
            assert(t.contains(x));
        }
    }
}

/// A node that was just added is above no node that the tree held before.
pub proof fn lemma_added_is_no_ancestor(t: TreeView, node: NodeView, from: NodeId, steps: nat)
    requires
        t.wf(),
        !t.contains(node.identity.uuid),
        t.contains(from),
    ensures
        !t.insert(node).reaches(from, node.identity.uuid, steps),
    decreases steps,
{
    let added = t.insert(node);
    if steps > 0 && added.parent_of(from) is Some {
        assert(t.parent_of(from) is Some);
        let up = t.parent_of(from).unwrap();
        assert(t.contains(up));
        lemma_added_is_no_ancestor(t, node, up, (steps - 1) as nat);
    }
}

/// A node that is new to the tree and may be dropped onto `parent` can be
/// attached under `parent` once it is added.
pub proof fn lemma_drop_new(t: TreeView, parent: NodeId, node: NodeView)
    requires
        t.wf(),
        !t.contains(node.identity.uuid),
        t.drop_error(parent, node) is None,
    ensures
        t.insert(node).wf(),
        t.insert(node).attach_error(parent, node.identity.uuid) is None,
        t.dropped(parent, node).wf(),
{
    let added = t.insert(node);
    lemma_insert_wf(t, node);
    assert(added.contains(parent) && added.contains(node.identity.uuid));
    assert(added.nodes[parent] == t.nodes[parent]);
    if added.is_ancestor_or_self(node.identity.uuid, parent) {
        let steps = choose|steps: nat| added.reaches(parent, node.identity.uuid, steps);
        lemma_added_is_no_ancestor(t, node, parent, steps);
    }
    lemma_attach_wf(added, parent, node.identity.uuid);
}

} // verus!
