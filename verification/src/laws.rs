//! Laws of the tree edits.
//!
//! Each law is stated over the model of the tree, in the terms that the
//! contracts of the executable tree use, and holds of every well-formed
//! tree.

use vstd::prelude::*;
use crate::identity::NodeId;
use crate::level::ComponentLevel;
use crate::model::{AttachError, TreeView};
use crate::base_configuration::NodeView;
use crate::model_proofs::{
    lemma_added_is_no_ancestor, lemma_attach_nodes, lemma_attach_wf,
    lemma_detach_if_attached_wf, lemma_detach_nodes, lemma_detach_wf, lemma_drop_new,
    lemma_insert_wf, lemma_mark_deleted_wf, lemma_reaches_step, lemma_remove_distinct,
};
use crate::policy::standard_pairs;

verus! {

/// Every edit keeps a well-formed tree well formed.
///
/// Whichever edit is made, with whichever nodes: afterwards no two nodes
/// share an identifier, every node that names a parent is listed by that
/// parent exactly once, the sibling flags agree with the order of the
/// children, no node is its own ancestor, every link joins levels that the
/// policy allows, and no deleted node has a parent.  A tree starts empty,
/// so all of this holds after any sequence of edits.
pub proof fn lemma_edits_keep_well_formed(t: TreeView, a: NodeId, b: NodeId, node: NodeView)
    requires
        t.wf(),
    ensures
        !t.contains(node.identity.uuid) ==> t.insert(node).wf(),
        t.attach_error(a, b) is None ==> t.attach(a, b).wf(),
        t.detach_error(a, b) is None ==> t.detach(a, b).wf(),
        t.reparent(a, b).wf(),
        t.mark_deleted(a).wf(),
        t.drop_error(a, node) is None ==> t.dropped(a, node).wf(),
{
    if !t.contains(node.identity.uuid) {
        lemma_insert_wf(t, node);
    }
    if t.attach_error(a, b) is None {
        lemma_attach_wf(t, a, b);
    }
    if t.detach_error(a, b) is None {
        lemma_detach_wf(t, a, b);
    }
    lemma_detach_if_attached_wf(t, a);
    if t.detach_if_attached(a).attach_error(b, a) is None {
        lemma_attach_wf(t.detach_if_attached(a), b, a);
    }
    lemma_mark_deleted_wf(t, a);
    if t.drop_error(a, node) is None {
        if t.contains(node.identity.uuid) {
            lemma_attach_wf(t, a, node.identity.uuid);
        } else {
            lemma_drop_new(t, a, node);
        }
    }
}

/// No two nodes of a tree share an identifier.
pub proof fn lemma_identifiers_distinct(t: TreeView, a: NodeId, b: NodeId)
    requires
        t.wf(),
        t.contains(a),
        t.contains(b),
        a != b,
    ensures
        t.nodes[a].identity.uuid != t.nodes[b].identity.uuid,
{
}

/// A node that names a parent is listed by that parent exactly once, and
/// by no other node.
pub proof fn lemma_listed_once(t: TreeView, child: NodeId)
    requires
        t.wf(),
        t.contains(child),
        t.parent_of(child) is Some,
    ensures
        t.contains(t.parent_of(child).unwrap()),
        exists|i: int|
            0 <= i < t.children_of(t.parent_of(child).unwrap()).len() && #[trigger] t.children_of(
                t.parent_of(child).unwrap(),
            )[i] == child,
        forall|i: int, j: int|
            0 <= i < t.children_of(t.parent_of(child).unwrap()).len() && 0 <= j < t.children_of(
                t.parent_of(child).unwrap(),
            ).len() && #[trigger] t.children_of(t.parent_of(child).unwrap())[i] == child
                && #[trigger] t.children_of(t.parent_of(child).unwrap())[j] == child ==> i == j,
        forall|other: NodeId|
            t.contains(other) && #[trigger] t.children_of(other).contains(child) ==> other
                == t.parent_of(child).unwrap(),
{
    let up = t.parent_of(child).unwrap();
    assert(t.contains(up) && t.children_of(up).contains(child));
    assert forall|other: NodeId|
        t.contains(other) && #[trigger] t.children_of(other).contains(child) implies other
        == up by {
        let i = choose|i: int| 0 <= i < t.children_of(other).len() && t.children_of(other)[i]
            == child;
        assert(t.parent_of(t.children_of(other)[i]) == Some(other));
    }
}

/// A traversal meets no deleted node: the children that are visited under
/// a node are not marked as deleted, and under a deleted node none is
/// visited.
pub proof fn lemma_traversal_skips_deleted(t: TreeView, node: NodeId)
    requires
        t.wf(),
    ensures
        forall|i: int|
            0 <= i < t.visible_children(node).len() ==> t.contains(
                #[trigger] t.visible_children(node)[i],
            ) && !t.nodes[t.visible_children(node)[i]].flags.is_deleted,
        t.contains(node) && t.nodes[node].flags.is_deleted ==> t.visible_children(node).len() == 0,
{
    assert forall|i: int| 0 <= i < t.visible_children(node).len() implies t.contains(
        #[trigger] t.visible_children(node)[i],
    ) && !t.nodes[t.visible_children(node)[i]].flags.is_deleted by {
        let kid = t.children_of(node)[i];
        assert(t.contains(kid) && t.parent_of(kid) == Some(node));
    }
}

/// Detaching undoes attaching.
///
/// If `child` can be attached under `parent`, then after it was attached it
/// can be detached again, and detaching it gives back the tree as it was:
/// `child` has no parent, `parent` does not list it, and nothing else has
/// changed.
pub proof fn lemma_attach_then_detach(t: TreeView, parent: NodeId, child: NodeId)
    requires
        t.wf(),
        t.attach_error(parent, child) is None,
    ensures
        t.attach(parent, child).detach_error(parent, child) is None,
        t.attach(parent, child).detach(parent, child) == t,
        t.attach(parent, child).detach(parent, child).parent_of(child) is None,
        !t.attach(parent, child).detach(parent, child).children_of(parent).contains(child),
{
    let attached = t.attach(parent, child);
    let kids0 = t.children_of(parent);
    let kids1 = kids0.push(child);
    lemma_attach_nodes(t, parent, child);
    lemma_attach_wf(t, parent, child);
    assert(attached.contains(parent) && attached.contains(child));
    assert(attached.children_of(parent) == kids1);
    assert(kids1[kids0.len() as int] == child);
    assert(kids1.contains(child));
    lemma_detach_nodes(attached, parent, child);
    lemma_remove_distinct(kids1, kids0.len() as int);
    assert(kids1.index_of(child) == kids0.len());
    assert(kids1.remove(kids0.len() as int) =~= kids0);
    let detached = attached.detach(parent, child);
    assert forall|id: NodeId| t.contains(id) implies detached.nodes[id] == t.nodes[id] by {
        assert(attached.contains(id));
        let before = t.nodes[id];
        let middle = attached.nodes[id];
        let after = detached.nodes[id];
        if id != child && kids0.contains(id) {
            let i = choose|i: int| 0 <= i < kids0.len() && kids0[i] == id;
            assert(t.children_of(parent)[i] == id);
            assert(t.nodes[t.children_of(parent)[i]].structure.is_first == (i == 0));
            assert(kids0.first() == kids0[0] && kids0.last() == kids0[kids0.len() - 1]);
        }
        assert(after.structure.parent == before.structure.parent);
        assert(after.structure.child_uuids == before.structure.child_uuids);
        assert(after.structure.is_first == before.structure.is_first);
        assert(after.structure.is_last == before.structure.is_last);
        assert(after.structure == before.structure);
    }
    assert(detached.nodes =~= t.nodes);
}

/// The sibling flags agree with the order of the children.
///
/// Among the children of a node of a well-formed tree, the first child and
/// no other is flagged as first, and the last child and no other is flagged
/// as last.  Every edit keeps a tree well formed, so this holds after any
/// sequence of edits.
pub proof fn lemma_sibling_flags(t: TreeView, parent: NodeId)
    requires
        t.wf(),
        t.contains(parent),
    ensures
        forall|i: int|
            0 <= i < t.children_of(parent).len() ==> (t.nodes[#[trigger] t.children_of(
                parent,
            )[i]].structure.is_first <==> i == 0),
        forall|i: int|
            0 <= i < t.children_of(parent).len() ==> (t.nodes[#[trigger] t.children_of(
                parent,
            )[i]].structure.is_last <==> i == t.children_of(parent).len() - 1),
        t.children_of(parent).len() > 0 ==> t.nodes[t.children_of(parent).first()].structure.is_first
            && t.nodes[t.children_of(parent).last()].structure.is_last,
{
    if t.children_of(parent).len() > 0 {
        let last = t.children_of(parent).len() - 1;
        assert(t.nodes[t.children_of(parent)[0]].structure.is_first);
        assert(t.nodes[t.children_of(parent)[last]].structure.is_last);
    }
}

/// A link that would close a cycle is refused.
///
/// If `child` is `parent` itself or one of its ancestors, `child` cannot be
/// attached under `parent`.  The levels are tested first: where the policy
/// allows the pair of levels, the error is `CycleDetected`; where it does
/// not, the error is `LevelMismatch`.
pub proof fn lemma_cycle_rejected(t: TreeView, parent: NodeId, child: NodeId)
    requires
        t.wf(),
        t.contains(parent),
        t.contains(child),
        t.is_ancestor_or_self(child, parent),
    ensures
        t.attach_error(parent, child) is Some,
        t.policy.contains(
            (t.nodes[parent].identity.component_level, t.nodes[child].identity.component_level),
        ) ==> t.attach_error(parent, child) == Some(AttachError::CycleDetected),
        !t.policy.contains(
            (t.nodes[parent].identity.component_level, t.nodes[child].identity.component_level),
        ) ==> t.attach_error(parent, child) == Some(AttachError::LevelMismatch),
{
}

/// A node that is reached from another node has a child.
proof fn lemma_reached_has_child(t: TreeView, from: NodeId, to: NodeId, steps: nat)
    requires
        t.wf(),
        t.reaches(from, to, steps),
        from != to,
    ensures
        exists|below: NodeId| t.contains(below) && #[trigger] t.parent_of(below) == Some(to),
    decreases steps,
{
    lemma_reaches_step(t, from, to, steps);
    let up = t.parent_of(from).unwrap();
    if up == to {
        assert(t.contains(from) && t.parent_of(from) == Some(to));
    } else {
        lemma_reached_has_child(t, up, to, (steps - 1) as nat);
    }
}

/// Under the standard policy the levels decide.
///
/// A `ChildOnly` node cannot be attached under a node that is not
/// `ParentOnly`: the error is `LevelMismatch`.  A `ChildOnly` node that has
/// no parent can be attached under a `ParentOnly` node, unless one of the
/// two is marked as deleted.
pub proof fn lemma_standard_policy(t: TreeView, parent: NodeId, child: NodeId)
    requires
        t.wf(),
        t.policy == standard_pairs(),
        t.contains(parent),
        t.contains(child),
        t.nodes[child].identity.component_level == ComponentLevel::ChildOnly,
    ensures
        t.nodes[parent].identity.component_level != ComponentLevel::ParentOnly
            ==> t.attach_error(parent, child) == Some(AttachError::LevelMismatch),
        t.nodes[parent].identity.component_level == ComponentLevel::ParentOnly
            && !t.nodes[parent].flags.is_deleted && !t.nodes[child].flags.is_deleted
            && t.parent_of(child) is None ==> t.attach_error(parent, child) is None,
{
    if t.is_ancestor_or_self(child, parent) && t.nodes[parent].identity.component_level
        == ComponentLevel::ParentOnly {
        let steps = choose|steps: nat| t.reaches(parent, child, steps);
        lemma_reached_has_child(t, parent, child, steps);
        let below = choose|below: NodeId|
            t.contains(below) && #[trigger] t.parent_of(below) == Some(child);
        assert(t.policy.contains(
            (t.nodes[child].identity.component_level, t.nodes[below].identity.component_level),
        ));
        assert(false);
    }
}

/// The levels are tested before anything else that can be wrong with two
/// nodes of the tree: whatever the policy, the error is `LevelMismatch`
/// exactly if the policy does not allow the pair of levels.
pub proof fn lemma_level_mismatch(t: TreeView, parent: NodeId, child: NodeId)
    requires
        t.contains(parent),
        t.contains(child),
    ensures
        t.attach_error(parent, child) == Some(AttachError::LevelMismatch) <==> !t.policy.contains(
            (t.nodes[parent].identity.component_level, t.nodes[child].identity.component_level),
        ),
{
}

/// A deleted node is never attached.
///
/// Whatever the parent, a node that is marked as deleted cannot be attached.
pub proof fn lemma_deleted_never_attached(t: TreeView, parent: NodeId, node: NodeId)
    requires
        t.contains(node),
        t.nodes[node].flags.is_deleted,
    ensures
        t.attach_error(parent, node) is Some,
{
}

/// Marking a node as deleted marks it, leaves it without a parent, and
/// leaves every other node with the deletion mark that it had.
pub proof fn lemma_mark_deleted_marks(t: TreeView, node: NodeId)
    requires
        t.wf(),
        t.contains(node),
    ensures
        t.mark_deleted(node).nodes.dom() == t.nodes.dom(),
        t.mark_deleted(node).nodes[node].flags.is_deleted,
        t.mark_deleted(node).parent_of(node) is None,
        forall|parent: NodeId| #[trigger] t.mark_deleted(node).attach_error(parent, node) is Some,
        forall|other: NodeId|
            t.contains(other) && other != node ==> #[trigger] t.mark_deleted(
                node,
            ).nodes[other].flags.is_deleted == t.nodes[other].flags.is_deleted,
{
    lemma_detach_if_attached_wf(t, node);
    let detached = t.detach_if_attached(node);
    assert(t.mark_deleted(node).nodes.dom() =~= t.nodes.dom());
    if t.parent_of(node) is Some {
        let up = t.parent_of(node).unwrap();
        assert(t.contains(up) && t.children_of(up).contains(node));
        lemma_detach_nodes(t, up, node);
    }
    assert forall|other: NodeId| t.contains(other) && other != node implies #[trigger] t.mark_deleted(
        node,
    ).nodes[other].flags.is_deleted == t.nodes[other].flags.is_deleted by {
        assert(detached.contains(other));
    }
}

/// Attaching changes no node but in its place in the tree.
proof fn lemma_attach_keeps_rest(t: TreeView, parent: NodeId, child: NodeId, node: NodeId)
    requires
        t.wf(),
        t.attach_error(parent, child) is None,
        t.contains(node),
    ensures
        t.attach(parent, child).contains(node),
        t.attach(parent, child).nodes[node].flags == t.nodes[node].flags,
        t.attach(parent, child).nodes[node].identity == t.nodes[node].identity,
{
    lemma_attach_nodes(t, parent, child);
}

/// Detaching changes no node but in its place in the tree.
proof fn lemma_detach_keeps_rest(t: TreeView, parent: NodeId, child: NodeId, node: NodeId)
    requires
        t.wf(),
        t.detach_error(parent, child) is None,
        t.contains(node),
    ensures
        t.detach(parent, child).contains(node),
        t.detach(parent, child).nodes[node].flags == t.nodes[node].flags,
        t.detach(parent, child).nodes[node].identity == t.nodes[node].identity,
{
    lemma_detach_nodes(t, parent, child);
}

/// Detaching a node from its parent, if it has one, changes no node but in
/// its place in the tree.
proof fn lemma_detach_if_attached_keeps_rest(t: TreeView, moved: NodeId, node: NodeId)
    requires
        t.wf(),
        t.contains(node),
    ensures
        t.detach_if_attached(moved).wf(),
        t.detach_if_attached(moved).contains(node),
        t.detach_if_attached(moved).nodes[node].flags == t.nodes[node].flags,
        t.detach_if_attached(moved).nodes[node].identity == t.nodes[node].identity,
{
    lemma_detach_if_attached_wf(t, moved);
    if t.contains(moved) && t.parent_of(moved) is Some {
        let up = t.parent_of(moved).unwrap();
        assert(t.contains(up) && t.children_of(up).contains(moved));
        lemma_detach_keeps_rest(t, up, moved, node);
    }
}

/// Moving a node leaves the deletion mark of every node as it was.
proof fn lemma_reparent_keeps_deleted(t: TreeView, child: NodeId, new_parent: NodeId, node: NodeId)
    requires
        t.wf(),
        t.contains(node),
    ensures
        t.reparent(child, new_parent).contains(node),
        t.reparent(child, new_parent).nodes[node].flags == t.nodes[node].flags,
{
    lemma_detach_if_attached_keeps_rest(t, child, node);
    let detached = t.detach_if_attached(child);
    if detached.attach_error(new_parent, child) is None {
        lemma_attach_keeps_rest(detached, new_parent, child, node);
    }
}

/// Deletion is final: no edit takes the deletion mark off a node.
///
/// Whichever of the edits is made to a tree, with whichever nodes, a node
/// that was marked as deleted before is marked as deleted afterwards.
/// Together with `lemma_deleted_never_attached` this says that a node, once
/// deleted, is never attached again.
pub proof fn lemma_deletion_is_final(t: TreeView, node: NodeId, a: NodeId, b: NodeId)
    requires
        t.wf(),
        t.contains(node),
        t.nodes[node].flags.is_deleted,
    ensures
        t.attach_error(a, b) is None ==> t.attach(a, b).contains(node) && t.attach(
            a,
            b,
        ).nodes[node].flags.is_deleted,
        t.detach_error(a, b) is None ==> t.detach(a, b).contains(node) && t.detach(
            a,
            b,
        ).nodes[node].flags.is_deleted,
        t.reparent(a, b).contains(node) && t.reparent(a, b).nodes[node].flags.is_deleted,
        t.mark_deleted(a).contains(node) && t.mark_deleted(a).nodes[node].flags.is_deleted,
{
    if t.attach_error(a, b) is None {
        lemma_attach_keeps_rest(t, a, b, node);
    }
    if t.detach_error(a, b) is None {
        lemma_detach_keeps_rest(t, a, b, node);
    }
    lemma_reparent_keeps_deleted(t, a, b, node);
    assert(t.mark_deleted(a).contains(node) && t.mark_deleted(a).nodes[node].flags.is_deleted) by {
        if t.contains(a) {
            lemma_mark_deleted_marks(t, a);
        }
    }
}

/// Adding a node to a tree leaves the deletion marks of the nodes that the
/// tree held as they were.
pub proof fn lemma_insert_keeps_deleted(t: TreeView, node: NodeId, added: NodeView)
    requires
        t.contains(node),
        !t.contains(added.identity.uuid),
    ensures
        t.insert(added).contains(node),
        t.insert(added).nodes[node] == t.nodes[node],
{
}

/// Attaching a node does not lengthen the way up from a node outside its
/// subtree: what is reached from there afterwards was reached before.
proof fn lemma_attach_keeps_chain(
    t: TreeView,
    parent: NodeId,
    child: NodeId,
    from: NodeId,
    to: NodeId,
    steps: nat,
)
    requires
        t.wf(),
        t.attach_error(parent, child) is None,
        !t.is_ancestor_or_self(child, from),
        t.attach(parent, child).reaches(from, to, steps),
    ensures
        t.reaches(from, to, steps),
    decreases steps,
{
    let attached = t.attach(parent, child);
    if from != to {
        lemma_attach_nodes(t, parent, child);
        lemma_reaches_step(attached, from, to, steps);
        let up = attached.parent_of(from).unwrap();
        assert(t.contains(from));
        assert(t.reaches(child, child, 0));
        assert(from != child);
        assert(t.parent_of(from) == Some(up));
        if t.is_ancestor_or_self(child, up) {
            let k = choose|k: nat| t.reaches(up, child, k);
            assert(t.reaches(from, child, k + 1));
            assert(false);
        }
        lemma_attach_keeps_chain(t, parent, child, up, to, (steps - 1) as nat);
    }
}

/// Two children attached one after the other both arrive.
///
/// If each of two distinct nodes can be attached under `parent`, then the
/// second can still be attached after the first, and afterwards `parent`
/// lists its former children, then the first, then the second.  The same
/// holds with the two in the other order, so whichever of two racing calls
/// is served first, neither is lost.
pub proof fn lemma_attach_two_children(t: TreeView, parent: NodeId, first: NodeId, second: NodeId)
    requires
        t.wf(),
        first != second,
        t.attach_error(parent, first) is None,
        t.attach_error(parent, second) is None,
    ensures
        t.attach(parent, first).attach_error(parent, second) is None,
        t.attach(parent, first).attach(parent, second).wf(),
        t.attach(parent, first).attach(parent, second).children_of(parent) == t.children_of(
            parent,
        ).push(first).push(second),
        t.attach(parent, first).attach(parent, second).parent_of(first) == Some(parent),
        t.attach(parent, first).attach(parent, second).parent_of(second) == Some(parent),
{
    let one = t.attach(parent, first);
    lemma_attach_wf(t, parent, first);
    lemma_attach_keeps_rest(t, parent, first, parent);
    lemma_attach_keeps_rest(t, parent, first, second);
    assert(one.parent_of(second) is None && one.children_of(parent) == t.children_of(parent).push(
        first,
    ) && one.parent_of(first) == Some(parent)) by {
        lemma_attach_nodes(t, parent, first);
    }
    if one.is_ancestor_or_self(second, parent) {
        let steps = choose|steps: nat| one.reaches(parent, second, steps);
        lemma_attach_keeps_chain(t, parent, first, parent, second, steps);
        assert(t.is_ancestor_or_self(second, parent));
        assert(false);
    }
    assert(one.attach_error(parent, second) is None);
    lemma_attach_wf(one, parent, second);
    assert(one.contains(first) && one.contains(second));
    lemma_attach_nodes(one, parent, second);
}

/// A drop of a new node is an insertion followed by an attachment.
///
/// For a node that the tree does not hold yet, dropped onto another node,
/// the drop is refused exactly if the node could not be attached once it
/// was added, and for the same reason.
pub proof fn lemma_drop_is_insert_then_attach(t: TreeView, parent: NodeId, node: NodeView)
    requires
        t.wf(),
        !t.contains(node.identity.uuid),
        parent != node.identity.uuid,
    ensures
        t.drop_error(parent, node) == t.insert(node).attach_error(parent, node.identity.uuid),
        t.drop_error(parent, node) is None ==> t.dropped(parent, node) == t.insert(node).attach(
            parent,
            node.identity.uuid,
        ),
{
    let added = t.insert(node);
    assert(added.contains(parent) == t.contains(parent));
    if t.contains(parent) {
        assert(added.nodes[parent] == t.nodes[parent]);
        if added.is_ancestor_or_self(node.identity.uuid, parent) {
            let steps = choose|steps: nat| added.reaches(parent, node.identity.uuid, steps);
            lemma_added_is_no_ancestor(t, node, parent, steps);
        }
    }
}

/// A tree descends from itself, and what descends from a descendant of a
/// tree descends from that tree.
pub proof fn lemma_descent_is_an_order(first: TreeView, second: TreeView, third: TreeView)
    ensures
        first.descends_from(first),
        third.descends_from(second) && second.descends_from(first) ==> third.descends_from(first),
{
    if third.descends_from(second) && second.descends_from(first) {
        assert forall|id: NodeId| #[trigger] first.contains(id) implies third.contains(id)
            && third.nodes[id].is_later_state_of(first.nodes[id]) by {
            assert(second.contains(id));
        }
    }
}

/// Attaching gives a tree that descends from the one before.
proof fn lemma_attach_descends(t: TreeView, parent: NodeId, child: NodeId)
    requires
        t.wf(),
        t.attach_error(parent, child) is None,
    ensures
        t.attach(parent, child).descends_from(t),
{
    lemma_attach_nodes(t, parent, child);
}

/// Detaching gives a tree that descends from the one before.
proof fn lemma_detach_descends(t: TreeView, parent: NodeId, child: NodeId)
    requires
        t.wf(),
        t.detach_error(parent, child) is None,
    ensures
        t.detach(parent, child).descends_from(t),
{
    lemma_detach_nodes(t, parent, child);
}

/// Detaching a node from its parent, if it has one, gives a tree that
/// descends from the one before.
proof fn lemma_detach_if_attached_descends(t: TreeView, node: NodeId)
    requires
        t.wf(),
    ensures
        t.detach_if_attached(node).wf(),
        t.detach_if_attached(node).descends_from(t),
{
    lemma_detach_if_attached_wf(t, node);
    if t.contains(node) && t.parent_of(node) is Some {
        let up = t.parent_of(node).unwrap();
        assert(t.contains(up) && t.children_of(up).contains(node));
        lemma_detach_descends(t, up, node);
    }
}

/// Moving a node gives a tree that descends from the one before.
proof fn lemma_reparent_descends(t: TreeView, child: NodeId, new_parent: NodeId)
    requires
        t.wf(),
    ensures
        t.reparent(child, new_parent).descends_from(t),
{
    lemma_detach_if_attached_descends(t, child);
    let detached = t.detach_if_attached(child);
    if detached.attach_error(new_parent, child) is None {
        lemma_attach_descends(detached, new_parent, child);
        lemma_descent_is_an_order(t, detached, detached.attach(new_parent, child));
    }
}

/// Marking a node as deleted gives a tree that descends from the one
/// before.
proof fn lemma_mark_deleted_descends(t: TreeView, node: NodeId)
    requires
        t.wf(),
    ensures
        t.mark_deleted(node).descends_from(t),
{
    lemma_detach_if_attached_descends(t, node);
    let detached = t.detach_if_attached(node);
    if t.contains(node) {
        let marked = t.mark_deleted(node);
        assert forall|id: NodeId| #[trigger] detached.contains(id) implies marked.contains(id)
            && marked.nodes[id].is_later_state_of(detached.nodes[id]) by {}
        assert(marked.descends_from(detached));
        lemma_descent_is_an_order(t, detached, marked);
    }
}

/// A drop that is taken gives a tree that descends from the one before.
proof fn lemma_dropped_descends(t: TreeView, parent: NodeId, node: NodeView)
    requires
        t.wf(),
        t.drop_error(parent, node) is None,
    ensures
        t.dropped(parent, node).descends_from(t),
{
    if t.contains(node.identity.uuid) {
        lemma_attach_descends(t, parent, node.identity.uuid);
    } else {
        let added = t.insert(node);
        lemma_drop_new(t, parent, node);
        lemma_insert_descends(t, node);
        lemma_attach_descends(added, parent, node.identity.uuid);
        lemma_descent_is_an_order(t, added, added.attach(parent, node.identity.uuid));
    }
}

/// Adding a node gives a tree that descends from the one before.
proof fn lemma_insert_descends(t: TreeView, node: NodeView)
    requires
        !t.contains(node.identity.uuid),
    ensures
        t.insert(node).descends_from(t),
{
}

/// Replacing a node by a later state of it gives a tree that descends from
/// the one before.
proof fn lemma_replace_descends(t: TreeView, id: NodeId, node: NodeView)
    requires
        t.contains(id),
        node.is_later_state_of(t.nodes[id]),
    ensures
        t.replace(id, node).descends_from(t),
{
}

/// Every edit gives a tree that descends from the one before.
///
/// Whichever edit is made, with whichever nodes: the policy is the same as
/// before, every node that the tree held is still in it, and each of them
/// is a later state of what it was.
pub proof fn lemma_edits_descend(
    t: TreeView,
    a: NodeId,
    b: NodeId,
    node: NodeView,
    label: Seq<char>,
    flag: bool,
)
    requires
        t.wf(),
    ensures
        !t.contains(node.identity.uuid) ==> t.insert(node).descends_from(t),
        t.attach_error(a, b) is None ==> t.attach(a, b).descends_from(t),
        t.detach_error(a, b) is None ==> t.detach(a, b).descends_from(t),
        t.reparent(a, b).descends_from(t),
        t.mark_deleted(a).descends_from(t),
        t.drop_error(a, node) is None ==> t.dropped(a, node).descends_from(t),
        t.contains(a) ==> t.replace(a, t.nodes[a].with_label(label)).descends_from(t),
        t.contains(a) ==> t.replace(a, t.nodes[a].with_expanded(flag)).descends_from(t),
        t.contains(a) ==> t.replace(a, t.nodes[a].with_selected(flag)).descends_from(t),
{
    if !t.contains(node.identity.uuid) {
        lemma_insert_descends(t, node);
    }
    if t.attach_error(a, b) is None {
        lemma_attach_descends(t, a, b);
    }
    if t.detach_error(a, b) is None {
        lemma_detach_descends(t, a, b);
    }
    lemma_reparent_descends(t, a, b);
    lemma_mark_deleted_descends(t, a);
    if t.drop_error(a, node) is None {
        lemma_dropped_descends(t, a, node);
    }
    if t.contains(a) {
        lemma_replace_descends(t, a, t.nodes[a].with_label(label));
        lemma_replace_descends(t, a, t.nodes[a].with_expanded(flag));
        lemma_replace_descends(t, a, t.nodes[a].with_selected(flag));
    }
}

} // verus!
