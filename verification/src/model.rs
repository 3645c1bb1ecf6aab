//! The mathematical model of a configuration tree.
//!
//! A tree is a finite map from identifiers to node values, together with the
//! nesting policy that it enforces.  The model says what it means for a tree
//! to be well formed and what each structural edit turns a tree into; the
//! executable tree is specified against it.

use vstd::prelude::*;
use crate::base_configuration::{NodeView, LinksView};
use crate::identity::NodeId;
use crate::level::ComponentLevel;

verus! {

/// Why a node could not be attached.
#[derive(Debug, Clone, Copy, PartialEq, Eq, Structural)]
pub enum AttachError {
    /// The policy does not allow a node of the child's level under a node of
    /// the parent's level.
    LevelMismatch,
    /// The child is the parent itself or one of its ancestors.
    CycleDetected,
    /// The parent or the child is marked as deleted.
    NodeDeleted,
    /// The child is attached already.
    AlreadyAttached,
    /// The parent or the child is not held by the tree.
    UnknownNode,
}

/// Why a node could not be detached.
#[derive(Debug, Clone, Copy, PartialEq, Eq, Structural)]
pub enum DetachError {
    /// The tree does not hold the parent, or the parent has no such child.
    NotFound,
}

/// The mathematical value of a tree.
pub struct TreeView {
    /// The nodes of the tree, by identifier.
    pub nodes: Map<NodeId, NodeView>,
    /// The `(parent level, child level)` pairs that may be linked.
    pub policy: Set<(ComponentLevel, ComponentLevel)>,
}

/// `nodes`, with the sibling flags of the nodes listed in `kids` set by their
/// position: `is_first` on the first of them and on no other, `is_last` on
/// the last of them and on no other.
pub open spec fn flag_siblings(nodes: Map<NodeId, NodeView>, kids: Seq<NodeId>) -> Map<
    NodeId,
    NodeView,
> {
    Map::new(
        |id: NodeId| nodes.dom().contains(id),
        |id: NodeId|
            if kids.contains(id) {
                nodes[id].with_structure(
                    LinksView {
                        is_first: kids.first() == id,
                        is_last: kids.last() == id,
                        ..nodes[id].structure
                    },
                )
            } else {
                nodes[id]
            },
    )
}

/// `nodes` after one link was made or cut: `parent` lists `kids` as its
/// children, `child` names `link` as its parent, and the sibling flags of
/// `kids` are set by position.  A `child` that is not among `kids` carries
/// neither flag.  Every other field of every node is kept.
pub open spec fn relink(
    nodes: Map<NodeId, NodeView>,
    parent: NodeId,
    kids: Seq<NodeId>,
    child: NodeId,
    link: Option<NodeId>,
) -> Map<NodeId, NodeView> {
    flag_siblings(
        nodes.insert(
            parent,
            nodes[parent].with_structure(
                LinksView { child_uuids: kids, ..nodes[parent].structure },
            ),
        ).insert(
            child,
            nodes[child].with_structure(
                LinksView {
                    parent: link,
                    is_first: false,
                    is_last: false,
                    ..nodes[child].structure
                },
            ),
        ),
        kids,
    )
}

impl TreeView {
    /// Whether the tree holds a node with the identifier `id`.
    pub open spec fn contains(self, id: NodeId) -> bool {
        self.nodes.dom().contains(id)
    }

    /// The parent of the node `id`, if it is attached.
    pub open spec fn parent_of(self, id: NodeId) -> Option<NodeId> {
        self.nodes[id].structure.parent
    }

    /// The children of the node `id`, in order.
    pub open spec fn children_of(self, id: NodeId) -> Seq<NodeId> {
        self.nodes[id].structure.child_uuids
    }

    // ------------------------------------------------------------------
    // Well-formedness
    // ------------------------------------------------------------------

    /// Every node is stored under its own identifier, so no two nodes of the
    /// tree share one.
    pub open spec fn keyed_by_uuid(self) -> bool {
        forall|id: NodeId| #[trigger] self.contains(id) ==> self.nodes[id].identity.uuid == id
    }

    /// The parent that a node names is in the tree and lists the node among
    /// its children.
    pub open spec fn parent_links_valid(self) -> bool {
        forall|id: NodeId|
            self.contains(id) && #[trigger] self.parent_of(id) is Some ==> {
                &&& self.contains(self.parent_of(id).unwrap())
                &&& self.children_of(self.parent_of(id).unwrap()).contains(id)
            }
    }

    /// Every child that a node lists is in the tree and names the node as
    /// its parent.
    pub open spec fn child_links_valid(self) -> bool {
        forall|id: NodeId, i: int|
            self.contains(id) && 0 <= i < self.children_of(id).len() ==> {
                &&& self.contains(#[trigger] self.children_of(id)[i])
                &&& self.parent_of(self.children_of(id)[i]) == Some(id)
            }
    }

    /// No node lists a child twice.
    pub open spec fn children_distinct(self) -> bool {
        forall|id: NodeId| #[trigger] self.contains(id) ==> self.children_of(id).no_duplicates()
    }

    /// A child is flagged as first exactly if it stands first among its
    /// siblings, and as last exactly if it stands last.  A node without a
    /// parent carries neither flag.
    pub open spec fn sibling_flags_valid(self) -> bool {
        &&& forall|id: NodeId, i: int|
            self.contains(id) && 0 <= i < self.children_of(id).len() ==> {
                &&& self.nodes[#[trigger] self.children_of(id)[i]].structure.is_first == (i == 0)
                &&& self.nodes[self.children_of(id)[i]].structure.is_last == (i == self.children_of(id).len()
                    - 1)
            }
        &&& forall|id: NodeId| #[trigger]
            self.contains(id) && self.parent_of(id) is None ==> !self.nodes[id].structure.is_first
                && !self.nodes[id].structure.is_last
    }

    /// `rank` grows strictly from every parent to each of its children.
    pub open spec fn ranked_by(self, rank: spec_fn(NodeId) -> nat) -> bool {
        forall|id: NodeId| #[trigger]
            self.contains(id) && self.parent_of(id) is Some ==> rank(self.parent_of(id).unwrap())
                < rank(id)
    }

    /// No node is its own ancestor: the nodes can be ranked so that every
    /// child ranks above its parent.
    pub open spec fn acyclic(self) -> bool {
        exists|rank: spec_fn(NodeId) -> nat| self.ranked_by(rank)
    }

    /// Every link of the tree joins a pair of levels that the policy allows.
    pub open spec fn levels_respected(self) -> bool {
        forall|id: NodeId| #[trigger]
            self.contains(id) && self.parent_of(id) is Some ==> self.policy.contains(
                (
                    self.nodes[self.parent_of(id).unwrap()].identity.component_level,
                    self.nodes[id].identity.component_level,
                ),
            )
    }

    /// A node that is marked as deleted has no parent.
    pub open spec fn deleted_detached(self) -> bool {
        forall|id: NodeId| #[trigger]
            self.contains(id) && self.nodes[id].flags.is_deleted ==> self.parent_of(id) is None
    }

    /// The tree is well formed.
    pub open spec fn wf(self) -> bool {
        &&& self.nodes.dom().finite()
        &&& self.keyed_by_uuid()
        &&& self.parent_links_valid()
        &&& self.child_links_valid()
        &&& self.children_distinct()
        &&& self.sibling_flags_valid()
        &&& self.acyclic()
        &&& self.levels_respected()
        &&& self.deleted_detached()
    }

    /// Whether the tree can have come from `earlier` by edits.
    ///
    /// Edits never change the policy of a tree and never take a node out of
    /// it; what they can make of a node is said by `is_later_state_of`.
    pub open spec fn descends_from(self, earlier: TreeView) -> bool {
        &&& self.policy == earlier.policy
        &&& forall|id: NodeId| #[trigger]
            earlier.contains(id) ==> self.contains(id) && self.nodes[id].is_later_state_of(
                earlier.nodes[id],
            )
    }

    // ------------------------------------------------------------------
    // Ancestors
    // ------------------------------------------------------------------

    /// Whether `to` is met within `steps` steps on the way from `from` up
    /// the chain of parents; `from` itself counts.
    pub open spec fn reaches(self, from: NodeId, to: NodeId, steps: nat) -> bool
        decreases steps,
    {
        from == to || (steps > 0 && self.contains(from) && self.parent_of(from) is Some
            && self.reaches(self.parent_of(from).unwrap(), to, (steps - 1) as nat))
    }

    /// Whether `ancestor` is `node` itself or one of its ancestors.
    pub open spec fn is_ancestor_or_self(self, ancestor: NodeId, node: NodeId) -> bool {
        exists|steps: nat| self.reaches(node, ancestor, steps)
    }

    // ------------------------------------------------------------------
    // Edits
    // ------------------------------------------------------------------

    /// The tree with `node` added as a node of its own: outside every other
    /// node, and without children.
    pub open spec fn insert(self, node: NodeView) -> TreeView {
        TreeView {
            nodes: self.nodes.insert(node.identity.uuid, node.unlinked()),
            policy: self.policy,
        }
    }

    /// The tree with the node `id` replaced by `node`.
    pub open spec fn replace(self, id: NodeId, node: NodeView) -> TreeView {
        TreeView { nodes: self.nodes.insert(id, node), policy: self.policy }
    }

    /// The children of `node` that a traversal visits, in order: the
    /// children of a node that the tree holds and that is not marked as
    /// deleted, and none otherwise.
    pub open spec fn visible_children(self, node: NodeId) -> Seq<NodeId> {
        if self.contains(node) && !self.nodes[node].flags.is_deleted {
            self.children_of(node)
        } else {
            Seq::empty()
        }
    }

    /// Why `child` cannot be attached under `parent`, or `None` if it can.
    ///
    /// The conditions are tested in this order, and the first that holds
    /// decides: a node is unknown; the levels do not match; the link would
    /// close a cycle; a node is deleted; the child is attached already.
    pub open spec fn attach_error(self, parent: NodeId, child: NodeId) -> Option<AttachError> {
        if !self.contains(parent) || !self.contains(child) {
            Some(AttachError::UnknownNode)
        } else if !self.policy.contains(
            (self.nodes[parent].identity.component_level, self.nodes[child].identity.component_level),
        ) {
            Some(AttachError::LevelMismatch)
        } else if self.is_ancestor_or_self(child, parent) {
            Some(AttachError::CycleDetected)
        } else if self.nodes[parent].flags.is_deleted || self.nodes[child].flags.is_deleted {
            Some(AttachError::NodeDeleted)
        } else if self.parent_of(child) is Some {
            Some(AttachError::AlreadyAttached)
        } else {
            None
        }
    }

    /// The tree with `child` attached as the last child of `parent`.
    pub open spec fn attach(self, parent: NodeId, child: NodeId) -> TreeView {
        let kids = self.children_of(parent).push(child);
        TreeView { nodes: relink(self.nodes, parent, kids, child, Some(parent)), policy: self.policy }
    }

    /// Why `node`, dropped onto `parent`, cannot become a child of
    /// `parent`, or `None` if it can.
    ///
    /// If the tree holds a node under the identifier of `node`, that node is
    /// attached and the question is the one of `attach_error`.  If it does
    /// not, `node` is new to the tree: it can be attached unless the tree
    /// does not hold `parent`, the levels do not match, or one of the two is
    /// marked as deleted.
    pub open spec fn drop_error(self, parent: NodeId, node: NodeView) -> Option<AttachError> {
        if self.contains(node.identity.uuid) {
            self.attach_error(parent, node.identity.uuid)
        } else if !self.contains(parent) {
            Some(AttachError::UnknownNode)
        } else if !self.policy.contains(
            (self.nodes[parent].identity.component_level, node.identity.component_level),
        ) {
            Some(AttachError::LevelMismatch)
        } else if self.nodes[parent].flags.is_deleted || node.flags.is_deleted {
            Some(AttachError::NodeDeleted)
        } else {
            None
        }
    }

    /// The tree after `node` was dropped onto `parent` and became its last
    /// child: the node of the tree with that identifier, if there is one,
    /// and else `node` itself, added to the tree.
    pub open spec fn dropped(self, parent: NodeId, node: NodeView) -> TreeView {
        if self.contains(node.identity.uuid) {
            self.attach(parent, node.identity.uuid)
        } else {
            self.insert(node).attach(parent, node.identity.uuid)
        }
    }

    /// Why `child` cannot be detached from `parent`, or `None` if it can.
    pub open spec fn detach_error(self, parent: NodeId, child: NodeId) -> Option<DetachError> {
        if self.contains(parent) && self.children_of(parent).contains(child) {
            None
        } else {
            Some(DetachError::NotFound)
        }
    }

    /// The tree with `child` taken out of the children of `parent`.
    pub open spec fn detach(self, parent: NodeId, child: NodeId) -> TreeView {
        let kids = self.children_of(parent).remove(self.children_of(parent).index_of(child));
        TreeView { nodes: relink(self.nodes, parent, kids, child, None), policy: self.policy }
    }

    /// The tree with `node` detached from its parent, if it has one.
    pub open spec fn detach_if_attached(self, node: NodeId) -> TreeView {
        if self.contains(node) && self.parent_of(node) is Some {
            self.detach(self.parent_of(node).unwrap(), node)
        } else {
            self
        }
    }

    /// The tree after `child` was moved under `new_parent`: detached from
    /// its parent, if it had one, and then attached, if that was possible.
    pub open spec fn reparent(self, child: NodeId, new_parent: NodeId) -> TreeView {
        let detached = self.detach_if_attached(child);
        if detached.attach_error(new_parent, child) is None {
            detached.attach(new_parent, child)
        } else {
            detached
        }
    }

    /// Why `child` cannot be moved under `new_parent`, or `None` if it can.
    pub open spec fn reparent_error(self, child: NodeId, new_parent: NodeId) -> Option<
        AttachError,
    > {
        self.detach_if_attached(child).attach_error(new_parent, child)
    }

    /// The tree with `node` detached from its parent, if it had one, and
    /// marked as deleted.  Its descendants are left as they are.
    pub open spec fn mark_deleted(self, node: NodeId) -> TreeView {
        if self.contains(node) {
            let detached = self.detach_if_attached(node);
            TreeView {
                nodes: detached.nodes.insert(node, detached.nodes[node].deleted()),
                policy: self.policy,
            }
        } else {
            self
        }
    }
}

} // verus!
