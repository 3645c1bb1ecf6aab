//! The configuration tree: an arena of nodes, addressed by identifier.
//!
//! The tree owns every node.  A node names its parent and its children by
//! their identifiers, so a parent owns its children through the arena and a
//! child refers back to its parent without owning it.

use vstd::prelude::*;
use crate::base_configuration::{BaseConfiguration, NodeView, LinksView};
use crate::identity::NodeId;
use crate::model::{flag_siblings, relink, AttachError, DetachError, TreeView};
use crate::model_proofs::{
    lemma_attach_kids, lemma_attach_wf, lemma_detach_if_attached_wf, lemma_detach_kids,
    lemma_detach_wf, lemma_drop_new, lemma_insert_wf, lemma_mark_deleted_wf,
    lemma_reaches_step, lemma_remove_distinct, lemma_replace_wf,
};
use crate::policy::LevelPolicy;

verus! {

/// A tree of configuration nodes.
///
/// More exactly a forest: a node that is attached to no parent is the root
/// of a tree of its own.
#[derive(Debug)]
pub struct ConfigurationTree {
    nodes: Vec<BaseConfiguration>,
    policy: LevelPolicy,
}

/// The identifiers of the nodes in the arena, slot by slot.
spec fn uuids(nodes: Seq<BaseConfiguration>) -> Seq<NodeId> {
    nodes.map_values(|node: BaseConfiguration| node.uuid)
}

/// The nodes of the arena as a map from identifier to node value.
spec fn nodes_map(nodes: Seq<BaseConfiguration>) -> Map<NodeId, NodeView> {
    Map::new(
        |id: NodeId| uuids(nodes).contains(id),
        |id: NodeId| nodes[uuids(nodes).index_of(id)]@,
    )
}

/// The map holds, for each slot of an arena without duplicate identifiers,
/// the node of that slot under its identifier, and nothing else.
proof fn lemma_nodes_map(nodes: Seq<BaseConfiguration>)
    requires
        uuids(nodes).no_duplicates(),
    ensures
        nodes_map(nodes).dom().finite(),
        nodes_map(nodes).dom().len() == nodes.len(),
        forall|i: int|
            0 <= i < nodes.len() ==> nodes_map(nodes).dom().contains(#[trigger] nodes[i].uuid)
                && nodes_map(nodes)[nodes[i].uuid] == nodes[i]@,
        forall|id: NodeId| #[trigger]
            nodes_map(nodes).dom().contains(id) ==> 0 <= uuids(nodes).index_of(id) < nodes.len()
                && nodes[uuids(nodes).index_of(id)].uuid == id,
{
    broadcast use vstd::seq_lib::seq_to_set_is_finite;

    let ids = uuids(nodes);
    assert(nodes_map(nodes).dom() =~= ids.to_set());
    ids.unique_seq_to_set();
    assert forall|i: int| 0 <= i < nodes.len() implies nodes_map(nodes).dom().contains(
        #[trigger] nodes[i].uuid,
    ) && nodes_map(nodes)[nodes[i].uuid] == nodes[i]@ by {
        assert(ids[i] == nodes[i].uuid);
        let j = ids.index_of(nodes[i].uuid);
        assert(0 <= j < ids.len() && ids[j] == ids[i]);
    }
    assert forall|id: NodeId| #[trigger] nodes_map(nodes).dom().contains(id) implies 0
        <= uuids(nodes).index_of(id) < nodes.len() && nodes[uuids(nodes).index_of(id)].uuid
        == id by {
        let j = ids.index_of(id);
        assert(0 <= j < ids.len() && ids[j] == id);
    }
}

/// Replacing the node of one slot by a node with the same identifier
/// replaces its entry in the map.
proof fn lemma_nodes_map_update(
    before: Seq<BaseConfiguration>,
    after: Seq<BaseConfiguration>,
    slot: int,
)
    requires
        uuids(before).no_duplicates(),
        0 <= slot < before.len(),
        after.len() == before.len(),
        after[slot].uuid == before[slot].uuid,
        forall|i: int| 0 <= i < before.len() && i != slot ==> after[i] == before[i],
    ensures
        uuids(after) == uuids(before),
        nodes_map(after) == nodes_map(before).insert(before[slot].uuid, after[slot]@),
{
    assert(uuids(after) =~= uuids(before));
    lemma_nodes_map(before);
    lemma_nodes_map(after);
    let ids = uuids(before);
    assert forall|id: NodeId| #[trigger]
        nodes_map(after).dom().contains(id) implies nodes_map(after)[id] == nodes_map(
        before,
    ).insert(before[slot].uuid, after[slot]@)[id] by {
        let j = ids.index_of(id);
        assert(ids[slot] == before[slot].uuid);
        if j != slot {
            assert(after[j] == before[j]);
        }
    }
    assert(nodes_map(after) =~= nodes_map(before).insert(before[slot].uuid, after[slot]@));
}

/// `nodes`, with the sibling flags set by position on the first `done` of
/// the nodes listed in `kids`.
spec fn flag_prefix(nodes: Map<NodeId, NodeView>, kids: Seq<NodeId>, done: int) -> Map<
    NodeId,
    NodeView,
> {
    Map::new(
        |id: NodeId| nodes.dom().contains(id),
        |id: NodeId|
            if kids.take(done).contains(id) {
                nodes[id].with_structure(
                    LinksView {
                        is_first: kids.first() == id,
                        is_last: kids.last() == id,
                        ..nodes[id].structure
                    },
                )
            } else {
                nodes[id]
            },
    )
}

/// Flagging one more sibling extends the flagged prefix by one.
proof fn lemma_flag_prefix_step(
    nodes: Map<NodeId, NodeView>,
    kids: Seq<NodeId>,
    done: int,
    flagged: NodeView,
)
    requires
        kids.no_duplicates(),
        0 <= done < kids.len(),
        nodes.dom().contains(kids[done]),
        flagged == nodes[kids[done]].with_structure(
            LinksView {
                is_first: done == 0,
                is_last: done == kids.len() - 1,
                ..nodes[kids[done]].structure
            },
        ),
    ensures
        flag_prefix(nodes, kids, done).insert(kids[done], flagged) == flag_prefix(
            nodes,
            kids,
            done + 1,
        ),
{
    let kid = kids[done];
    let lhs = flag_prefix(nodes, kids, done).insert(kid, flagged);
    let rhs = flag_prefix(nodes, kids, done + 1);
    assert(kids.take(done + 1)[done] == kid);
    assert(kids.take(done + 1).contains(kid));
    assert(!kids.take(done).contains(kid)) by {
        if kids.take(done).contains(kid) {
            let prefix = kids.take(done);
            let i = choose|i: int| 0 <= i < prefix.len() && prefix[i] == kid;
            assert(kids[i] == kids[done]);
        }
    }
    assert(kids.first() == kids[0] && kids.last() == kids[kids.len() - 1]);
    let shorter = kids.take(done);
    let longer = kids.take(done + 1);
    assert forall|id: NodeId| id != kid implies (shorter.contains(id) <==> longer.contains(
        id,
    )) by {
        if shorter.contains(id) {
            let i = choose|i: int| 0 <= i < shorter.len() && shorter[i] == id;
            assert(longer[i] == id);
        }
        if longer.contains(id) {
            let i = choose|i: int| 0 <= i < longer.len() && longer[i] == id;
            assert(shorter[i] == id);
        }
    }
    assert(lhs.dom() =~= rhs.dom());
    assert forall|id: NodeId| lhs.dom().contains(id) implies lhs[id] == rhs[id] by {}
    assert(lhs =~= rhs);
}

/// The position of `id` in `list`, if it occurs there.
fn position_of(list: &Vec<NodeId>, id: NodeId) -> (position: Option<usize>)
    ensures
        match position {
            Some(k) => k < list.len() && list[k as int] == id,
            None => !list@.contains(id),
        },
{
    let mut k: usize = 0;
    while k < list.len()
        invariant
            k <= list.len(),
            forall|j: int| 0 <= j < k ==> list[j] != id,
        decreases list.len() - k,
    {
        if list[k] == id {
            return Some(k);
        }
        k += 1;
    }
    None
}

impl View for ConfigurationTree {
    type V = TreeView;

    /// The nodes of the tree by identifier, and the nesting policy.
    closed spec fn view(&self) -> TreeView {
        TreeView { nodes: nodes_map(self.nodes@), policy: self.policy@ }
    }
}

impl ConfigurationTree {
    /// The tree is well formed: no two nodes share an identifier, and the
    /// links, flags and levels of the nodes agree with one another.
    pub closed spec fn wf(&self) -> bool {
        &&& uuids(self.nodes@).no_duplicates()
        &&& self@.wf()
    }

    /// A well-formed tree has a well-formed value.
    pub proof fn lemma_wf_view(&self)
        requires
            self.wf(),
        ensures
            self@.wf(),
    {
    }

    /// An empty tree with the standard policy.
    pub fn new() -> (tree: ConfigurationTree)
        ensures
            tree.wf(),
            tree@.nodes == Map::<NodeId, NodeView>::empty(),
            tree@.policy == crate::policy::standard_pairs(),
    {
        ConfigurationTree::with_policy(LevelPolicy::new())
    }

    /// An empty tree with the given policy.
    pub fn with_policy(policy: LevelPolicy) -> (tree: ConfigurationTree)
        ensures
            tree.wf(),
            tree@.nodes == Map::<NodeId, NodeView>::empty(),
            tree@.policy == policy@,
    {
        let tree = ConfigurationTree { nodes: Vec::new(), policy };
        proof {
            lemma_nodes_map(tree.nodes@);
            assert(tree@.nodes =~= Map::<NodeId, NodeView>::empty());
            let rank = |id: NodeId| 0nat;
            assert(tree@.ranked_by(rank));
        }
        tree
    }

    /// The slot of the node `id`, if the tree holds it.
    fn find(&self, id: NodeId) -> (slot: Option<usize>)
        ensures
            match slot {
                Some(i) => i < self.nodes.len() && self.nodes[i as int].uuid == id,
                None => !uuids(self.nodes@).contains(id),
            },
            slot is Some == self@.contains(id),
    {
        let mut i: usize = 0;
        while i < self.nodes.len()
            invariant
                i <= self.nodes.len(),
                forall|j: int| 0 <= j < i ==> self.nodes[j].uuid != id,
            decreases self.nodes.len() - i,
        {
            if self.nodes[i].uuid == id {
                assert(uuids(self.nodes@)[i as int] == id);
                return Some(i);
            }
            i += 1;
        }
        assert(!uuids(self.nodes@).contains(id)) by {
            if uuids(self.nodes@).contains(id) {
                let j = choose|j: int|
                    0 <= j < uuids(self.nodes@).len() && uuids(self.nodes@)[j] == id;
                assert(self.nodes[j].uuid == id);
            }
        }
        None
    }

    /// The nesting policy of the tree.
    pub fn policy(&self) -> (policy: &LevelPolicy)
        ensures
            policy@ == self@.policy,
    {
        &self.policy
    }

    /// The number of nodes in the tree.
    pub fn len(&self) -> (n: usize)
        requires
            self.wf(),
        ensures
            n == self@.nodes.dom().len(),
    {
        proof {
            lemma_nodes_map(self.nodes@);
        }
        self.nodes.len()
    }

    /// Whether the tree holds no node.
    pub fn is_empty(&self) -> (empty: bool)
        requires
            self.wf(),
        ensures
            empty == (self@.nodes.dom().len() == 0),
    {
        proof {
            lemma_nodes_map(self.nodes@);
        }
        self.nodes.len() == 0
    }

    /// Whether the tree holds a node with the identifier `id`.
    pub fn contains(&self, id: NodeId) -> (held: bool)
        ensures
            held == self@.contains(id),
    {
        self.find(id).is_some()
    }

    /// The node with the identifier `id`, if the tree holds it.
    pub fn get(&self, id: NodeId) -> (node: Option<&BaseConfiguration>)
        requires
            self.wf(),
        ensures
            match node {
                Some(found) => self@.contains(id) && found@ == self@.nodes[id],
                None => !self@.contains(id),
            },
    {
        match self.find(id) {
            Some(i) => {
                proof {
                    lemma_nodes_map(self.nodes@);
                }
                Some(&self.nodes[i])
            },
            None => None,
        }
    }

    /// Adds `node` to the tree as a node of its own, outside every other
    /// node and without children, and returns its identifier.
    ///
    /// The tree holds at most one node under an identifier: if it holds one
    /// under the identifier of `node` already, the tree stays as it is and
    /// the result is `None`.
    pub fn insert(&mut self, node: BaseConfiguration) -> (id: Option<NodeId>)
        requires
            old(self).wf(),
        ensures
            final(self).wf(),
            match id {
                Some(id) => {
                    &&& id == node.uuid
                    &&& !old(self)@.contains(id)
                    &&& final(self)@ == old(self)@.insert(node@)
                },
                None => old(self)@.contains(node.uuid) && final(self)@ == old(self)@,
            },
    {
        let id = node.uuid;
        if self.find(id).is_some() {
            return None;
        }
        let mut node = node;
        let ghost given = node@;
        node.parent = None;
        node.child_uuids = Vec::new();
        node.is_first = false;
        node.is_last = false;
        assert(node@ == given.unlinked());
        let ghost before = self.nodes@;
        self.nodes.push(node);
        proof {
            let after = self.nodes@;
            assert(uuids(after) =~= uuids(before).push(id));
            assert(uuids(after).no_duplicates()) by {
                assert forall|i: int, j: int|
                    0 <= i < after.len() && 0 <= j < after.len() && i != j implies uuids(after)[i]
                    != uuids(after)[j] by {
                    if i < before.len() && j < before.len() {
                        assert(uuids(before)[i] != uuids(before)[j]);
                    } else if i < before.len() {
                        assert(uuids(before)[i] == uuids(after)[i]);
                    } else {
                        assert(uuids(before)[j] == uuids(after)[j]);
                    }
                }
            }
            lemma_nodes_map(before);
            lemma_nodes_map(after);
            assert(nodes_map(after) =~= nodes_map(before).insert(id, given.unlinked())) by {
                assert forall|x: NodeId| #[trigger]
                    nodes_map(after).dom().contains(x) <==> nodes_map(before).dom().contains(x)
                        || x == id by {
                    if nodes_map(before).dom().contains(x) {
                        let j = uuids(before).index_of(x);
                        assert(uuids(after)[j] == x);
                    }
                    if x == id {
                        assert(uuids(after)[before.len() as int] == x);
                    }
                }
                assert forall|x: NodeId| #[trigger]
                    nodes_map(after).dom().contains(x) implies nodes_map(after)[x] == nodes_map(
                    before,
                ).insert(id, given.unlinked())[x] by {
                    let j = uuids(after).index_of(x);
                    if j < before.len() {
                        assert(after[j] == before[j]);
                        assert(before[j].uuid == x);
                    }
                }
            }
            lemma_insert_wf(old(self)@, given);
        }
        Some(id)
    }

    /// Whether `ancestor` is `node` itself or one of its ancestors.
    ///
    /// The answer is found by walking from `node` up the chain of parents
    /// to the root and comparing each identifier on the way with `ancestor`.
    pub fn is_ancestor_or_self(&self, ancestor: NodeId, node: NodeId) -> (found: bool)
        requires
            self.wf(),
        ensures
            found == self@.is_ancestor_or_self(ancestor, node),
    {
        let ghost rank = choose|rank: spec_fn(NodeId) -> nat| self@.ranked_by(rank);
        let ghost tree = self@;
        let mut current = node;
        loop
            invariant
                self.wf(),
                tree == self@,
                tree.ranked_by(rank),
                tree.is_ancestor_or_self(ancestor, node) == tree.is_ancestor_or_self(
                    ancestor,
                    current,
                ),
            decreases rank(current),
        {
            if current == ancestor {
                assert(tree.reaches(current, ancestor, 0));
                return true;
            }
            let up = match self.find(current) {
                Some(slot) => {
                    proof {
                        lemma_nodes_map(self.nodes@);
                    }
                    self.nodes[slot].parent
                },
                None => None,
            };
            match up {
                Some(next) => {
                    proof {
                        assert(tree.contains(current) && tree.parent_of(current) == Some(next));
                        if tree.is_ancestor_or_self(ancestor, current) {
                            let steps = choose|steps: nat| tree.reaches(current, ancestor, steps);
                            lemma_reaches_step(tree, current, ancestor, steps);
                            assert(tree.reaches(next, ancestor, (steps - 1) as nat));
                        }
                        if tree.is_ancestor_or_self(ancestor, next) {
                            let steps = choose|steps: nat| tree.reaches(next, ancestor, steps);
                            assert(tree.reaches(current, ancestor, steps + 1));
                        }
                    }
                    current = next;
                },
                None => {
                    proof {
                        assert(!tree.contains(current) || tree.parent_of(current) is None);
                        if tree.is_ancestor_or_self(ancestor, current) {
                            let steps = choose|steps: nat| tree.reaches(current, ancestor, steps);
                            lemma_reaches_step(tree, current, ancestor, steps);
                        }
                    }
                    return false;
                },
            }
        }
    }

    /// Sets the sibling flags of the children of the node in `slot` by their
    /// position.
    fn refresh_sibling_flags(&mut self, slot: usize)
        requires
            slot < old(self).nodes.len(),
            uuids(old(self).nodes@).no_duplicates(),
            old(self).nodes[slot as int].child_uuids@.no_duplicates(),
            forall|k: int|
                0 <= k < old(self).nodes[slot as int].child_uuids.len() ==> uuids(
                    old(self).nodes@,
                ).contains(#[trigger] old(self).nodes[slot as int].child_uuids[k]),
        ensures
            final(self).policy == old(self).policy,
            uuids(final(self).nodes@) == uuids(old(self).nodes@),
            nodes_map(final(self).nodes@) == flag_siblings(
                nodes_map(old(self).nodes@),
                old(self).nodes[slot as int].child_uuids@,
            ),
    {
        let ghost start = self.nodes@;
        let ghost kids = self.nodes[slot as int].child_uuids@;
        let count = self.nodes[slot].child_uuids.len();
        let mut k: usize = 0;
        proof {
            lemma_nodes_map(start);
            assert(kids.take(0).len() == 0);
            assert(nodes_map(start) =~= flag_prefix(nodes_map(start), kids, 0));
        }
        while k < count
            invariant
                k <= count,
                count == kids.len(),
                slot < self.nodes.len(),
                self.policy == old(self).policy,
                uuids(self.nodes@) == uuids(start),
                uuids(start).no_duplicates(),
                self.nodes[slot as int].child_uuids@ == kids,
                kids.no_duplicates(),
                forall|j: int| 0 <= j < kids.len() ==> uuids(start).contains(#[trigger] kids[j]),
                nodes_map(self.nodes@) == flag_prefix(nodes_map(start), kids, k as int),
            decreases count - k,
        {
            let kid = self.nodes[slot].child_uuids[k];
            assert(uuids(start).contains(kids[k as int]));
            match self.find(kid) {
                Some(i) => {
                    let ghost before = self.nodes@;
                    self.nodes[i].set_sibling_flags(k == 0, k + 1 == count);
                    proof {
                        let after = self.nodes@;
                        lemma_nodes_map(start);
                        lemma_nodes_map(before);
                        lemma_nodes_map_update(before, after, i as int);
                        let prefix = kids.take(k as int);
                        assert(!prefix.contains(kid)) by {
                            if prefix.contains(kid) {
                                let j = choose|j: int| 0 <= j < prefix.len() && prefix[j] == kid;
                                assert(kids[j] == kids[k as int]);
                            }
                        }
                        assert(nodes_map(before)[kid] == nodes_map(start)[kid]);
                        assert(nodes_map(before)[kid] == before[i as int]@);
                        lemma_flag_prefix_step(nodes_map(start), kids, k as int, after[i as int]@);
                    }
                },
                None => {
                    assert(false);
                },
            }
            k += 1;
        }
        proof {
            assert(kids.take(count as int) =~= kids);
            assert(flag_prefix(nodes_map(start), kids, count as int) =~= flag_siblings(
                nodes_map(start),
                kids,
            ));
        }
    }

    /// Appends the node in `child_slot` to the children of the node in
    /// `parent_slot` and sets the sibling flags of all of them.
    fn link_slots(&mut self, parent_slot: usize, child_slot: usize)
        requires
            parent_slot < old(self).nodes.len(),
            child_slot < old(self).nodes.len(),
            parent_slot != child_slot,
            uuids(old(self).nodes@).no_duplicates(),
            old(self).nodes[child_slot as int].parent is None,
            !old(self).nodes[child_slot as int].is_first,
            !old(self).nodes[child_slot as int].is_last,
            old(self).nodes[parent_slot as int].child_uuids@.push(
                old(self).nodes[child_slot as int].uuid,
            ).no_duplicates(),
            forall|k: int|
                0 <= k < old(self).nodes[parent_slot as int].child_uuids.len() ==> uuids(
                    old(self).nodes@,
                ).contains(#[trigger] old(self).nodes[parent_slot as int].child_uuids[k]),
        ensures
            final(self).policy == old(self).policy,
            uuids(final(self).nodes@) == uuids(old(self).nodes@),
            nodes_map(final(self).nodes@) == relink(
                nodes_map(old(self).nodes@),
                old(self).nodes[parent_slot as int].uuid,
                old(self).nodes[parent_slot as int].child_uuids@.push(
                    old(self).nodes[child_slot as int].uuid,
                ),
                old(self).nodes[child_slot as int].uuid,
                Some(old(self).nodes[parent_slot as int].uuid),
            ),
    {
        let ghost start = self.nodes@;
        let parent = self.nodes[parent_slot].uuid;
        let child = self.nodes[child_slot].uuid;
        let ghost kids = start[parent_slot as int].child_uuids@.push(child);
        self.nodes[parent_slot].push_child_uuid(child);
        let ghost pushed = self.nodes@;
        self.nodes[child_slot].set_parent(Some(parent));
        let ghost linked = self.nodes@;
        proof {
            lemma_nodes_map(start);
            lemma_nodes_map_update(start, pushed, parent_slot as int);
            lemma_nodes_map_update(pushed, linked, child_slot as int);
            assert(pushed[parent_slot as int]@ == start[parent_slot as int]@.with_structure(
                LinksView { child_uuids: kids, ..start[parent_slot as int]@.structure },
            ));
            assert(linked[child_slot as int]@ == start[child_slot as int]@.with_structure(
                LinksView {
                    parent: Some(parent),
                    is_first: false,
                    is_last: false,
                    ..start[child_slot as int]@.structure
                },
            ));
            assert(linked[parent_slot as int].child_uuids@ == kids);
            assert forall|k: int| 0 <= k < kids.len() implies uuids(linked).contains(
                #[trigger] kids[k],
            ) by {
                if k < kids.len() - 1 {
                    assert(kids[k] == start[parent_slot as int].child_uuids[k]);
                } else {
                    assert(uuids(start)[child_slot as int] == child);
                }
            }
        }
        self.refresh_sibling_flags(parent_slot);
    }

    /// Takes the child at `position` out of the children of the node in
    /// `parent_slot`, clears the links of the child, which is the node in
    /// `child_slot`, and sets the sibling flags of the children that stay.
    fn unlink_slots(&mut self, parent_slot: usize, position: usize, child_slot: usize)
        requires
            parent_slot < old(self).nodes.len(),
            child_slot < old(self).nodes.len(),
            parent_slot != child_slot,
            uuids(old(self).nodes@).no_duplicates(),
            position < old(self).nodes[parent_slot as int].child_uuids.len(),
            old(self).nodes[parent_slot as int].child_uuids[position as int]
                == old(self).nodes[child_slot as int].uuid,
            old(self).nodes[parent_slot as int].child_uuids@.no_duplicates(),
            forall|k: int|
                0 <= k < old(self).nodes[parent_slot as int].child_uuids.len() ==> uuids(
                    old(self).nodes@,
                ).contains(#[trigger] old(self).nodes[parent_slot as int].child_uuids[k]),
        ensures
            final(self).policy == old(self).policy,
            uuids(final(self).nodes@) == uuids(old(self).nodes@),
            nodes_map(final(self).nodes@) == relink(
                nodes_map(old(self).nodes@),
                old(self).nodes[parent_slot as int].uuid,
                old(self).nodes[parent_slot as int].child_uuids@.remove(position as int),
                old(self).nodes[child_slot as int].uuid,
                None,
            ),
    {
        let ghost start = self.nodes@;
        let ghost kids0 = start[parent_slot as int].child_uuids@;
        let ghost kids = kids0.remove(position as int);
        self.nodes[parent_slot].remove_child_uuid(position);
        let ghost cut = self.nodes@;
        self.nodes[child_slot].set_parent(None);
        let ghost unlinked = self.nodes@;
        proof {
            lemma_nodes_map(start);
            lemma_remove_distinct(kids0, position as int);
            lemma_nodes_map_update(start, cut, parent_slot as int);
            lemma_nodes_map_update(cut, unlinked, child_slot as int);
            assert(cut[parent_slot as int]@ == start[parent_slot as int]@.with_structure(
                LinksView { child_uuids: kids, ..start[parent_slot as int]@.structure },
            ));
            assert(unlinked[child_slot as int]@ == start[child_slot as int]@.with_structure(
                LinksView {
                    parent: None,
                    is_first: false,
                    is_last: false,
                    ..start[child_slot as int]@.structure
                },
            ));
            assert(unlinked[parent_slot as int].child_uuids@ == kids);
            assert forall|k: int| 0 <= k < kids.len() implies uuids(unlinked).contains(
                #[trigger] kids[k],
            ) by {
                let k0 = if k < position { k } else { k + 1 };
                assert(kids[k] == kids0[k0]);
                assert(kids0[k0] == start[parent_slot as int].child_uuids[k0]);
            }
        }
        self.refresh_sibling_flags(parent_slot);
    }

    /// Attaches `child` as the last child of `parent`.
    ///
    /// Nothing is changed unless the link can be made.  It cannot if the
    /// tree does not hold both nodes, if the policy does not allow the pair
    /// of their levels, if `child` is `parent` itself or one of its
    /// ancestors, if either node is marked as deleted, or if `child` is
    /// attached already; the first of these that holds is the error.
    pub fn attach_child(&mut self, parent: NodeId, child: NodeId) -> (result: Result<
        (),
        AttachError,
    >)
        requires
            old(self).wf(),
        ensures
            final(self).wf(),
            match result {
                Ok(()) => {
                    &&& old(self)@.attach_error(parent, child) is None
                    &&& final(self)@ == old(self)@.attach(parent, child)
                },
                Err(error) => {
                    &&& old(self)@.attach_error(parent, child) == Some(error)
                    &&& final(self)@ == old(self)@
                },
            },
    {
        let parent_slot = match self.find(parent) {
            Some(slot) => slot,
            None => {
                return Err(AttachError::UnknownNode);
            },
        };
        let child_slot = match self.find(child) {
            Some(slot) => slot,
            None => {
                return Err(AttachError::UnknownNode);
            },
        };
        proof {
            lemma_nodes_map(self.nodes@);
        }
        if !self.policy.allows(
            self.nodes[parent_slot].component_level,
            self.nodes[child_slot].component_level,
        ) {
            return Err(AttachError::LevelMismatch);
        }
        if self.is_ancestor_or_self(child, parent) {
            return Err(AttachError::CycleDetected);
        }
        if self.nodes[parent_slot].is_deleted || self.nodes[child_slot].is_deleted {
            return Err(AttachError::NodeDeleted);
        }
        if self.nodes[child_slot].parent.is_some() {
            return Err(AttachError::AlreadyAttached);
        }
        let ghost tree = self@;
        proof {
            lemma_attach_kids(tree, parent, child);
            assert(tree.parent_of(child) is None);
            assert forall|k: int|
                0 <= k < self.nodes[parent_slot as int].child_uuids.len() implies uuids(
                self.nodes@,
            ).contains(#[trigger] self.nodes[parent_slot as int].child_uuids[k]) by {
                assert(tree.contains(tree.children_of(parent)[k]));
            }
        }
        self.link_slots(parent_slot, child_slot);
        proof {
            assert(self@ == tree.attach(parent, child));
            lemma_attach_wf(tree, parent, child);
        }
        Ok(())
    }

    /// Handles a node dropped onto `parent`: makes it the last child of
    /// `parent`, or leaves the tree as it is.
    ///
    /// This is the entry point through which a drop on the canvas becomes a
    /// change of the tree.  The tree takes over the node that was dropped.
    /// If it holds a node under that identifier already, it is that node
    /// which is attached, as by `attach_child`; if it does not, the dropped
    /// node is added to the tree and attached in one step.
    pub fn on_drop(&mut self, parent: NodeId, dropped: BaseConfiguration) -> (result: Result<
        (),
        AttachError,
    >)
        requires
            old(self).wf(),
        ensures
            final(self).wf(),
            match result {
                Ok(()) => {
                    &&& old(self)@.drop_error(parent, dropped@) is None
                    &&& final(self)@ == old(self)@.dropped(parent, dropped@)
                },
                Err(error) => {
                    &&& old(self)@.drop_error(parent, dropped@) == Some(error)
                    &&& final(self)@ == old(self)@
                },
            },
    {
        let id = dropped.uuid;
        if self.find(id).is_some() {
            return self.attach_child(parent, id);
        }
        let parent_slot = match self.find(parent) {
            Some(slot) => slot,
            None => {
                return Err(AttachError::UnknownNode);
            },
        };
        proof {
            lemma_nodes_map(self.nodes@);
        }
        if !self.policy.allows(self.nodes[parent_slot].component_level, dropped.component_level) {
            return Err(AttachError::LevelMismatch);
        }
        if self.nodes[parent_slot].is_deleted || dropped.is_deleted {
            return Err(AttachError::NodeDeleted);
        }
        proof {
            lemma_drop_new(self@, parent, dropped@);
        }
        let _ = self.insert(dropped);
        match self.attach_child(parent, id) {
            Ok(()) => Ok(()),
            Err(error) => {
                assert(false);
                Err(error)
            },
        }
    }

    /// Detaches the child `child_id` from `parent` and returns its
    /// identifier.  The child keeps its own children: it becomes the root of
    /// a tree of its own.
    ///
    /// Nothing is changed if the tree does not hold `parent` or `parent` has
    /// no child `child_id`.
    pub fn detach_child(&mut self, parent: NodeId, child_id: NodeId) -> (result: Result<
        NodeId,
        DetachError,
    >)
        requires
            old(self).wf(),
        ensures
            final(self).wf(),
            match result {
                Ok(detached) => {
                    &&& detached == child_id
                    &&& old(self)@.detach_error(parent, child_id) is None
                    &&& final(self)@ == old(self)@.detach(parent, child_id)
                },
                Err(error) => {
                    &&& old(self)@.detach_error(parent, child_id) == Some(error)
                    &&& final(self)@ == old(self)@
                },
            },
    {
        let parent_slot = match self.find(parent) {
            Some(slot) => slot,
            None => {
                return Err(DetachError::NotFound);
            },
        };
        proof {
            lemma_nodes_map(self.nodes@);
        }
        let position = match position_of(&self.nodes[parent_slot].child_uuids, child_id) {
            Some(position) => position,
            None => {
                return Err(DetachError::NotFound);
            },
        };
        let ghost tree = self@;
        let ghost kids0 = tree.children_of(parent);
        proof {
            assert(kids0[position as int] == child_id);
            assert(kids0.contains(child_id));
            lemma_detach_kids(tree, parent, child_id);
            lemma_remove_distinct(kids0, position as int);
            assert(kids0.index_of(child_id) == position);
            assert forall|k: int|
                0 <= k < self.nodes[parent_slot as int].child_uuids.len() implies uuids(
                self.nodes@,
            ).contains(#[trigger] self.nodes[parent_slot as int].child_uuids[k]) by {
                assert(tree.contains(tree.children_of(parent)[k]));
            }
        }
        let child_slot = match self.find(child_id) {
            Some(slot) => slot,
            None => {
                assert(false);
                return Err(DetachError::NotFound);
            },
        };
        self.unlink_slots(parent_slot, position, child_slot);
        proof {
            assert(self@ == tree.detach(parent, child_id));
            lemma_detach_wf(tree, parent, child_id);
        }
        Ok(child_id)
    }

    /// Detaches `node` from its parent, if the tree holds it and it has one.
    fn detach_from_parent(&mut self, node: NodeId)
        requires
            old(self).wf(),
        ensures
            final(self).wf(),
            final(self)@ == old(self)@.detach_if_attached(node),
    {
        let attached_to = match self.find(node) {
            Some(slot) => {
                proof {
                    lemma_nodes_map(self.nodes@);
                }
                self.nodes[slot].parent
            },
            None => None,
        };
        if let Some(parent) = attached_to {
            proof {
                assert(self@.parent_of(node) == Some(parent));
                assert(self@.contains(parent) && self@.children_of(parent).contains(node));
            }
            match self.detach_child(parent, node) {
                Ok(_) => {},
                Err(_) => {
                    assert(false);
                },
            }
        }
    }

    /// Moves `child` under `new_parent`: detaches it from its parent, if it
    /// has one, and attaches it as the last child of `new_parent`.
    ///
    /// If the node cannot be attached, it is not lost: it stays in the tree,
    /// detached, and the error hands its identifier back together with the
    /// reason.
    pub fn reparent(&mut self, child: NodeId, new_parent: NodeId) -> (result: Result<
        (),
        (AttachError, NodeId),
    >)
        requires
            old(self).wf(),
        ensures
            final(self).wf(),
            final(self)@ == old(self)@.reparent(child, new_parent),
            match result {
                Ok(()) => old(self)@.reparent_error(child, new_parent) is None,
                Err((error, returned)) => returned == child && old(self)@.reparent_error(
                    child,
                    new_parent,
                ) == Some(error),
            },
    {
        self.detach_from_parent(child);
        match self.attach_child(new_parent, child) {
            Ok(()) => Ok(()),
            Err(error) => Err((error, child)),
        }
    }

    /// Marks `node` as deleted and detaches it from its parent, if it has
    /// one.  The descendants of the node are neither marked nor detached.
    /// A tree that does not hold `node` stays as it is.
    pub fn mark_deleted(&mut self, node: NodeId)
        requires
            old(self).wf(),
        ensures
            final(self).wf(),
            final(self)@ == old(self)@.mark_deleted(node),
    {
        self.detach_from_parent(node);
        proof {
            lemma_detach_if_attached_wf(old(self)@, node);
            lemma_mark_deleted_wf(old(self)@, node);
        }
        match self.find(node) {
            Some(slot) => {
                let ghost before = self.nodes@;
                self.nodes[slot].set_deleted();
                proof {
                    lemma_nodes_map(before);
                    lemma_nodes_map_update(before, self.nodes@, slot as int);
                }
            },
            None => {},
        }
    }

    /// Replaces the label of the node `id`.  The result says whether the
    /// tree holds the node; if it does not, nothing is changed.
    pub fn set_label(&mut self, id: NodeId, label: String) -> (done: bool)
        requires
            old(self).wf(),
        ensures
            final(self).wf(),
            done == old(self)@.contains(id),
            final(self)@ == if done {
                old(self)@.replace(id, old(self)@.nodes[id].with_label(label@))
            } else {
                old(self)@
            },
    {
        match self.find(id) {
            Some(slot) => {
                let ghost before = self.nodes@;
                self.nodes[slot].set_label(label);
                proof {
                    lemma_nodes_map(before);
                    lemma_nodes_map_update(before, self.nodes@, slot as int);
                    lemma_replace_wf(old(self)@, id, old(self)@.nodes[id].with_label(label@));
                }
                true
            },
            None => false,
        }
    }

    /// Shows the node `id` expanded or collapsed.  The result says whether
    /// the tree holds the node; if it does not, nothing is changed.
    pub fn set_expanded(&mut self, id: NodeId, expanded: bool) -> (done: bool)
        requires
            old(self).wf(),
        ensures
            final(self).wf(),
            done == old(self)@.contains(id),
            final(self)@ == if done {
                old(self)@.replace(id, old(self)@.nodes[id].with_expanded(expanded))
            } else {
                old(self)@
            },
    {
        match self.find(id) {
            Some(slot) => {
                let ghost before = self.nodes@;
                self.nodes[slot].set_expanded(expanded);
                proof {
                    lemma_nodes_map(before);
                    lemma_nodes_map_update(before, self.nodes@, slot as int);
                    lemma_replace_wf(old(self)@, id, old(self)@.nodes[id].with_expanded(expanded));
                }
                true
            },
            None => false,
        }
    }

    /// Selects the node `id` or takes the selection off it.  The result
    /// says whether the tree holds the node; if it does not, nothing is
    /// changed.
    pub fn set_selected(&mut self, id: NodeId, selected: bool) -> (done: bool)
        requires
            old(self).wf(),
        ensures
            final(self).wf(),
            done == old(self)@.contains(id),
            final(self)@ == if done {
                old(self)@.replace(id, old(self)@.nodes[id].with_selected(selected))
            } else {
                old(self)@
            },
    {
        match self.find(id) {
            Some(slot) => {
                let ghost before = self.nodes@;
                self.nodes[slot].set_selected(selected);
                proof {
                    lemma_nodes_map(before);
                    lemma_nodes_map_update(before, self.nodes@, slot as int);
                    lemma_replace_wf(old(self)@, id, old(self)@.nodes[id].with_selected(selected));
                }
                true
            },
            None => false,
        }
    }

    /// Calls `visitor` on each child of `node`, in order, and returns what
    /// the calls returned.
    ///
    /// A node that the tree does not hold, or that is marked as deleted, is
    /// taken to have no children.  The tree is only read.
    pub fn for_each_child<R, F: Fn(&BaseConfiguration) -> R>(
        &self,
        node: NodeId,
        visitor: F,
    ) -> (results: Vec<R>)
        requires
            self.wf(),
            forall|child: &BaseConfiguration|
                self@.visible_children(node).contains(child.uuid) && child@
                    == self@.nodes[child.uuid] ==> call_requires(visitor, (child,)),
        ensures
            results.len() == self@.visible_children(node).len(),
            forall|i: int|
                0 <= i < results.len() ==> exists|child: &BaseConfiguration|
                    child@ == self@.nodes[self@.visible_children(node)[i]] && call_ensures(
                        visitor,
                        (child,),
                        #[trigger] results[i],
                    ),
    {
        let mut results: Vec<R> = Vec::new();
        let slot = match self.find(node) {
            Some(slot) => slot,
            None => {
                return results;
            },
        };
        proof {
            lemma_nodes_map(self.nodes@);
        }
        if self.nodes[slot].is_deleted {
            return results;
        }
        let ghost tree = self@;
        let ghost kids = tree.visible_children(node);
        let count = self.nodes[slot].child_uuids.len();
        let mut k: usize = 0;
        proof {
            assert forall|j: int| 0 <= j < kids.len() implies uuids(self.nodes@).contains(
                #[trigger] kids[j],
            ) by {
                assert(tree.contains(tree.children_of(node)[j]));
            }
        }
        while k < count
            invariant
                uuids(self.nodes@).no_duplicates(),
                tree.nodes == nodes_map(self.nodes@),
                slot < self.nodes.len(),
                kids == self.nodes[slot as int].child_uuids@,
                forall|j: int| 0 <= j < kids.len() ==> uuids(self.nodes@).contains(#[trigger] kids[j]),
                count == kids.len(),
                k <= count,
                results.len() == k,
                forall|child: &BaseConfiguration|
                    kids.contains(child.uuid) && child@ == tree.nodes[child.uuid]
                        ==> call_requires(visitor, (child,)),
                forall|i: int|
                    0 <= i < k ==> exists|child: &BaseConfiguration|
                        child@ == tree.nodes[kids[i]] && call_ensures(
                            visitor,
                            (child,),
                            #[trigger] results[i],
                        ),
            decreases count - k,
        {
            let kid = self.nodes[slot].child_uuids[k];
            assert(uuids(self.nodes@).contains(kids[k as int]));
            match self.find(kid) {
                Some(kid_slot) => {
                    let child = &self.nodes[kid_slot];
                    proof {
                        lemma_nodes_map(self.nodes@);
                        assert(kids[k as int] == kid);
                        assert(kids.contains(child.uuid));
                        assert(child@ == tree.nodes[child.uuid]);
                    }
                    let result = visitor(child);
                    let ghost earlier = results@;
                    results.push(result);
                    proof {
                        assert forall|i: int| 0 <= i < k + 1 implies exists|
                            child: &BaseConfiguration,
                        |
                            child@ == tree.nodes[kids[i]] && call_ensures(
                                visitor,
                                (child,),
                                #[trigger] results[i],
                            ) by {
                            if i < k {
                                assert(results[i] == earlier[i]);
                                let witness = choose|child: &BaseConfiguration|
                                    child@ == tree.nodes[kids[i]] && call_ensures(
                                        visitor,
                                        (child,),
                                        earlier[i],
                                    );
                                assert(witness@ == tree.nodes[kids[i]] && call_ensures(
                                    visitor,
                                    (witness,),
                                    results[i],
                                ));
                            } else {
                                assert(child@ == tree.nodes[kids[i]] && call_ensures(
                                    visitor,
                                    (child,),
                                    results[i],
                                ));
                            }
                        }
                    }
                },
                None => {
                    assert(false);
                },
            }
            k += 1;
        }
        results
    }
}

} // verus!
