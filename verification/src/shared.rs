//! The shared tree: a tree behind a lock.
//!
//! Whoever holds a reference to a shared tree may read and edit the tree;
//! the lock gives each caller the tree to itself for the length of one
//! call.  The lock admits only well-formed trees that descend from the tree
//! that was shared, so every caller finds the tree well formed and finds in
//! it every node that was there at the start, whatever the callers before
//! it did.

use vstd::prelude::*;
use vstd::rwlock::{RwLock, RwLockPredicate};
use crate::laws::lemma_descent_is_an_order;
use crate::model::TreeView;
use crate::tree::ConfigurationTree;

verus! {

/// What the lock admits: the well-formed trees that descend from `origin`.
pub struct DescendsFrom {
    /// The value of the tree at the time it was shared.
    pub origin: TreeView,
}

impl RwLockPredicate<ConfigurationTree> for DescendsFrom {
    open spec fn inv(self, tree: ConfigurationTree) -> bool {
        &&& tree.wf()
        &&& tree@.descends_from(self.origin)
    }
}

/// A tree that several owners share.
pub struct SharedTree {
    lock: RwLock<ConfigurationTree, DescendsFrom>,
}

impl SharedTree {
    /// The value of the tree at the time it was shared.
    pub closed spec fn origin(&self) -> TreeView {
        self.lock.pred().origin
    }

    /// Puts `tree` behind a lock.  The shared tree starts as `tree`.
    pub fn new(tree: ConfigurationTree) -> (shared: SharedTree)
        requires
            tree.wf(),
        ensures
            shared.origin() == tree@,
    {
        proof {
            lemma_descent_is_an_order(tree@, tree@, tree@);
        }
        SharedTree { lock: RwLock::new(tree, Ghost(DescendsFrom { origin: tree@ })) }
    }

    /// Takes the tree out from behind the lock, as the edits that were made
    /// through the lock have left it: well formed, with the policy that it
    /// was shared with, and with every node that it held then.
    pub fn into_inner(self) -> (tree: ConfigurationTree)
        ensures
            tree.wf(),
            tree@.descends_from(self.origin()),
    {
        self.lock.into_inner()
    }

    /// Runs `access` on the tree, with the tree to itself, and returns what
    /// it returns.  Other callers wait until `access` is done.
    ///
    /// `access` may read and edit the tree.  It must leave a well-formed
    /// tree that descends from the one that it found, as every edit of a
    /// tree does.  It is called exactly once, on the tree as the caller
    /// before left it: a well-formed tree that descends from the tree that
    /// was shared, and of which nothing more is known here.  The lock is
    /// given back when `access` returns; it must not ask for the same tree
    /// again while it runs.
    pub fn with_lock<R, F: FnOnce(&mut ConfigurationTree) -> R>(&self, access: F) -> (result: R)
        requires
            forall|tree: &mut ConfigurationTree| tree.wf() ==> call_requires(access, (tree,)),
            forall|tree: &mut ConfigurationTree, result: R|
                tree.wf() && call_ensures(access, (tree,), result) ==> {
                    &&& final(tree).wf()
                    &&& final(tree)@.descends_from(tree@)
                },
        ensures
            exists|tree: &mut ConfigurationTree|
                {
                    &&& tree.wf()
                    &&& tree@.descends_from(self.origin())
                    &&& final(tree).wf()
                    &&& final(tree)@.descends_from(tree@)
                    &&& call_ensures(access, (tree,), result)
                },
    {
        let (mut tree, handle) = self.lock.acquire_write();
        let ghost found = tree@;
        let result = access(&mut tree);
        proof {
            lemma_descent_is_an_order(self.origin(), found, tree@);
        }
        handle.release_write(tree);
        result
    }

    /// Runs `look` on the tree and returns what it returns.  Callers that
    /// only look do not wait for one another.
    pub fn read<R, F: FnOnce(&ConfigurationTree) -> R>(&self, look: F) -> (result: R)
        requires
            forall|tree: &ConfigurationTree| tree.wf() ==> call_requires(look, (tree,)),
        ensures
            exists|tree: &ConfigurationTree|
                tree.wf() && tree@.descends_from(self.origin()) && call_ensures(
                    look,
                    (tree,),
                    result,
                ),
    {
        let handle = self.lock.acquire_read();
        let tree = handle.borrow();
        let result = look(tree);
        assert(tree.wf() && tree@.descends_from(self.origin()) && call_ensures(
            look,
            (tree,),
            result,
        ));
        handle.release_read();
        result
    }
}

} // verus!
