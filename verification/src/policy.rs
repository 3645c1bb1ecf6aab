//! The nesting policy: which levels may be attached under which.

use vstd::prelude::*;
use crate::level::ComponentLevel;

verus! {

/// An allow-list of `(parent level, child level)` pairs.
///
/// A node may be attached under another only if the pair of their levels is
/// on the list.
#[derive(Debug, Clone)]
pub struct LevelPolicy {
    pub allowed: Vec<(ComponentLevel, ComponentLevel)>,
}

/// The pairs that the standard policy allows: a `ChildOnly` node under a
/// `ParentOnly` node, and nothing else.
pub open spec fn standard_pairs() -> Set<(ComponentLevel, ComponentLevel)> {
    set![(ComponentLevel::ParentOnly, ComponentLevel::ChildOnly)]
}

impl View for LevelPolicy {
    type V = Set<(ComponentLevel, ComponentLevel)>;

    /// The set of pairs on the list.
    open spec fn view(&self) -> Set<(ComponentLevel, ComponentLevel)> {
        self.allowed@.to_set()
    }
}

impl LevelPolicy {
    /// The standard policy.
    pub fn new() -> (policy: LevelPolicy)
        ensures
            policy@ == standard_pairs(),
    {
        let mut allowed: Vec<(ComponentLevel, ComponentLevel)> = Vec::new();
        allowed.push((ComponentLevel::ParentOnly, ComponentLevel::ChildOnly));
        assert(allowed@ =~= seq![(ComponentLevel::ParentOnly, ComponentLevel::ChildOnly)]);
        assert(allowed@.to_set() =~= standard_pairs()) by {
            assert(allowed@[0] == (ComponentLevel::ParentOnly, ComponentLevel::ChildOnly));
        }
        LevelPolicy { allowed }
    }

    /// The policy that allows what `self` allows and, besides, a node of
    /// level `child` under a node of level `parent`.
    pub fn permit(self, parent: ComponentLevel, child: ComponentLevel) -> (policy: LevelPolicy)
        ensures
            policy@ == self@.insert((parent, child)),
    {
        let mut allowed = self.allowed;
        let ghost before = allowed@;
        allowed.push((parent, child));
        proof {
            before.lemma_push_to_set_commute((parent, child));
        }
        LevelPolicy { allowed }
    }

    /// Whether a node of level `child` may be attached under a node of level
    /// `parent`.
    pub fn allows(&self, parent: ComponentLevel, child: ComponentLevel) -> (allowed: bool)
        ensures
            allowed == self@.contains((parent, child)),
    {
        let mut i: usize = 0;
        while i < self.allowed.len()
            invariant
                i <= self.allowed.len(),
                forall|j: int| 0 <= j < i ==> self.allowed@[j] != (parent, child),
            decreases self.allowed.len() - i,
        {
            let pair = self.allowed[i];
            if pair.0 == parent && pair.1 == child {
                assert(self.allowed@[i as int] == (parent, child));
                return true;
            }
            i += 1;
        }
        false
    }
}

} // verus!
