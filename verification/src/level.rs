//! Node classification: the level that decides where a node may nest.

use vstd::prelude::*;

verus! {

/// The nesting class of a node.
#[derive(Debug, Clone, Copy, PartialEq, Eq, Structural, Hash)]
pub enum ComponentLevel {
    /// The node may hold children.
    ParentOnly,
    /// The node may be held as a child.
    ChildOnly,
    /// Any other node.
    Other,
}

impl ComponentLevel {
    /// The canonical name of a level.
    pub open spec fn canonical_name(self) -> Seq<char> {
        match self {
            ComponentLevel::ParentOnly => "ParentOnly"@,
            ComponentLevel::ChildOnly => "ChildOnly"@,
            ComponentLevel::Other => "Other"@,
        }
    }

    /// The level that a name decodes to.  Decoding is lenient: every name
    /// that is not the canonical name of another level decodes to `Other`.
    pub open spec fn decode(name: Seq<char>) -> ComponentLevel {
        if name == "ParentOnly"@ {
            ComponentLevel::ParentOnly
        } else if name == "ChildOnly"@ {
            ComponentLevel::ChildOnly
        } else {
            ComponentLevel::Other
        }
    }

    /// Decoding the canonical name of a level gives the level back.
    pub proof fn lemma_decode_canonical_name(level: ComponentLevel)
        ensures
            ComponentLevel::decode(level.canonical_name()) == level,
    {
        reveal_strlit("ParentOnly");
        reveal_strlit("ChildOnly");
        reveal_strlit("Other");
        assert("ParentOnly"@.len() == 10);
        assert("ChildOnly"@.len() == 9);
        assert("Other"@.len() == 5);
    }

    /// The canonical name of the level.
    pub fn as_str(&self) -> (name: &str)
        ensures
            name@ == self.canonical_name(),
            ComponentLevel::decode(name@) == *self,
    {
        proof {
            ComponentLevel::lemma_decode_canonical_name(*self);
        }
        match self {
            ComponentLevel::ParentOnly => "ParentOnly",
            ComponentLevel::ChildOnly => "ChildOnly",
            ComponentLevel::Other => "Other",
        }
    }

    /// The level named by `s`.  The result is never `None`: a name that is
    /// not recognised decodes to `Other`.
    pub fn from_str(s: &str) -> (level: Option<ComponentLevel>)
        ensures
            level == Some(ComponentLevel::decode(s@)),
    {
        let name: String = s.to_owned();
        if name == "ParentOnly".to_owned() {
            Some(ComponentLevel::ParentOnly)
        } else if name == "ChildOnly".to_owned() {
            Some(ComponentLevel::ChildOnly)
        } else {
            Some(ComponentLevel::Other)
        }
    }
}

} // verus!
