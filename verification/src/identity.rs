//! Node identity: opaque 128-bit identifiers.

use vstd::prelude::*;

verus! {

/// The identifier of a configuration node.
///
/// An identifier is an opaque 128-bit value.  It is fixed when the node is
/// created and never changes afterwards; it is the key under which a tree
/// finds the node again.
#[derive(Clone, Copy, Debug, PartialEq, Eq, Structural, Hash)]
pub struct NodeId {
    pub value: u128,
}

/// The bits of an identifier that carry the version and the variant.
pub const VERSION_VARIANT_MASK: u128 = 0x0000_0000_0000_f000_c000_0000_0000_0000u128;

/// The version and variant bits of a randomly generated identifier.
pub const RANDOM_VERSION_VARIANT: u128 = 0x0000_0000_0000_4000_8000_0000_0000_0000u128;

/// Whether `bits` has the layout of a randomly generated UUID: version 4 in
/// the version field and the RFC 4122 pattern in the variant field.
pub open spec fn is_random_uuid(bits: u128) -> bool {
    bits & VERSION_VARIANT_MASK == RANDOM_VERSION_VARIANT
}

impl NodeId {
    /// The identifier with the given 128-bit value.
    pub fn from_u128(value: u128) -> (id: NodeId)
        ensures
            id.value == value,
    {
        NodeId { value }
    }

    /// The 128-bit value of the identifier.
    pub fn as_u128(&self) -> (value: u128)
        ensures
            value == self.value,
    {
        self.value
    }
}

/// Calls `uuid::Uuid::new_v4` and packs the result with `Uuid::as_u128`.
///
/// The 122 free bits come from the operating system's random source, so
/// nothing is claimed of them.  What is claimed is the fixed part: `new_v4`
/// masks the version field to 4 and the variant field to the RFC 4122 pattern
/// before it returns.  The call panics if the operating system cannot supply
/// random bytes.
#[verifier::external_body]
fn random_uuid_bits() -> (bits: u128)
    ensures
        is_random_uuid(bits),
{
    uuid::Uuid::new_v4().as_u128()
}

/// A fresh identifier, drawn at random.
///
/// Two calls return the same value only with negligible probability; that is
/// a matter of the random source and is not part of the contract.  A tree
/// never relies on it: it refuses to hold two nodes under one identifier.
pub fn new_id() -> (id: NodeId)
    ensures
        is_random_uuid(id.value),
{
    NodeId { value: random_uuid_bits() }
}

} // verus!
