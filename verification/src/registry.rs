//! The template registry: the node that each kind of template starts from.

use vstd::prelude::*;
use crate::base_configuration::{BaseConfiguration, NodeView};
use crate::identity::{is_random_uuid, new_id, NodeId};
use crate::level::ComponentLevel;

verus! {

/// Whether `kind` names a template of the palette.
pub open spec fn is_known_kind(kind: Seq<char>) -> bool {
    kind == "MainFlow"@ || kind == "Choice"@
}

/// The level of the nodes made from the template `kind`: `ParentOnly` for
/// the templates of the palette, `Other` for every other name.
pub open spec fn level_of_kind(kind: Seq<char>) -> ComponentLevel {
    if is_known_kind(kind) {
        ComponentLevel::ParentOnly
    } else {
        ComponentLevel::Other
    }
}

/// The value of a node made from the template `kind` under the identifier
/// `uuid`: a fresh node but for its kind and its level.
pub open spec fn template_node(uuid: NodeId, kind: Seq<char>) -> NodeView {
    NodeView::fresh(uuid).with_widget_type(kind).with_level(level_of_kind(kind))
}

/// Whether `kind` names a template of the palette.
pub fn known_kind(kind: &str) -> (known: bool)
    ensures
        known == is_known_kind(kind@),
{
    let name: String = kind.to_owned();
    name == "MainFlow".to_owned() || name == "Choice".to_owned()
}

/// A node made from the template `kind` under the identifier `uuid`.
///
/// Every name is accepted: a name that the palette does not know gives a
/// node of level `Other`.
pub fn create_node_with_uuid(kind: &str, uuid: NodeId) -> (node: BaseConfiguration)
    ensures
        node@ == template_node(uuid, kind@),
{
    let level = if known_kind(kind) {
        ComponentLevel::ParentOnly
    } else {
        ComponentLevel::Other
    };
    BaseConfiguration::with_uuid(uuid).with_kind(kind.to_owned()).with_level(level)
}

/// A node made from the template `kind` under a newly drawn identifier.
pub fn create_node(kind: &str) -> (node: BaseConfiguration)
    ensures
        node@ == template_node(node.uuid, kind@),
        is_random_uuid(node.uuid.value),
{
    create_node_with_uuid(kind, new_id())
}

} // verus!
