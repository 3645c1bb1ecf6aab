//! An entry of the palette: a template that can be dragged onto the canvas.

use vstd::prelude::*;
use crate::registry::{is_known_kind, known_kind};

verus! {

/// An entry of the palette.
#[derive(Debug, Clone)]
pub struct DraggableItem {
    /// The canonical name of the level of the nodes that the entry makes.
    pub component_level: String,
    /// The name of the template.
    pub name: String,
}

impl DraggableItem {
    /// The entry for the template `name`, whose nodes have the level named
    /// `component_level`.
    pub fn new(name: &str, component_level: &str) -> (item: DraggableItem)
        ensures
            item.name@ == name@,
            item.component_level@ == component_level@,
    {
        DraggableItem { component_level: component_level.to_owned(), name: name.to_owned() }
    }

    /// Whether the entry is shown with an image: the templates of the
    /// palette are, every other entry is not.
    pub fn has_image(&self) -> (shown: bool)
        ensures
            shown == is_known_kind(self.name@),
    {
        known_kind(self.name.as_str())
    }
}

} // verus!
