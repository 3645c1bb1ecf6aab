//! The state of the application window: which panels are open, what the
//! palette offers, and which components stand on the canvas.
//!
//! The window itself is drawn elsewhere.  What is decided here is how the
//! state answers to what the user does.

use std::collections::VecDeque;
use vstd::prelude::*;
use crate::components::draggable_item::DraggableItem;
use crate::components::main_flow::MainFlow;
use crate::base_configuration::NodeView;
use crate::level::ComponentLevel;

verus! {

/// A component on the canvas.
#[derive(Debug)]
pub enum ComponentType {
    /// A main flow.
    MainFlow(MainFlow),
}

/// What the user did.
#[derive(Debug)]
pub enum PanelEvent {
    /// The button that folds or unfolds the left panel was clicked.
    ToggleLeftPanel,
    /// The handle that brings the left panel back was clicked.
    OpenLeftPanel,
    /// The button that folds or unfolds the right panel was clicked.
    ToggleRightPanel,
    /// The button that folds or unfolds the bottom panel was clicked.
    ToggleBottomPanel,
    /// The handle that brings the bottom panel back was clicked.
    OpenBottomPanel,
    /// An entry of the palette was dropped onto the canvas.
    ItemDropped(DraggableItem),
}

/// The state of the window.
#[derive(Debug)]
pub struct Panels {
    pub left_panel_open: bool,
    pub right_panel_open: bool,
    pub bottom_panel_open: bool,
    pub main_flow_draggable_item: Option<DraggableItem>,
    pub choice_draggable_item: Option<DraggableItem>,
    pub is_dragging: bool,
    pub show_dropped_box: bool,
    /// The entry that is being dragged.
    pub dragging_item: Option<DraggableItem>,
    /// The entries that were accepted.
    pub accepted_items: VecDeque<DraggableItem>,
    /// The components on the canvas, in the order in which they were made.
    pub widget_list: Vec<ComponentType>,
}

/// The title that a main flow gets when it is made by a drop.
pub open spec fn dropped_flow_title() -> Seq<char> {
    "MainFlow Title"@
}

/// Whether a drop of the palette entry with the given name and level makes
/// a main flow: the entry is the `MainFlow` template, and its level is
/// `ParentOnly`.
pub open spec fn makes_flow(name: Seq<char>, component_level: Seq<char>) -> bool {
    component_level == ComponentLevel::ParentOnly.canonical_name() && name == "MainFlow"@
}

impl Panels {
    /// Every component on the canvas is well formed.
    pub open spec fn wf(&self) -> bool {
        forall|i: int|
            0 <= i < self.widget_list.len() ==> match #[trigger] self.widget_list[i] {
                ComponentType::MainFlow(flow) => flow.wf(),
            }
    }

    /// The state of a window that was just opened: the left and the right
    /// panel open, the bottom panel closed, the two templates in the
    /// palette, nothing dragged and nothing on the canvas.
    pub fn new() -> (panels: Panels)
        ensures
            panels.wf(),
            panels.left_panel_open,
            panels.right_panel_open,
            !panels.bottom_panel_open,
            panels.main_flow_draggable_item matches Some(item) && item.name@ == "MainFlow"@
                && item.component_level@ == ComponentLevel::ParentOnly.canonical_name(),
            panels.choice_draggable_item matches Some(item) && item.name@ == "Choice"@
                && item.component_level@ == ComponentLevel::ParentOnly.canonical_name(),
            !panels.is_dragging,
            !panels.show_dropped_box,
            panels.dragging_item is None,
            panels.accepted_items@.len() == 0,
            panels.widget_list@.len() == 0,
    {
        let choice = DraggableItem::new("Choice", ComponentLevel::ParentOnly.as_str());
        let main_flow = DraggableItem::new("MainFlow", ComponentLevel::ParentOnly.as_str());
        Panels {
            left_panel_open: true,
            right_panel_open: true,
            bottom_panel_open: false,
            main_flow_draggable_item: Some(main_flow),
            choice_draggable_item: Some(choice),
            is_dragging: false,
            show_dropped_box: false,
            dragging_item: None,
            accepted_items: VecDeque::new(),
            widget_list: Vec::new(),
        }
    }

    /// Whether a drop of `item` onto the canvas makes a main flow.
    pub fn makes_main_flow(item: &DraggableItem) -> (makes: bool)
        ensures
            makes == makes_flow(item.name@, item.component_level@),
    {
        item.component_level == ComponentLevel::ParentOnly.as_str().to_owned() && item.name
            == "MainFlow".to_owned()
    }

    /// Answers to what the user did.
    ///
    /// A toggle flips the panel that it belongs to, and a handle opens it.
    /// A drop that makes a main flow puts a new flow, titled
    /// `MainFlow Title`, behind the components on the canvas; any other drop
    /// changes nothing.  What the event does not concern stays as it is.
    pub fn handle_event(&mut self, event: PanelEvent)
        requires
            old(self).wf(),
        ensures
            final(self).wf(),
            final(self).left_panel_open == match event {
                PanelEvent::ToggleLeftPanel => !old(self).left_panel_open,
                PanelEvent::OpenLeftPanel => true,
                _ => old(self).left_panel_open,
            },
            final(self).right_panel_open == match event {
                PanelEvent::ToggleRightPanel => !old(self).right_panel_open,
                _ => old(self).right_panel_open,
            },
            final(self).bottom_panel_open == match event {
                PanelEvent::ToggleBottomPanel => !old(self).bottom_panel_open,
                PanelEvent::OpenBottomPanel => true,
                _ => old(self).bottom_panel_open,
            },
            final(self).main_flow_draggable_item == old(self).main_flow_draggable_item,
            final(self).choice_draggable_item == old(self).choice_draggable_item,
            final(self).is_dragging == old(self).is_dragging,
            final(self).show_dropped_box == old(self).show_dropped_box,
            final(self).dragging_item == old(self).dragging_item,
            final(self).accepted_items == old(self).accepted_items,
            match event {
                PanelEvent::ItemDropped(item) if makes_flow(item.name@, item.component_level@) => {
                    &&& final(self).widget_list@.len() == old(self).widget_list@.len() + 1
                    &&& final(self).widget_list@.drop_last() == old(self).widget_list@
                    &&& final(self).widget_list@.last() matches ComponentType::MainFlow(flow)
                    &&& flow.is_expanded
                    &&& flow.title@ == dropped_flow_title()
                    &&& flow.holds_only(NodeView::fresh(flow.config).with_widget_type("MainFlow"@))
                },
                _ => final(self).widget_list@ == old(self).widget_list@,
            },
    {
        match event {
            PanelEvent::ToggleLeftPanel => {
                self.left_panel_open = !self.left_panel_open;
            },
            PanelEvent::OpenLeftPanel => {
                self.left_panel_open = true;
            },
            PanelEvent::ToggleRightPanel => {
                self.right_panel_open = !self.right_panel_open;
            },
            PanelEvent::ToggleBottomPanel => {
                self.bottom_panel_open = !self.bottom_panel_open;
            },
            PanelEvent::OpenBottomPanel => {
                self.bottom_panel_open = true;
            },
            PanelEvent::ItemDropped(item) => {
                if Panels::makes_main_flow(&item) {
                    let flow = MainFlow::new("MainFlow Title".to_owned());
                    let ghost before = self.widget_list@;
                    self.widget_list.push(ComponentType::MainFlow(flow));
                    proof {
                        assert(self.widget_list@.drop_last() =~= before);
                        assert forall|i: int|
                            0 <= i < self.widget_list.len() implies match #[trigger] self.widget_list[i] {
                            ComponentType::MainFlow(flow) => flow.wf(),
                        } by {
                            if i < before.len() {
                                assert(self.widget_list[i] == before[i]);
                            }
                        }
                    }
                }
            },
        }
    }
}

} // verus!
