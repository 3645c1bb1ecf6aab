//! The main flow: a titled frame on the canvas that holds a tree of
//! configuration nodes under one root.

use vstd::prelude::*;
use vstd::string::StringExecFns;
use crate::base_configuration::{BaseConfiguration, NodeView};
use crate::identity::{is_random_uuid, NodeId};
use crate::level::ComponentLevel;
use crate::policy::standard_pairs;
use crate::tree::ConfigurationTree;

verus! {

/// A main flow.
#[derive(Debug)]
pub struct MainFlow {
    /// Whether the frame is shown expanded.
    pub is_expanded: bool,
    /// The tree of the flow.
    pub tree: ConfigurationTree,
    /// The identifier of the node of the flow itself, under which its
    /// children are attached.
    pub config: NodeId,
    /// The title of the frame.
    pub title: String,
}

impl MainFlow {
    /// The flow is well formed: its tree is.
    pub open spec fn wf(&self) -> bool {
        self.tree.wf()
    }

    /// The flow that holds `node`, and nothing else, in a tree with the
    /// standard policy.
    pub open spec fn holds_only(&self, node: NodeView) -> bool {
        &&& self.config == node.identity.uuid
        &&& self.tree@.nodes == Map::<NodeId, NodeView>::empty().insert(
            node.identity.uuid,
            node.unlinked(),
        )
        &&& self.tree@.policy == standard_pairs()
    }

    /// A new flow with the given title: expanded, and with a fresh node of
    /// the kind `MainFlow` as its only node.
    pub fn new(title: String) -> (flow: MainFlow)
        ensures
            flow.wf(),
            flow.is_expanded,
            flow.title@ == title@,
            flow.holds_only(NodeView::fresh(flow.config).with_widget_type("MainFlow"@)),
            is_random_uuid(flow.config.value),
    {
        let node = BaseConfiguration::default().with_kind("MainFlow".to_owned());
        MainFlow::with_root(title, node)
    }

    /// The flow of the node `config`: expanded, titled with the name of the
    /// node, and with the node as its only node.  The node enters the flow
    /// on its own: the links that it carries are not followed.
    pub fn from_base_config(config: BaseConfiguration) -> (flow: MainFlow)
        ensures
            flow.wf(),
            flow.is_expanded,
            flow.title@ == config@.identity.name,
            flow.holds_only(config@),
    {
        let title = config.name.clone();
        MainFlow::with_root(title, config)
    }

    /// The expanded flow with the given title and `root` as its only node.
    fn with_root(title: String, root: BaseConfiguration) -> (flow: MainFlow)
        ensures
            flow.wf(),
            flow.is_expanded,
            flow.title == title,
            flow.holds_only(root@),
    {
        let config = root.uuid;
        let mut tree = ConfigurationTree::new();
        let _ = tree.insert(root);
        MainFlow { is_expanded: true, tree, config, title }
    }

    /// Shows the frame expanded or collapsed.
    pub fn set_expansion(&mut self, expanded: bool)
        ensures
            final(self).is_expanded == expanded,
            final(self).tree == old(self).tree,
            final(self).config == old(self).config,
            final(self).title == old(self).title,
    {
        self.is_expanded = expanded;
    }

    /// Replaces the title of the frame.
    pub fn set_title(&mut self, new_title: String)
        ensures
            final(self).title == new_title,
            final(self).is_expanded == old(self).is_expanded,
            final(self).tree == old(self).tree,
            final(self).config == old(self).config,
    {
        self.title = new_title;
    }

    /// Collapses an expanded frame and expands a collapsed one.
    pub fn toggle_expansion(&mut self)
        ensures
            final(self).is_expanded == !old(self).is_expanded,
            final(self).tree == old(self).tree,
            final(self).config == old(self).config,
            final(self).title == old(self).title,
    {
        self.is_expanded = !self.is_expanded;
    }

    /// Whether the flow takes `child` as a child: its level is `ChildOnly`,
    /// and it may be dropped onto the node of the flow.
    pub open spec fn accepts(&self, child: NodeView) -> bool {
        &&& child.identity.component_level == ComponentLevel::ChildOnly
        &&& self.tree@.drop_error(self.config, child) is None
    }

    /// Adds `child` as the last child of the flow, if the flow takes it.
    /// A child that the flow does not take is dropped, and the flow stays as
    /// it is.
    pub fn add_child(&mut self, child: BaseConfiguration)
        requires
            old(self).wf(),
        ensures
            final(self).wf(),
            final(self).is_expanded == old(self).is_expanded,
            final(self).config == old(self).config,
            final(self).title == old(self).title,
            final(self).tree@ == if old(self).accepts(child@) {
                old(self).tree@.dropped(old(self).config, child@)
            } else {
                old(self).tree@
            },
    {
        if child.component_level != ComponentLevel::ChildOnly {
            return;
        }
        let _ = self.tree.on_drop(self.config, child);
    }

    /// The title line of the frame: the title behind a mark that points
    /// down when the frame is expanded and to the right when it is not.
    pub open spec fn spec_frame_title(&self) -> Seq<char> {
        if self.is_expanded {
            "\u{25BC} "@ + self.title@
        } else {
            "\u{25B6} "@ + self.title@
        }
    }

    /// The title line of the frame.
    pub fn frame_title(&self) -> (line: String)
        ensures
            line@ == self.spec_frame_title(),
    {
        let mark = if self.is_expanded {
            "\u{25BC} "
        } else {
            "\u{25B6} "
        };
        String::from_str(mark).concat(self.title.as_str())
    }

    /// The lines that list the children of the flow: for each child, in
    /// order, its name behind the word `Child`.
    pub fn child_labels(&self) -> (lines: Vec<String>)
        requires
            self.wf(),
        ensures
            lines.len() == self.tree@.visible_children(self.config).len(),
            forall|i: int|
                0 <= i < lines.len() ==> (#[trigger] lines[i])@ == "Child: "@
                    + self.tree@.nodes[self.tree@.visible_children(self.config)[i]].identity.name,
    {
        let label = |child: &BaseConfiguration| -> (line: String)
            ensures
                line@ == "Child: "@ + child@.identity.name,
            { String::from_str("Child: ").concat(child.name.as_str()) };
        self.tree.for_each_child(self.config, label)
    }
}

} // verus!
