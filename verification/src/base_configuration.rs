//! The configuration node: the record that a tree holds for each element of
//! a flow diagram.

use vstd::prelude::*;
use crate::identity::{is_random_uuid, new_id, NodeId};
use crate::level::ComponentLevel;

verus! {

/// The configuration of one transform script.
#[derive(Debug, Clone, Copy, PartialEq, Eq, Structural)]
pub struct TransformScriptConfig;

/// The factory that builds the default widget of a node.
#[derive(Debug, Clone, Copy, PartialEq, Eq, Structural)]
pub struct DefaultWidgetFactory;

/// The index of the transform script that is selected in a node.
#[derive(Debug, Clone, Copy, PartialEq, Eq, Structural)]
pub struct SelectedScriptIndex {
    pub value: i32,
}

impl SelectedScriptIndex {
    /// The index with the given value.
    pub fn new(value: i32) -> (index: SelectedScriptIndex)
        ensures
            index.value == value,
    {
        SelectedScriptIndex { value }
    }
}

/// A measure on the canvas, carried as the bit pattern of an IEEE 754
/// binary64 number.
///
/// The tree stores and returns measures and never computes with them, so a
/// measure is kept exactly as the presentation layer handed it over.
#[derive(Debug, Clone, Copy, PartialEq, Eq, Structural)]
pub struct Scalar {
    pub bits: u64,
}

impl Scalar {
    /// The measure zero.
    pub fn zero() -> (scalar: Scalar)
        ensures
            scalar.bits == 0,
    {
        Scalar { bits: 0 }
    }

    /// The measure with the given bit pattern.
    pub fn from_bits(bits: u64) -> (scalar: Scalar)
        ensures
            scalar.bits == bits,
    {
        Scalar { bits }
    }

    /// The bit pattern of the measure.
    pub fn to_bits(&self) -> (bits: u64)
        ensures
            bits == self.bits,
    {
        self.bits
    }
}

/// A width and a height.
#[derive(Debug, Clone, Copy, PartialEq, Eq, Structural)]
pub struct Size {
    pub width: Scalar,
    pub height: Scalar,
}

impl Size {
    /// The empty size: width and height zero.
    pub open spec fn spec_zero() -> Size {
        Size { width: Scalar { bits: 0 }, height: Scalar { bits: 0 } }
    }

    /// The empty size: width and height zero.
    pub fn zero() -> (size: Size)
        ensures
            size == Size::spec_zero(),
    {
        Size { width: Scalar::zero(), height: Scalar::zero() }
    }
}

/// A node of the configuration tree.
///
/// A node is a plain record.  Its structural fields (`parent`, `child_uuids`,
/// `is_first`, `is_last`) are kept by the tree that holds the node; no method
/// of the node itself validates them.
#[derive(Debug, Clone)]
pub struct BaseConfiguration {
    /// The identifier of the node.
    pub uuid: NodeId,
    /// The identifiers of the children, in order.
    pub child_uuids: Vec<NodeId>,
    pub box_initial_width: Scalar,
    /// The name of the template that the node was made from.
    pub widget_type: String,
    pub component_level: ComponentLevel,
    pub name: String,
    /// The identifier of the parent, if the node is attached.
    pub parent: Option<NodeId>,
    pub configuration_file_path: String,
    pub project_folder: String,
    /// Whether the node is the first child of its parent.
    pub is_first: bool,
    /// Whether the node is the last child of its parent.
    pub is_last: bool,
    pub widget_factory: Option<DefaultWidgetFactory>,
    pub new_component: bool,
    pub size: Size,
    pub child_max_height: Scalar,
    pub child_max_width: Scalar,
    pub child_total_width: Scalar,
    pub child_total_height: Scalar,
    pub child_arrow_size: Size,
    pub label: String,
    pub initial_state: String,
    pub max_concurrency: i32,
    pub is_tracking_enabled: bool,
    pub is_expanded: bool,
    pub is_selected: bool,
    pub error_handling_expanded: bool,
    pub variable_changed: String,
    pub debug: bool,
    pub is_deleted: bool,
    pub transform_script_configs: Vec<TransformScriptConfig>,
    pub initialize_field_getters: bool,
    pub initialize_field_setters: bool,
    pub selected_script_index: SelectedScriptIndex,
    pub script_index: i32,
}

/// What a node is: its identifier, the template it was made from, its
/// level and its texts.
pub struct IdentityView {
    pub uuid: NodeId,
    pub widget_type: Seq<char>,
    pub component_level: ComponentLevel,
    pub name: Seq<char>,
    pub label: Seq<char>,
}

/// Where a node stands in its tree.
pub struct LinksView {
    pub parent: Option<NodeId>,
    pub child_uuids: Seq<NodeId>,
    pub is_first: bool,
    pub is_last: bool,
}

/// The measures of a node on the canvas.
pub struct GeometryView {
    pub size: Size,
    pub child_max_height: Scalar,
    pub child_max_width: Scalar,
    pub child_total_width: Scalar,
    pub child_total_height: Scalar,
    pub box_initial_width: Scalar,
    pub child_arrow_size: Size,
}

/// The flags that the presentation layer and the tree set on a node.
pub struct FlagsView {
    pub is_expanded: bool,
    pub is_selected: bool,
    pub is_tracking_enabled: bool,
    pub error_handling_expanded: bool,
    pub debug: bool,
    pub is_deleted: bool,
    pub new_component: bool,
}

/// How a node behaves when the flow runs.
pub struct BehaviorView {
    pub initial_state: Seq<char>,
    pub max_concurrency: i32,
    pub transform_script_configs: Seq<TransformScriptConfig>,
    pub selected_script_index: SelectedScriptIndex,
    pub script_index: i32,
    pub initialize_field_getters: bool,
    pub initialize_field_setters: bool,
    pub variable_changed: Seq<char>,
    pub widget_factory: Option<DefaultWidgetFactory>,
}

/// Where the configuration of a node is kept.
pub struct ProvenanceView {
    pub configuration_file_path: Seq<char>,
    pub project_folder: Seq<char>,
}

/// The mathematical value of a node: its fields, grouped by what they are
/// for, with strings and vectors taken as sequences.
pub struct NodeView {
    pub identity: IdentityView,
    pub structure: LinksView,
    pub geometry: GeometryView,
    pub flags: FlagsView,
    pub behavior: BehaviorView,
    pub provenance: ProvenanceView,
}

impl View for BaseConfiguration {
    type V = NodeView;

    open spec fn view(&self) -> NodeView {
        NodeView {
            identity: IdentityView {
                uuid: self.uuid,
                widget_type: self.widget_type@,
                component_level: self.component_level,
                name: self.name@,
                label: self.label@,
            },
            structure: LinksView {
                parent: self.parent,
                child_uuids: self.child_uuids@,
                is_first: self.is_first,
                is_last: self.is_last,
            },
            geometry: GeometryView {
                size: self.size,
                child_max_height: self.child_max_height,
                child_max_width: self.child_max_width,
                child_total_width: self.child_total_width,
                child_total_height: self.child_total_height,
                box_initial_width: self.box_initial_width,
                child_arrow_size: self.child_arrow_size,
            },
            flags: FlagsView {
                is_expanded: self.is_expanded,
                is_selected: self.is_selected,
                is_tracking_enabled: self.is_tracking_enabled,
                error_handling_expanded: self.error_handling_expanded,
                debug: self.debug,
                is_deleted: self.is_deleted,
                new_component: self.new_component,
            },
            behavior: BehaviorView {
                initial_state: self.initial_state@,
                max_concurrency: self.max_concurrency,
                transform_script_configs: self.transform_script_configs@,
                selected_script_index: self.selected_script_index,
                script_index: self.script_index,
                initialize_field_getters: self.initialize_field_getters,
                initialize_field_setters: self.initialize_field_setters,
                variable_changed: self.variable_changed@,
                widget_factory: self.widget_factory,
            },
            provenance: ProvenanceView {
                configuration_file_path: self.configuration_file_path@,
                project_folder: self.project_folder@,
            },
        }
    }
}

impl LinksView {
    /// The place of a node that stands alone: no parent, no children, and
    /// neither sibling flag set.
    pub open spec fn unlinked() -> LinksView {
        LinksView { parent: None, child_uuids: Seq::empty(), is_first: false, is_last: false }
    }
}

impl NodeView {
    /// The value of a freshly created node with the identifier `uuid`: level
    /// `ParentOnly`, no parent and no children, every measure zero, every
    /// text and every collection empty, a concurrency limit of 5, marked as
    /// a new component, and every other flag off.
    pub open spec fn fresh(uuid: NodeId) -> NodeView {
        NodeView {
            identity: IdentityView {
                uuid,
                widget_type: Seq::empty(),
                component_level: ComponentLevel::ParentOnly,
                name: Seq::empty(),
                label: Seq::empty(),
            },
            structure: LinksView::unlinked(),
            geometry: GeometryView {
                size: Size::spec_zero(),
                child_max_height: Scalar { bits: 0 },
                child_max_width: Scalar { bits: 0 },
                child_total_width: Scalar { bits: 0 },
                child_total_height: Scalar { bits: 0 },
                box_initial_width: Scalar { bits: 0 },
                child_arrow_size: Size::spec_zero(),
            },
            flags: FlagsView {
                is_expanded: false,
                is_selected: false,
                is_tracking_enabled: false,
                error_handling_expanded: false,
                debug: false,
                is_deleted: false,
                new_component: true,
            },
            behavior: BehaviorView {
                initial_state: Seq::empty(),
                max_concurrency: 5,
                transform_script_configs: Seq::empty(),
                selected_script_index: SelectedScriptIndex { value: 0 },
                script_index: 0,
                initialize_field_getters: false,
                initialize_field_setters: false,
                variable_changed: Seq::empty(),
                widget_factory: None,
            },
            provenance: ProvenanceView {
                configuration_file_path: Seq::empty(),
                project_folder: Seq::empty(),
            },
        }
    }

    /// The node as it stands outside any tree: no parent, no children, and
    /// neither sibling flag set.  Every other field is kept.
    pub open spec fn unlinked(self) -> NodeView {
        NodeView { structure: LinksView::unlinked(), ..self }
    }

    /// The node marked as deleted.  Every other field is kept.
    pub open spec fn deleted(self) -> NodeView {
        NodeView { flags: FlagsView { is_deleted: true, ..self.flags }, ..self }
    }

    /// The node made from the template `kind`.
    pub open spec fn with_widget_type(self, kind: Seq<char>) -> NodeView {
        NodeView { identity: IdentityView { widget_type: kind, ..self.identity }, ..self }
    }

    /// The node with the level `level`.
    pub open spec fn with_level(self, level: ComponentLevel) -> NodeView {
        NodeView { identity: IdentityView { component_level: level, ..self.identity }, ..self }
    }

    /// The node with the name `name`.
    pub open spec fn with_name(self, name: Seq<char>) -> NodeView {
        NodeView { identity: IdentityView { name, ..self.identity }, ..self }
    }

    /// The node with the label `label`.
    pub open spec fn with_label(self, label: Seq<char>) -> NodeView {
        NodeView { identity: IdentityView { label, ..self.identity }, ..self }
    }

    /// The node with the initial width `width` of its box.
    pub open spec fn with_initial_width(self, width: Scalar) -> NodeView {
        NodeView { geometry: GeometryView { box_initial_width: width, ..self.geometry }, ..self }
    }

    /// The node shown expanded or collapsed.
    pub open spec fn with_expanded(self, expanded: bool) -> NodeView {
        NodeView { flags: FlagsView { is_expanded: expanded, ..self.flags }, ..self }
    }

    /// The node selected or not.
    pub open spec fn with_selected(self, selected: bool) -> NodeView {
        NodeView { flags: FlagsView { is_selected: selected, ..self.flags }, ..self }
    }

    /// Whether the node is a later state of `earlier`: what an edit of the
    /// tree can have made of it.
    ///
    /// An edit may move a node in the tree, relabel it, expand or select
    /// it, and mark it as deleted.  It never changes the identifier, the
    /// kind, the level or the name of a node, nor its measures, its
    /// behaviour or its provenance, and it never takes a deletion mark off.
    pub open spec fn is_later_state_of(self, earlier: NodeView) -> bool {
        &&& self.identity == IdentityView { label: self.identity.label, ..earlier.identity }
        &&& self.geometry == earlier.geometry
        &&& self.behavior == earlier.behavior
        &&& self.provenance == earlier.provenance
        &&& self.flags == FlagsView {
            is_expanded: self.flags.is_expanded,
            is_selected: self.flags.is_selected,
            is_deleted: self.flags.is_deleted,
            ..earlier.flags
        }
        &&& earlier.flags.is_deleted ==> self.flags.is_deleted
    }

    /// The node with its place in the tree replaced.
    pub open spec fn with_structure(self, structure: LinksView) -> NodeView {
        NodeView { structure, ..self }
    }
}

impl BaseConfiguration {
    /// A fresh node with the given identifier.
    pub fn with_uuid(uuid: NodeId) -> (node: BaseConfiguration)
        ensures
            node@ == NodeView::fresh(uuid),
    {
        BaseConfiguration {
            uuid,
            child_uuids: Vec::new(),
            box_initial_width: Scalar::zero(),
            widget_type: String::new(),
            component_level: ComponentLevel::ParentOnly,
            name: String::new(),
            parent: None,
            configuration_file_path: String::new(),
            project_folder: String::new(),
            is_first: false,
            is_last: false,
            widget_factory: None,
            new_component: true,
            size: Size::zero(),
            child_max_height: Scalar::zero(),
            child_max_width: Scalar::zero(),
            child_total_width: Scalar::zero(),
            child_total_height: Scalar::zero(),
            child_arrow_size: Size::zero(),
            label: String::new(),
            initial_state: String::new(),
            max_concurrency: 5,
            is_tracking_enabled: false,
            is_expanded: false,
            is_selected: false,
            error_handling_expanded: false,
            variable_changed: String::new(),
            debug: false,
            is_deleted: false,
            transform_script_configs: Vec::new(),
            initialize_field_getters: false,
            initialize_field_setters: false,
            selected_script_index: SelectedScriptIndex::new(0),
            script_index: 0,
        }
    }

    /// A fresh node with a newly drawn identifier.
    ///
    /// Everything but the identifier is fixed; of the identifier the contract
    /// states only that it has the layout of a random UUID.
    pub fn default() -> (node: BaseConfiguration)
        ensures
            node@ == NodeView::fresh(node.uuid),
            is_random_uuid(node.uuid.value),
    {
        BaseConfiguration::with_uuid(new_id())
    }

    /// The node, made from the template `kind`.
    pub fn with_kind(self, kind: String) -> (node: BaseConfiguration)
        ensures
            node@ == self@.with_widget_type(kind@),
            node.uuid == self.uuid,
    {
        let mut node = self;
        node.widget_type = kind;
        node
    }

    /// The node, with the level `level`.
    pub fn with_level(self, level: ComponentLevel) -> (node: BaseConfiguration)
        ensures
            node@ == self@.with_level(level),
            node.uuid == self.uuid,
    {
        let mut node = self;
        node.component_level = level;
        node
    }

    /// The node, with the name `name`.
    pub fn with_name(self, name: String) -> (node: BaseConfiguration)
        ensures
            node@ == self@.with_name(name@),
            node.uuid == self.uuid,
    {
        let mut node = self;
        node.name = name;
        node
    }

    /// The node, with the label `label`.
    pub fn with_label(self, label: String) -> (node: BaseConfiguration)
        ensures
            node@ == self@.with_label(label@),
            node.uuid == self.uuid,
    {
        let mut node = self;
        node.label = label;
        node
    }

    /// The node, with the initial width `width` of its box.
    pub fn with_initial_width(self, width: Scalar) -> (node: BaseConfiguration)
        ensures
            node@ == self@.with_initial_width(width),
            node.uuid == self.uuid,
    {
        let mut node = self;
        node.box_initial_width = width;
        node
    }

    /// The node, shown expanded or collapsed.
    pub fn with_expanded(self, expanded: bool) -> (node: BaseConfiguration)
        ensures
            node@ == self@.with_expanded(expanded),
            node.uuid == self.uuid,
    {
        let mut node = self;
        node.is_expanded = expanded;
        node
    }

    /// The identifier of the node.
    pub fn id(&self) -> (id: NodeId)
        ensures
            id == self@.identity.uuid,
    {
        self.uuid
    }

    /// The name of the template that the node was made from.
    pub fn kind(&self) -> (kind: &str)
        ensures
            kind@ == self@.identity.widget_type,
    {
        self.widget_type.as_str()
    }

    /// The level of the node.
    pub fn level(&self) -> (level: ComponentLevel)
        ensures
            level == self@.identity.component_level,
    {
        self.component_level
    }

    /// The name of the node.
    pub fn name(&self) -> (name: &str)
        ensures
            name@ == self@.identity.name,
    {
        self.name.as_str()
    }

    /// The label of the node.
    pub fn label(&self) -> (label: &str)
        ensures
            label@ == self@.identity.label,
    {
        self.label.as_str()
    }

    /// Whether the node is shown expanded.
    pub fn is_expanded(&self) -> (expanded: bool)
        ensures
            expanded == self@.flags.is_expanded,
    {
        self.is_expanded
    }

    /// The size of the node on the canvas.
    pub fn size(&self) -> (size: Size)
        ensures
            size == self@.geometry.size,
    {
        self.size
    }

    /// Replaces the label.
    pub(crate) fn set_label(&mut self, label: String)
        ensures
            final(self)@ == old(self)@.with_label(label@),
            final(self).uuid == old(self).uuid,
    {
        self.label = label;
    }

    /// Shows the node expanded or collapsed.
    pub(crate) fn set_expanded(&mut self, expanded: bool)
        ensures
            final(self)@ == old(self)@.with_expanded(expanded),
            final(self).uuid == old(self).uuid,
    {
        self.is_expanded = expanded;
    }

    /// Selects the node or takes the selection off it.
    pub(crate) fn set_selected(&mut self, selected: bool)
        ensures
            final(self)@ == old(self)@.with_selected(selected),
            final(self).uuid == old(self).uuid,
    {
        self.is_selected = selected;
    }

    /// Appends `child` to the identifiers of the children.
    pub(crate) fn push_child_uuid(&mut self, child: NodeId)
        ensures
            final(self)@ == old(self)@.with_structure(
                LinksView {
                    child_uuids: old(self)@.structure.child_uuids.push(child),
                    ..old(self)@.structure
                },
            ),
            final(self).uuid == old(self).uuid,
    {
        self.child_uuids.push(child);
    }

    /// Takes the identifier at `position` out of the identifiers of the
    /// children.
    pub(crate) fn remove_child_uuid(&mut self, position: usize)
        requires
            position < old(self).child_uuids.len(),
        ensures
            final(self)@ == old(self)@.with_structure(
                LinksView {
                    child_uuids: old(self)@.structure.child_uuids.remove(position as int),
                    ..old(self)@.structure
                },
            ),
            final(self).uuid == old(self).uuid,
    {
        let _ = self.child_uuids.remove(position);
    }

    /// Names `parent` as the parent of the node and clears both sibling
    /// flags.
    pub(crate) fn set_parent(&mut self, parent: Option<NodeId>)
        ensures
            final(self)@ == old(self)@.with_structure(
                LinksView {
                    parent,
                    is_first: false,
                    is_last: false,
                    ..old(self)@.structure
                },
            ),
            final(self).uuid == old(self).uuid,
    {
        self.parent = parent;
        self.is_first = false;
        self.is_last = false;
    }

    /// Sets the sibling flags of the node.
    pub(crate) fn set_sibling_flags(&mut self, is_first: bool, is_last: bool)
        ensures
            final(self)@ == old(self)@.with_structure(
                LinksView { is_first, is_last, ..old(self)@.structure },
            ),
            final(self).uuid == old(self).uuid,
    {
        self.is_first = is_first;
        self.is_last = is_last;
    }

    /// Marks the node as deleted.
    pub(crate) fn set_deleted(&mut self)
        ensures
            final(self)@ == old(self)@.deleted(),
            final(self).uuid == old(self).uuid,
    {
        self.is_deleted = true;
    }
}

} // verus!
