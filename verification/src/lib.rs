//! A hierarchical configuration tree for a visual flow builder.
//!
//! The crate models the nodes of a flow diagram, their identity and
//! classification, and the protocol by which nodes are attached to and
//! detached from one another.  Every structural edit is verified to keep the
//! tree well formed.
//!
//! * `identity`, `level`, `policy`: identifiers, levels, and which levels
//!   may nest in which.
//! * `base_configuration`: the node record and its mathematical value.
//! * `model`, `model_proofs`, `laws`: what a well-formed tree is, what each
//!   edit makes of it, and what follows.
//! * `tree`: the executable tree, specified against the model.
//! * `shared`: the tree behind a lock, for owners that share it.
//! * `registry`, `components`, `panels`: the templates, the flows on the
//!   canvas, and the state of the window around them.

pub mod identity;
pub mod level;
pub mod policy;
pub mod base_configuration;
pub mod model;
pub mod model_proofs;
pub mod tree;
pub mod shared;
pub mod laws;
pub mod registry;
pub mod components;
pub mod panels;
