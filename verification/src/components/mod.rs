//! The components that sit on the canvas and in the palette.

pub mod draggable_item;
pub mod main_flow;
