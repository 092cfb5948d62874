//! Reassigns numbered workspaces across the active monitors of a tiling
//! window manager. The monitors are ordered left-to-right then
//! top-to-bottom and given dense 1-based ranks; every monitor gets the
//! composite workspace `"<major>.<rank>"`; focus is restored to the
//! composite name that matches where the user already was; and for the
//! move action the focused container is located in the layout tree first
//! and relocated to that restore workspace.

pub mod errors;
pub mod naming;
pub mod numerals;
pub mod plan;
pub mod topology;
pub mod tree;
