//! Bulk, collision-safe substitution of a string across the names and the
//! textual contents of a directory tree: the decisions of the rename engine,
//! stated over plain values and proved.

pub mod binary_detector;
pub mod cli;
pub mod collision_detector;
pub mod fields;
pub mod model;
pub mod pattern;
pub mod phase;
pub mod rename_engine;
pub mod rename_order;
pub mod scrap;
pub mod text;
pub mod verbump;
pub mod views;
