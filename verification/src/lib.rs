//! Finds dropped items in the entity archives of a game world.
//!
//! An archive is a grid of compressed chunk payloads. Each payload decodes to
//! a tagged tree, the tree is read as a list of entities, and the entities
//! that are item drops become [`DroppedItem`] records.

pub mod archive;
pub mod decode;
pub mod diagnostics;
pub mod extract;
pub mod filter;
pub mod scan;
pub mod schema;
pub mod tree;

pub use crate::extract::DroppedItem;
pub use crate::scan::{find_dropped_items_in_entity_file, FileScan};
