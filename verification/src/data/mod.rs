//! Vanilla data tables: protocol ids by phase and direction, and the
//! registry, block and item reports of the data generator.
use vstd::prelude::*;

pub mod blocks;
pub mod entities;
pub mod items;
pub mod packets;
pub mod registries;
pub mod table;

verus! {

/// The game version these tables describe.
pub const MINECRAFT_VERSION: &'static str = "1.21.11";

/// The data version of that game version.
pub const DATA_VERSION: i32 = 4440;

} // verus!
