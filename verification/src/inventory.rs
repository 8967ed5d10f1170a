//! Inventory contents.
use vstd::prelude::*;

verus! {

/// A stack of one item kind.
#[derive(Debug, Clone, Copy, PartialEq, Eq, Structural)]
pub struct ItemStack {
    pub item_id: u32,
    pub count: u8,
}

} // verus!
