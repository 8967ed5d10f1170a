//! The block report: each block's properties and its states with their
//! wire ids.
use vstd::prelude::*;
use super::table::{first_index, index_of_key, keys_of, lemma_first_index};

verus! {

/// One block.
#[derive(Debug, Clone)]
pub struct Block {
    /// The generator's definition of the block, as JSON text.
    pub definition: String,
    /// Every value each state property can take.
    pub properties: Vec<(String, Vec<String>)>,
    /// The block's states, each with its wire id.
    pub states: Vec<BlockState>,
}

/// One block state.
#[derive(Debug, Clone)]
pub struct BlockState {
    /// Wire id of the state.
    pub id: i32,
    /// Whether this is the block's default state.
    pub default: bool,
    /// The value of each property in this state.
    pub properties: Vec<(String, String)>,
}

/// Every block, by resource location, in the report's order.
#[derive(Debug, Clone)]
pub struct BlockReport {
    pub blocks: Vec<(String, Block)>,
}

/// The block with resource location `resource_location`.
pub fn get<'a>(report: &'a BlockReport, resource_location: &str) -> (r: Option<&'a Block>)
    ensures
        r == (match first_index(keys_of(report.blocks@), resource_location@) {
            Some(i) => Some(&report.blocks@[i].1),
            None => None,
        }),
{
    match index_of_key(&report.blocks, resource_location) {
        Some(i) => {
            proof {
                lemma_first_index(keys_of(report.blocks@), resource_location@);
            }
            Some(&report.blocks[i].1)
        },
        None => None,
    }
}

/// The number of blocks in the report.
pub fn count(report: &BlockReport) -> (n: usize)
    ensures
        n == report.blocks@.len(),
{
    report.blocks.len()
}

} // verus!
