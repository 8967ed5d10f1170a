//! Anvil region (`.mca`) files. Each covers 32×32 chunks behind a
//! 4096-byte header of packed (offset, sector count) entries and a
//! timestamp table.
use vstd::prelude::*;

verus! {

/// An open region file.
#[derive(Debug)]
pub struct RegionFile;

impl RegionFile {
    /// Opens the region file at `path`. Nothing is read yet, so this
    /// always succeeds.
    pub fn open(path: &str) -> (r: std::io::Result<Self>)
        ensures
            r is Ok,
    {
        Ok(RegionFile)
    }
}

} // verus!
