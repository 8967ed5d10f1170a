//! World storage: chunk sections and Anvil region files.
pub mod anvil;
pub mod chunk;
