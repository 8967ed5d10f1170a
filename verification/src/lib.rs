//! Pigeon: the wire formats, codecs and protocol rules of a Minecraft Java
//! Edition server, with their contracts proved.
use vstd::prelude::*;

pub mod buffer;
pub mod codecs;
pub mod config;
pub mod server;
pub mod data;
pub mod identifier;
pub mod inventory;
pub mod math;
pub mod nbt;
pub mod plugin;
pub mod protocol;
pub mod registry;
pub mod strings;
pub mod text;
pub mod uuid;
pub mod world;

verus! {

} // verus!
