//! Resource location of the handshake packet.
use vstd::prelude::*;

verus! {

/// C → S, id 0: the intention, which picks the next state.
pub const INTENTION: &'static str = "minecraft:intention";

} // verus!
