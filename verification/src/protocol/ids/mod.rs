//! Packet ids by resource location, resolved through the packet report.
use vstd::prelude::*;
use crate::data::packets::{clientbound_id, clientbound_spec, packets, serverbound_id, serverbound_spec};

pub mod configuration;
pub mod handshake;
pub mod login;
pub mod play;
pub mod status;

verus! {

/// The clientbound id of `packet` in `phase`; the report must list it.
pub fn clientbound(phase: &str, packet: &str) -> (id: i32)
    requires
        clientbound_spec(phase@, packet@) is Some,
    ensures
        clientbound_spec(phase@, packet@) == Some(id),
{
    match clientbound_id(&packets(), phase, packet) {
        Some(id) => id,
        None => 0,
    }
}

/// The serverbound id of `packet` in `phase`; the report must list it.
pub fn serverbound(phase: &str, packet: &str) -> (id: i32)
    requires
        serverbound_spec(phase@, packet@) is Some,
    ensures
        serverbound_spec(phase@, packet@) == Some(id),
{
    match serverbound_id(&packets(), phase, packet) {
        Some(id) => id,
        None => 0,
    }
}

} // verus!
