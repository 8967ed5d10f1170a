//! Resource locations of the status-phase packets.
use vstd::prelude::*;

verus! {

/// C → S, id 0: the empty status request.
pub const STATUS_REQUEST: &'static str = "minecraft:status_request";

/// S → C, id 0: the JSON server-list answer.
pub const STATUS_RESPONSE: &'static str = "minecraft:status_response";

/// C → S, id 1: a ping with an arbitrary payload.
pub const PING_REQUEST: &'static str = "minecraft:ping_request";

/// S → C, id 1: the pong echoing that payload.
pub const PONG_RESPONSE: &'static str = "minecraft:pong_response";

} // verus!
