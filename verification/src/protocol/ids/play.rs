//! Resource locations of the play-phase packets this server speaks.
use vstd::prelude::*;

verus! {

/// S → C, id 48: join game.
pub const LOGIN: &'static str = "minecraft:login";

/// S → C, id 43: keep-alive ping.
pub const KEEP_ALIVE: &'static str = "minecraft:keep_alive";

/// S → C, id 32: disconnect during play.
pub const DISCONNECT: &'static str = "minecraft:disconnect";

/// S → C, id 67: remove players from the list.
pub const PLAYER_INFO_REMOVE: &'static str = "minecraft:player_info_remove";

/// S → C, id 68: update the player list.
pub const PLAYER_INFO_UPDATE: &'static str = "minecraft:player_info_update";

/// C → S, id 27: keep-alive echo.
pub const KEEP_ALIVE_SB: &'static str = "minecraft:keep_alive";

/// C → S, id 29: position.
pub const MOVE_PLAYER_POS: &'static str = "minecraft:move_player_pos";

/// C → S, id 30: position and rotation.
pub const MOVE_PLAYER_POS_ROT: &'static str = "minecraft:move_player_pos_rot";

/// C → S, id 31: rotation.
pub const MOVE_PLAYER_ROT: &'static str = "minecraft:move_player_rot";

/// C → S, id 32: on-ground flag only.
pub const MOVE_PLAYER_STATUS_ONLY: &'static str = "minecraft:move_player_status_only";

} // verus!
