//! Resource locations of the login-phase packets.
use vstd::prelude::*;

verus! {

/// C → S, id 0: login start (name and UUID).
pub const HELLO: &'static str = "minecraft:hello";

/// S → C, id 0: disconnect during login.
pub const LOGIN_DISCONNECT: &'static str = "minecraft:login_disconnect";

/// S → C, id 1: encryption request.
pub const HELLO_CB: &'static str = "minecraft:hello";

/// C → S, id 1: encryption response.
pub const KEY: &'static str = "minecraft:key";

/// S → C, id 2: login success.
pub const LOGIN_FINISHED: &'static str = "minecraft:login_finished";

/// S → C, id 3: set compression.
pub const LOGIN_COMPRESSION: &'static str = "minecraft:login_compression";

/// C → S, id 2: login plugin response.
pub const CUSTOM_QUERY_ANSWER: &'static str = "minecraft:custom_query_answer";

/// S → C, id 4: login plugin request.
pub const CUSTOM_QUERY: &'static str = "minecraft:custom_query";

/// C → S, id 3: login acknowledged.
pub const LOGIN_ACKNOWLEDGED: &'static str = "minecraft:login_acknowledged";

/// S → C, id 5: cookie request.
pub const COOKIE_REQUEST: &'static str = "minecraft:cookie_request";

/// C → S, id 4: cookie response.
pub const COOKIE_RESPONSE: &'static str = "minecraft:cookie_response";

} // verus!
