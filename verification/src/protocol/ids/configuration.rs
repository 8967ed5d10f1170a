//! Resource locations of the configuration-phase packets.
use vstd::prelude::*;

verus! {

/// S → C, id 0: ask for a stored cookie.
pub const COOKIE_REQUEST: &'static str = "minecraft:cookie_request";

/// S → C, id 1: plugin message.
pub const CUSTOM_PAYLOAD_CB: &'static str = "minecraft:custom_payload";

/// S → C, id 2: disconnect during configuration.
pub const DISCONNECT: &'static str = "minecraft:disconnect";

/// S → C, id 3: end of configuration.
pub const FINISH_CONFIGURATION_CB: &'static str = "minecraft:finish_configuration";

/// S → C, id 4: keep-alive ping.
pub const KEEP_ALIVE_CB: &'static str = "minecraft:keep_alive";

/// S → C, id 5: ping.
pub const PING: &'static str = "minecraft:ping";

/// S → C, id 6: reset chat.
pub const RESET_CHAT: &'static str = "minecraft:reset_chat";

/// S → C, id 7: registry contents.
pub const REGISTRY_DATA: &'static str = "minecraft:registry_data";

/// S → C, id 8: pop a resource pack.
pub const RESOURCE_PACK_POP: &'static str = "minecraft:resource_pack_pop";

/// S → C, id 9: push a resource pack.
pub const RESOURCE_PACK_PUSH: &'static str = "minecraft:resource_pack_push";

/// S → C, id 10: store a cookie.
pub const STORE_COOKIE: &'static str = "minecraft:store_cookie";

/// S → C, id 11: transfer to another host.
pub const TRANSFER: &'static str = "minecraft:transfer";

/// S → C, id 12: enabled features.
pub const UPDATE_ENABLED_FEATURES: &'static str = "minecraft:update_enabled_features";

/// S → C, id 13: tag registries.
pub const UPDATE_TAGS: &'static str = "minecraft:update_tags";

/// S → C, id 14: known packs offer.
pub const SELECT_KNOWN_PACKS: &'static str = "minecraft:select_known_packs";

/// S → C, id 15: custom report details.
pub const CUSTOM_REPORT_DETAILS: &'static str = "minecraft:custom_report_details";

/// S → C, id 16: server links.
pub const SERVER_LINKS: &'static str = "minecraft:server_links";

/// S → C, id 17: close the dialog.
pub const CLEAR_DIALOG: &'static str = "minecraft:clear_dialog";

/// S → C, id 18: open a dialog.
pub const SHOW_DIALOG: &'static str = "minecraft:show_dialog";

/// S → C, id 19: code of conduct.
pub const CODE_OF_CONDUCT: &'static str = "minecraft:code_of_conduct";

/// C → S, id 0: client settings.
pub const CLIENT_INFORMATION: &'static str = "minecraft:client_information";

/// C → S, id 1: cookie response.
pub const COOKIE_RESPONSE: &'static str = "minecraft:cookie_response";

/// C → S, id 2: plugin message.
pub const CUSTOM_PAYLOAD_SB: &'static str = "minecraft:custom_payload";

/// C → S, id 3: configuration finished.
pub const FINISH_CONFIGURATION_SB: &'static str = "minecraft:finish_configuration";

/// C → S, id 4: keep-alive echo.
pub const KEEP_ALIVE_SB: &'static str = "minecraft:keep_alive";

/// C → S, id 5: pong.
pub const PONG: &'static str = "minecraft:pong";

/// C → S, id 6: resource pack status.
pub const RESOURCE_PACK: &'static str = "minecraft:resource_pack";

/// C → S, id 7: known packs answer.
pub const SELECT_KNOWN_PACKS_SB: &'static str = "minecraft:select_known_packs";

/// C → S, id 8: custom click action.
pub const CUSTOM_CLICK_ACTION: &'static str = "minecraft:custom_click_action";

/// C → S, id 9: code of conduct accepted.
pub const ACCEPT_CODE_OF_CONDUCT: &'static str = "minecraft:accept_code_of_conduct";

} // verus!
