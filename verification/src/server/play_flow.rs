//! The play phase. On entry the server sends `LoginPlay`, tells the joiner
//! about itself and about every other online player, and announces the
//! joiner to them; then it sends a `KeepAlive` every period and relays
//! broadcasts until the client leaves.
use vstd::prelude::*;
use crate::config::ServerConfig;
use crate::protocol::codec::framed::DecodedPacket;
use crate::protocol::play::{
    KeepAliveAck, LoginPlay, PlayerInfoActions, PlayerInfoEntry, PlayerInfoUpdate,
    overworld_registry, stub_overworld_registry,
};
use crate::protocol::ser::PacketDecode;
use crate::uuid::Uuid;
use super::player_registry::PlayerRecord;

verus! {

proof fn lemma_action_masks()
    by (bit_vector)
    ensures
        0u8 | 1u8 | 4u8 | 8u8 == 13u8,
        0u8 | 1u8 | 4u8 | 8u8 | 16u8 == 29u8,
{
}

/// The dimensions `LoginPlay` lists.
pub open spec fn dimension_names() -> Seq<Seq<char>> {
    seq!["minecraft:overworld"@, "minecraft:the_nether"@, "minecraft:the_end"@]
}

/// The `LoginPlay` the server sends `entity_id` on entering play: survival
/// with no previous gamemode, the three vanilla dimensions, the stub
/// overworld registry, the overworld as the world, and the configured
/// player count and distances.
pub fn build_login_play(config: &ServerConfig, entity_id: i32) -> (p: LoginPlay)
    ensures
        p.entity_id == entity_id,
        p.is_hardcore == config.login.online_mode,
        p.gamemode == 1,
        p.previous_gamemode == -1,
        p.dimension_names@.len() == 3,
        forall|i: int| 0 <= i < 3 ==> (#[trigger] p.dimension_names@[i])@ == dimension_names()[i],
        p.registry_payload.name@ == Seq::<char>::empty(),
        p.registry_payload.root@ == overworld_registry(),
        p.world_name@ == "minecraft:overworld"@,
        p.seed_hash == 0,
        p.max_players == config.server.max_players as i32,
        p.view_distance == config.server.view_distance as i32,
        p.simulation_distance == config.server.simulation_distance as i32,
        !p.reduced_debug_info,
        p.show_death_screen,
        !p.do_limited_crafting,
{
    LoginPlay {
        entity_id,
        is_hardcore: config.login.online_mode,
        gamemode: 1,
        previous_gamemode: -1,
        dimension_names: vec![
            String::from_str("minecraft:overworld"),
            String::from_str("minecraft:the_nether"),
            String::from_str("minecraft:the_end"),
        ],
        registry_payload: stub_overworld_registry(),
        world_name: String::from_str("minecraft:overworld"),
        seed_hash: 0,
        max_players: config.server.max_players as i32,
        view_distance: config.server.view_distance as i32,
        simulation_distance: config.server.simulation_distance as i32,
        reduced_debug_info: false,
        show_death_screen: true,
        do_limited_crafting: false,
    }
}

/// A player-list update adding one player: its name, gamemode and
/// whether it is listed (actions `ADD_PLAYER | UPDATE_GAMEMODE |
/// UPDATE_LISTED`, that is 13).
pub fn build_self_player_info(uuid: Uuid, name: &str, gamemode: i32, listed: bool) -> (p: PlayerInfoUpdate)
    ensures
        p.actions.0 == 13,
        p.entries@.len() == 1,
        p.entries@[0].uuid == uuid,
        p.entries@[0].name matches Some(n) && n@ == name@,
        p.entries@[0].has_chat_session is None,
        p.entries@[0].gamemode == Some(gamemode),
        p.entries@[0].listed == Some(listed),
        p.entries@[0].latency is None,
        p.entries@[0].has_display_name is None,
{
    let actions = PlayerInfoActions::empty().with(PlayerInfoActions::ADD_PLAYER).with(
        PlayerInfoActions::UPDATE_GAMEMODE,
    ).with(PlayerInfoActions::UPDATE_LISTED);
    proof {
        lemma_action_masks();
    }
    PlayerInfoUpdate {
        actions,
        entries: vec![
            PlayerInfoEntry {
                uuid,
                name: Some(name.to_owned()),
                has_chat_session: None,
                gamemode: Some(gamemode),
                listed: Some(listed),
                latency: None,
                has_display_name: None,
            },
        ],
    }
}

/// The row of a player-list update that describes `r` fully.
pub open spec fn snapshot_entry(e: PlayerInfoEntry, r: PlayerRecord) -> bool {
    &&& e.uuid == r.uuid
    &&& e.name matches Some(n) && n@ == r.username@
    &&& e.has_chat_session is None
    &&& e.gamemode == Some(r.gamemode)
    &&& e.listed == Some(r.listed)
    &&& e.latency == Some(r.latency)
    &&& e.has_display_name is None
}

/// One player-list update describing every record, in order, with their
/// names, gamemodes, listing and latency (actions `ADD_PLAYER |
/// UPDATE_GAMEMODE | UPDATE_LISTED | UPDATE_LATENCY`, that is 29); `None` when there
/// are no records.
pub fn build_snapshot_player_info(records: &[PlayerRecord]) -> (p: Option<PlayerInfoUpdate>)
    ensures
        records@.len() == 0 <==> p is None,
        p matches Some(u) ==> u.actions.0 == 29 && u.entries@.len() == records@.len()
            && forall|i: int|
            0 <= i < records@.len() ==> snapshot_entry(#[trigger] u.entries@[i], records@[i]),
{
    if records.len() == 0 {
        return None;
    }
    let mut entries: Vec<PlayerInfoEntry> = Vec::new();
    let mut i: usize = 0;
    while i < records.len()
        invariant
            i <= records@.len(),
            entries@.len() == i,
            forall|j: int| 0 <= j < i ==> snapshot_entry(#[trigger] entries@[j], records@[j]),
        decreases records@.len() - i,
    {
        let r = &records[i];
        entries.push(
            PlayerInfoEntry {
                uuid: r.uuid,
                name: Some(r.username.clone()),
                has_chat_session: None,
                gamemode: Some(r.gamemode),
                listed: Some(r.listed),
                latency: Some(r.latency),
                has_display_name: None,
            },
        );
        i = i + 1;
    }
    let actions = PlayerInfoActions::empty().with(PlayerInfoActions::ADD_PLAYER).with(
        PlayerInfoActions::UPDATE_GAMEMODE,
    ).with(PlayerInfoActions::UPDATE_LISTED).with(PlayerInfoActions::UPDATE_LATENCY);
    proof {
        lemma_action_masks();
    }
    Some(PlayerInfoUpdate { actions, entries })
}

/// The payload of a `KeepAliveAck` (0x1B in play), when `packet` is one and
/// its body reads; the play loop only notes it.
pub fn keep_alive_ack_payload(packet: &DecodedPacket) -> (r: Option<i64>)
    ensures
        packet.id != 27 ==> r is None,
        packet.id == 27 ==> match KeepAliveAck::parse(packet.payload@) {
            Ok((ack, _)) => r == Some(ack.payload),
            Err(_) => r is None,
        },
{
    if packet.id != 27 {
        return None;
    }
    let mut reader = crate::buffer::ByteReader::from_slice(packet.payload.as_slice());
    match KeepAliveAck::decode(&mut reader) {
        Ok(ack) => Some(ack.payload),
        Err(_) => None,
    }
}

} // verus!
