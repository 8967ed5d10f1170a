use pigeon::server::configuration_flow::registry_data_empty;
use pigeon::server::connection::{motd, server_ping_response};
use pigeon::server::configuration_flow::{
    brand, configuration_packets, enabled_features, is_finish_configuration_ack,
    is_select_known_packs_ack, select_known_packs, vanilla_wire_registries,
};
use pigeon::server::connection::{dispatch, Dispatch};
use pigeon::buffer::ByteWriter;
use pigeon::codecs::write_var_int;
use pigeon::config::ServerConfig;
use pigeon::protocol::codec::framed::DecodedPacket;
use pigeon::protocol::ser::write_string;
use pigeon::protocol::state::ProtocolState;
use pigeon::protocol::status::StatusResponse;
use pigeon::server::connection::{
    handle_handshake, is_login_acknowledged, login_start, route_status, ConnectionError, LoginStep,
};
use pigeon::server::play_flow::{
    build_login_play, build_self_player_info, build_snapshot_player_info, keep_alive_ack_payload,
};
use pigeon::server::player_registry::{PlayerRecord, PlayerRegistry, DEFAULT_GAMEMODE};
use pigeon::uuid::Uuid;

fn uuid(n: u128) -> Uuid {
    Uuid::from_u128(n)
}

fn join(reg: &mut PlayerRegistry, id: Uuid, name: &str, entity_id: i32) -> PlayerRecord {
    let record = PlayerRecord::new(id, name.to_string(), entity_id);
    reg.insert(record.clone());
    record
}

fn packet(id: i32, payload: Vec<u8>) -> DecodedPacket {
    DecodedPacket { id, payload }
}

fn var_int(v: i32, wire: &mut Vec<u8>) {
    let mut w = ByteWriter::new();
    write_var_int(v, &mut w).unwrap();
    wire.extend_from_slice(w.as_slice());
}

fn string(s: &str, wire: &mut Vec<u8>) {
    let mut w = ByteWriter::new();
    write_string(s, &mut w, 32767).unwrap();
    wire.extend_from_slice(w.as_slice());
}

fn handshake_body(next: i32) -> Vec<u8> {
    let mut body = Vec::new();
    var_int(767, &mut body);
    string("localhost", &mut body);
    body.extend_from_slice(&25565u16.to_be_bytes());
    var_int(next, &mut body);
    body
}

#[test]
fn admit_depart_roundtrip() {
    let mut reg = PlayerRegistry::new();
    assert_eq!(reg.len(), 0);

    let r = join(&mut reg, uuid(1), "alice", 1);
    assert_eq!(r.gamemode, DEFAULT_GAMEMODE);
    assert!(r.listed);
    assert_eq!(reg.len(), 1);

    let _ = join(&mut reg, uuid(2), "bob", 2);
    assert_eq!(reg.len(), 2);

    let removed = reg.remove(&uuid(1));
    assert!(removed.is_some());
    assert_eq!(removed.unwrap().username, "alice");
    assert_eq!(reg.len(), 1);
}

#[test]
fn snapshot_for_status_ping() {
    let mut reg = PlayerRegistry::new();
    for i in 0..5 {
        join(&mut reg, uuid(i as u128), &format!("p{}", i), i);
    }
    assert_eq!(reg.len(), 5);
}

#[test]
fn update_latency_returns_previous() {
    let mut reg = PlayerRegistry::new();
    join(&mut reg, uuid(42), "carol", 7);
    let prev = reg.update_latency(&uuid(42), 100);
    assert_eq!(prev, Some(0));
    let prev = reg.update_latency(&uuid(42), 250);
    assert_eq!(prev, Some(100));
}

#[test]
fn update_latency_of_absent_player_changes_nothing() {
    let mut reg = PlayerRegistry::new();
    join(&mut reg, uuid(1), "alice", 1);
    assert_eq!(reg.update_latency(&uuid(2), 30), None);
    assert_eq!(reg.get(&uuid(1)).unwrap().latency, 0);
    assert!(reg.get(&uuid(2)).is_none());
}

#[test]
fn insert_replaces_and_returns_previous_record() {
    let mut reg = PlayerRegistry::new();
    join(&mut reg, uuid(9), "old", 1);
    let prev = reg.insert(PlayerRecord::new(uuid(9), "new".to_string(), 2));
    assert_eq!(prev.unwrap().username, "old");
    assert_eq!(reg.len(), 1);
    assert_eq!(reg.get(&uuid(9)).unwrap().username, "new");
    assert!(reg.remove(&uuid(9)).is_some());
    assert!(reg.is_empty());
    assert!(reg.remove(&uuid(9)).is_none());
}

#[test]
fn others_leaves_out_the_skipped_player() {
    let mut reg = PlayerRegistry::new();
    for i in 1..=3 {
        join(&mut reg, uuid(i), &format!("p{}", i), i as i32);
    }
    let mut names: Vec<String> = reg.others(&uuid(2)).into_iter().map(|r| r.username).collect();
    names.sort();
    assert_eq!(names, vec!["p1".to_string(), "p3".to_string()]);
    assert_eq!(reg.iter().len(), 3);
}

#[test]
fn handshake_leads_to_requested_state() {
    assert_eq!(handle_handshake(&packet(0, handshake_body(1))).unwrap(), ProtocolState::Status);
    assert_eq!(handle_handshake(&packet(0, handshake_body(2))).unwrap(), ProtocolState::Login);
}

#[test]
fn handshake_rejects_other_packets() {
    match handle_handshake(&packet(5, Vec::new())) {
        Err(ConnectionError::UnexpectedPacket { expected, got }) => {
            assert_eq!(expected, 0);
            assert_eq!(got, 5);
        }
        other => panic!("unexpected {:?}", other),
    }
    assert!(matches!(
        handle_handshake(&packet(0, handshake_body(7))),
        Err(ConnectionError::Decode(_))
    ));
}

#[test]
fn status_request_is_answered_with_response_json() {
    let response = StatusResponse { json_response: "{}".to_string() };
    let out = route_status(&packet(0, Vec::new()), &response).unwrap().unwrap();
    assert_eq!(out.id, 0);
    assert_eq!(out.payload, vec![2, b'{', b'}']);
}

#[test]
fn ping_is_answered_with_pong_echo() {
    let response = StatusResponse { json_response: String::new() };
    let ping = 0x0102030405060708u64.to_be_bytes().to_vec();
    let out = route_status(&packet(1, ping.clone()), &response).unwrap().unwrap();
    assert_eq!(out.id, 1);
    assert_eq!(out.payload, ping);
    assert!(route_status(&packet(9, Vec::new()), &response).unwrap().is_none());
    assert!(matches!(
        route_status(&packet(1, vec![1, 2]), &response),
        Err(ConnectionError::Decode(_))
    ));
}

fn login_start_body(name: &str, id: u128) -> Vec<u8> {
    let mut body = Vec::new();
    string(name, &mut body);
    body.extend_from_slice(&id.to_be_bytes());
    body
}

#[test]
fn login_start_offline_sends_compression_then_success() {
    let step = login_start(&packet(0, login_start_body("alice", 7)), false, 256).unwrap();
    match step {
        LoginStep::Proceed { set_compression, threshold, success, username, uuid: u } => {
            let sc = set_compression.unwrap();
            assert_eq!(sc.id, 3);
            assert_eq!(sc.payload, vec![0x80, 0x02]);
            assert_eq!(threshold, 256);
            assert_eq!(success.id, 2);
            let mut expected = 7u128.to_be_bytes().to_vec();
            string("alice", &mut expected);
            expected.push(0);
            assert_eq!(success.payload, expected);
            assert_eq!(username, "alice");
            assert_eq!(u.as_u128(), 7);
        }
        LoginStep::Disconnect(r) => panic!("disconnected: {}", r),
    }
}

#[test]
fn login_start_without_compression_sends_no_set_compression() {
    let step = login_start(&packet(0, login_start_body("bob", 1)), false, -1).unwrap();
    match step {
        LoginStep::Proceed { set_compression, threshold, .. } => {
            assert!(set_compression.is_none());
            assert_eq!(threshold, -1);
        }
        LoginStep::Disconnect(r) => panic!("disconnected: {}", r),
    }
}

#[test]
fn login_start_disconnects_online_mode_and_wrong_packets() {
    match login_start(&packet(0, login_start_body("carol", 2)), true, 256).unwrap() {
        LoginStep::Disconnect(reason) => assert_eq!(
            reason,
            "PigeonMC online-mode is not yet implemented. Set online_mode=false in your config."
        ),
        _ => panic!("expected a disconnect"),
    }
    match login_start(&packet(4, Vec::new()), false, 256).unwrap() {
        LoginStep::Disconnect(reason) => assert_eq!(reason, "Expected LoginStart."),
        _ => panic!("expected a disconnect"),
    }
    assert!(is_login_acknowledged(&packet(3, Vec::new())));
    assert!(!is_login_acknowledged(&packet(2, Vec::new())));
}

#[test]
fn login_play_follows_config() {
    let config = ServerConfig::default_config();
    let p = build_login_play(&config, 12);
    assert_eq!(p.entity_id, 12);
    assert_eq!(p.gamemode, 1);
    assert_eq!(p.previous_gamemode, -1);
    assert_eq!(p.max_players, 20);
    assert_eq!(p.view_distance, 10);
    assert_eq!(p.world_name, "minecraft:overworld");
    assert_eq!(p.dimension_names.len(), 3);
}

#[test]
fn player_info_builders_set_action_masks() {
    let me = build_self_player_info(uuid(5), "dave", 1, true);
    assert_eq!(me.actions.0, 13);
    assert_eq!(me.entries.len(), 1);
    assert_eq!(me.entries[0].name.as_deref(), Some("dave"));

    assert!(build_snapshot_player_info(&[]).is_none());
    let mut r = PlayerRecord::new(uuid(6), "erin".to_string(), 3);
    r.latency = 42;
    let snap = build_snapshot_player_info(&[r]).unwrap();
    assert_eq!(snap.actions.0, 29);
    assert_eq!(snap.entries[0].latency, Some(42));
}

#[test]
fn keep_alive_ack_payload_reads_only_acks() {
    let body = 0x1122334455667788i64.to_be_bytes().to_vec();
    assert_eq!(keep_alive_ack_payload(&packet(27, body.clone())), Some(0x1122334455667788));
    assert_eq!(keep_alive_ack_payload(&packet(26, body)), None);
    assert_eq!(keep_alive_ack_payload(&packet(27, vec![1])), None);
}

#[test]
fn dispatch_follows_the_state() {
    let response = StatusResponse { json_response: "{}".to_string() };
    match dispatch(ProtocolState::Handshake, &packet(0, handshake_body(2)), &response).unwrap() {
        Dispatch::Enter(s) => assert_eq!(s, ProtocolState::Login),
        other => panic!("unexpected {:?}", other),
    }
    match dispatch(ProtocolState::Status, &packet(0, Vec::new()), &response).unwrap() {
        Dispatch::Reply(Some(p)) => assert_eq!(p.id, 0),
        other => panic!("unexpected {:?}", other),
    }
    assert!(matches!(
        dispatch(ProtocolState::Status, &packet(8, Vec::new()), &response),
        Ok(Dispatch::Reply(None))
    ));
    assert!(matches!(dispatch(ProtocolState::Login, &packet(0, Vec::new()), &response), Ok(Dispatch::Login)));
    assert!(matches!(dispatch(ProtocolState::Play, &packet(0, Vec::new()), &response), Ok(Dispatch::Close)));
    assert!(matches!(
        dispatch(ProtocolState::Handshake, &packet(1, Vec::new()), &response),
        Err(ConnectionError::UnexpectedPacket { expected: 0, got: 1 })
    ));
}

#[test]
fn configuration_sends_registries_then_features_tags_brand_finish() {
    let names = vanilla_wire_registries();
    assert_eq!(names.len(), 33);
    assert_eq!(names[0], "minecraft:cat_variant");
    let packets = configuration_packets().unwrap();
    assert_eq!(packets.len(), names.len() + 4);
    // RegistryData: VarStr(id) then a zero entry count.
    let first = &packets[0];
    assert_eq!(first.id, 7);
    let mut expected = Vec::new();
    string("minecraft:cat_variant", &mut expected);
    expected.push(0);
    assert_eq!(first.payload, expected);
    let n = names.len();
    assert_eq!(packets[n].id, 0x0C);
    assert_eq!(packets[n + 1].id, 0x0D);
    assert_eq!(packets[n + 1].payload, vec![0]);
    assert_eq!(packets[n + 2].id, 0x01);
    assert!(packets[n + 2].payload.ends_with(b"PigeonMC\0"));
    assert_eq!(packets[n + 3].id, 0x03);
    assert!(packets[n + 3].payload.is_empty());

    let packs = select_known_packs();
    assert_eq!(packs.packs.len(), 1);
    assert_eq!(packs.packs[0].id, "core");
    assert_eq!(packs.packs[0].version, "1.21.11");
    assert_eq!(enabled_features().features, vec!["minecraft:vanilla".to_string()]);
    assert_eq!(brand().channel, "minecraft:brand");
    assert!(is_select_known_packs_ack(&packet(7, Vec::new())));
    assert!(!is_select_known_packs_ack(&packet(3, Vec::new())));
    assert!(is_finish_configuration_ack(&packet(3, Vec::new())));
}

#[test]
fn status_answer_follows_config() {
    let config = ServerConfig::default_config();
    assert_eq!(motd(&config), "A Pigeon Server\nPowered by PigeonMC");
    let r = server_ping_response(&config, 3, "{\"text\":\"x\"}".to_string());
    assert_eq!(r.version.name, "1.21.11");
    assert_eq!(r.version.protocol, 0);
    assert_eq!(r.players.max, 20);
    assert_eq!(r.players.online, 3);
    assert!(r.players.sample.is_empty());
    assert_eq!(r.description, "{\"text\":\"x\"}");
    assert!(r.favicon.is_none());
    assert_eq!(r.enforce_secure_chat, Some(false));
}

#[test]
fn empty_registry_data_needs_an_identifier() {
    assert!(matches!(
        registry_data_empty("Not An Identifier"),
        Err(ConnectionError::InvalidIdentifier(_))
    ));
    let ok = registry_data_empty("minecraft:chat_type").unwrap();
    let mut expected = Vec::new();
    string("minecraft:chat_type", &mut expected);
    expected.push(0);
    assert_eq!(ok.body, expected);
}
