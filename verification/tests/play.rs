use pigeon::protocol::movement::{MovePlayerPos, MovePlayerPosRot, MovePlayerRot, MovePlayerStatusOnly};
use pigeon::buffer::{ByteReader, ByteWriter};
use pigeon::protocol::play::{
    disconnect_id, keep_alive_ack_id, keep_alive_id, login_id, player_info_remove_id,
    player_info_update_id, stub_overworld_registry, Disconnect, KeepAlive, KeepAliveAck, LoginPlay,
    PlayerInfoActions, PlayerInfoEntry, PlayerInfoRemove, PlayerInfoUpdate,
};
use pigeon::protocol::ser::{PacketDecode, PacketEncode, PacketSerError};
use pigeon::uuid::Uuid;

#[test]
fn known_wire_ids() {
    assert_eq!(login_id(), 0x30);
    assert_eq!(keep_alive_id(), 0x2B);
    assert_eq!(disconnect_id(), 0x20);
    assert_eq!(keep_alive_ack_id(), 0x1B);
    assert_eq!(<LoginPlay as PacketEncode>::ID, keep_alive_id() + 5);
    assert_eq!(<KeepAlive as PacketEncode>::ID, keep_alive_id());
    assert_eq!(<KeepAliveAck as PacketDecode>::ID, keep_alive_ack_id());
    assert_eq!(<Disconnect as PacketEncode>::ID, disconnect_id());
    assert_eq!(<PlayerInfoUpdate as PacketEncode>::ID, player_info_update_id());
    assert_eq!(<PlayerInfoRemove as PacketEncode>::ID, player_info_remove_id());
}

#[test]
fn keep_alive_roundtrip() {
    let pkt = KeepAlive { payload: 0x0123_4567_89AB_CDEF };
    let mut buf = ByteWriter::new();
    pkt.encode(&mut buf).unwrap();
    let decoded = KeepAlive::decode(&mut ByteReader::new(buf.into_vec())).unwrap();
    assert_eq!(pkt, decoded);
}

#[test]
fn keep_alive_ack_roundtrip() {
    let pkt = KeepAliveAck { payload: -1 };
    let mut buf = ByteWriter::new();
    pkt.encode(&mut buf).unwrap();
    let decoded = KeepAliveAck::decode(&mut ByteReader::new(buf.into_vec())).unwrap();
    assert_eq!(pkt, decoded);
}

#[test]
fn disconnect_encode_matches_shape() {
    let pkt = Disconnect { reason_json: r#"{"text":"bye"}"#.to_string() };
    let mut buf = ByteWriter::new();
    pkt.encode(&mut buf).unwrap();
    let bytes = buf.into_vec();
    assert_eq!(bytes[0], 14);
    assert_eq!(&bytes[1..], b"{\"text\":\"bye\"}");
}

#[test]
fn login_play_encodes_overworld_payload() {
    let registry = stub_overworld_registry();
    let pkt = LoginPlay {
        entity_id: 42,
        is_hardcore: false,
        gamemode: 1,
        previous_gamemode: -1,
        dimension_names: vec![
            "minecraft:overworld".to_string(),
            "minecraft:the_nether".to_string(),
            "minecraft:the_end".to_string(),
        ],
        registry_payload: registry,
        world_name: "minecraft:overworld".to_string(),
        seed_hash: 0,
        max_players: 20,
        view_distance: 10,
        simulation_distance: 10,
        reduced_debug_info: false,
        show_death_screen: true,
        do_limited_crafting: false,
    };
    let mut buf = ByteWriter::new();
    let result = pkt.encode(&mut buf);
    assert!(result.is_ok(), "encode failed: {:?}", result);
    assert!(buf.len() > 20);
}

#[test]
fn player_info_update_encodes_add_listed() {
    let uuid = Uuid::from_u128(0x0123_4567_89ab_cdef_0123_4567_89ab_cdef);
    let pkt = PlayerInfoUpdate {
        actions: PlayerInfoActions::empty()
            .with(PlayerInfoActions::ADD_PLAYER)
            .with(PlayerInfoActions::UPDATE_GAMEMODE)
            .with(PlayerInfoActions::UPDATE_LISTED),
        entries: vec![PlayerInfoEntry {
            uuid,
            name: Some("PigeonTest".to_string()),
            has_chat_session: None,
            gamemode: Some(1),
            listed: Some(true),
            latency: None,
            has_display_name: None,
        }],
    };
    let mut buf = ByteWriter::new();
    let result = pkt.encode(&mut buf);
    assert!(result.is_ok(), "encode failed: {:?}", result);
    let bytes = buf.into_vec();
    assert!(bytes.len() >= 30, "buf too short: {}", bytes.len());
    assert_eq!(bytes[0], 13);
}

#[test]
fn player_info_remove_encodes_uuids() {
    let pkt = PlayerInfoRemove {
        uuids: vec![
            Uuid::from_u128(0x0123_4567_89ab_cdef_0123_4567_89ab_cdef),
            Uuid::from_u128(0x1111_1111_2222_3333_4444_5555_6666_7777),
        ],
    };
    let mut buf = ByteWriter::new();
    let result = pkt.encode(&mut buf);
    assert!(result.is_ok(), "encode failed: {:?}", result);
    let bytes = buf.into_vec();
    assert_eq!(bytes[0], 2);
    assert_eq!(bytes.len(), 33);
}

#[test]
fn player_info_update_stops_when_full() {
    let pkt = PlayerInfoRemove { uuids: vec![Uuid::from_u128(7)] };
    let mut buf = ByteWriter::with_limit(5);
    assert!(pkt.encode(&mut buf).is_err());
}

#[test]
fn move_player_pos_decode_roundtrip() {
    let mut raw = Vec::with_capacity(25);
    raw.extend_from_slice(&1.5f64.to_be_bytes());
    raw.extend_from_slice(&2.5f64.to_be_bytes());
    raw.extend_from_slice(&3.5f64.to_be_bytes());
    raw.push(1);
    let mut cursor = ByteReader::from_slice(&raw);
    let pkt = MovePlayerPos::decode(&mut cursor).unwrap();
    assert!(pkt.0.on_ground);
    assert!((f64::from_bits(pkt.0.x) - 1.5).abs() < 1e-9);
    assert!((f64::from_bits(pkt.0.y) - 2.5).abs() < 1e-9);
    assert!((f64::from_bits(pkt.0.z) - 3.5).abs() < 1e-9);
}

#[test]
fn move_player_pos_rot_decode_roundtrip() {
    let mut raw = Vec::with_capacity(33);
    raw.extend_from_slice(&10.0f64.to_be_bytes());
    raw.extend_from_slice(&20.0f64.to_be_bytes());
    raw.extend_from_slice(&30.0f64.to_be_bytes());
    raw.extend_from_slice(&45.0f32.to_be_bytes());
    raw.extend_from_slice(&(-30.0f32).to_be_bytes());
    raw.push(0);
    let mut cursor = ByteReader::from_slice(&raw);
    let pkt = MovePlayerPosRot::decode(&mut cursor).unwrap();
    assert!(!pkt.0.on_ground);
    assert!((f32::from_bits(pkt.0.yaw) - 45.0).abs() < 1e-5);
    assert!((f32::from_bits(pkt.0.pitch) + 30.0).abs() < 1e-5);
}

#[test]
fn move_player_status_only_decode() {
    let raw = vec![1u8];
    let mut cursor = ByteReader::from_slice(&raw);
    let pkt = MovePlayerStatusOnly::decode(&mut cursor).unwrap();
    assert!(pkt.0.on_ground);
}

#[test]
fn move_player_rot_leaves_position_zero() {
    let mut raw = Vec::new();
    raw.extend_from_slice(&90.0f32.to_be_bytes());
    raw.extend_from_slice(&10.0f32.to_be_bytes());
    raw.push(1);
    raw.push(0xEE);
    let mut cursor = ByteReader::from_slice(&raw);
    let pkt = MovePlayerRot::decode(&mut cursor).unwrap();
    assert_eq!(f32::from_bits(pkt.0.yaw), 90.0);
    assert_eq!(f32::from_bits(pkt.0.pitch), 10.0);
    assert_eq!((pkt.0.x, pkt.0.y, pkt.0.z), (0, 0, 0));
    assert!(pkt.0.on_ground);
    assert_eq!(cursor.remaining(), 1);
}

#[test]
fn move_player_short_bodies_underflow() {
    let raw = vec![0u8; 24];
    assert!(matches!(MovePlayerPos::decode(&mut ByteReader::from_slice(&raw)), Err(PacketSerError::Underflow)));
    assert!(matches!(MovePlayerPosRot::decode(&mut ByteReader::from_slice(&raw)), Err(PacketSerError::Underflow)));
    assert!(matches!(MovePlayerRot::decode(&mut ByteReader::from_slice(&raw[..8])), Err(PacketSerError::Underflow)));
    assert!(matches!(MovePlayerStatusOnly::decode(&mut ByteReader::from_slice(&[])), Err(PacketSerError::Underflow)));
}
