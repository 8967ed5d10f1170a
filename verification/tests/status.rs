use pigeon::buffer::{ByteReader, ByteWriter};
use pigeon::codecs::write_var_int;
use pigeon::data::packets::{clientbound_id, count, packets, phase, serverbound_id, PacketEntry, PacketReport, Phase};
use pigeon::protocol::ids;
use pigeon::protocol::ser::{read_string, write_string, PacketDecode, PacketEncode, PacketSerError};
use pigeon::protocol::status::{
    HandshakeInt, NextState, PingRequest, PongResponse, StatusRequest, StatusResponse,
};

fn decode_from_bytes<T: PacketDecode>(bytes: &[u8]) -> Result<T, PacketSerError> {
    let mut buf = ByteReader::from_slice(bytes);
    T::decode(&mut buf)
}

fn var_int(v: i32, wire: &mut Vec<u8>) {
    let mut w = ByteWriter::new();
    write_var_int(v, &mut w).unwrap();
    wire.extend_from_slice(w.as_slice());
}

fn string(s: &str, wire: &mut Vec<u8>) {
    let mut w = ByteWriter::new();
    write_string(s, &mut w, 255).unwrap();
    wire.extend_from_slice(w.as_slice());
}

#[test]
fn handshake_decodes_status_intention() {
    let mut wire = Vec::new();
    var_int(765, &mut wire);
    string("127.0.0.1", &mut wire);
    wire.push(0x63);
    wire.push(0xDD);
    var_int(1, &mut wire);
    let decoded = decode_from_bytes::<HandshakeInt>(&wire).expect("decode must succeed");
    assert_eq!(decoded.protocol_version, 765);
    assert_eq!(decoded.server_address, "127.0.0.1");
    assert_eq!(decoded.server_port, 25565);
    assert_eq!(decoded.next_state, NextState::Status);
}

#[test]
fn handshake_decodes_login_intention() {
    let mut wire = Vec::new();
    var_int(-3, &mut wire);
    string("localhost", &mut wire);
    wire.push(0x63);
    wire.push(0xDD);
    var_int(2, &mut wire);
    let decoded = decode_from_bytes::<HandshakeInt>(&wire).expect("decode must succeed");
    assert_eq!(decoded.protocol_version, -3);
    assert_eq!(decoded.server_address, "localhost");
    assert_eq!(decoded.next_state, NextState::Login);
}

#[test]
fn handshake_rejects_unknown_next_state() {
    let mut wire = Vec::new();
    var_int(1, &mut wire);
    string("h", &mut wire);
    wire.push(0);
    wire.push(0);
    var_int(99, &mut wire);
    let err = decode_from_bytes::<HandshakeInt>(&wire).expect_err("must reject invalid next_state");
    assert!(matches!(err, PacketSerError::InvalidValue), "got {err:?}");
}

#[test]
fn status_request_decodes_empty_body() {
    let decoded = decode_from_bytes::<StatusRequest>(&[]).expect("decode must succeed");
    let _ = decoded;
}

#[test]
fn status_response_encodes_json_payload() {
    let original = StatusResponse {
        json_response: "{\"version\":{\"name\":\"1.21.11\",\"protocol\":765}}".to_string(),
    };
    let mut buf = ByteWriter::new();
    PacketEncode::encode(&original, &mut buf).expect("encode must succeed");
    let bytes = buf.into_vec();
    assert!(!bytes.is_empty(), "body must not be empty");
    let mut reader = ByteReader::new(bytes);
    let s = read_string(&mut reader, 32767).expect("must read string back");
    assert_eq!(s, original.json_response);
    assert!(!reader.has_remaining(), "no trailing bytes after string");
}

#[test]
fn ping_request_decodes_payload() {
    let payload: u64 = 0xDEADBEEFCAFEBABE;
    let wire = payload.to_be_bytes();
    let decoded = decode_from_bytes::<PingRequest>(&wire).expect("decode must succeed");
    assert_eq!(decoded.payload, payload);
}

#[test]
fn ping_request_rejects_short_body() {
    let err = decode_from_bytes::<PingRequest>(&[0, 0, 0]).expect_err("short body must fail");
    assert!(matches!(err, PacketSerError::Underflow), "got {err:?}");
}

#[test]
fn pong_response_encodes_payload_be() {
    let original = PongResponse { payload: 0x0102030405060708 };
    let mut buf = ByteWriter::new();
    PacketEncode::encode(&original, &mut buf).expect("encode must succeed");
    let bytes = buf.into_vec();
    assert_eq!(bytes.len(), 8, "pong body must be exactly 8 bytes");
    assert_eq!(&bytes[..], &original.payload.to_be_bytes());
}

#[test]
fn status_table_wire_ids_match_data_report() {
    assert_eq!(
        serverbound_id(&packets(), "status", ids::status::STATUS_REQUEST),
        Some(<StatusRequest as PacketDecode>::ID),
    );
    assert_eq!(
        clientbound_id(&packets(), "status", ids::status::STATUS_RESPONSE),
        Some(<StatusResponse as PacketEncode>::ID),
    );
    assert_eq!(
        serverbound_id(&packets(), "status", ids::status::PING_REQUEST),
        Some(<PingRequest as PacketDecode>::ID),
    );
    assert_eq!(
        clientbound_id(&packets(), "status", ids::status::PONG_RESPONSE),
        Some(<PongResponse as PacketEncode>::ID),
    );
    assert_eq!(
        serverbound_id(&packets(), "handshake", ids::handshake::INTENTION),
        Some(<HandshakeInt as PacketDecode>::ID),
    );
}

#[test]
fn packet_lookups_read_any_report() {
    let entry = |name: &str, id: i32| (name.to_string(), PacketEntry { protocol_id: id });
    let report = PacketReport {
        phases: vec![
            (
                "play".to_string(),
                Phase {
                    clientbound: vec![entry("minecraft:bundle_delimiter", 0), entry("minecraft:add_entity", 1)],
                    serverbound: vec![entry("minecraft:accept_teleportation", 0)],
                },
            ),
            ("status".to_string(), Phase { clientbound: vec![], serverbound: vec![entry("minecraft:status_request", 0)] }),
        ],
    };
    assert_eq!(clientbound_id(&report, "play", "minecraft:add_entity"), Some(1));
    assert_eq!(serverbound_id(&report, "play", "minecraft:add_entity"), None);
    assert_eq!(serverbound_id(&report, "status", "minecraft:status_request"), Some(0));
    assert_eq!(clientbound_id(&report, "login", "minecraft:hello"), None);
    assert_eq!(phase(&report, "play").unwrap().clientbound.len(), 2);
    assert!(phase(&report, "handshake").is_none());
    assert_eq!(count(&report), 4);
    assert_eq!(count(&packets()), 56);
}
