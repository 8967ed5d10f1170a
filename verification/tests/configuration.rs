use pigeon::buffer::{ByteReader, ByteWriter};
use pigeon::codecs::write_var_int;
use pigeon::protocol::configuration::{
    ChatMode, ClientInformation, CookieResponse, CustomPayloadResponse, Disconnect,
    FinishConfiguration, KeepAlive, KeepAliveAck, MainHand, Ping, Pong, ResetChat,
};
use pigeon::protocol::ser::{read_string, write_string, PacketDecode, PacketEncode, PacketSerError};

fn decode_from_bytes<T: PacketDecode>(bytes: &[u8]) -> Result<T, PacketSerError> {
    let mut buf = ByteReader::from_slice(bytes);
    T::decode(&mut buf)
}

fn var_int(v: i32, wire: &mut Vec<u8>) {
    let mut w = ByteWriter::new();
    write_var_int(v, &mut w).unwrap();
    wire.extend_from_slice(w.as_slice());
}

fn string(s: &str, max: usize, wire: &mut Vec<u8>) {
    let mut w = ByteWriter::new();
    write_string(s, &mut w, max).unwrap();
    wire.extend_from_slice(w.as_slice());
}

#[test]
fn client_information_decodes_full_payload() {
    let mut wire = Vec::new();
    string("en_US", 16, &mut wire);
    wire.push(10);
    var_int(0, &mut wire);
    wire.push(1);
    wire.push(0x7F);
    var_int(1, &mut wire);
    wire.push(1);
    wire.push(0);
    let info = decode_from_bytes::<ClientInformation>(&wire).expect("decode must succeed");
    assert_eq!(info.locale, "en_US");
    assert_eq!(info.view_distance, 10);
    assert_eq!(info.chat_mode, ChatMode::Enabled);
    assert!(info.chat_colors);
    assert_eq!(info.displayed_skin_parts, 0x7F);
    assert_eq!(info.main_hand, MainHand::Right);
    assert!(info.filter_text);
    assert!(!info.allow_listing);
}

#[test]
fn client_information_rejects_invalid_chat_mode() {
    let mut wire = Vec::new();
    string("de", 16, &mut wire);
    wire.push(10);
    var_int(42, &mut wire);
    let err = decode_from_bytes::<ClientInformation>(&wire).expect_err("invalid chat mode must fail");
    assert!(matches!(err, PacketSerError::InvalidValue), "got {err:?}");
}

#[test]
fn configuration_cookie_response_decodes_without_payload() {
    let mut wire = Vec::new();
    string("minecraft:key", 32767, &mut wire);
    wire.push(0x00);
    let decoded = decode_from_bytes::<CookieResponse>(&wire).expect("decode must succeed");
    assert_eq!(decoded.key, "minecraft:key");
    assert!(!decoded.has_cookies);
    assert!(decoded.payload.is_empty());
}

#[test]
fn keep_alive_ack_decodes_payload_be() {
    let wire = (0x12345678u64).to_be_bytes();
    let decoded = decode_from_bytes::<KeepAliveAck>(&wire).expect("decode must succeed");
    assert_eq!(decoded.payload, 0x12345678u64);
}

#[test]
fn pong_decodes_payload_varint() {
    let mut wire = Vec::new();
    var_int(1337, &mut wire);
    let decoded = decode_from_bytes::<Pong>(&wire).expect("decode must succeed");
    assert_eq!(decoded.payload, 1337);
}

#[test]
fn custom_payload_response_decodes_channel_and_bytes() {
    let mut wire = Vec::new();
    string("minecraft:brand", 32767, &mut wire);
    wire.extend_from_slice(&[0x42, 0x55, 0x4E]);
    let decoded = decode_from_bytes::<CustomPayloadResponse>(&wire).expect("decode must succeed");
    assert_eq!(decoded.channel, "minecraft:brand");
    assert_eq!(decoded.data, vec![0x42, 0x55, 0x4E]);
}

#[test]
fn ping_encodes_varint_payload() {
    let pkt = Ping { payload: 765 };
    let mut buf = ByteWriter::new();
    PacketEncode::encode(&pkt, &mut buf).expect("encode must succeed");
    assert_eq!(buf.as_slice(), &[0xFD, 0x05]);
}

#[test]
fn keep_alive_encodes_payload_be() {
    let pkt = KeepAlive { payload: 0xDEADBEEFCAFEBABE };
    let mut buf = ByteWriter::new();
    PacketEncode::encode(&pkt, &mut buf).expect("encode must succeed");
    assert_eq!(buf.len(), 8);
    assert_eq!(buf.as_slice(), &0xDEADBEEFCAFEBABEu64.to_be_bytes());
}

#[test]
fn finish_configuration_encodes_empty_body() {
    let pkt = FinishConfiguration;
    let mut buf = ByteWriter::new();
    PacketEncode::encode(&pkt, &mut buf).expect("encode must succeed");
    assert!(buf.is_empty(), "FinishConfiguration must have no body bytes");
}

#[test]
fn reset_chat_encodes_empty_body() {
    let pkt = ResetChat;
    let mut buf = ByteWriter::new();
    PacketEncode::encode(&pkt, &mut buf).expect("encode must succeed");
    assert!(buf.is_empty(), "ResetChat must have no body bytes");
}

#[test]
fn disconnect_encodes_reason_json() {
    let pkt = Disconnect { reason_json: "{\"text\":\"bye\"}".to_string() };
    let mut buf = ByteWriter::new();
    PacketEncode::encode(&pkt, &mut buf).expect("encode must succeed");
    let mut reader = ByteReader::new(buf.into_vec());
    let s = read_string(&mut reader, 262144).expect("must read string back");
    assert_eq!(s, pkt.reason_json);
    assert!(!reader.has_remaining());
}
