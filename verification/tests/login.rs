use pigeon::buffer::{ByteReader, ByteWriter};
use pigeon::codecs::write_var_int;
use pigeon::protocol::login::{CookieResponse, LoginPluginRequest, LoginPluginResponse};
use pigeon::protocol::ser::{write_string, PacketDecode, PacketEncode, PacketSerError};

fn decode_from_bytes<T: PacketDecode>(bytes: &[u8]) -> Result<T, PacketSerError> {
    let mut buf = ByteReader::from_slice(bytes);
    T::decode(&mut buf)
}

fn var_int(v: i32, wire: &mut Vec<u8>) {
    let mut w = ByteWriter::new();
    write_var_int(v, &mut w).unwrap();
    wire.extend_from_slice(w.as_slice());
}

#[test]
fn login_plugin_response_decodes_successful_payload() {
    let body: &[u8] = &[0x2A, 0x01, 0x01, 0x02, 0x03, 0x04];
    let decoded = decode_from_bytes::<LoginPluginResponse>(body).expect("decode must succeed");
    assert_eq!(decoded.message_id, 42);
    assert!(decoded.successful);
    assert_eq!(decoded.data, vec![1, 2, 3, 4]);
}

#[test]
fn login_plugin_response_decodes_unsuccessful_payload() {
    let body: &[u8] = &[0x05, 0x00];
    let decoded = decode_from_bytes::<LoginPluginResponse>(body).expect("decode must succeed");
    assert_eq!(decoded.message_id, 5);
    assert!(!decoded.successful);
    assert!(decoded.data.is_empty());
}

#[test]
fn login_cookie_response_decodes_without_payload() {
    let mut wire = Vec::new();
    var_int(13, &mut wire);
    wire.extend_from_slice(b"minecraft:key");
    wire.push(0x00);
    let decoded = decode_from_bytes::<CookieResponse>(&wire).expect("decode must succeed");
    assert_eq!(decoded.key, "minecraft:key");
    assert!(!decoded.has_cookies);
    assert!(decoded.payload.is_empty());
}

#[test]
fn cookie_response_decodes_with_payload() {
    let mut wire = vec![];
    let mut w = ByteWriter::new();
    write_string("k", &mut w, 32767).unwrap();
    wire.extend_from_slice(w.as_slice());
    wire.push(0x01);
    var_int(3, &mut wire);
    wire.extend_from_slice(&[0xAA, 0xBB, 0xCC]);
    let decoded = decode_from_bytes::<CookieResponse>(&wire).expect("decode must succeed");
    assert_eq!(decoded.key, "k");
    assert!(decoded.has_cookies);
    assert_eq!(decoded.payload, vec![0xAA, 0xBB, 0xCC]);
}

#[test]
fn login_plugin_request_encodes_empty_payload() {
    let req = LoginPluginRequest {
        message_id: 7,
        channel: "minecraft:brand".to_string(),
        data: None,
    };
    let mut buf = ByteWriter::new();
    PacketEncode::encode(&req, &mut buf).expect("encode must succeed");
    let bytes = buf.into_vec();
    assert_eq!(*bytes.last().unwrap(), 0u8, "trailing data marker must be 0");
}

#[test]
fn login_plugin_request_encodes_with_payload() {
    let req = LoginPluginRequest {
        message_id: 1,
        channel: "minecraft:brand".to_string(),
        data: Some(vec![0xDE, 0xAD]),
    };
    let mut buf = ByteWriter::new();
    PacketEncode::encode(&req, &mut buf).expect("encode must succeed");
    let bytes = buf.into_vec();
    let last_idx = bytes.len() - 1;
    assert_eq!(bytes[last_idx], 0xAD, "payload tail must be encoded");
    assert_eq!(bytes[last_idx - 1], 0xDE, "payload head must be encoded");
    assert_eq!(bytes[last_idx - 2], 1u8, "data marker must be 1");
}
