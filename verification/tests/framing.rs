use pigeon::buffer::ByteWriter;
use pigeon::protocol::codec::compression::{compress_payload, decompress_payload, CompressionError};
use pigeon::protocol::codec::encryption::{CipherRead, CipherWrite, EncryptionError, SharedSecret};
use pigeon::protocol::codec::framed::{EncodedPacket, PacketCodec, PacketDecodeError};

fn encode(codec: &mut PacketCodec, id: i32, payload: Vec<u8>) -> Vec<u8> {
    let mut out = ByteWriter::new();
    codec.encode(EncodedPacket::new(id, payload), &mut out).unwrap();
    out.into_vec()
}

#[test]
fn uncompressed_frame_has_length_id_payload() {
    let mut codec = PacketCodec::new();
    assert_eq!(encode(&mut codec, 0x01, vec![0xAA, 0xBB]), vec![3, 0x01, 0xAA, 0xBB]);
}

#[test]
fn uncompressed_frame_round_trips_and_leaves_the_rest() {
    let mut codec = PacketCodec::new();
    let mut wire = encode(&mut codec, 0x2A, vec![1, 2, 3]);
    wire.extend_from_slice(&[9, 9]);
    let p = codec.decode(&mut wire).unwrap().unwrap();
    assert_eq!(p.id, 0x2A);
    assert_eq!(p.payload, vec![1, 2, 3]);
    assert_eq!(wire, vec![9, 9]);
}

#[test]
fn partial_frame_waits() {
    let mut codec = PacketCodec::new();
    let mut wire = vec![5, 0x01, 0x02];
    assert!(codec.decode(&mut wire).unwrap().is_none());
    assert_eq!(wire, vec![5, 0x01, 0x02]);
    let mut empty = Vec::new();
    assert!(codec.decode(&mut empty).unwrap().is_none());
}

#[test]
fn oversized_and_negative_frames_are_refused() {
    let mut codec = PacketCodec::new();
    // 8 MiB + 1 as a VarInt.
    let mut big = vec![0x81, 0x80, 0x80, 0x04];
    assert!(matches!(codec.decode(&mut big), Err(PacketDecodeError::TooLarge(8388609, 8388608))));
    let mut negative = vec![0xFF, 0xFF, 0xFF, 0xFF, 0x0F];
    assert!(matches!(codec.decode(&mut negative), Err(PacketDecodeError::Underflow)));
}

#[test]
fn short_packet_under_threshold_gets_zero_data_length() {
    let mut codec = PacketCodec::new();
    codec.set_compression(256);
    let mut wire = encode(&mut codec, 0x05, vec![7]);
    assert_eq!(wire, vec![3, 0x00, 0x05, 7]);
    let p = codec.decode(&mut wire).unwrap().unwrap();
    assert_eq!(p.id, 0x05);
    assert_eq!(p.payload, vec![7]);
    codec.disable_compression();
    assert_eq!(encode(&mut codec, 0x05, vec![7]), vec![2, 0x05, 7]);
}

#[test]
fn compressed_body_inflates_back() {
    let data: Vec<u8> = (0..200u32).map(|i| (i % 7) as u8).collect();
    let mut out = ByteWriter::new();
    compress_payload(&data, &mut out).unwrap();
    let wire = out.into_vec();
    // VarInt 200 first.
    assert_eq!(&wire[..2], &[0xC8, 0x01]);
    assert_eq!(decompress_payload(&wire).unwrap(), data);
}

#[test]
fn decompress_errors() {
    assert!(matches!(
        decompress_payload(&[0xFF, 0xFF, 0xFF, 0xFF, 0x0F]),
        Err(CompressionError::LengthMismatch)
    ));
    assert!(matches!(decompress_payload(&[]), Err(CompressionError::LengthMismatch)));
    assert_eq!(decompress_payload(&[0, 4, 5]).unwrap(), vec![4, 5]);
    assert!(matches!(decompress_payload(&[3, 1, 2, 3]), Err(CompressionError::Io(_))));
}

#[test]
fn shared_secret_needs_sixteen_bytes() {
    assert!(matches!(SharedSecret::from_bytes(&[0; 15]), Err(EncryptionError::InvalidKeyLength(15))));
    let s = SharedSecret::from_bytes(&[3; 16]).unwrap();
    assert_eq!(s.as_bytes(), &[3; 16]);
    assert_eq!(s.iv(), [3; 16]);
}

#[test]
fn cfb8_decrypt_undoes_encrypt_across_chunks() {
    let secret = SharedSecret([0x42; 16]);
    let mut w = CipherWrite::new(&secret);
    let mut r = CipherRead::new(&secret);
    let plain: Vec<u8> = (0..40u8).collect();
    let mut a = plain[..13].to_vec();
    let mut b = plain[13..].to_vec();
    w.encrypt(&mut a);
    w.encrypt(&mut b);
    assert_ne!(a, plain[..13].to_vec());
    r.decrypt(&mut a);
    r.decrypt(&mut b);
    a.extend_from_slice(&b);
    assert_eq!(a, plain);
}

#[test]
fn cfb8_is_keyed_with_the_secret() {
    // AES-128 of the zero block under the zero key starts with 0x66, so the
    // first CFB8 byte of a zero plaintext under key = IV = 0 is 0x66.
    let mut zero = CipherWrite::new(&SharedSecret([0; 16]));
    let mut first = vec![0u8];
    zero.encrypt(&mut first);
    assert_eq!(first, vec![0x66]);
    let mut longer = vec![0u8; 32];
    CipherWrite::new(&SharedSecret([0; 16])).encrypt(&mut longer);
    let mut longer_other = vec![0u8; 32];
    CipherWrite::new(&SharedSecret([1; 16])).encrypt(&mut longer_other);
    assert_ne!(longer, longer_other);
}

#[test]
fn cfb8_stream_does_not_depend_on_chunking() {
    let secret = SharedSecret([0x5a; 16]);
    let plain: Vec<u8> = (0..100u8).map(|b| b.wrapping_mul(37)).collect();
    let mut whole = plain.clone();
    CipherWrite::new(&secret).encrypt(&mut whole);
    let mut w = CipherWrite::new(&secret);
    let mut cipher = Vec::new();
    for chunk in plain.chunks(7) {
        let mut c = chunk.to_vec();
        w.encrypt(&mut c);
        cipher.extend(c);
    }
    assert_eq!(cipher, whole);
    let mut r = CipherRead::new(&secret);
    let mut back = Vec::new();
    for chunk in whole.chunks(11) {
        let mut c = chunk.to_vec();
        r.decrypt(&mut c);
        back.extend(c);
    }
    assert_eq!(back, plain);
}

#[test]
fn encrypted_codec_round_trips_frames() {
    let secret = SharedSecret([7; 16]);
    let mut sender = PacketCodec::new();
    sender.enable_encryption(secret.clone());
    let mut receiver = PacketCodec::new();
    receiver.enable_encryption(secret);
    let mut wire = encode(&mut sender, 0x10, vec![1, 2, 3, 4]);
    wire.extend(encode(&mut sender, 0x11, vec![5]));
    assert_ne!(&wire[..2], &[5, 0x10]);
    let first = receiver.decode(&mut wire).unwrap().unwrap();
    assert_eq!((first.id, first.payload), (0x10, vec![1, 2, 3, 4]));
    // The second frame is already decrypted: it comes out though nothing
    // new arrived.
    let second = receiver.decode(&mut wire).unwrap().unwrap();
    assert_eq!((second.id, second.payload), (0x11, vec![5]));
    assert!(wire.is_empty());
    assert!(receiver.decode(&mut wire).unwrap().is_none());
    wire.extend(encode(&mut sender, 0x12, vec![]));
    let third = receiver.decode(&mut wire).unwrap().unwrap();
    assert_eq!((third.id, third.payload), (0x12, vec![]));
}

#[test]
fn empty_compressed_body_reads_as_its_zlib_stream() {
    // A zero data length means "not compressed", so the zlib stream of
    // empty data comes back as it is.
    let mut out = ByteWriter::new();
    compress_payload(&[], &mut out).unwrap();
    let wire = out.into_vec();
    assert_eq!(wire[0], 0);
    assert_eq!(decompress_payload(&wire).unwrap(), wire[1..].to_vec());
}

#[test]
fn compressed_frame_round_trips() {
    let mut sender = PacketCodec::new();
    sender.set_compression(0);
    let mut receiver = PacketCodec::new();
    receiver.set_compression(0);
    let payload: Vec<u8> = (0..300u32).map(|i| (i % 5) as u8).collect();
    let mut wire = encode(&mut sender, 0x05, payload.clone());
    assert!(wire.len() < payload.len());
    wire.push(0xAB);
    let p = receiver.decode(&mut wire).unwrap().unwrap();
    assert_eq!(p.id, 0x05);
    assert_eq!(p.payload, payload);
    assert_eq!(wire, vec![0xAB]);
}

#[test]
fn unreadable_frame_length_and_full_destination_are_errors() {
    let mut codec = PacketCodec::new();
    let mut bad = vec![0x80, 0x80, 0x80, 0x80, 0x80, 0x01];
    assert!(matches!(codec.decode(&mut bad), Err(PacketDecodeError::VarInt(_))));

    let mut small = ByteWriter::with_limit(2);
    let r = codec.encode(EncodedPacket::new(1, vec![1, 2, 3]), &mut small);
    assert!(matches!(r, Err(pigeon::protocol::codec::framed::PacketEncodeError::Compression(CompressionError::Overflow))));
    assert!(small.is_empty());

    let mut tiny = ByteWriter::with_limit(1);
    assert!(matches!(compress_payload(&[1, 2, 3], &mut tiny), Err(CompressionError::Overflow)));
}
