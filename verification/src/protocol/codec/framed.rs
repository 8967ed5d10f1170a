//! Packet framing.
//!
//! A frame is `[VarInt length][body]`. Without compression the body is
//! `[VarInt packet id][payload]`. With compression on, the body starts with
//! a VarInt data length: zero, and the id and payload follow as they are;
//! otherwise the rest is compressed. When encryption is on, the whole byte
//! stream passes through AES/CFB8.
use vstd::prelude::*;
use crate::buffer::{ByteReader, ByteWriter};
use crate::codecs::{
    VarIntReadError, VarIntWriteError, lemma_var_int_parse_len, lemma_var_int_read_prefix,
    lemma_var_int_roundtrip, read_var_int, var_int_bytes, var_int_read, write_var_int,
};
use super::compression::{
    CompressionError, compress_payload, compressed_wire, zlib_compressed, zlib_decompress, zlib_inflated,
    zlib_roundtrips,
};
use super::encryption::{
    CipherRead, CipherWrite, EncryptionError, SharedSecret, cfb8_ciphertext, cfb8_plaintext,
};

verus! {

/// Largest frame body accepted, against clients that would exhaust memory.
pub const MAX_PACKET_BYTES: usize = 8388608;

#[derive(Debug)]
pub enum PacketDecodeError {
    Io(std::io::Error),
    /// A negative frame length.
    Underflow,
    /// A VarInt that could not be read.
    VarInt(VarIntReadError),
    /// A compressed body that could not be read.
    Compression(CompressionError),
    /// A frame longer than the maximum: its length, then the maximum.
    TooLarge(usize, usize),
}

#[derive(Debug)]
pub enum PacketEncodeError {
    Io(std::io::Error),
    VarInt(VarIntWriteError),
    Compression(CompressionError),
    Encryption(EncryptionError),
}

/// A packet read from the stream: its id and payload.
#[derive(Debug, Clone)]
pub struct DecodedPacket {
    pub id: i32,
    pub payload: Vec<u8>,
}

/// A packet to write: its id and payload.
#[derive(Debug, Clone)]
pub struct EncodedPacket {
    pub id: i32,
    pub payload: Vec<u8>,
}

impl EncodedPacket {
    /// The packet `id` with `payload`.
    pub fn new(id: i32, payload: Vec<u8>) -> (p: Self)
        ensures
            p.id == id,
            p.payload@ == payload@,
    {
        EncodedPacket { id, payload }
    }
}

/// What reading the frame at the front of a buffer yields.
pub ghost enum FrameRead {
    /// Not enough bytes yet.
    Wait,
    /// The frame length is unreadable.
    BadLength(VarIntReadError),
    /// The frame length is negative.
    Negative,
    /// The frame is longer than the maximum.
    Oversized(nat),
    /// The frame's body, and the bytes the frame takes.
    Frame(Seq<u8>, nat),
}

/// Reading a frame: a VarInt length (an incomplete one means waiting),
/// then that many bytes of body.
pub open spec fn frame_read(s: Seq<u8>) -> FrameRead {
    match var_int_read(s) {
        Err(VarIntReadError::Underflow) => FrameRead::Wait,
        Err(e) => FrameRead::BadLength(e),
        Ok((v, h)) => {
            let t = v as i32;
            if t < 0 {
                FrameRead::Negative
            } else if t > MAX_PACKET_BYTES {
                FrameRead::Oversized(t as nat)
            } else if s.len() < h + t {
                FrameRead::Wait
            } else {
                FrameRead::Frame(s.subrange(h as int, h + t), h + t as nat)
            }
        },
    }
}

/// What reading a frame body yields.
pub ghost enum BodyRead {
    /// The packet id and payload.
    Packet(i32, Seq<u8>),
    /// A VarInt that could not be read.
    BadVarInt(VarIntReadError),
    /// A data length that is negative or does not match the data.
    LengthMismatch,
    /// zlib refused the compressed data.
    Inflate,
}

/// Reading `[VarInt id][payload]`.
pub open spec fn packet_read(s: Seq<u8>) -> BodyRead {
    match var_int_read(s) {
        Err(e) => BodyRead::BadVarInt(e),
        Ok((id, n)) => BodyRead::Packet(id as i32, s.skip(n as int)),
    }
}

/// Reading a body, compressed or not. With compression on, the body is a
/// VarInt data length, then either (length zero) the packet as it stands
/// or the zlib stream of the packet, whose inflated length must match.
pub open spec fn body_read(body: Seq<u8>, compressed: bool) -> BodyRead {
    if !compressed {
        packet_read(body)
    } else {
        match var_int_read(body) {
            Err(e) => BodyRead::BadVarInt(e),
            Ok((dl, n)) => if (dl as i32) == 0 {
                packet_read(body.skip(n as int))
            } else {
                match zlib_inflated(body.skip(n as int)) {
                    None => BodyRead::Inflate,
                    Some(d) => if d.len() != ((dl as i32) as usize) as nat {
                        BodyRead::LengthMismatch
                    } else {
                        packet_read(d)
                    },
                }
            },
        }
    }
}

/// The body an encoder writes for a packet: `[VarInt id][payload]`,
/// compressed when the threshold asks for it, after a zero data length
/// when compression is on but the packet is short.
pub open spec fn body_wire(id: i32, payload: Seq<u8>, threshold: Option<i32>) -> Seq<u8> {
    let inner = var_int_bytes(id as u32) + payload;
    match threshold {
        Some(t) => if inner.len() >= (t as usize) as nat {
            compressed_wire(inner)
        } else {
            var_int_bytes(0) + inner
        },
        None => inner,
    }
}

/// A whole frame for a packet, before encryption.
pub open spec fn frame_wire(id: i32, payload: Seq<u8>, threshold: Option<i32>) -> Seq<u8> {
    var_int_bytes(body_wire(id, payload, threshold).len() as i32 as u32) + body_wire(
        id,
        payload,
        threshold,
    )
}

/// The state of a codec: its threshold, each cipher's key and history, and
/// how many bytes at the front of the input are already decrypted.
pub ghost struct CodecState {
    pub threshold: Option<i32>,
    pub reader: Option<(Seq<u8>, Seq<u8>)>,
    pub writer: Option<(Seq<u8>, Seq<u8>)>,
    pub decrypt_offset: nat,
}

/// Frames packets on a byte stream, with optional compression and
/// encryption.
pub struct PacketCodec {
    compression_threshold: Option<i32>,
    cipher_read: Option<CipherRead>,
    cipher_write: Option<CipherWrite>,
    decrypt_offset: usize,
}

impl View for PacketCodec {
    type V = CodecState;

    closed spec fn view(&self) -> CodecState {
        CodecState {
            threshold: self.compression_threshold,
            reader: match self.cipher_read {
                Some(c) => Some(c@),
                None => None,
            },
            writer: match self.cipher_write {
                Some(c) => Some(c@),
                None => None,
            },
            decrypt_offset: self.decrypt_offset as nat,
        }
    }
}

/// The input after the bytes past `off` are decrypted under `reader`.
pub open spec fn decrypted_input(s: Seq<u8>, off: nat, reader: (Seq<u8>, Seq<u8>)) -> Seq<u8> {
    s.take(off as int) + cfb8_plaintext(reader.0, reader.1 + s.skip(off as int)).skip(
        reader.1.len() as int,
    )
}

impl Default for PacketCodec {
    fn default() -> (c: Self)
        ensures
            c@ == (CodecState {
                threshold: None,
                reader: None,
                writer: None,
                decrypt_offset: 0,
            }),
    {
        PacketCodec::new()
    }
}

fn packet_of(s: &Vec<u8>) -> (r: Result<DecodedPacket, PacketDecodeError>)
    ensures
        match packet_read(s@) {
            BodyRead::Packet(id, p) => r matches Ok(d) && d.id == id && d.payload@ == p,
            BodyRead::BadVarInt(e) => r matches Err(PacketDecodeError::VarInt(e2)) && e2 == e,
            _ => false,
        },
{
    let mut cursor = ByteReader::from_slice(s.as_slice());
    proof {
        lemma_var_int_parse_len(s@, 0, 0);
    }
    let id = match read_var_int(&mut cursor) {
        Ok(v) => v,
        Err(e) => {
            return Err(PacketDecodeError::VarInt(e));
        },
    };
    let payload = cursor.take_rest();
    Ok(DecodedPacket { id, payload })
}

impl PacketCodec {
    /// A codec with neither compression nor encryption.
    pub fn new() -> (c: Self)
        ensures
            c@ == (CodecState {
                threshold: None,
                reader: None,
                writer: None,
                decrypt_offset: 0,
            }),
    {
        PacketCodec {
            compression_threshold: None,
            cipher_read: None,
            cipher_write: None,
            decrypt_offset: 0,
        }
    }

    /// Turns compression on with `threshold`.
    pub fn set_compression(&mut self, threshold: i32)
        ensures
            final(self)@ == (CodecState { threshold: Some(threshold), ..old(self)@ }),
    {
        self.compression_threshold = Some(threshold);
    }

    /// Turns compression off.
    pub fn disable_compression(&mut self)
        ensures
            final(self)@ == (CodecState { threshold: None, ..old(self)@ }),
    {
        self.compression_threshold = None;
    }

    /// Turns encryption on, both ways, with `secret`.
    pub fn enable_encryption(&mut self, secret: SharedSecret)
        ensures
            final(self)@ == (CodecState {
                reader: Some((secret.0@, Seq::<u8>::empty())),
                writer: Some((secret.0@, Seq::<u8>::empty())),
                decrypt_offset: 0,
                ..old(self)@
            }),
    {
        self.cipher_read = Some(CipherRead::new(&secret));
        self.cipher_write = Some(CipherWrite::new(&secret));
        self.decrypt_offset = 0;
    }

    /// Reads the body of a frame.
    fn read_body(&self, body: Vec<u8>) -> (r: Result<DecodedPacket, PacketDecodeError>)
        ensures
            match body_read(body@, self.compression_threshold is Some) {
                BodyRead::Packet(id, p) => r matches Ok(d) && d.id == id && d.payload@ == p,
                BodyRead::BadVarInt(e) => r matches Err(PacketDecodeError::VarInt(e2)) && e2 == e,
                BodyRead::LengthMismatch => r matches Err(
                    PacketDecodeError::Compression(CompressionError::LengthMismatch),
                ),
                BodyRead::Inflate => r matches Err(
                    PacketDecodeError::Compression(CompressionError::Io(_)),
                ),
            },
    {
        match self.compression_threshold {
            Some(_threshold) => {
                let mut cursor = ByteReader::from_slice(body.as_slice());
                proof {
                    lemma_var_int_parse_len(body@, 0, 0);
                }
                let data_len = match read_var_int(&mut cursor) {
                    Ok(v) => v,
                    Err(e) => {
                        return Err(PacketDecodeError::VarInt(e));
                    },
                };
                let rest = cursor.take_rest();
                if data_len == 0 {
                    packet_of(&rest)
                } else {
                    let decompressed = match zlib_decompress(rest.as_slice()) {
                        Ok(d) => d,
                        Err(e) => {
                            return Err(PacketDecodeError::Compression(CompressionError::Io(e)));
                        },
                    };
                    if decompressed.len() != data_len as usize {
                        return Err(
                            PacketDecodeError::Compression(CompressionError::LengthMismatch),
                        );
                    }
                    packet_of(&decompressed)
                }
            },
            None => packet_of(&body),
        }
    }

    /// Decrypts what arrived since the last call, then takes one frame off
    /// the front of `buf` if it is all there; a frame already decrypted
    /// and whole is taken though nothing new arrived.
    ///
    /// Decryption undoes the peer's encryption: where the ciphertext read so
    /// far is what a same-keyed encryptor wrote for a plaintext `p`, and the
    /// new bytes are what it writes for `q` after `p`, the frame is read from
    /// the decrypted bytes kept so far followed by `q`. An uncompressed frame
    /// sent this way reads back as its packet, leaving what follows it.
    pub fn decode(&mut self, buf: &mut Vec<u8>) -> (r: Result<Option<DecodedPacket>, PacketDecodeError>)
        ensures
            final(self)@.threshold == old(self)@.threshold,
            final(self)@.writer == old(self)@.writer,
            match old(self)@.reader {
                Some(rd) => if old(buf)@.len() <= old(self)@.decrypt_offset {
                    final(self)@ == (CodecState {
                        decrypt_offset: final(buf)@.len(),
                        ..old(self)@
                    }) && PacketCodec::decoded(old(buf)@, old(self)@.threshold, r, final(buf)@)
                } else {
                    final(self)@.reader == Some(
                        (rd.0, rd.1 + old(buf)@.skip(old(self)@.decrypt_offset as int)),
                    ) && final(self)@.decrypt_offset == final(buf)@.len() && PacketCodec::decoded(
                        decrypted_input(old(buf)@, old(self)@.decrypt_offset, rd),
                        old(self)@.threshold,
                        r,
                        final(buf)@,
                    )
                },
                None => final(self)@ == old(self)@ && PacketCodec::decoded(
                    old(buf)@,
                    old(self)@.threshold,
                    r,
                    final(buf)@,
                ),
            },
            forall|p: Seq<u8>, q: Seq<u8>|
                #![trigger cfb8_ciphertext((old(self)@.reader->0).0, p), cfb8_ciphertext((old(self)@.reader->0).0, p + q)]
                old(self)@.reader is Some && old(buf)@.len() > old(self)@.decrypt_offset && (old(self)@.reader->0).1 == cfb8_ciphertext((old(self)@.reader->0).0, p) && old(buf)@.skip(
                    old(self)@.decrypt_offset as int,
                ) == cfb8_ciphertext((old(self)@.reader->0).0, p + q).skip(p.len() as int)
                    ==> PacketCodec::decoded(
                    old(buf)@.take(old(self)@.decrypt_offset as int) + q,
                    old(self)@.threshold,
                    r,
                    final(buf)@,
                ),
            forall|p: Seq<u8>, q: Seq<u8>, id: i32, payload: Seq<u8>, rest: Seq<u8>|
                #![trigger cfb8_ciphertext((old(self)@.reader->0).0, p), cfb8_ciphertext((old(self)@.reader->0).0, p + q), frame_wire(id, payload, old(self)@.threshold) + rest]
                old(self)@.reader is Some && old(buf)@.len() > old(self)@.decrypt_offset && (old(self)@.reader->0).1
                    == cfb8_ciphertext((old(self)@.reader->0).0, p) && old(buf)@.skip(
                    old(self)@.decrypt_offset as int,
                ) == cfb8_ciphertext((old(self)@.reader->0).0, p + q).skip(p.len() as int) && old(
                    buf,
                )@.take(old(self)@.decrypt_offset as int) + q == frame_wire(
                    id,
                    payload,
                    old(self)@.threshold,
                ) + rest && !PacketCodec::compresses(id, payload, old(self)@.threshold) && body_wire(
                    id,
                    payload,
                    old(self)@.threshold,
                ).len() <= MAX_PACKET_BYTES ==> (r matches Ok(Some(d)) && d.id == id && d.payload@
                    == payload) && final(buf)@ == rest,
    {
        let ghost s0 = buf@;
        let ghost st = self@;
        match &mut self.cipher_read {
            Some(cipher) => if buf.len() > self.decrypt_offset {
                let mut chunk = buf.split_off(self.decrypt_offset);
                let ghost c0 = chunk@;
                let ghost key = cipher@.0;
                let ghost hist = cipher@.1;
                cipher.decrypt(&mut chunk);
                let ghost c1 = chunk@;
                buf.truncate(self.decrypt_offset);
                buf.append(&mut chunk);
                self.decrypt_offset = buf.len();
                proof {
                    let off = st.decrypt_offset as int;
                    assert(c0 =~= s0.skip(off));
                    assert(buf@ =~= s0.take(off) + c1);
                    assert forall|pp: Seq<u8>, qq: Seq<u8>|
                        #![trigger cfb8_ciphertext(key, pp), cfb8_ciphertext(key, pp + qq)]
                        hist == cfb8_ciphertext(key, pp) && s0.skip(off) == cfb8_ciphertext(
                            key,
                            pp + qq,
                        ).skip(pp.len() as int) implies buf@ == s0.take(off) + qq by {
                        assert(c1 == qq);
                    }
                }
            } else {
                // Nothing new arrived: everything held is already plaintext.
                self.decrypt_offset = buf.len();
            },
            None => {},
        }
        let ghost s = buf@;
        proof {
            if st.reader is Some && s0.len() > st.decrypt_offset {
                assert(s =~= decrypted_input(s0, st.decrypt_offset, st.reader->0));
            }
            assert forall|id: i32, payload: Seq<u8>, rest: Seq<u8>|
                #![trigger frame_wire(id, payload, st.threshold) + rest]
                s == frame_wire(id, payload, st.threshold) + rest && !PacketCodec::compresses(
                    id,
                    payload,
                    st.threshold,
                ) && body_wire(id, payload, st.threshold).len() <= MAX_PACKET_BYTES implies frame_read(s)
                == FrameRead::Frame(
                    body_wire(id, payload, st.threshold),
                    frame_wire(id, payload, st.threshold).len(),
                ) && body_read(body_wire(id, payload, st.threshold), st.threshold is Some)
                == BodyRead::Packet(id, payload) && s.skip(
                frame_wire(id, payload, st.threshold).len() as int,
            ) == rest by {
                lemma_frame_roundtrip(id, payload, st.threshold, rest);
                assert((frame_wire(id, payload, st.threshold) + rest).skip(
                    frame_wire(id, payload, st.threshold).len() as int,
                ) =~= rest);
            }
        }
        let mut peek = ByteReader::from_slice(buf.as_slice());
        proof {
            lemma_var_int_parse_len(s, 0, 0);
        }
        let total_len = match read_var_int(&mut peek) {
            Ok(v) => v,
            Err(VarIntReadError::Underflow) => {
                return Ok(None);
            },
            Err(e) => {
                return Err(PacketDecodeError::VarInt(e));
            },
        };
        if total_len < 0 {
            return Err(PacketDecodeError::Underflow);
        }
        let total_len = total_len as usize;
        if total_len > MAX_PACKET_BYTES {
            return Err(PacketDecodeError::TooLarge(total_len, MAX_PACKET_BYTES));
        }
        let header_len = buf.len() - peek.remaining();
        if buf.len() - header_len < total_len {
            return Ok(None);
        }
        let rest = buf.split_off(header_len + total_len);
        let body = buf.split_off(header_len);
        *buf = rest;
        if self.cipher_read.is_some() {
            self.decrypt_offset = buf.len();
        }
        proof {
            let h = var_int_read(s)->Ok_0.1;
            let t = var_int_read(s)->Ok_0.0 as i32;
            assert(h == header_len);
            assert(t == total_len);
            assert(body@ == s.subrange(h as int, h + t));
            assert(buf@ == s.skip(h + t));
            assert(frame_read(s) == FrameRead::Frame(body@, (h + t) as nat));
        }
        match self.read_body(body) {
            Ok(p) => Ok(Some(p)),
            Err(e) => Err(e),
        }
    }

    /// Whether the packet goes out compressed under `threshold`.
    pub open spec fn compresses(id: i32, payload: Seq<u8>, threshold: Option<i32>) -> bool {
        match threshold {
            Some(t) => (var_int_bytes(id as u32) + payload).len() >= (t as usize) as nat,
            None => false,
        }
    }

    /// Whether the body can be built: where it is compressed, zlib
    /// compresses the packet and the compressed body fits in memory.
    pub open spec fn body_ok(id: i32, payload: Seq<u8>, threshold: Option<i32>) -> bool {
        PacketCodec::compresses(id, payload, threshold) ==> zlib_compressed(inner_wire(id, payload)) is Some
            && compressed_wire(inner_wire(id, payload)).len() <= usize::MAX
    }

    /// What goes on the wire for a frame: the frame itself, or its
    /// ciphertext continuing the writer's stream.
    pub open spec fn sent_bytes(frame: Seq<u8>, writer: Option<(Seq<u8>, Seq<u8>)>) -> Seq<u8> {
        match writer {
            Some(w) => cfb8_ciphertext(w.0, w.1 + frame).skip(w.1.len() as int),
            None => frame,
        }
    }

    /// The writer's state once it has encrypted `frame`.
    pub open spec fn writer_after(frame: Seq<u8>, writer: Option<(Seq<u8>, Seq<u8>)>) -> Option<(Seq<u8>, Seq<u8>)> {
        match writer {
            Some(w) => Some((w.0, w.1 + frame)),
            None => None,
        }
    }

    /// Frames `item` (compressing it when the threshold asks for it),
    /// encrypts the frame when encryption is on, and appends it to `buf`.
    pub fn encode(&mut self, item: EncodedPacket, buf: &mut ByteWriter) -> (r: Result<(), PacketEncodeError>)
        ensures
            final(self)@.threshold == old(self)@.threshold,
            final(self)@.reader == old(self)@.reader,
            final(self)@.decrypt_offset == old(self)@.decrypt_offset,
            final(buf).capacity() == old(buf).capacity(),
            ({
                let frame = frame_wire(item.id, item.payload@, old(self)@.threshold);
                let out = PacketCodec::sent_bytes(frame, old(self)@.writer);
                let ok = PacketCodec::body_ok(item.id, item.payload@, old(self)@.threshold);
                &&& r is Ok <==> ok && out.len() <= old(buf).room()
                &&& r is Ok ==> final(buf)@ == old(buf)@ + out && final(self)@.writer
                    == PacketCodec::writer_after(frame, old(self)@.writer)
                &&& r is Ok && PacketCodec::compresses(item.id, item.payload@, old(self)@.threshold)
                    ==> zlib_roundtrips(inner_wire(item.id, item.payload@))
                &&& r is Err ==> (final(buf)@ == old(buf)@ && r matches Err(
                    PacketEncodeError::Compression(_),
                ))
                &&& (r is Err && ok) ==> (r matches Err(
                    PacketEncodeError::Compression(CompressionError::Overflow),
                ) && final(self)@.writer == PacketCodec::writer_after(frame, old(self)@.writer))
                &&& (r is Err && !ok) ==> final(self)@.writer == old(self)@.writer
            }),
    {
        let mut item = item;
        let ghost payload = item.payload@;
        let mut inner_w = ByteWriter::new();
        match write_var_int(item.id, &mut inner_w) {
            Ok(()) => {},
            Err(e) => {
                return Err(PacketEncodeError::VarInt(e));
            },
        }
        let mut inner = inner_w.into_vec();
        inner.append(&mut item.payload);
        let ghost inner_s = var_int_bytes(item.id as u32) + payload;
        assert(inner@ == inner_s);
        let mut body: Vec<u8> = match self.compression_threshold {
            Some(threshold) => {
                if inner.len() >= threshold as usize {
                    let mut compressed = ByteWriter::new();
                    match compress_payload(inner.as_slice(), &mut compressed) {
                        Ok(()) => {},
                        Err(e) => {
                            return Err(PacketEncodeError::Compression(e));
                        },
                    }
                    compressed.into_vec()
                } else {
                    let mut framed_w = ByteWriter::new();
                    match write_var_int(0, &mut framed_w) {
                        Ok(()) => {},
                        Err(e) => {
                            return Err(PacketEncodeError::VarInt(e));
                        },
                    }
                    let mut framed = framed_w.into_vec();
                    framed.append(&mut inner);
                    framed
                }
            },
            None => inner,
        };
        let ghost body_s = body@;
        assert(body_s == body_wire(item.id, payload, self.compression_threshold));
        let mut head_w = ByteWriter::new();
        match write_var_int(body.len() as i32, &mut head_w) {
            Ok(()) => {},
            Err(e) => {
                return Err(PacketEncodeError::VarInt(e));
            },
        }
        let mut frame = head_w.into_vec();
        frame.append(&mut body);
        assert(frame@ == frame_wire(item.id, payload, self.compression_threshold));
        match &mut self.cipher_write {
            Some(cipher) => {
                cipher.encrypt(&mut frame);
            },
            None => {},
        }
        if buf.remaining_mut() < frame.len() {
            return Err(PacketEncodeError::Compression(CompressionError::Overflow));
        }
        buf.put_slice(frame.as_slice());
        Ok(())
    }

    /// What a decode of the (decrypted) input `s` under `threshold` did:
    /// the result `r`, and what it left of the input.
    pub open spec fn decoded(
        s: Seq<u8>,
        threshold: Option<i32>,
        r: Result<Option<DecodedPacket>, PacketDecodeError>,
        left: Seq<u8>,
    ) -> bool {
        match frame_read(s) {
            FrameRead::Wait => r matches Ok(None) && left == s,
            FrameRead::BadLength(e) => r matches Err(PacketDecodeError::VarInt(e2)) && e2 == e,
            FrameRead::Negative => r matches Err(PacketDecodeError::Underflow),
            FrameRead::Oversized(t) => r matches Err(PacketDecodeError::TooLarge(a, b)) && a == t
                && b == MAX_PACKET_BYTES,
            FrameRead::Frame(body, n) => left == s.skip(n as int) && match body_read(
                body,
                threshold is Some,
            ) {
                BodyRead::Packet(id, p) => r matches Ok(Some(d)) && d.id == id && d.payload@ == p,
                BodyRead::BadVarInt(e) => r matches Err(PacketDecodeError::VarInt(e2)) && e2 == e,
                BodyRead::LengthMismatch => r matches Err(
                    PacketDecodeError::Compression(CompressionError::LengthMismatch),
                ),
                BodyRead::Inflate => r matches Err(
                    PacketDecodeError::Compression(CompressionError::Io(_)),
                ),
            },
        }
    }
}

/// Reading a VarInt an encoder wrote for an `i32` gives the `i32` back.
proof fn lemma_i32_var_int(v: i32, rest: Seq<u8>)
    ensures
        var_int_read(var_int_bytes(v as u32) + rest) == Ok::<(u32, nat), VarIntReadError>(
            (v as u32, var_int_bytes(v as u32).len()),
        ),
        (v as u32) as i32 == v,
{
    lemma_var_int_roundtrip(v as u32, rest);
    assert((v as u32) as i32 == v) by (bit_vector);
}

/// The packet `[VarInt id][payload]` that a frame carries.
pub open spec fn inner_wire(id: i32, payload: Seq<u8>) -> Seq<u8> {
    var_int_bytes(id as u32) + payload
}

/// Whether a frame for the packet can be read back: its body is within the
/// frame limit, and where it is compressed, its length fits the `i32` data
/// length field and zlib gives it back.
pub open spec fn frame_readable(id: i32, payload: Seq<u8>, threshold: Option<i32>) -> bool {
    &&& body_wire(id, payload, threshold).len() <= MAX_PACKET_BYTES
    &&& PacketCodec::compresses(id, payload, threshold) ==> inner_wire(id, payload).len() <= i32::MAX
        && zlib_roundtrips(inner_wire(id, payload))
}

/// A frame the encoder writes for a packet, compressed or not, reads back
/// as that packet; whatever follows the frame is left for the next read.
pub proof fn lemma_frame_roundtrip(id: i32, payload: Seq<u8>, threshold: Option<i32>, rest: Seq<u8>)
    requires
        frame_readable(id, payload, threshold),
    ensures
        frame_read(frame_wire(id, payload, threshold) + rest) == FrameRead::Frame(
            body_wire(id, payload, threshold),
            frame_wire(id, payload, threshold).len(),
        ),
        body_read(body_wire(id, payload, threshold), threshold is Some) == BodyRead::Packet(
            id,
            payload,
        ),
        forall|r: Result<Option<DecodedPacket>, PacketDecodeError>, left: Seq<u8>|
            PacketCodec::decoded(frame_wire(id, payload, threshold) + rest, threshold, r, left) ==> (
            r matches Ok(Some(d)) && d.id == id && d.payload@ == payload && left == rest),
{
    let body = body_wire(id, payload, threshold);
    let n = body.len();
    assert(n <= 8388608);
    let nv = n as i32;
    assert(nv == n);
    let header = var_int_bytes(nv as u32);
    let frame = frame_wire(id, payload, threshold);
    let s = frame + rest;
    assert(s =~= header + (body + rest));
    lemma_i32_var_int(nv, body + rest);
    let h = header.len();
    assert(s.subrange(h as int, (h + n) as int) =~= body);
    assert(s.skip((h + n) as int) =~= rest);
    let inner = var_int_bytes(id as u32) + payload;
    lemma_i32_var_int(id, payload);
    assert(inner.skip(var_int_bytes(id as u32).len() as int) =~= payload);
    match threshold {
        Some(t) => {
            if PacketCodec::compresses(id, payload, threshold) {
                let z = zlib_compressed(inner)->0;
                let li = inner.len() as i32;
                assert(li == inner.len());
                assert(body == var_int_bytes(li as u32) + z);
                lemma_i32_var_int(li, z);
                assert(body.skip(var_int_bytes(li as u32).len() as int) =~= z);
                assert(var_int_bytes(id as u32).len() >= 1);
                assert((li as usize) as nat == inner.len());
            } else {
                assert(body == var_int_bytes(0) + inner);
                lemma_i32_var_int(0, inner);
                assert(body.skip(var_int_bytes(0u32).len() as int) =~= inner);
            }
        },
        None => {},
    }
}

} // verus!
