//! Handshake- and status-state packets: the server list ping.
//!
//! | Direction | Id   | Packet          |
//! |-----------|------|-----------------|
//! | C → S     | 0x00 | `HandshakeInt`  |
//! | C → S     | 0x00 | `StatusRequest` |
//! | S → C     | 0x00 | `StatusResponse`|
//! | C → S     | 0x01 | `PingRequest`   |
//! | S → C     | 0x01 | `PongResponse`  |
use vstd::prelude::*;
use crate::buffer::{ByteReader, ByteWriter, u64_be, writes};
use crate::uuid::Uuid;
use super::ser::{
    PacketDecode, PacketEncode, PacketSerError, get_u16_field, get_u64_field, got, lemma_arrived,
    lemma_next, read_string, read_var_int_buf, string_field, string_to, string_wire, u16_field,
    u64_field, u64_to, var_int_field,
};

verus! {

/// The state a client asks for in its handshake.
#[derive(Debug, Clone, Copy, PartialEq, Eq, Structural)]
pub enum NextState {
    Status,
    Login,
}

/// The state a handshake's next-state number names.
pub open spec fn next_state_of(v: i32) -> Option<NextState> {
    if v == 1 {
        Some(NextState::Status)
    } else if v == 2 {
        Some(NextState::Login)
    } else {
        None
    }
}

/// The first packet of every connection: protocol version, the address
/// and port the client dialled, and the state it wants next.
#[derive(Debug, Clone)]
pub struct HandshakeInt {
    pub protocol_version: i32,
    pub server_address: String,
    pub server_port: u16,
    pub next_state: NextState,
}

/// The content of a handshake.
pub ghost struct HandshakeIntView {
    pub protocol_version: i32,
    pub server_address: Seq<char>,
    pub server_port: u16,
    pub next_state: NextState,
}

impl View for HandshakeInt {
    type V = HandshakeIntView;

    open spec fn view(&self) -> HandshakeIntView {
        HandshakeIntView {
            protocol_version: self.protocol_version,
            server_address: self.server_address@,
            server_port: self.server_port,
            next_state: self.next_state,
        }
    }
}

/// How a handshake body reads: VarInt version, address string of at most
/// 255 bytes, big-endian port, VarInt next state (1 or 2).
pub open spec fn handshake_parse(s: Seq<u8>) -> Result<(HandshakeIntView, nat), PacketSerError> {
    match var_int_field(s) {
        Err(e) => Err(e),
        Ok((version, n1)) => match string_field(s.skip(n1 as int), 255) {
            Err(e) => Err(e),
            Ok((address, n2)) => match u16_field(s.skip(n1 as int).skip(n2 as int)) {
                Err(e) => Err(e),
                Ok((port, n3)) => match var_int_field(
                    s.skip(n1 as int).skip(n2 as int).skip(n3 as int),
                ) {
                    Err(e) => Err(e),
                    Ok((raw, n4)) => match next_state_of(raw) {
                        None => Err(PacketSerError::InvalidValue),
                        Some(next) => Ok(
                            (
                                HandshakeIntView {
                                    protocol_version: version,
                                    server_address: address,
                                    server_port: port,
                                    next_state: next,
                                },
                                n1 + n2 + n3 + n4,
                            ),
                        ),
                    },
                },
            },
        },
    }
}

impl PacketDecode for HandshakeInt {
    /// `minecraft:intention`, the only handshake-state packet.
    const ID: i32 = 0x00;

    open spec fn parse(s: Seq<u8>) -> Result<(HandshakeIntView, nat), PacketSerError> {
        handshake_parse(s)
    }

    open spec fn readable(s: Seq<u8>) -> bool {
        true
    }

    fn decode(buf: &mut ByteReader) -> (r: Result<Self, PacketSerError>) {
        let ghost s = buf@;
        let protocol_version = read_var_int_buf(buf)?;
        let server_address = read_string(buf, 255)?;
        let server_port = get_u16_field(buf)?;
        let next_state_raw = read_var_int_buf(buf)?;
        let next_state = match next_state_raw {
            1 => NextState::Status,
            2 => NextState::Login,
            _ => return Err(PacketSerError::InvalidValue),
        };
        proof {
            let n1 = var_int_field(s)->Ok_0.1;
            let n2 = string_field(s.skip(n1 as int), 255)->Ok_0.1;
            let n3 = 2nat;
            let n4 = var_int_field(s.skip(n1 as int).skip(n2 as int).skip(n3 as int))->Ok_0.1;
            assert(buf@ =~= s.skip((n1 + n2 + n3 + n4) as int));
        }
        Ok(HandshakeInt { protocol_version, server_address, server_port, next_state })
    }
}

/// A status request: an empty body.
#[derive(Debug, Clone, Copy, Default, PartialEq, Eq, Structural)]
pub struct StatusRequest;

impl View for StatusRequest {
    type V = StatusRequest;

    open spec fn view(&self) -> StatusRequest {
        *self
    }
}

impl PacketDecode for StatusRequest {
    const ID: i32 = 0x00;

    open spec fn parse(s: Seq<u8>) -> Result<(StatusRequest, nat), PacketSerError> {
        Ok((StatusRequest, 0))
    }

    open spec fn readable(s: Seq<u8>) -> bool {
        true
    }

    fn decode(buf: &mut ByteReader) -> (r: Result<Self, PacketSerError>) {
        proof {
            assert(buf@.skip(0) =~= buf@);
        }
        Ok(StatusRequest)
    }
}

/// The server list ping answer: a JSON document.
#[derive(Debug, Clone)]
pub struct StatusResponse {
    /// JSON body in the vanilla format.
    pub json_response: String,
}

impl PacketEncode for StatusResponse {
    const ID: i32 = 0x00;

    open spec fn wire(&self) -> Seq<u8> {
        string_wire(self.json_response@)
    }

    open spec fn wire_ok(&self) -> bool {
        true
    }

    fn encode(&self, buf: &mut ByteWriter) -> (r: Result<(), PacketSerError>) {
        let ghost w0 = *buf;
        let ghost t = buf@ + self.wire();
        proof {
            lemma_next(buf@, string_wire(self.json_response@), Seq::empty(), t);
        }
        string_to(buf, self.json_response.as_str(), Ghost(t), Ghost(true))?;
        proof {
            lemma_arrived(w0, *buf, self.wire(), true);
        }
        Ok(())
    }
}

/// The server list's JSON answer, as the status flow builds it.
#[derive(Debug, Clone)]
pub struct ServerPingResponse {
    pub version: ServerPingVersion,
    pub players: ServerPingPlayers,
    /// The description component, as JSON text.
    pub description: String,
    pub favicon: Option<String>,
    pub enforce_secure_chat: Option<bool>,
}

/// Version name and protocol number shown in the server list.
#[derive(Debug, Clone)]
pub struct ServerPingVersion {
    pub name: String,
    pub protocol: i32,
}

/// Player counts and a sample of names shown in the server list.
#[derive(Debug, Clone)]
pub struct ServerPingPlayers {
    pub max: u32,
    pub online: u32,
    pub sample: Vec<ServerPingPlayer>,
}

/// One sampled player.
#[derive(Debug, Clone)]
pub struct ServerPingPlayer {
    pub name: String,
    pub id: Uuid,
}

/// A ping probe carrying an arbitrary payload.
#[derive(Debug, Clone, Copy, PartialEq, Eq, Structural)]
pub struct PingRequest {
    pub payload: u64,
}

impl View for PingRequest {
    type V = PingRequest;

    open spec fn view(&self) -> PingRequest {
        *self
    }
}

impl PacketDecode for PingRequest {
    const ID: i32 = 0x01;

    open spec fn parse(s: Seq<u8>) -> Result<(PingRequest, nat), PacketSerError> {
        match u64_field(s) {
            Ok((v, n)) => Ok((PingRequest { payload: v }, n)),
            Err(e) => Err(e),
        }
    }

    open spec fn readable(s: Seq<u8>) -> bool {
        true
    }

    fn decode(buf: &mut ByteReader) -> (r: Result<Self, PacketSerError>) {
        let payload = get_u64_field(buf)?;
        Ok(PingRequest { payload })
    }
}

/// The pong echo carrying the ping's payload.
#[derive(Debug, Clone, Copy, PartialEq, Eq, Structural)]
pub struct PongResponse {
    pub payload: u64,
}

impl PacketEncode for PongResponse {
    const ID: i32 = 0x01;

    open spec fn wire(&self) -> Seq<u8> {
        u64_be(self.payload)
    }

    open spec fn wire_ok(&self) -> bool {
        true
    }

    fn encode(&self, buf: &mut ByteWriter) -> (r: Result<(), PacketSerError>) {
        let ghost w0 = *buf;
        let ghost t = buf@ + self.wire();
        proof {
            lemma_next(buf@, u64_be(self.payload), Seq::empty(), t);
        }
        u64_to(buf, self.payload, Ghost(t), Ghost(true))?;
        proof {
            lemma_arrived(w0, *buf, self.wire(), true);
        }
        Ok(())
    }
}

} // verus!
