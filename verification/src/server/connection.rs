//! The per-connection state machine: `Handshake → Status / Login →
//! (Configuration → Play)`. These functions make its decisions from one
//! inbound packet at a time; the loop that reads and writes the socket
//! runs them and performs what they return.
//!
//! Login is the offline (online-mode off) sequence: `LoginStart →
//! SetCompression (optional) → LoginSuccess → LoginAcknowledged →
//! Configuration`.
use vstd::prelude::*;
use crate::buffer::{ByteReader, ByteWriter};
use crate::protocol::codec::framed::{DecodedPacket, EncodedPacket};
use crate::protocol::login::{LoginStart, LoginSuccess, SetCompression};
use crate::protocol::ser::{PacketDecode, PacketEncode, PacketSerError};
use crate::protocol::state::ProtocolState;
use crate::protocol::status::{
    HandshakeInt, NextState, PingRequest, PongResponse, ServerPingPlayers, ServerPingResponse,
    ServerPingVersion, StatusResponse,
};
use crate::config::ServerConfig;
use crate::data::MINECRAFT_VERSION;
use crate::uuid::Uuid;
use crate::identifier::IdentifierParseError;

verus! {

/// A connection: its decisions are the functions of this module.
#[derive(Debug, Clone, Copy)]
pub struct Connection;

/// Why a connection ends.
#[derive(Debug, Clone, Copy, PartialEq, Eq, Structural)]
pub enum ConnectionError {
    /// A packet came that the state does not allow.
    UnexpectedPacket { expected: i32, got: i32 },
    /// A packet's body could not be read.
    Decode(PacketSerError),
    /// A packet's body could not be written.
    Encode(PacketSerError),
    /// A registry identifier is malformed.
    InvalidIdentifier(IdentifierParseError),
}

/// The state a handshake's request leads to.
pub open spec fn state_after(next: NextState) -> ProtocolState {
    match next {
        NextState::Status => ProtocolState::Status,
        NextState::Login => ProtocolState::Login,
    }
}

/// The state the handshake's `next_state` field asks for.
pub fn next_state_from(next: NextState) -> (s: ProtocolState)
    ensures
        s == state_after(next),
{
    match next {
        NextState::Status => ProtocolState::Status,
        NextState::Login => ProtocolState::Login,
    }
}

/// Writes `pkt`'s body into a fresh buffer and pairs it with its id.
pub fn encode_packet<T: PacketEncode>(pkt: &T) -> (r: Result<EncodedPacket, ConnectionError>)
    ensures
        r is Ok <==> pkt.wire_ok() && pkt.wire().len() <= usize::MAX,
        r matches Ok(p) ==> p.id == T::ID && p.payload@ == pkt.wire(),
        r matches Err(e) ==> e is Encode,
{
    let body = encode_body(pkt)?;
    Ok(EncodedPacket::new(T::ID, body))
}

/// Writes `pkt`'s body into a fresh buffer.
pub fn encode_body<T: PacketEncode>(pkt: &T) -> (r: Result<Vec<u8>, ConnectionError>)
    ensures
        r is Ok <==> pkt.wire_ok() && pkt.wire().len() <= usize::MAX,
        r matches Ok(b) ==> b@ == pkt.wire(),
        r matches Err(e) ==> e is Encode,
{
    let mut buf = ByteWriter::new();
    match pkt.encode(&mut buf) {
        Ok(()) => Ok(buf.into_vec()),
        Err(e) => Err(ConnectionError::Encode(e)),
    }
}

/// Reads the body of `packet` as a `T`.
fn decode_body<T: PacketDecode>(packet: &DecodedPacket) -> (r: Result<T, ConnectionError>)
    requires
        T::readable(packet.payload@),
    ensures
        match T::parse(packet.payload@) {
            Ok((v, _)) => r matches Ok(x) && x@ == v,
            Err(e) => r == Err::<T, ConnectionError>(ConnectionError::Decode(e)),
        },
{
    let mut reader = ByteReader::from_slice(packet.payload.as_slice());
    match T::decode(&mut reader) {
        Ok(v) => Ok(v),
        Err(e) => Err(ConnectionError::Decode(e)),
    }
}

/// In the handshake state: the packet must be the handshake, and the state
/// becomes the one it asks for. Nothing is sent back.
pub fn handle_handshake(packet: &DecodedPacket) -> (r: Result<ProtocolState, ConnectionError>)
    ensures
        packet.id != 0 ==> r == Err::<ProtocolState, ConnectionError>(
            ConnectionError::UnexpectedPacket { expected: 0, got: packet.id },
        ),
        packet.id == 0 ==> match HandshakeInt::parse(packet.payload@) {
            Ok((h, _)) => r == Ok::<ProtocolState, ConnectionError>(state_after(h.next_state)),
            Err(e) => r == Err::<ProtocolState, ConnectionError>(ConnectionError::Decode(e)),
        },
{
    // The handshake is packet 0x00.
    if packet.id != 0 {
        return Err(ConnectionError::UnexpectedPacket { expected: 0, got: packet.id });
    }
    let handshake: HandshakeInt = decode_body(packet)?;
    Ok(next_state_from(handshake.next_state))
}

/// In the status state: a status request is answered with `response`, a
/// ping with a pong echoing its payload; anything else gets no answer.
pub fn route_status(packet: &DecodedPacket, response: &StatusResponse) -> (r: Result<
    Option<EncodedPacket>,
    ConnectionError,
>)
    ensures
        packet.id == 0 ==> (r is Ok <==> response.wire().len() <= usize::MAX) && (r matches Ok(
            Some(p),
        ) && p.id == 0 && p.payload@ == response.wire() || r is Err),
        packet.id == 1 ==> match PingRequest::parse(packet.payload@) {
            Ok((ping, _)) => r matches Ok(Some(p)) && p.id == 1 && p.payload@ == (PongResponse {
                payload: ping.payload,
            }).wire(),
            Err(e) => r == Err::<Option<EncodedPacket>, ConnectionError>(ConnectionError::Decode(e)),
        },
        packet.id != 0 && packet.id != 1 ==> r matches Ok(None),
{
    // StatusRequest and StatusResponse are 0x00, PingRequest and
    // PongResponse 0x01.
    if packet.id == 0 {
        let body = encode_body(response)?;
        Ok(Some(EncodedPacket::new(0, body)))
    } else if packet.id == 1 {
        let ping: PingRequest = decode_body(packet)?;
        let pong = PongResponse { payload: ping.payload };
        let body = encode_body(&pong)?;
        Ok(Some(EncodedPacket::new(1, body)))
    } else {
        Ok(None)
    }
}

/// The protocol number status pings show.
pub const STATUS_PROTOCOL_VERSION: i32 = 0;

/// The message of the day as one text: the first line, a line break, the
/// second line.
pub open spec fn motd_text(config: ServerConfig) -> Seq<char> {
    config.motd.line1@ + seq!['\n'] + config.motd.line2@
}

/// The message of the day as one text.
pub fn motd(config: &ServerConfig) -> (s: String)
    ensures
        s@ == motd_text(*config),
{
    let mut s = config.motd.line1.clone();
    let newline = "\n";
    proof {
        reveal_strlit("\n");
    }
    s.append(newline);
    s.append(config.motd.line2.as_str());
    s
}

/// The server list answer: this game version and protocol number, the
/// configured player cap, `players_online` with no sample of names,
/// `description` (the JSON text of the message-of-the-day component), the
/// configured favicon, and secure chat not enforced.
pub fn server_ping_response(config: &ServerConfig, players_online: u32, description: String) -> (r:
    ServerPingResponse)
    ensures
        r.version.name@ == MINECRAFT_VERSION@,
        r.version.protocol == STATUS_PROTOCOL_VERSION,
        r.players.max == config.server.max_players,
        r.players.online == players_online,
        r.players.sample@.len() == 0,
        r.description == description,
        r.favicon == config.motd.favicon,
        r.enforce_secure_chat == Some(false),
{
    let favicon = match &config.motd.favicon {
        Some(f) => Some(f.clone()),
        None => None,
    };
    ServerPingResponse {
        version: ServerPingVersion {
            name: String::from_str(MINECRAFT_VERSION),
            protocol: STATUS_PROTOCOL_VERSION,
        },
        players: ServerPingPlayers {
            max: config.server.max_players,
            online: players_online,
            sample: Vec::new(),
        },
        description,
        favicon,
        enforce_secure_chat: Some(false),
    }
}

/// What the connection does with one inbound packet.
#[derive(Debug)]
pub enum Dispatch {
    /// Move to this state; nothing is sent.
    Enter(ProtocolState),
    /// Send this packet, if there is one, and stay.
    Reply(Option<EncodedPacket>),
    /// Run the login sequence with this packet as its first.
    Login,
    /// Close the connection.
    Close,
}

/// The connection's step on `packet` in `state`: the handshake leads to
/// the state it asks for, a status-state packet is answered (`response`
/// being the server list answer), a login-state packet starts the login
/// sequence, and a packet in the configuration or play state, which their
/// own loops read, closes the connection.
pub fn dispatch(state: ProtocolState, packet: &DecodedPacket, response: &StatusResponse) -> (r: Result<
    Dispatch,
    ConnectionError,
>)
    ensures
        state == ProtocolState::Handshake ==> {
            &&& packet.id != 0 ==> r == Err::<Dispatch, ConnectionError>(
                ConnectionError::UnexpectedPacket { expected: 0, got: packet.id },
            )
            &&& packet.id == 0 ==> match HandshakeInt::parse(packet.payload@) {
                Ok((h, _)) => r == Ok::<Dispatch, ConnectionError>(
                    Dispatch::Enter(state_after(h.next_state)),
                ),
                Err(e) => r == Err::<Dispatch, ConnectionError>(ConnectionError::Decode(e)),
            }
        },
        state == ProtocolState::Status ==> {
            &&& packet.id == 0 ==> (r is Ok <==> response.wire().len() <= usize::MAX) && (r matches Ok(
                Dispatch::Reply(Some(p)),
            ) && p.id == 0 && p.payload@ == response.wire() || r is Err)
            &&& packet.id == 1 ==> match PingRequest::parse(packet.payload@) {
                Ok((ping, _)) => r matches Ok(Dispatch::Reply(Some(p))) && p.id == 1 && p.payload@ == (
                PongResponse { payload: ping.payload }).wire(),
                Err(e) => r == Err::<Dispatch, ConnectionError>(ConnectionError::Decode(e)),
            }
            &&& packet.id != 0 && packet.id != 1 ==> r matches Ok(Dispatch::Reply(None))
        },
        state == ProtocolState::Login ==> r matches Ok(Dispatch::Login),
        state == ProtocolState::Configuration || state == ProtocolState::Play ==> r matches Ok(
            Dispatch::Close,
        ),
{
    match state {
        ProtocolState::Handshake => {
            let next = handle_handshake(packet)?;
            Ok(Dispatch::Enter(next))
        },
        ProtocolState::Status => {
            let reply = route_status(packet, response)?;
            Ok(Dispatch::Reply(reply))
        },
        ProtocolState::Login => Ok(Dispatch::Login),
        ProtocolState::Configuration => Ok(Dispatch::Close),
        ProtocolState::Play => Ok(Dispatch::Close),
    }
}

/// What the login state does after the first packet.
#[derive(Debug)]
pub enum LoginStep {
    /// Send a login disconnect with this reason and stay in login.
    Disconnect(String),
    /// Send `set_compression` (when there is one) and turn compression on
    /// at `threshold`, send `success`, then wait for the acknowledgement.
    Proceed {
        set_compression: Option<EncodedPacket>,
        threshold: i32,
        success: EncodedPacket,
        username: String,
        uuid: Uuid,
    },
}

/// The reason given when the first login packet is not `LoginStart`.
pub open spec fn expected_login_start() -> Seq<char> {
    "Expected LoginStart."@
}

/// The reason given when online mode is on, which needs the session
/// server and is not supported.
pub open spec fn online_mode_unsupported() -> Seq<char> {
    "PigeonMC online-mode is not yet implemented. Set online_mode=false in your config."@
}

/// In the login state, the first packet: it must be `LoginStart`; with
/// online mode off the server answers with an optional `SetCompression`
/// (when the threshold is not negative) and `LoginSuccess` carrying the
/// player's name and UUID with no properties.
pub fn login_start(packet: &DecodedPacket, online_mode: bool, compression_threshold: i32) -> (r: Result<
    LoginStep,
    ConnectionError,
>)
    ensures
        packet.id != 0 ==> (r matches Ok(LoginStep::Disconnect(reason)) && reason@
            == expected_login_start()),
        packet.id == 0 ==> match LoginStart::parse(packet.payload@) {
            Err(e) => r == Err::<LoginStep, ConnectionError>(ConnectionError::Decode(e)),
            Ok(((name, uuid), _)) => if online_mode {
                r matches Ok(LoginStep::Disconnect(reason)) && reason@ == online_mode_unsupported()
            } else if login_success_wire(uuid, name).len() > usize::MAX {
                r matches Err(e) && e is Encode
            } else {
                r matches Ok(
                    LoginStep::Proceed { set_compression, threshold, success, username, uuid: u },
                ) && threshold == compression_threshold && username@ == name && u == uuid && (
                compression_threshold >= 0 ==> (set_compression matches Some(p) && p.id == 3
                    && p.payload@ == (SetCompression { threshold: compression_threshold }).wire()))
                    && (compression_threshold < 0 ==> set_compression is None) && success.id == 2
                    && success.payload@ == login_success_wire(uuid, name)
            },
        },
{
    // LoginStart is 0x00, SetCompression 0x03, LoginSuccess 0x02.
    if packet.id != 0 {
        let reason = String::from_str("Expected LoginStart.");
        return Ok(LoginStep::Disconnect(reason));
    }
    let start: LoginStart = decode_body(packet)?;
    if online_mode {
        let reason = String::from_str(
            "PigeonMC online-mode is not yet implemented. Set online_mode=false in your config.",
        );
        return Ok(LoginStep::Disconnect(reason));
    }
    let set_compression = if compression_threshold >= 0 {
        let body = encode_body(&SetCompression { threshold: compression_threshold })?;
        Some(EncodedPacket::new(3, body))
    } else {
        None
    };
    let username = start.name.clone();
    let success_packet = LoginSuccess { uuid: start.uuid, username: start.name, properties: Vec::new() };
    proof {
        assert(success_packet.wire() == login_success_wire(start.uuid, start.name@));
    }
    let success = EncodedPacket::new(2, encode_body(&success_packet)?);
    Ok(LoginStep::Proceed { set_compression, threshold: compression_threshold, success, username, uuid: start.uuid })
}

/// The body of a `LoginSuccess` for `uuid` and `name`, with no properties.
pub open spec fn login_success_wire(uuid: Uuid, name: Seq<char>) -> Seq<u8> {
    crate::uuid::uuid_bytes(uuid) + crate::protocol::ser::string_wire(name)
        + crate::protocol::ser::var_int_wire(0)
}

/// Whether `packet` is the client's `LoginAcknowledged`, which ends the
/// login state; anything else is ignored while waiting for it.
pub fn is_login_acknowledged(packet: &DecodedPacket) -> (b: bool)
    ensures
        b <==> packet.id == 3,
{
    // LoginAcknowledged is 0x03.
    packet.id == 3
}

} // verus!
