//! Login-state packets.
//!
//! | Direction | Id   | Packet               |
//! |-----------|------|----------------------|
//! | C → S     | 0x00 | `LoginStart`         |
//! | S → C     | 0x00 | `DisconnectLogin`    |
//! | S → C     | 0x01 | `EncryptionRequest`  |
//! | C → S     | 0x01 | `EncryptionResponse` |
//! | S → C     | 0x02 | `LoginSuccess`       |
//! | C → S     | 0x02 | `LoginPluginResponse`|
//! | S → C     | 0x03 | `SetCompression`     |
//! | C → S     | 0x03 | `LoginAcknowledged`  |
//! | S → C     | 0x04 | `LoginPluginRequest` |
//! | C → S     | 0x04 | `CookieResponse`     |
//! | S → C     | 0x05 | `CookieRequest`      |
use vstd::prelude::*;
use crate::buffer::{ByteReader, ByteWriter, prefix_of};
use crate::uuid::{Uuid, uuid_bytes};
use super::ser::{
    PacketDecode, PacketEncode, PacketSerError, advanced, bool_field, bool_to, bool_wire,
    bytes_to, concat_wire, get_bool_field, get_prefixed_bytes, get_rest, got, lemma_arrived,
    lemma_concat_wire_empty, lemma_concat_wire_step, lemma_next, prefixed_bytes_field,
    prefixed_bytes_to, prefixed_bytes_wire, read_string, read_uuid, read_var_int_buf, rest_field,
    string_field, string_to, string_wire, u8_to, uuid_field, uuid_to, var_int_field, var_int_to,
    var_int_wire,
};

verus! {

/// The client's name and UUID.
#[derive(Debug, Clone)]
pub struct LoginStart {
    pub name: String,
    pub uuid: Uuid,
}

impl View for LoginStart {
    type V = (Seq<char>, Uuid);

    open spec fn view(&self) -> (Seq<char>, Uuid) {
        (self.name@, self.uuid)
    }
}

impl PacketDecode for LoginStart {
    const ID: i32 = 0x00;

    /// A name of at most 16 bytes, then the UUID.
    open spec fn parse(s: Seq<u8>) -> Result<((Seq<char>, Uuid), nat), PacketSerError> {
        match string_field(s, 16) {
            Err(e) => Err(e),
            Ok((name, n1)) => match uuid_field(s.skip(n1 as int)) {
                Err(e) => Err(e),
                Ok((id, n2)) => Ok(((name, id), n1 + n2)),
            },
        }
    }

    open spec fn readable(s: Seq<u8>) -> bool {
        true
    }

    fn decode(buf: &mut ByteReader) -> (r: Result<Self, PacketSerError>) {
        let ghost s = buf@;
        let name = read_string(buf, 16)?;
        let uuid = read_uuid(buf)?;
        proof {
            let n1 = string_field(s, 16)->Ok_0.1;
            assert(buf@ =~= s.skip((n1 + 16) as int));
        }
        Ok(LoginStart { name, uuid })
    }
}

/// The server's public key and a token the client must send back
/// encrypted.
#[derive(Debug, Clone)]
pub struct EncryptionRequest {
    pub server_id: String,
    pub public_key: Vec<u8>,
    pub verify_token: Vec<u8>,
    pub should_authenticate: bool,
}

impl PacketEncode for EncryptionRequest {
    const ID: i32 = 0x01;

    open spec fn wire(&self) -> Seq<u8> {
        string_wire(self.server_id@) + prefixed_bytes_wire(self.public_key@) + prefixed_bytes_wire(
            self.verify_token@,
        ) + bool_wire(self.should_authenticate)
    }

    open spec fn wire_ok(&self) -> bool {
        true
    }

    fn encode(&self, buf: &mut ByteWriter) -> (r: Result<(), PacketSerError>) {
        let ghost w0 = *buf;
        let ghost t = buf@ + self.wire();
        let ghost a = string_wire(self.server_id@);
        let ghost b = prefixed_bytes_wire(self.public_key@);
        let ghost c = prefixed_bytes_wire(self.verify_token@);
        let ghost d = bool_wire(self.should_authenticate);
        proof {
            lemma_next(buf@, a, b + c + d, t);
        }
        string_to(buf, self.server_id.as_str(), Ghost(t), Ghost(true))?;
        proof {
            lemma_next(buf@, b, c + d, t);
        }
        prefixed_bytes_to(buf, self.public_key.as_slice(), Ghost(t), Ghost(true))?;
        proof {
            lemma_next(buf@, c, d, t);
        }
        prefixed_bytes_to(buf, self.verify_token.as_slice(), Ghost(t), Ghost(true))?;
        proof {
            lemma_next(buf@, d, Seq::empty(), t);
        }
        bool_to(buf, self.should_authenticate, Ghost(t), Ghost(true))?;
        proof {
            lemma_arrived(w0, *buf, self.wire(), true);
        }
        Ok(())
    }
}

/// The shared secret and verify token, both encrypted with the server's key.
#[derive(Debug, Clone)]
pub struct EncryptionResponse {
    pub shared_secret: Vec<u8>,
    pub verify_token: Vec<u8>,
}

impl View for EncryptionResponse {
    type V = (Seq<u8>, Seq<u8>);

    open spec fn view(&self) -> (Seq<u8>, Seq<u8>) {
        (self.shared_secret@, self.verify_token@)
    }
}

impl PacketDecode for EncryptionResponse {
    const ID: i32 = 0x01;

    /// Two byte arrays, each after its VarInt length.
    open spec fn parse(s: Seq<u8>) -> Result<((Seq<u8>, Seq<u8>), nat), PacketSerError> {
        match prefixed_bytes_field(s) {
            Err(e) => Err(e),
            Ok((secret, n1)) => match prefixed_bytes_field(s.skip(n1 as int)) {
                Err(e) => Err(e),
                Ok((token, n2)) => Ok(((secret, token), n1 + n2)),
            },
        }
    }

    open spec fn readable(s: Seq<u8>) -> bool {
        true
    }

    fn decode(buf: &mut ByteReader) -> (r: Result<Self, PacketSerError>) {
        let ghost s = buf@;
        let shared_secret = get_prefixed_bytes(buf)?;
        let verify_token = get_prefixed_bytes(buf)?;
        proof {
            let n1 = prefixed_bytes_field(s)->Ok_0.1;
            let n2 = prefixed_bytes_field(s.skip(n1 as int))->Ok_0.1;
            assert(buf@ =~= s.skip((n1 + n2) as int));
        }
        Ok(EncryptionResponse { shared_secret, verify_token })
    }
}

/// A signed profile property.
#[derive(Debug, Clone)]
pub struct Property {
    pub name: String,
    pub value: String,
    pub signature: Option<String>,
}

/// The bytes of an optional string after its presence flag.
pub open spec fn opt_string_wire(s: Option<String>) -> Seq<u8> {
    match s {
        Some(x) => string_wire(x@),
        None => Seq::empty(),
    }
}

/// The bytes of a property: name, value, a signature flag, the signature.
pub open spec fn property_wire(p: Property) -> Seq<u8> {
    string_wire(p.name@) + string_wire(p.value@) + bool_wire(p.signature is Some) + opt_string_wire(
        p.signature,
    )
}

/// A property is written field by field in the order name, value,
/// signature: first the name as a string, then the value as a string, then
/// a byte that is 1 exactly when it is signed, then the signature if any.
pub proof fn lemma_property_wire_fields(p: Property)
    ensures
        ({
            let w = property_wire(p);
            let n = string_wire(p.name@).len() as int;
            let v = string_wire(p.value@).len() as int;
            &&& w.take(n) == string_wire(p.name@)
            &&& w.subrange(n, n + v) == string_wire(p.value@)
            &&& w[n + v] == (if p.signature is Some {
                1u8
            } else {
                0u8
            })
            &&& w.skip(n + v + 1) == match p.signature {
                Some(s) => string_wire(s@),
                None => Seq::<u8>::empty(),
            }
        }),
{
    let a = string_wire(p.name@);
    let b = string_wire(p.value@);
    let c = bool_wire(p.signature is Some);
    let d = opt_string_wire(p.signature);
    let w = property_wire(p);
    assert(w =~= a + b + c + d);
    assert(w.take(a.len() as int) =~= a);
    assert(w.subrange(a.len() as int, (a.len() + b.len()) as int) =~= b);
    assert(w[(a.len() + b.len()) as int] == c[0]);
    assert(w.skip((a.len() + b.len() + 1) as int) =~= d);
}

/// `property_wire` as a function value.
pub open spec fn property_wire_fn() -> spec_fn(Property) -> Seq<u8> {
    |p: Property| property_wire(p)
}

fn property_to(buf: &mut ByteWriter, p: &Property, Ghost(t): Ghost<Seq<u8>>) -> (r: Result<(), PacketSerError>)
    requires
        prefix_of(old(buf)@ + property_wire(*p), t),
    ensures
        advanced(*old(buf), *final(buf), property_wire(*p), t, true, r),
{
    let ghost w0 = *buf;
    let ghost a = string_wire(p.name@);
    let ghost b = string_wire(p.value@);
    let ghost c = bool_wire(p.signature is Some);
    let ghost d = opt_string_wire(p.signature);
    let ghost rest = t.skip((w0@ + property_wire(*p)).len() as int);
    proof {
        assert(t =~= w0@ + property_wire(*p) + rest);
        lemma_next(buf@, a, b + c + d + rest, t);
    }
    string_to(buf, p.name.as_str(), Ghost(t), Ghost(true))?;
    proof {
        lemma_next(buf@, b, c + d + rest, t);
    }
    string_to(buf, p.value.as_str(), Ghost(t), Ghost(true))?;
    proof {
        lemma_next(buf@, c, d + rest, t);
    }
    bool_to(buf, p.signature.is_some(), Ghost(t), Ghost(true))?;
    match &p.signature {
        Some(sig) => {
            proof {
                lemma_next(buf@, d, rest, t);
            }
            string_to(buf, sig.as_str(), Ghost(t), Ghost(true))?;
        },
        None => {},
    }
    proof {
        assert(buf@ =~= w0@ + property_wire(*p));
    }
    Ok(())
}

/// The end of login: the player's UUID, name and profile properties.
#[derive(Debug, Clone)]
pub struct LoginSuccess {
    pub uuid: Uuid,
    pub username: String,
    pub properties: Vec<Property>,
}

impl PacketEncode for LoginSuccess {
    const ID: i32 = 0x02;

    open spec fn wire(&self) -> Seq<u8> {
        uuid_bytes(self.uuid) + string_wire(self.username@) + var_int_wire(
            self.properties@.len() as i32,
        ) + concat_wire(self.properties@, property_wire_fn())
    }

    open spec fn wire_ok(&self) -> bool {
        true
    }

    fn encode(&self, buf: &mut ByteWriter) -> (r: Result<(), PacketSerError>) {
        let ghost w0 = *buf;
        let ghost t = buf@ + self.wire();
        let ghost props = self.properties@;
        let ghost f = property_wire_fn();
        let ghost a = uuid_bytes(self.uuid);
        let ghost b = string_wire(self.username@);
        let ghost c = var_int_wire(props.len() as i32);
        proof {
            lemma_next(buf@, a, b + c + concat_wire(props, f), t);
        }
        uuid_to(buf, self.uuid, Ghost(t), Ghost(true))?;
        proof {
            lemma_next(buf@, b, c + concat_wire(props, f), t);
        }
        string_to(buf, self.username.as_str(), Ghost(t), Ghost(true))?;
        proof {
            lemma_next(buf@, c, concat_wire(props, f), t);
        }
        var_int_to(buf, self.properties.len() as i32, Ghost(t), Ghost(true))?;
        let ghost base = buf@;
        proof {
            lemma_concat_wire_empty(props, f);
            assert(base + concat_wire(props.take(0), f) =~= base);
        }
        let mut i: usize = 0;
        while i < self.properties.len()
            invariant
                i <= props.len(),
                props == self.properties@,
                f == property_wire_fn(),
                w0 == *old(buf),
                t == w0@ + self.wire(),
                base == w0@ + (a + b + c),
                a == uuid_bytes(self.uuid),
                b == string_wire(self.username@),
                c == var_int_wire(props.len() as i32),
                buf@ == base + concat_wire(props.take(i as int), f),
                buf.capacity() == w0.capacity(),
                buf@.len() - w0@.len() <= w0.room(),
            decreases props.len() - i,
        {
            proof {
                lemma_concat_wire_step(props, f, i as int);
                lemma_next(
                    buf@,
                    property_wire(props[i as int]),
                    concat_wire(props.skip(i + 1), f),
                    t,
                );
            }
            property_to(buf, &self.properties[i], Ghost(t))?;
            i = i + 1;
        }
        proof {
            lemma_concat_wire_empty(props, f);
            lemma_arrived(w0, *buf, self.wire(), true);
        }
        Ok(())
    }
}

/// Turns on compression for packets of at least `threshold` bytes.
#[derive(Debug, Clone, Copy, PartialEq, Eq, Structural)]
pub struct SetCompression {
    pub threshold: i32,
}

impl PacketEncode for SetCompression {
    const ID: i32 = 0x03;

    open spec fn wire(&self) -> Seq<u8> {
        var_int_wire(self.threshold)
    }

    open spec fn wire_ok(&self) -> bool {
        true
    }

    fn encode(&self, buf: &mut ByteWriter) -> (r: Result<(), PacketSerError>) {
        let ghost w0 = *buf;
        let ghost t = buf@ + self.wire();
        proof {
            lemma_next(buf@, self.wire(), Seq::empty(), t);
        }
        var_int_to(buf, self.threshold, Ghost(t), Ghost(true))?;
        proof {
            lemma_arrived(w0, *buf, self.wire(), true);
        }
        Ok(())
    }
}

/// Ends the login with a JSON reason.
#[derive(Debug, Clone)]
pub struct DisconnectLogin {
    pub reason_json: String,
}

impl PacketEncode for DisconnectLogin {
    const ID: i32 = 0x00;

    open spec fn wire(&self) -> Seq<u8> {
        string_wire(self.reason_json@)
    }

    open spec fn wire_ok(&self) -> bool {
        true
    }

    fn encode(&self, buf: &mut ByteWriter) -> (r: Result<(), PacketSerError>) {
        let ghost w0 = *buf;
        let ghost t = buf@ + self.wire();
        proof {
            lemma_next(buf@, self.wire(), Seq::empty(), t);
        }
        string_to(buf, self.reason_json.as_str(), Ghost(t), Ghost(true))?;
        proof {
            lemma_arrived(w0, *buf, self.wire(), true);
        }
        Ok(())
    }
}

/// The client's acknowledgement of `LoginSuccess`: an empty body.
#[derive(Debug, Clone, Copy, Default, PartialEq, Eq, Structural)]
pub struct LoginAcknowledged;

impl View for LoginAcknowledged {
    type V = LoginAcknowledged;

    open spec fn view(&self) -> LoginAcknowledged {
        *self
    }
}

impl PacketDecode for LoginAcknowledged {
    const ID: i32 = 0x03;

    open spec fn parse(s: Seq<u8>) -> Result<(LoginAcknowledged, nat), PacketSerError> {
        Ok((LoginAcknowledged, 0))
    }

    open spec fn readable(s: Seq<u8>) -> bool {
        true
    }

    fn decode(buf: &mut ByteReader) -> (r: Result<Self, PacketSerError>) {
        proof {
            assert(buf@.skip(0) =~= buf@);
        }
        Ok(LoginAcknowledged)
    }
}

/// The bytes of an optional plugin payload: a marker, then the payload.
pub open spec fn plugin_data_wire(d: Option<Vec<u8>>) -> Seq<u8> {
    match d {
        Some(x) => seq![1u8] + x@,
        None => seq![0u8],
    }
}

/// A plugin message during login.
#[derive(Debug, Clone)]
pub struct LoginPluginRequest {
    /// Server-chosen id the response carries back.
    pub message_id: i32,
    /// Channel identifier, such as `minecraft:brand`.
    pub channel: String,
    /// The payload; `None` writes a zero marker and no payload.
    pub data: Option<Vec<u8>>,
}

impl PacketEncode for LoginPluginRequest {
    const ID: i32 = 0x04;

    open spec fn wire(&self) -> Seq<u8> {
        var_int_wire(self.message_id) + string_wire(self.channel@) + plugin_data_wire(self.data)
    }

    open spec fn wire_ok(&self) -> bool {
        true
    }

    fn encode(&self, buf: &mut ByteWriter) -> (r: Result<(), PacketSerError>) {
        let ghost w0 = *buf;
        let ghost t = buf@ + self.wire();
        let ghost a = var_int_wire(self.message_id);
        let ghost b = string_wire(self.channel@);
        let ghost c = plugin_data_wire(self.data);
        proof {
            lemma_next(buf@, a, b + c, t);
        }
        var_int_to(buf, self.message_id, Ghost(t), Ghost(true))?;
        proof {
            lemma_next(buf@, b, c, t);
        }
        string_to(buf, self.channel.as_str(), Ghost(t), Ghost(true))?;
        match &self.data {
            Some(data) => {
                proof {
                    lemma_next(buf@, seq![1u8], data@, t);
                }
                u8_to(buf, 1, Ghost(t), Ghost(true))?;
                proof {
                    lemma_next(buf@, data@, Seq::empty(), t);
                }
                bytes_to(buf, data.as_slice(), Ghost(t), Ghost(true))?;
            },
            None => {
                proof {
                    lemma_next(buf@, seq![0u8], Seq::empty(), t);
                }
                u8_to(buf, 0, Ghost(t), Ghost(true))?;
            },
        }
        proof {
            lemma_arrived(w0, *buf, self.wire(), true);
        }
        Ok(())
    }
}

/// The client's answer to a login plugin message.
#[derive(Debug, Clone)]
pub struct LoginPluginResponse {
    /// The request's `message_id`.
    pub message_id: i32,
    /// Whether the client understood the channel.
    pub successful: bool,
    /// The rest of the body.
    pub data: Vec<u8>,
}

impl View for LoginPluginResponse {
    type V = (i32, bool, Seq<u8>);

    open spec fn view(&self) -> (i32, bool, Seq<u8>) {
        (self.message_id, self.successful, self.data@)
    }
}

impl PacketDecode for LoginPluginResponse {
    const ID: i32 = 0x02;

    /// A VarInt message id, a boolean, then all that is left as data.
    open spec fn parse(s: Seq<u8>) -> Result<((i32, bool, Seq<u8>), nat), PacketSerError> {
        match var_int_field(s) {
            Err(e) => Err(e),
            Ok((id, n1)) => match bool_field(s.skip(n1 as int)) {
                Err(e) => Err(e),
                Ok((ok, n2)) => Ok(((id, ok, s.skip(n1 as int).skip(n2 as int)), s.len())),
            },
        }
    }

    open spec fn readable(s: Seq<u8>) -> bool {
        true
    }

    fn decode(buf: &mut ByteReader) -> (r: Result<Self, PacketSerError>) {
        let ghost s = buf@;
        let message_id = read_var_int_buf(buf)?;
        let successful = get_bool_field(buf)?;
        let data = get_rest(buf)?;
        proof {
            assert(buf@ =~= s.skip(s.len() as int));
        }
        Ok(LoginPluginResponse { message_id, successful, data })
    }
}

/// Asks the client for a stored cookie.
#[derive(Debug, Clone)]
pub struct CookieRequest {
    /// Cookie key, a resource location.
    pub key: String,
}

impl PacketEncode for CookieRequest {
    const ID: i32 = 0x05;

    open spec fn wire(&self) -> Seq<u8> {
        string_wire(self.key@)
    }

    open spec fn wire_ok(&self) -> bool {
        true
    }

    fn encode(&self, buf: &mut ByteWriter) -> (r: Result<(), PacketSerError>) {
        let ghost w0 = *buf;
        let ghost t = buf@ + self.wire();
        proof {
            lemma_next(buf@, self.wire(), Seq::empty(), t);
        }
        string_to(buf, self.key.as_str(), Ghost(t), Ghost(true))?;
        proof {
            lemma_arrived(w0, *buf, self.wire(), true);
        }
        Ok(())
    }
}

/// The client's answer to a cookie request.
#[derive(Debug, Clone)]
pub struct CookieResponse {
    /// The request's key.
    pub key: String,
    /// Whether the client holds the cookie.
    pub has_cookies: bool,
    /// The cookie, when the client holds it.
    pub payload: Vec<u8>,
}

impl View for CookieResponse {
    type V = (Seq<char>, bool, Seq<u8>);

    open spec fn view(&self) -> (Seq<char>, bool, Seq<u8>) {
        (self.key@, self.has_cookies, self.payload@)
    }
}

/// How a cookie response reads: the key, a flag, and when the flag is set
/// the cookie after its VarInt length.
pub open spec fn cookie_response_parse(s: Seq<u8>) -> Result<((Seq<char>, bool, Seq<u8>), nat), PacketSerError> {
    match string_field(s, 32767) {
        Err(e) => Err(e),
        Ok((key, n1)) => match bool_field(s.skip(n1 as int)) {
            Err(e) => Err(e),
            Ok((present, n2)) => if present {
                match prefixed_bytes_field(s.skip(n1 as int).skip(n2 as int)) {
                    Err(e) => Err(e),
                    Ok((payload, n3)) => Ok(((key, true, payload), n1 + n2 + n3)),
                }
            } else {
                Ok(((key, false, Seq::empty()), n1 + n2))
            },
        },
    }
}

/// Reads a cookie response body.
pub(crate) fn read_cookie_response(buf: &mut ByteReader) -> (r: Result<(String, bool, Vec<u8>), PacketSerError>)
    ensures
        match cookie_response_parse(old(buf)@) {
            Ok((v, n)) => (r matches Ok(x) && (x.0@, x.1, x.2@) == v) && n <= old(buf)@.len()
                && final(buf)@ == old(buf)@.skip(n as int),
            Err(e) => r matches Err(x) && x == e,
        },
{
    let ghost s = buf@;
    let key = read_string(buf, 32767)?;
    let has_cookies = get_bool_field(buf)?;
    let ghost n1 = string_field(s, 32767)->Ok_0.1;
    if has_cookies {
        let payload = get_prefixed_bytes(buf)?;
        proof {
            let n3 = prefixed_bytes_field(s.skip(n1 as int).skip(1))->Ok_0.1;
            assert(buf@ =~= s.skip((n1 + 1 + n3) as int));
        }
        Ok((key, true, payload))
    } else {
        proof {
            assert(buf@ =~= s.skip((n1 + 1) as int));
        }
        Ok((key, false, Vec::new()))
    }
}

impl PacketDecode for CookieResponse {
    const ID: i32 = 0x04;

    open spec fn parse(s: Seq<u8>) -> Result<((Seq<char>, bool, Seq<u8>), nat), PacketSerError> {
        cookie_response_parse(s)
    }

    open spec fn readable(s: Seq<u8>) -> bool {
        true
    }

    fn decode(buf: &mut ByteReader) -> (r: Result<Self, PacketSerError>) {
        let (key, has_cookies, payload) = read_cookie_response(buf)?;
        Ok(CookieResponse { key, has_cookies, payload })
    }
}

} // verus!
