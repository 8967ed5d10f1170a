//! Configuration-state packets: registries, tags, resource packs and the
//! client's settings, between login and play.
//!
//! Clientbound: 0x00 `CookieRequest`, 0x01 `CustomPayload`, 0x02
//! `Disconnect`, 0x03 `FinishConfiguration`, 0x04 `KeepAlive`, 0x05 `Ping`,
//! 0x06 `ResetChat`, 0x07 `RegistryData`, 0x08 `ResourcePackPop`, 0x09
//! `ResourcePackPush`, 0x0A `StoreCookie`, 0x0B `Transfer`, 0x0C
//! `UpdateEnabledFeatures`, 0x0D `UpdateTags`, 0x0E `SelectKnownPacks`, 0x0F
//! `CustomReportDetails`, 0x10 `ServerLinks`, 0x11 `ClearDialog`, 0x12
//! `ShowDialog`, 0x13 `CodeOfConduct`.
//!
//! Serverbound: 0x00 `ClientInformation`, 0x01 `CookieResponse`, 0x02
//! `CustomPayloadResponse`, 0x03 `FinishConfigurationAck`, 0x04
//! `KeepAliveAck`, 0x05 `Pong`, 0x06 `ResourcePackStatus`, 0x07
//! `SelectKnownPacksAck`, 0x08 `CustomClickAction`, 0x09
//! `AcceptCodeOfConduct`.
use vstd::prelude::*;
use crate::buffer::{ByteReader, ByteWriter, prefix_of, stopped, u64_be, writes};
use crate::nbt::decode::root_parse;
use crate::nbt::NbtReader;
use crate::nbt::{NbtCompound, NbtData};
use crate::nbt::encode::{root_bytes, root_ok};
use crate::uuid::{Uuid, uuid_bytes};
use crate::registry::codec::{RegistryCodec, RegistryCodecError, RegistryFault, registry_ok, registry_wire};
use super::ser::{
    PacketDecode, PacketEncode, PacketSerError, advanced, bool_field, bool_to, bool_wire,
    bytes_to, concat_wire, get_bool_field, get_prefixed_bytes, get_rest, get_u64_field,
    get_u8_field, got, lemma_arrived, lemma_concat_wire_empty, lemma_concat_wire_step,
    lemma_list_next, lemma_next, nbt_root_to, prefixed_bytes_field, prefixed_bytes_to,
    prefixed_bytes_wire, read_string, read_uuid, read_var_int_buf, rest_field, string_field,
    string_to, string_wire, u64_field, u64_to, u8_field, u8_to, uuid_field, uuid_to,
    var_int_field, var_int_to, var_int_wire,
};
use super::login::{cookie_response_parse, read_cookie_response};

verus! {

// ===========================================================================
// Clientbound
// ===========================================================================

/// Asks the client for a stored cookie.
#[derive(Debug, Clone)]
pub struct CookieRequest {
    pub key: String,
}

impl PacketEncode for CookieRequest {
    const ID: i32 = 0x00;

    open spec fn wire(&self) -> Seq<u8> {
        string_wire(self.key@)
    }

    open spec fn wire_ok(&self) -> bool {
        true
    }

    fn encode(&self, buf: &mut ByteWriter) -> (r: Result<(), PacketSerError>) {
        let ghost w0 = *buf;
        let ghost t = buf@ + self.wire();
        proof {
            lemma_next(buf@, self.wire(), Seq::empty(), t);
        }
        string_to(buf, self.key.as_str(), Ghost(t), Ghost(true))?;
        proof {
            lemma_arrived(w0, *buf, self.wire(), true);
        }
        Ok(())
    }
}

/// A plugin message on a channel: the channel, then the raw data.
#[derive(Debug, Clone)]
pub struct CustomPayload {
    pub channel: String,
    pub data: Vec<u8>,
}

impl PacketEncode for CustomPayload {
    const ID: i32 = 0x01;

    open spec fn wire(&self) -> Seq<u8> {
        string_wire(self.channel@) + self.data@
    }

    open spec fn wire_ok(&self) -> bool {
        true
    }

    fn encode(&self, buf: &mut ByteWriter) -> (r: Result<(), PacketSerError>) {
        let ghost w0 = *buf;
        let ghost t = buf@ + self.wire();
        proof {
            lemma_next(buf@, string_wire(self.channel@), self.data@, t);
        }
        string_to(buf, self.channel.as_str(), Ghost(t), Ghost(true))?;
        proof {
            lemma_next(buf@, self.data@, Seq::empty(), t);
        }
        bytes_to(buf, self.data.as_slice(), Ghost(t), Ghost(true))?;
        proof {
            lemma_arrived(w0, *buf, self.wire(), true);
        }
        Ok(())
    }
}

/// Disconnects the client with a JSON reason.
#[derive(Debug, Clone)]
pub struct Disconnect {
    pub reason_json: String,
}

impl PacketEncode for Disconnect {
    const ID: i32 = 0x02;

    open spec fn wire(&self) -> Seq<u8> {
        string_wire(self.reason_json@)
    }

    open spec fn wire_ok(&self) -> bool {
        true
    }

    fn encode(&self, buf: &mut ByteWriter) -> (r: Result<(), PacketSerError>) {
        let ghost w0 = *buf;
        let ghost t = buf@ + self.wire();
        proof {
            lemma_next(buf@, self.wire(), Seq::empty(), t);
        }
        string_to(buf, self.reason_json.as_str(), Ghost(t), Ghost(true))?;
        proof {
            lemma_arrived(w0, *buf, self.wire(), true);
        }
        Ok(())
    }
}

/// Ends configuration; the client answers with `FinishConfigurationAck`.
#[derive(Debug, Clone, Copy, Default, PartialEq, Eq, Structural)]
pub struct FinishConfiguration;

impl PacketEncode for FinishConfiguration {
    const ID: i32 = 0x03;

    open spec fn wire(&self) -> Seq<u8> {
        Seq::empty()
    }

    open spec fn wire_ok(&self) -> bool {
        true
    }

    fn encode(&self, buf: &mut ByteWriter) -> (r: Result<(), PacketSerError>) {
        proof {
            lemma_arrived(*buf, *buf, self.wire(), true);
        }
        Ok(())
    }
}

/// A keep-alive ping; the client echoes its payload.
#[derive(Debug, Clone, Copy, PartialEq, Eq, Structural)]
pub struct KeepAlive {
    pub payload: u64,
}

impl PacketEncode for KeepAlive {
    const ID: i32 = 0x04;

    open spec fn wire(&self) -> Seq<u8> {
        u64_be(self.payload)
    }

    open spec fn wire_ok(&self) -> bool {
        true
    }

    fn encode(&self, buf: &mut ByteWriter) -> (r: Result<(), PacketSerError>) {
        let ghost w0 = *buf;
        let ghost t = buf@ + self.wire();
        proof {
            lemma_next(buf@, self.wire(), Seq::empty(), t);
        }
        u64_to(buf, self.payload, Ghost(t), Ghost(true))?;
        proof {
            lemma_arrived(w0, *buf, self.wire(), true);
        }
        Ok(())
    }
}

/// A ping; the client echoes its payload in a `Pong`.
#[derive(Debug, Clone, Copy, PartialEq, Eq, Structural)]
pub struct Ping {
    pub payload: i32,
}

impl PacketEncode for Ping {
    const ID: i32 = 0x05;

    open spec fn wire(&self) -> Seq<u8> {
        var_int_wire(self.payload)
    }

    open spec fn wire_ok(&self) -> bool {
        true
    }

    fn encode(&self, buf: &mut ByteWriter) -> (r: Result<(), PacketSerError>) {
        let ghost w0 = *buf;
        let ghost t = buf@ + self.wire();
        proof {
            lemma_next(buf@, self.wire(), Seq::empty(), t);
        }
        var_int_to(buf, self.payload, Ghost(t), Ghost(true))?;
        proof {
            lemma_arrived(w0, *buf, self.wire(), true);
        }
        Ok(())
    }
}

/// Tells the client to reset its chat state.
#[derive(Debug, Clone, Copy, Default, PartialEq, Eq, Structural)]
pub struct ResetChat;

impl PacketEncode for ResetChat {
    const ID: i32 = 0x06;

    open spec fn wire(&self) -> Seq<u8> {
        Seq::empty()
    }

    open spec fn wire_ok(&self) -> bool {
        true
    }

    fn encode(&self, buf: &mut ByteWriter) -> (r: Result<(), PacketSerError>) {
        proof {
            lemma_arrived(*buf, *buf, self.wire(), true);
        }
        Ok(())
    }
}

/// One registry's contents, already in their wire form.
#[derive(Debug, Clone)]
pub struct RegistryData {
    /// The body that follows the packet id.
    pub body: Vec<u8>,
}

/// How a registry codec error reads as a packet error: room is room, and
/// anything about the contents is an invalid value.
pub open spec fn registry_error_kind(f: RegistryFault) -> PacketSerError {
    match f {
        RegistryFault::Underflow => PacketSerError::Underflow,
        RegistryFault::Overflow => PacketSerError::Overflow,
        _ => PacketSerError::InvalidValue,
    }
}

fn registry_codec_err_to_packet_ser(err: RegistryCodecError) -> (e: PacketSerError)
    ensures
        e == registry_error_kind(err@),
{
    match err {
        RegistryCodecError::Underflow => PacketSerError::Underflow,
        RegistryCodecError::Overflow => PacketSerError::Overflow,
        RegistryCodecError::InvalidEntryCount(_) => PacketSerError::InvalidValue,
        RegistryCodecError::UnexpectedRootName { .. } => PacketSerError::InvalidValue,
        RegistryCodecError::NbtDecode(_) => PacketSerError::InvalidValue,
        RegistryCodecError::NbtEncode(_) => PacketSerError::InvalidValue,
        RegistryCodecError::VarInt(_) => PacketSerError::InvalidValue,
        RegistryCodecError::Identifier(_) => PacketSerError::InvalidValue,
    }
}

impl RegistryData {
    /// The packet carrying `codec`, encoded into a fresh buffer. It fails
    /// with `InvalidValue` where an entry's NBT cannot be written, and with
    /// `Overflow` where the body would not fit in memory.
    pub fn from_codec(codec: &RegistryCodec) -> (r: Result<Self, PacketSerError>)
        ensures
            r is Ok <==> registry_ok(codec@) && registry_wire(codec@).len() <= usize::MAX,
            r matches Ok(p) ==> p.body@ == registry_wire(codec@),
            r matches Err(e) ==> e == PacketSerError::Overflow || e == PacketSerError::InvalidValue,
    {
        let mut buf = ByteWriter::new();
        match codec.encode(&mut buf) {
            Ok(()) => Ok(RegistryData { body: buf.into_vec() }),
            Err(e) => Err(registry_codec_err_to_packet_ser(e)),
        }
    }

    /// The packet carrying an already encoded registry body.
    pub fn from_bytes(body: Vec<u8>) -> (p: Self)
        ensures
            p.body@ == body@,
    {
        RegistryData { body }
    }
}

impl PacketEncode for RegistryData {
    const ID: i32 = 0x07;

    open spec fn wire(&self) -> Seq<u8> {
        self.body@
    }

    open spec fn wire_ok(&self) -> bool {
        true
    }

    fn encode(&self, buf: &mut ByteWriter) -> (r: Result<(), PacketSerError>) {
        let ghost w0 = *buf;
        let ghost t = buf@ + self.wire();
        proof {
            lemma_next(buf@, self.wire(), Seq::empty(), t);
        }
        bytes_to(buf, self.body.as_slice(), Ghost(t), Ghost(true))?;
        proof {
            lemma_arrived(w0, *buf, self.wire(), true);
        }
        Ok(())
    }
}

/// Removes a pushed resource pack, or all of them when `uuid` is `None`.
#[derive(Debug, Clone, Copy, PartialEq, Eq, Structural)]
pub struct ResourcePackPop {
    pub uuid: Option<Uuid>,
}

impl PacketEncode for ResourcePackPop {
    const ID: i32 = 0x08;

    open spec fn wire(&self) -> Seq<u8> {
        match self.uuid {
            Some(u) => seq![1u8] + uuid_bytes(u),
            None => seq![0u8],
        }
    }

    open spec fn wire_ok(&self) -> bool {
        true
    }

    fn encode(&self, buf: &mut ByteWriter) -> (r: Result<(), PacketSerError>) {
        let ghost w0 = *buf;
        let ghost t = buf@ + self.wire();
        match self.uuid {
            Some(uuid) => {
                proof {
                    lemma_next(buf@, seq![1u8], uuid_bytes(uuid), t);
                }
                u8_to(buf, 1, Ghost(t), Ghost(true))?;
                proof {
                    lemma_next(buf@, uuid_bytes(uuid), Seq::empty(), t);
                }
                uuid_to(buf, uuid, Ghost(t), Ghost(true))?;
            },
            None => {
                proof {
                    lemma_next(buf@, seq![0u8], Seq::empty(), t);
                }
                u8_to(buf, 0, Ghost(t), Ghost(true))?;
            },
        }
        proof {
            lemma_arrived(w0, *buf, self.wire(), true);
        }
        Ok(())
    }
}

/// The bytes of an optional NBT compound after its presence flag.
pub open spec fn opt_nbt_wire(c: Option<NbtCompound>) -> Seq<u8> {
    match c {
        Some(x) => seq![1u8] + root_bytes(Seq::empty(), x@),
        None => seq![0u8],
    }
}

/// Whether an optional NBT compound can be written.
pub open spec fn opt_nbt_ok(c: Option<NbtCompound>) -> bool {
    match c {
        Some(x) => root_ok(Seq::empty(), x@),
        None => true,
    }
}

/// Pushes a resource pack to the client.
#[derive(Debug)]
pub struct ResourcePackPush {
    pub uuid: Uuid,
    pub url: String,
    pub hash: String,
    /// Whether the client must accept the pack.
    pub forced: bool,
    /// The prompt, a text component as an NBT compound.
    pub prompt_message: Option<NbtCompound>,
}

impl PacketEncode for ResourcePackPush {
    const ID: i32 = 0x09;

    open spec fn wire(&self) -> Seq<u8> {
        uuid_bytes(self.uuid) + string_wire(self.url@) + string_wire(self.hash@) + bool_wire(
            self.forced,
        ) + opt_nbt_wire(self.prompt_message)
    }

    open spec fn wire_ok(&self) -> bool {
        opt_nbt_ok(self.prompt_message)
    }

    #[verifier::rlimit(40)]
    fn encode(&self, buf: &mut ByteWriter) -> (r: Result<(), PacketSerError>) {
        let ghost w0 = *buf;
        let ghost t = buf@ + self.wire();
        let ghost ok = self.wire_ok();
        let ghost a = uuid_bytes(self.uuid);
        let ghost b = string_wire(self.url@);
        let ghost c = string_wire(self.hash@);
        let ghost d = bool_wire(self.forced);
        let ghost e = opt_nbt_wire(self.prompt_message);
        proof {
            lemma_next(buf@, a, b + c + d + e, t);
        }
        uuid_to(buf, self.uuid, Ghost(t), Ghost(ok))?;
        proof {
            lemma_next(buf@, b, c + d + e, t);
        }
        string_to(buf, self.url.as_str(), Ghost(t), Ghost(ok))?;
        proof {
            lemma_next(buf@, c, d + e, t);
        }
        string_to(buf, self.hash.as_str(), Ghost(t), Ghost(ok))?;
        proof {
            lemma_next(buf@, d, e, t);
        }
        bool_to(buf, self.forced, Ghost(t), Ghost(ok))?;
        match &self.prompt_message {
            Some(compound) => {
                proof {
                    lemma_next(buf@, seq![1u8], root_bytes(Seq::empty(), compound@), t);
                }
                u8_to(buf, 1, Ghost(t), Ghost(ok))?;
                proof {
                    lemma_next(buf@, root_bytes(Seq::empty(), compound@), Seq::empty(), t);
                }
                nbt_root_to(buf, compound, Ghost(t), Ghost(ok))?;
            },
            None => {
                proof {
                    lemma_next(buf@, seq![0u8], Seq::empty(), t);
                }
                u8_to(buf, 0, Ghost(t), Ghost(ok))?;
            },
        }
        proof {
            lemma_arrived(w0, *buf, self.wire(), ok);
        }
        Ok(())
    }
}

/// Asks the client to keep a cookie under `key`.
#[derive(Debug, Clone)]
pub struct StoreCookie {
    pub key: String,
    pub value: Vec<u8>,
}

impl PacketEncode for StoreCookie {
    const ID: i32 = 0x0A;

    open spec fn wire(&self) -> Seq<u8> {
        string_wire(self.key@) + prefixed_bytes_wire(self.value@)
    }

    open spec fn wire_ok(&self) -> bool {
        true
    }

    fn encode(&self, buf: &mut ByteWriter) -> (r: Result<(), PacketSerError>) {
        let ghost w0 = *buf;
        let ghost t = buf@ + self.wire();
        proof {
            lemma_next(buf@, string_wire(self.key@), prefixed_bytes_wire(self.value@), t);
        }
        string_to(buf, self.key.as_str(), Ghost(t), Ghost(true))?;
        proof {
            lemma_next(buf@, prefixed_bytes_wire(self.value@), Seq::empty(), t);
        }
        prefixed_bytes_to(buf, self.value.as_slice(), Ghost(t), Ghost(true))?;
        proof {
            lemma_arrived(w0, *buf, self.wire(), true);
        }
        Ok(())
    }
}

/// Sends the client on to another server.
#[derive(Debug, Clone)]
pub struct Transfer {
    pub host: String,
    pub port: u16,
}

impl PacketEncode for Transfer {
    const ID: i32 = 0x0B;

    open spec fn wire(&self) -> Seq<u8> {
        string_wire(self.host@) + var_int_wire(self.port as i32)
    }

    open spec fn wire_ok(&self) -> bool {
        true
    }

    fn encode(&self, buf: &mut ByteWriter) -> (r: Result<(), PacketSerError>) {
        let ghost w0 = *buf;
        let ghost t = buf@ + self.wire();
        proof {
            lemma_next(buf@, string_wire(self.host@), var_int_wire(self.port as i32), t);
        }
        string_to(buf, self.host.as_str(), Ghost(t), Ghost(true))?;
        proof {
            lemma_next(buf@, var_int_wire(self.port as i32), Seq::empty(), t);
        }
        var_int_to(buf, self.port as i32, Ghost(t), Ghost(true))?;
        proof {
            lemma_arrived(w0, *buf, self.wire(), true);
        }
        Ok(())
    }
}

/// The bytes of a string list item.
pub open spec fn string_item_fn() -> spec_fn(String) -> Seq<u8> {
    |s: String| string_wire(s@)
}

pub(crate) fn strings_to(buf: &mut ByteWriter, items: &Vec<String>, Ghost(t): Ghost<Seq<u8>>, Ghost(ok): Ghost<bool>) -> (r: Result<(), PacketSerError>)
    requires
        prefix_of(old(buf)@ + concat_wire(items@, string_item_fn()), t),
    ensures
        advanced(*old(buf), *final(buf), concat_wire(items@, string_item_fn()), t, ok, r),
{
    let ghost w0 = *buf;
    let ghost f = string_item_fn();
    proof {
        lemma_concat_wire_empty(items@, f);
        assert(w0@ + concat_wire(items@.take(0), f) =~= w0@);
    }
    let mut i: usize = 0;
    while i < items.len()
        invariant
            i <= items@.len(),
            f == string_item_fn(),
            w0 == *old(buf),
            prefix_of(w0@ + concat_wire(items@, f), t),
            buf@ == w0@ + concat_wire(items@.take(i as int), f),
            buf.capacity() == w0.capacity(),
            buf@.len() - w0@.len() <= w0.room(),
        decreases items@.len() - i,
    {
        proof {
            lemma_list_next(w0@, items@, f, i as int, t);
            lemma_concat_wire_step(items@, f, i as int);
        }
        string_to(buf, items[i].as_str(), Ghost(t), Ghost(ok))?;
        proof {
            assert(buf@ =~= w0@ + concat_wire(items@.take(i + 1), f));
        }
        i = i + 1;
    }
    proof {
        lemma_concat_wire_empty(items@, f);
    }
    Ok(())
}

/// The feature flags the server has on.
#[derive(Debug, Clone, Default)]
pub struct UpdateEnabledFeatures {
    pub features: Vec<String>,
}

impl PacketEncode for UpdateEnabledFeatures {
    const ID: i32 = 0x0C;

    open spec fn wire(&self) -> Seq<u8> {
        var_int_wire(self.features@.len() as i32) + concat_wire(self.features@, string_item_fn())
    }

    open spec fn wire_ok(&self) -> bool {
        true
    }

    fn encode(&self, buf: &mut ByteWriter) -> (r: Result<(), PacketSerError>) {
        let ghost w0 = *buf;
        let ghost t = buf@ + self.wire();
        let ghost items = concat_wire(self.features@, string_item_fn());
        proof {
            lemma_next(buf@, var_int_wire(self.features@.len() as i32), items, t);
        }
        var_int_to(buf, self.features.len() as i32, Ghost(t), Ghost(true))?;
        proof {
            lemma_next(buf@, items, Seq::empty(), t);
        }
        strings_to(buf, &self.features, Ghost(t), Ghost(true))?;
        proof {
            lemma_arrived(w0, *buf, self.wire(), true);
        }
        Ok(())
    }
}

/// A named list of protocol ids within a tag registry.
#[derive(Debug, Clone)]
pub struct Tag {
    pub name: String,
    pub entries: Vec<i32>,
}

/// The tags of one registry.
#[derive(Debug, Clone)]
pub struct TagRegistry {
    pub registry: String,
    pub tags: Vec<Tag>,
}

/// Every tag registry at once.
#[derive(Debug, Clone, Default)]
pub struct UpdateTags {
    pub registries: Vec<TagRegistry>,
}

/// The bytes of a VarInt list item.
pub open spec fn var_int_item_fn() -> spec_fn(i32) -> Seq<u8> {
    |v: i32| var_int_wire(v)
}

/// The bytes of a tag: name, entry count, entries.
pub open spec fn tag_wire(t: Tag) -> Seq<u8> {
    string_wire(t.name@) + var_int_wire(t.entries@.len() as i32) + concat_wire(
        t.entries@,
        var_int_item_fn(),
    )
}

/// `tag_wire` as a function value.
pub open spec fn tag_item_fn() -> spec_fn(Tag) -> Seq<u8> {
    |t: Tag| tag_wire(t)
}

/// The bytes of a tag registry: name, tag count, tags.
pub open spec fn tag_registry_wire(r: TagRegistry) -> Seq<u8> {
    string_wire(r.registry@) + var_int_wire(r.tags@.len() as i32) + concat_wire(
        r.tags@,
        tag_item_fn(),
    )
}

/// `tag_registry_wire` as a function value.
pub open spec fn tag_registry_item_fn() -> spec_fn(TagRegistry) -> Seq<u8> {
    |r: TagRegistry| tag_registry_wire(r)
}

fn var_ints_to(buf: &mut ByteWriter, items: &Vec<i32>, Ghost(t): Ghost<Seq<u8>>, Ghost(ok): Ghost<bool>) -> (r: Result<(), PacketSerError>)
    requires
        prefix_of(old(buf)@ + concat_wire(items@, var_int_item_fn()), t),
    ensures
        advanced(*old(buf), *final(buf), concat_wire(items@, var_int_item_fn()), t, ok, r),
{
    let ghost w0 = *buf;
    let ghost f = var_int_item_fn();
    proof {
        lemma_concat_wire_empty(items@, f);
        assert(w0@ + concat_wire(items@.take(0), f) =~= w0@);
    }
    let mut i: usize = 0;
    while i < items.len()
        invariant
            i <= items@.len(),
            f == var_int_item_fn(),
            w0 == *old(buf),
            prefix_of(w0@ + concat_wire(items@, f), t),
            buf@ == w0@ + concat_wire(items@.take(i as int), f),
            buf.capacity() == w0.capacity(),
            buf@.len() - w0@.len() <= w0.room(),
        decreases items@.len() - i,
    {
        proof {
            lemma_list_next(w0@, items@, f, i as int, t);
            lemma_concat_wire_step(items@, f, i as int);
        }
        var_int_to(buf, items[i], Ghost(t), Ghost(ok))?;
        proof {
            assert(buf@ =~= w0@ + concat_wire(items@.take(i + 1), f));
        }
        i = i + 1;
    }
    proof {
        lemma_concat_wire_empty(items@, f);
    }
    Ok(())
}

fn tag_to(buf: &mut ByteWriter, tag: &Tag, Ghost(t): Ghost<Seq<u8>>, Ghost(ok): Ghost<bool>) -> (r: Result<(), PacketSerError>)
    requires
        prefix_of(old(buf)@ + tag_wire(*tag), t),
    ensures
        advanced(*old(buf), *final(buf), tag_wire(*tag), t, ok, r),
{
    let ghost w0 = *buf;
    let ghost a = string_wire(tag.name@);
    let ghost b = var_int_wire(tag.entries@.len() as i32);
    let ghost c = concat_wire(tag.entries@, var_int_item_fn());
    let ghost rest = t.skip((w0@ + tag_wire(*tag)).len() as int);
    proof {
        assert(t =~= w0@ + tag_wire(*tag) + rest);
        lemma_next(buf@, a, b + c + rest, t);
    }
    string_to(buf, tag.name.as_str(), Ghost(t), Ghost(ok))?;
    proof {
        lemma_next(buf@, b, c + rest, t);
    }
    var_int_to(buf, tag.entries.len() as i32, Ghost(t), Ghost(ok))?;
    proof {
        lemma_next(buf@, c, rest, t);
    }
    var_ints_to(buf, &tag.entries, Ghost(t), Ghost(ok))?;
    proof {
        assert(buf@ =~= w0@ + tag_wire(*tag));
    }
    Ok(())
}

fn tags_to(buf: &mut ByteWriter, items: &Vec<Tag>, Ghost(t): Ghost<Seq<u8>>, Ghost(ok): Ghost<bool>) -> (r: Result<(), PacketSerError>)
    requires
        prefix_of(old(buf)@ + concat_wire(items@, tag_item_fn()), t),
    ensures
        advanced(*old(buf), *final(buf), concat_wire(items@, tag_item_fn()), t, ok, r),
{
    let ghost w0 = *buf;
    let ghost f = tag_item_fn();
    proof {
        lemma_concat_wire_empty(items@, f);
        assert(w0@ + concat_wire(items@.take(0), f) =~= w0@);
    }
    let mut i: usize = 0;
    while i < items.len()
        invariant
            i <= items@.len(),
            f == tag_item_fn(),
            w0 == *old(buf),
            prefix_of(w0@ + concat_wire(items@, f), t),
            buf@ == w0@ + concat_wire(items@.take(i as int), f),
            buf.capacity() == w0.capacity(),
            buf@.len() - w0@.len() <= w0.room(),
        decreases items@.len() - i,
    {
        proof {
            lemma_list_next(w0@, items@, f, i as int, t);
            lemma_concat_wire_step(items@, f, i as int);
        }
        tag_to(buf, &items[i], Ghost(t), Ghost(ok))?;
        proof {
            assert(buf@ =~= w0@ + concat_wire(items@.take(i + 1), f));
        }
        i = i + 1;
    }
    proof {
        lemma_concat_wire_empty(items@, f);
    }
    Ok(())
}

fn tag_registry_to(buf: &mut ByteWriter, reg: &TagRegistry, Ghost(t): Ghost<Seq<u8>>, Ghost(ok): Ghost<bool>) -> (r: Result<(), PacketSerError>)
    requires
        prefix_of(old(buf)@ + tag_registry_wire(*reg), t),
    ensures
        advanced(*old(buf), *final(buf), tag_registry_wire(*reg), t, ok, r),
{
    let ghost w0 = *buf;
    let ghost a = string_wire(reg.registry@);
    let ghost b = var_int_wire(reg.tags@.len() as i32);
    let ghost c = concat_wire(reg.tags@, tag_item_fn());
    let ghost rest = t.skip((w0@ + tag_registry_wire(*reg)).len() as int);
    proof {
        assert(t =~= w0@ + tag_registry_wire(*reg) + rest);
        lemma_next(buf@, a, b + c + rest, t);
    }
    string_to(buf, reg.registry.as_str(), Ghost(t), Ghost(ok))?;
    proof {
        lemma_next(buf@, b, c + rest, t);
    }
    var_int_to(buf, reg.tags.len() as i32, Ghost(t), Ghost(ok))?;
    proof {
        lemma_next(buf@, c, rest, t);
    }
    tags_to(buf, &reg.tags, Ghost(t), Ghost(ok))?;
    proof {
        assert(buf@ =~= w0@ + tag_registry_wire(*reg));
    }
    Ok(())
}

impl PacketEncode for UpdateTags {
    const ID: i32 = 0x0D;

    open spec fn wire(&self) -> Seq<u8> {
        var_int_wire(self.registries@.len() as i32) + concat_wire(
            self.registries@,
            tag_registry_item_fn(),
        )
    }

    open spec fn wire_ok(&self) -> bool {
        true
    }

    fn encode(&self, buf: &mut ByteWriter) -> (r: Result<(), PacketSerError>) {
        let ghost w0 = *buf;
        let ghost t = buf@ + self.wire();
        let ghost f = tag_registry_item_fn();
        let ghost items = self.registries@;
        proof {
            lemma_next(buf@, var_int_wire(items.len() as i32), concat_wire(items, f), t);
        }
        var_int_to(buf, self.registries.len() as i32, Ghost(t), Ghost(true))?;
        let ghost base = buf@;
        proof {
            lemma_next(buf@, concat_wire(items, f), Seq::empty(), t);
            lemma_concat_wire_empty(items, f);
            assert(base + concat_wire(items.take(0), f) =~= base);
        }
        let mut i: usize = 0;
        while i < self.registries.len()
            invariant
                i <= items.len(),
                items == self.registries@,
                f == tag_registry_item_fn(),
                w0 == *old(buf),
                t == w0@ + self.wire(),
                prefix_of(base + concat_wire(items, f), t),
                base == w0@ + var_int_wire(items.len() as i32),
                buf@ == base + concat_wire(items.take(i as int), f),
                buf.capacity() == w0.capacity(),
                buf@.len() - w0@.len() <= w0.room(),
            decreases items.len() - i,
        {
            proof {
                lemma_list_next(base, items, f, i as int, t);
                lemma_concat_wire_step(items, f, i as int);
            }
            tag_registry_to(buf, &self.registries[i], Ghost(t), Ghost(true))?;
            proof {
                assert(buf@ =~= base + concat_wire(items.take(i + 1), f));
            }
            i = i + 1;
        }
        proof {
            lemma_concat_wire_empty(items, f);
            lemma_arrived(w0, *buf, self.wire(), true);
        }
        Ok(())
    }
}


/// A data pack the server knows: namespace, id, version.
#[derive(Debug, Clone)]
pub struct KnownPack {
    pub namespace: String,
    pub id: String,
    pub version: String,
}

/// The bytes of a known pack: its three strings.
pub open spec fn known_pack_wire(p: KnownPack) -> Seq<u8> {
    string_wire(p.namespace@) + string_wire(p.id@) + string_wire(p.version@)
}

/// `known_pack_wire` as a function value.
pub open spec fn known_pack_item_fn() -> spec_fn(KnownPack) -> Seq<u8> {
    |p: KnownPack| known_pack_wire(p)
}

fn known_pack_to(buf: &mut ByteWriter, p: &KnownPack, Ghost(t): Ghost<Seq<u8>>) -> (r: Result<(), PacketSerError>)
    requires
        prefix_of(old(buf)@ + known_pack_wire(*p), t),
    ensures
        advanced(*old(buf), *final(buf), known_pack_wire(*p), t, true, r),
{
    let ghost w0 = *buf;
    let ghost a = string_wire(p.namespace@);
    let ghost b = string_wire(p.id@);
    let ghost c = string_wire(p.version@);
    let ghost rest = t.skip((w0@ + known_pack_wire(*p)).len() as int);
    proof {
        assert(t =~= w0@ + known_pack_wire(*p) + rest);
        lemma_next(buf@, a, b + c + rest, t);
    }
    string_to(buf, p.namespace.as_str(), Ghost(t), Ghost(true))?;
    proof {
        lemma_next(buf@, b, c + rest, t);
    }
    string_to(buf, p.id.as_str(), Ghost(t), Ghost(true))?;
    proof {
        lemma_next(buf@, c, rest, t);
    }
    string_to(buf, p.version.as_str(), Ghost(t), Ghost(true))?;
    proof {
        assert(buf@ =~= w0@ + known_pack_wire(*p));
    }
    Ok(())
}

/// Asks the client which of these packs it has.
#[derive(Debug, Clone, Default)]
pub struct SelectKnownPacks {
    pub packs: Vec<KnownPack>,
}

impl PacketEncode for SelectKnownPacks {
    const ID: i32 = 0x0E;

    open spec fn wire(&self) -> Seq<u8> {
        var_int_wire(self.packs@.len() as i32) + concat_wire(self.packs@, known_pack_item_fn())
    }

    open spec fn wire_ok(&self) -> bool {
        true
    }

    fn encode(&self, buf: &mut ByteWriter) -> (r: Result<(), PacketSerError>) {
        let ghost w0 = *buf;
        let ghost t = buf@ + self.wire();
        let ghost f = known_pack_item_fn();
        let ghost items = self.packs@;
        proof {
            lemma_next(buf@, var_int_wire(items.len() as i32), concat_wire(items, f), t);
        }
        var_int_to(buf, self.packs.len() as i32, Ghost(t), Ghost(true))?;
        let ghost base = buf@;
        proof {
            lemma_next(buf@, concat_wire(items, f), Seq::empty(), t);
            lemma_concat_wire_empty(items, f);
            assert(base + concat_wire(items.take(0), f) =~= base);
        }
        let mut i: usize = 0;
        while i < self.packs.len()
            invariant
                i <= items.len(),
                items == self.packs@,
                f == known_pack_item_fn(),
                w0 == *old(buf),
                t == w0@ + self.wire(),
                prefix_of(base + concat_wire(items, f), t),
                base == w0@ + var_int_wire(items.len() as i32),
                buf@ == base + concat_wire(items.take(i as int), f),
                buf.capacity() == w0.capacity(),
                buf@.len() - w0@.len() <= w0.room(),
            decreases items.len() - i,
        {
            proof {
                lemma_list_next(base, items, f, i as int, t);
                lemma_concat_wire_step(items, f, i as int);
            }
            known_pack_to(buf, &self.packs[i], Ghost(t))?;
            proof {
                assert(buf@ =~= base + concat_wire(items.take(i + 1), f));
            }
            i = i + 1;
        }
        proof {
            lemma_concat_wire_empty(items, f);
            lemma_arrived(w0, *buf, self.wire(), true);
        }
        Ok(())
    }
}

/// One key and value of the custom report details.
#[derive(Debug, Clone)]
pub struct CustomReportEntry {
    pub key: String,
    pub value: String,
}

/// The bytes of a report entry: key, value.
pub open spec fn report_entry_wire(e: CustomReportEntry) -> Seq<u8> {
    string_wire(e.key@) + string_wire(e.value@)
}

/// `report_entry_wire` as a function value.
pub open spec fn report_entry_item_fn() -> spec_fn(CustomReportEntry) -> Seq<u8> {
    |e: CustomReportEntry| report_entry_wire(e)
}

fn report_entry_to(buf: &mut ByteWriter, e: &CustomReportEntry, Ghost(t): Ghost<Seq<u8>>) -> (r: Result<(), PacketSerError>)
    requires
        prefix_of(old(buf)@ + report_entry_wire(*e), t),
    ensures
        advanced(*old(buf), *final(buf), report_entry_wire(*e), t, true, r),
{
    let ghost w0 = *buf;
    let ghost a = string_wire(e.key@);
    let ghost b = string_wire(e.value@);
    let ghost rest = t.skip((w0@ + report_entry_wire(*e)).len() as int);
    proof {
        assert(t =~= w0@ + report_entry_wire(*e) + rest);
        lemma_next(buf@, a, b + rest, t);
    }
    string_to(buf, e.key.as_str(), Ghost(t), Ghost(true))?;
    proof {
        lemma_next(buf@, b, rest, t);
    }
    string_to(buf, e.value.as_str(), Ghost(t), Ghost(true))?;
    proof {
        assert(buf@ =~= w0@ + report_entry_wire(*e));
    }
    Ok(())
}

/// Details the client attaches to its crash and telemetry reports.
#[derive(Debug, Clone, Default)]
pub struct CustomReportDetails {
    pub details: Vec<CustomReportEntry>,
}

impl PacketEncode for CustomReportDetails {
    const ID: i32 = 0x0F;

    open spec fn wire(&self) -> Seq<u8> {
        var_int_wire(self.details@.len() as i32) + concat_wire(self.details@, report_entry_item_fn())
    }

    open spec fn wire_ok(&self) -> bool {
        true
    }

    fn encode(&self, buf: &mut ByteWriter) -> (r: Result<(), PacketSerError>) {
        let ghost w0 = *buf;
        let ghost t = buf@ + self.wire();
        let ghost f = report_entry_item_fn();
        let ghost items = self.details@;
        proof {
            lemma_next(buf@, var_int_wire(items.len() as i32), concat_wire(items, f), t);
        }
        var_int_to(buf, self.details.len() as i32, Ghost(t), Ghost(true))?;
        let ghost base = buf@;
        proof {
            lemma_next(buf@, concat_wire(items, f), Seq::empty(), t);
            lemma_concat_wire_empty(items, f);
            assert(base + concat_wire(items.take(0), f) =~= base);
        }
        let mut i: usize = 0;
        while i < self.details.len()
            invariant
                i <= items.len(),
                items == self.details@,
                f == report_entry_item_fn(),
                w0 == *old(buf),
                t == w0@ + self.wire(),
                prefix_of(base + concat_wire(items, f), t),
                base == w0@ + var_int_wire(items.len() as i32),
                buf@ == base + concat_wire(items.take(i as int), f),
                buf.capacity() == w0.capacity(),
                buf@.len() - w0@.len() <= w0.room(),
            decreases items.len() - i,
        {
            proof {
                lemma_list_next(base, items, f, i as int, t);
                lemma_concat_wire_step(items, f, i as int);
            }
            report_entry_to(buf, &self.details[i], Ghost(t))?;
            proof {
                assert(buf@ =~= base + concat_wire(items.take(i + 1), f));
            }
            i = i + 1;
        }
        proof {
            lemma_concat_wire_empty(items, f);
            lemma_arrived(w0, *buf, self.wire(), true);
        }
        Ok(())
    }
}

/// The server link kinds the client knows by number.
#[derive(Debug, Clone, Copy, PartialEq, Eq, Structural)]
pub enum ServerLinkKind {
    BugReport,
    CommunityGuidelines,
    Support,
    Status,
    Feedback,
    Community,
    Website,
    Forums,
    News,
    Announcements,
}

/// The wire number of a link kind.
pub open spec fn link_kind_id(k: ServerLinkKind) -> i32 {
    match k {
        ServerLinkKind::BugReport => 0,
        ServerLinkKind::CommunityGuidelines => 1,
        ServerLinkKind::Support => 2,
        ServerLinkKind::Status => 3,
        ServerLinkKind::Feedback => 4,
        ServerLinkKind::Community => 5,
        ServerLinkKind::Website => 6,
        ServerLinkKind::Forums => 7,
        ServerLinkKind::News => 8,
        ServerLinkKind::Announcements => 9,
    }
}

impl ServerLinkKind {
    /// The wire number of this kind.
    pub fn id(self) -> (v: i32)
        ensures
            v == link_kind_id(self),
    {
        match self {
            ServerLinkKind::BugReport => 0,
            ServerLinkKind::CommunityGuidelines => 1,
            ServerLinkKind::Support => 2,
            ServerLinkKind::Status => 3,
            ServerLinkKind::Feedback => 4,
            ServerLinkKind::Community => 5,
            ServerLinkKind::Website => 6,
            ServerLinkKind::Forums => 7,
            ServerLinkKind::News => 8,
            ServerLinkKind::Announcements => 9,
        }
    }
}

/// A link's label: a known kind, or a text component as an NBT compound.
#[derive(Debug)]
pub enum ServerLinkLabel {
    Known(ServerLinkKind),
    Unknown(NbtCompound),
}

/// A labelled link.
#[derive(Debug)]
pub struct ServerLink {
    pub label: ServerLinkLabel,
    pub url: String,
}

/// The bytes of a link label: 1 and the kind's number, or 0 and the NBT.
pub open spec fn link_label_wire(l: ServerLinkLabel) -> Seq<u8> {
    match l {
        ServerLinkLabel::Known(k) => seq![1u8] + var_int_wire(link_kind_id(k)),
        ServerLinkLabel::Unknown(c) => seq![0u8] + root_bytes(Seq::empty(), c@),
    }
}

/// Whether a link's label can be written.
pub open spec fn link_ok(l: ServerLink) -> bool {
    match l.label {
        ServerLinkLabel::Known(_) => true,
        ServerLinkLabel::Unknown(c) => root_ok(Seq::empty(), c@),
    }
}

/// The bytes of a link: label, URL.
pub open spec fn link_wire(l: ServerLink) -> Seq<u8> {
    link_label_wire(l.label) + string_wire(l.url@)
}

/// `link_wire` as a function value.
pub open spec fn link_item_fn() -> spec_fn(ServerLink) -> Seq<u8> {
    |l: ServerLink| link_wire(l)
}

fn link_to(buf: &mut ByteWriter, l: &ServerLink, Ghost(t): Ghost<Seq<u8>>, Ghost(ok): Ghost<bool>) -> (r: Result<(), PacketSerError>)
    requires
        prefix_of(old(buf)@ + link_wire(*l), t),
        ok ==> link_ok(*l),
    ensures
        final(buf).capacity() == old(buf).capacity(),
        r is Ok ==> final(buf)@ == old(buf)@ + link_wire(*l) && link_wire(*l).len() <= old(
            buf,
        ).room() && link_ok(*l),
        r is Err ==> stopped(*old(buf), *final(buf), t, ok),
{
    let ghost w0 = *buf;
    let ghost rest = t.skip((w0@ + link_wire(*l)).len() as int);
    proof {
        assert(t =~= w0@ + link_wire(*l) + rest);
    }
    match &l.label {
        ServerLinkLabel::Known(kind) => {
            proof {
                lemma_next(buf@, seq![1u8], var_int_wire(link_kind_id(*kind)) + string_wire(l.url@) + rest, t);
            }
            u8_to(buf, 1, Ghost(t), Ghost(ok))?;
            proof {
                lemma_next(buf@, var_int_wire(link_kind_id(*kind)), string_wire(l.url@) + rest, t);
            }
            var_int_to(buf, kind.id(), Ghost(t), Ghost(ok))?;
        },
        ServerLinkLabel::Unknown(compound) => {
            proof {
                lemma_next(buf@, seq![0u8], root_bytes(Seq::empty(), compound@) + string_wire(l.url@) + rest, t);
            }
            u8_to(buf, 0, Ghost(t), Ghost(ok))?;
            proof {
                lemma_next(buf@, root_bytes(Seq::empty(), compound@), string_wire(l.url@) + rest, t);
            }
            nbt_root_to(buf, compound, Ghost(t), Ghost(ok))?;
        },
    }
    proof {
        lemma_next(buf@, string_wire(l.url@), rest, t);
    }
    string_to(buf, l.url.as_str(), Ghost(t), Ghost(ok))?;
    proof {
        assert(buf@ =~= w0@ + link_wire(*l));
    }
    Ok(())
}

/// Links the client shows, such as where to report bugs.
#[derive(Debug, Default)]
pub struct ServerLinks {
    pub links: Vec<ServerLink>,
}

impl PacketEncode for ServerLinks {
    const ID: i32 = 0x10;

    open spec fn wire(&self) -> Seq<u8> {
        var_int_wire(self.links@.len() as i32) + concat_wire(self.links@, link_item_fn())
    }

    open spec fn wire_ok(&self) -> bool {
        forall|i: int| 0 <= i < self.links@.len() ==> #[trigger] link_ok(self.links@[i])
    }

    fn encode(&self, buf: &mut ByteWriter) -> (r: Result<(), PacketSerError>) {
        let ghost w0 = *buf;
        let ghost t = buf@ + self.wire();
        let ghost ok = self.wire_ok();
        let ghost f = link_item_fn();
        let ghost items = self.links@;
        proof {
            lemma_next(buf@, var_int_wire(items.len() as i32), concat_wire(items, f), t);
        }
        var_int_to(buf, self.links.len() as i32, Ghost(t), Ghost(ok))?;
        let ghost base = buf@;
        proof {
            lemma_next(buf@, concat_wire(items, f), Seq::empty(), t);
            lemma_concat_wire_empty(items, f);
            assert(base + concat_wire(items.take(0), f) =~= base);
        }
        let mut i: usize = 0;
        while i < self.links.len()
            invariant
                i <= items.len(),
                items == self.links@,
                f == link_item_fn(),
                w0 == *old(buf),
                t == w0@ + self.wire(),
                ok == self.wire_ok(),
                prefix_of(base + concat_wire(items, f), t),
                base == w0@ + var_int_wire(items.len() as i32),
                buf@ == base + concat_wire(items.take(i as int), f),
                buf.capacity() == w0.capacity(),
                buf@.len() - w0@.len() <= w0.room(),
                forall|j: int| 0 <= j < i ==> #[trigger] link_ok(items[j]),
            decreases items.len() - i,
        {
            proof {
                lemma_list_next(base, items, f, i as int, t);
                lemma_concat_wire_step(items, f, i as int);
            }
            link_to(buf, &self.links[i], Ghost(t), Ghost(ok))?;
            proof {
                assert(buf@ =~= base + concat_wire(items.take(i + 1), f));
            }
            i = i + 1;
        }
        proof {
            lemma_concat_wire_empty(items, f);
            lemma_arrived(w0, *buf, self.wire(), ok);
        }
        Ok(())
    }
}

/// Closes the dialog the client has open.
#[derive(Debug, Clone, Copy, Default, PartialEq, Eq, Structural)]
pub struct ClearDialog;

impl PacketEncode for ClearDialog {
    const ID: i32 = 0x11;

    open spec fn wire(&self) -> Seq<u8> {
        Seq::empty()
    }

    open spec fn wire_ok(&self) -> bool {
        true
    }

    fn encode(&self, buf: &mut ByteWriter) -> (r: Result<(), PacketSerError>) {
        proof {
            lemma_arrived(*buf, *buf, self.wire(), true);
        }
        Ok(())
    }
}

/// Opens a dialog described by an NBT compound.
#[derive(Debug)]
pub struct ShowDialog {
    pub dialog: NbtCompound,
}

impl PacketEncode for ShowDialog {
    const ID: i32 = 0x12;

    open spec fn wire(&self) -> Seq<u8> {
        root_bytes(Seq::empty(), self.dialog@)
    }

    open spec fn wire_ok(&self) -> bool {
        root_ok(Seq::empty(), self.dialog@)
    }

    fn encode(&self, buf: &mut ByteWriter) -> (r: Result<(), PacketSerError>) {
        let ghost w0 = *buf;
        let ghost t = buf@ + self.wire();
        proof {
            lemma_next(buf@, self.wire(), Seq::empty(), t);
        }
        nbt_root_to(buf, &self.dialog, Ghost(t), Ghost(self.wire_ok()))?;
        proof {
            lemma_arrived(w0, *buf, self.wire(), self.wire_ok());
        }
        Ok(())
    }
}

/// The server's code of conduct, as JSON text.
#[derive(Debug, Clone)]
pub struct CodeOfConduct {
    pub contents: String,
}

impl PacketEncode for CodeOfConduct {
    const ID: i32 = 0x13;

    open spec fn wire(&self) -> Seq<u8> {
        string_wire(self.contents@)
    }

    open spec fn wire_ok(&self) -> bool {
        true
    }

    fn encode(&self, buf: &mut ByteWriter) -> (r: Result<(), PacketSerError>) {
        let ghost w0 = *buf;
        let ghost t = buf@ + self.wire();
        proof {
            lemma_next(buf@, self.wire(), Seq::empty(), t);
        }
        string_to(buf, self.contents.as_str(), Ghost(t), Ghost(true))?;
        proof {
            lemma_arrived(w0, *buf, self.wire(), true);
        }
        Ok(())
    }
}

// ===========================================================================
// Serverbound
// ===========================================================================

/// How the client wants chat shown.
#[derive(Debug, Clone, Copy, PartialEq, Eq, Structural)]
pub enum ChatMode {
    Enabled,
    CommandsOnly,
    Hidden,
}

/// The chat mode a wire number names.
pub open spec fn chat_mode_of(v: i32) -> Option<ChatMode> {
    if v == 0 {
        Some(ChatMode::Enabled)
    } else if v == 1 {
        Some(ChatMode::CommandsOnly)
    } else if v == 2 {
        Some(ChatMode::Hidden)
    } else {
        None
    }
}

/// The player's main hand.
#[derive(Debug, Clone, Copy, PartialEq, Eq, Structural)]
pub enum MainHand {
    Left,
    Right,
}

/// The hand a wire number names.
pub open spec fn main_hand_of(v: i32) -> Option<MainHand> {
    if v == 0 {
        Some(MainHand::Left)
    } else if v == 1 {
        Some(MainHand::Right)
    } else {
        None
    }
}

/// The client's settings.
#[derive(Debug, Clone)]
pub struct ClientInformation {
    pub locale: String,
    pub view_distance: u8,
    pub chat_mode: ChatMode,
    pub chat_colors: bool,
    pub displayed_skin_parts: u8,
    pub main_hand: MainHand,
    pub filter_text: bool,
    pub allow_listing: bool,
}

/// The content of the client's settings.
pub ghost struct ClientInformationView {
    pub locale: Seq<char>,
    pub view_distance: u8,
    pub chat_mode: ChatMode,
    pub chat_colors: bool,
    pub displayed_skin_parts: u8,
    pub main_hand: MainHand,
    pub filter_text: bool,
    pub allow_listing: bool,
}

impl View for ClientInformation {
    type V = ClientInformationView;

    open spec fn view(&self) -> ClientInformationView {
        ClientInformationView {
            locale: self.locale@,
            view_distance: self.view_distance,
            chat_mode: self.chat_mode,
            chat_colors: self.chat_colors,
            displayed_skin_parts: self.displayed_skin_parts,
            main_hand: self.main_hand,
            filter_text: self.filter_text,
            allow_listing: self.allow_listing,
        }
    }
}

/// How the settings read: a locale of at most 16 bytes, the view distance
/// byte, the VarInt chat mode (0 to 2), the chat-colours flag, the skin
/// parts byte, the VarInt main hand (0 or 1), the text-filtering flag and
/// the server-listing flag.
pub open spec fn client_information_parse(s: Seq<u8>) -> Result<(ClientInformationView, nat), PacketSerError> {
    match string_field(s, 16) {
        Err(e) => Err(e),
        Ok((locale, n1)) => {
            let s1 = s.skip(n1 as int);
            match u8_field(s1) {
                Err(e) => Err(e),
                Ok((view_distance, n2)) => {
                    let s2 = s1.skip(n2 as int);
                    match var_int_field(s2) {
                        Err(e) => Err(e),
                        Ok((mode_raw, n3)) => match chat_mode_of(mode_raw) {
                            None => Err(PacketSerError::InvalidValue),
                            Some(chat_mode) => {
                                let s3 = s2.skip(n3 as int);
                                match bool_field(s3) {
                                    Err(e) => Err(e),
                                    Ok((chat_colors, n4)) => {
                                        let s4 = s3.skip(n4 as int);
                                        match u8_field(s4) {
                                            Err(e) => Err(e),
                                            Ok((skin, n5)) => {
                                                let s5 = s4.skip(n5 as int);
                                                match var_int_field(s5) {
                                                    Err(e) => Err(e),
                                                    Ok((hand_raw, n6)) => match main_hand_of(hand_raw) {
                                                        None => Err(PacketSerError::InvalidValue),
                                                        Some(main_hand) => {
                                                            let s6 = s5.skip(n6 as int);
                                                            match bool_field(s6) {
                                                                Err(e) => Err(e),
                                                                Ok((filter_text, n7)) => {
                                                                    let s7 = s6.skip(n7 as int);
                                                                    match bool_field(s7) {
                                                                        Err(e) => Err(e),
                                                                        Ok((allow_listing, n8)) => Ok(
                                                                            (
                                                                                ClientInformationView {
                                                                                    locale,
                                                                                    view_distance,
                                                                                    chat_mode,
                                                                                    chat_colors,
                                                                                    displayed_skin_parts: skin,
                                                                                    main_hand,
                                                                                    filter_text,
                                                                                    allow_listing,
                                                                                },
                                                                                n1 + n2 + n3 + n4 + n5 + n6 + n7 + n8,
                                                                            ),
                                                                        ),
                                                                    }
                                                                },
                                                            }
                                                        },
                                                    },
                                                }
                                            },
                                        }
                                    },
                                }
                            },
                        },
                    }
                },
            }
        },
    }
}

impl PacketDecode for ClientInformation {
    const ID: i32 = 0x00;

    open spec fn parse(s: Seq<u8>) -> Result<(ClientInformationView, nat), PacketSerError> {
        client_information_parse(s)
    }

    open spec fn readable(s: Seq<u8>) -> bool {
        true
    }

    fn decode(buf: &mut ByteReader) -> (r: Result<Self, PacketSerError>) {
        let ghost s = buf@;
        let locale = read_string(buf, 16)?;
        let ghost s1 = buf@;
        let view_distance = get_u8_field(buf)?;
        let ghost s2 = buf@;
        let chat_mode_raw = read_var_int_buf(buf)?;
        let chat_mode = match chat_mode_raw {
            0 => ChatMode::Enabled,
            1 => ChatMode::CommandsOnly,
            2 => ChatMode::Hidden,
            _ => return Err(PacketSerError::InvalidValue),
        };
        let ghost s3 = buf@;
        let chat_colors = get_bool_field(buf)?;
        let ghost s4 = buf@;
        let displayed_skin_parts = get_u8_field(buf)?;
        let ghost s5 = buf@;
        let main_hand_raw = read_var_int_buf(buf)?;
        let main_hand = match main_hand_raw {
            0 => MainHand::Left,
            1 => MainHand::Right,
            _ => return Err(PacketSerError::InvalidValue),
        };
        let ghost s6 = buf@;
        let filter_text = get_bool_field(buf)?;
        let ghost s7 = buf@;
        let allow_listing = get_bool_field(buf)?;
        proof {
            let total = (s.len() - buf@.len()) as int;
            assert(buf@ =~= s.skip(total));
        }
        Ok(ClientInformation {
            locale,
            view_distance,
            chat_mode,
            chat_colors,
            displayed_skin_parts,
            main_hand,
            filter_text,
            allow_listing,
        })
    }
}

/// The client's answer to a cookie request.
#[derive(Debug, Clone)]
pub struct CookieResponse {
    pub key: String,
    pub has_cookies: bool,
    pub payload: Vec<u8>,
}

impl View for CookieResponse {
    type V = (Seq<char>, bool, Seq<u8>);

    open spec fn view(&self) -> (Seq<char>, bool, Seq<u8>) {
        (self.key@, self.has_cookies, self.payload@)
    }
}

impl PacketDecode for CookieResponse {
    const ID: i32 = 0x01;

    open spec fn parse(s: Seq<u8>) -> Result<((Seq<char>, bool, Seq<u8>), nat), PacketSerError> {
        cookie_response_parse(s)
    }

    open spec fn readable(s: Seq<u8>) -> bool {
        true
    }

    fn decode(buf: &mut ByteReader) -> (r: Result<Self, PacketSerError>) {
        let (key, has_cookies, payload) = read_cookie_response(buf)?;
        Ok(CookieResponse { key, has_cookies, payload })
    }
}

/// A plugin message from the client: the channel, then the raw data.
#[derive(Debug, Clone)]
pub struct CustomPayloadResponse {
    pub channel: String,
    pub data: Vec<u8>,
}

impl View for CustomPayloadResponse {
    type V = (Seq<char>, Seq<u8>);

    open spec fn view(&self) -> (Seq<char>, Seq<u8>) {
        (self.channel@, self.data@)
    }
}

impl PacketDecode for CustomPayloadResponse {
    const ID: i32 = 0x02;

    /// The channel string, then all that is left as data.
    open spec fn parse(s: Seq<u8>) -> Result<((Seq<char>, Seq<u8>), nat), PacketSerError> {
        match string_field(s, 32767) {
            Err(e) => Err(e),
            Ok((channel, n)) => Ok(((channel, s.skip(n as int)), s.len())),
        }
    }

    open spec fn readable(s: Seq<u8>) -> bool {
        true
    }

    fn decode(buf: &mut ByteReader) -> (r: Result<Self, PacketSerError>) {
        let ghost s = buf@;
        let channel = read_string(buf, 32767)?;
        let data = get_rest(buf)?;
        proof {
            assert(buf@ =~= s.skip(s.len() as int));
        }
        Ok(CustomPayloadResponse { channel, data })
    }
}

/// The client's acknowledgement of `FinishConfiguration`: an empty body.
#[derive(Debug, Clone, Copy, Default, PartialEq, Eq, Structural)]
pub struct FinishConfigurationAck;

impl View for FinishConfigurationAck {
    type V = FinishConfigurationAck;

    open spec fn view(&self) -> FinishConfigurationAck {
        *self
    }
}

impl PacketDecode for FinishConfigurationAck {
    const ID: i32 = 0x03;

    open spec fn parse(s: Seq<u8>) -> Result<(FinishConfigurationAck, nat), PacketSerError> {
        Ok((FinishConfigurationAck, 0))
    }

    open spec fn readable(s: Seq<u8>) -> bool {
        true
    }

    fn decode(buf: &mut ByteReader) -> (r: Result<Self, PacketSerError>) {
        proof {
            assert(buf@.skip(0) =~= buf@);
        }
        Ok(FinishConfigurationAck)
    }
}

/// The client's echo of a `KeepAlive`.
#[derive(Debug, Clone, Copy, PartialEq, Eq, Structural)]
pub struct KeepAliveAck {
    pub payload: u64,
}

impl View for KeepAliveAck {
    type V = KeepAliveAck;

    open spec fn view(&self) -> KeepAliveAck {
        *self
    }
}

impl PacketDecode for KeepAliveAck {
    const ID: i32 = 0x04;

    open spec fn parse(s: Seq<u8>) -> Result<(KeepAliveAck, nat), PacketSerError> {
        match u64_field(s) {
            Ok((v, n)) => Ok((KeepAliveAck { payload: v }, n)),
            Err(e) => Err(e),
        }
    }

    open spec fn readable(s: Seq<u8>) -> bool {
        true
    }

    fn decode(buf: &mut ByteReader) -> (r: Result<Self, PacketSerError>) {
        let payload = get_u64_field(buf)?;
        Ok(KeepAliveAck { payload })
    }
}

/// The client's echo of a `Ping`.
#[derive(Debug, Clone, Copy, PartialEq, Eq, Structural)]
pub struct Pong {
    pub payload: i32,
}

impl View for Pong {
    type V = Pong;

    open spec fn view(&self) -> Pong {
        *self
    }
}

impl PacketDecode for Pong {
    const ID: i32 = 0x05;

    open spec fn parse(s: Seq<u8>) -> Result<(Pong, nat), PacketSerError> {
        match var_int_field(s) {
            Ok((v, n)) => Ok((Pong { payload: v }, n)),
            Err(e) => Err(e),
        }
    }

    open spec fn readable(s: Seq<u8>) -> bool {
        true
    }

    fn decode(buf: &mut ByteReader) -> (r: Result<Self, PacketSerError>) {
        let payload = read_var_int_buf(buf)?;
        Ok(Pong { payload })
    }
}

/// What the client did with a pushed resource pack.
#[derive(Debug, Clone, Copy, PartialEq, Eq, Structural)]
pub enum ResourcePackResult {
    Accepted,
    Declined,
    FailedDownload,
    SuccessfullyLoaded,
}

/// The result a wire number names.
pub open spec fn pack_result_of(v: i32) -> Option<ResourcePackResult> {
    if v == 0 {
        Some(ResourcePackResult::Accepted)
    } else if v == 1 {
        Some(ResourcePackResult::Declined)
    } else if v == 2 {
        Some(ResourcePackResult::FailedDownload)
    } else if v == 3 {
        Some(ResourcePackResult::SuccessfullyLoaded)
    } else {
        None
    }
}

impl ResourcePackResult {
    /// The result numbered `v`; any other number is an invalid value.
    pub fn from_i32(v: i32) -> (r: Result<Self, PacketSerError>)
        ensures
            match pack_result_of(v) {
                Some(x) => r == Ok::<Self, PacketSerError>(x),
                None => r == Err::<Self, PacketSerError>(PacketSerError::InvalidValue),
            },
    {
        match v {
            0 => Ok(ResourcePackResult::Accepted),
            1 => Ok(ResourcePackResult::Declined),
            2 => Ok(ResourcePackResult::FailedDownload),
            3 => Ok(ResourcePackResult::SuccessfullyLoaded),
            _ => Err(PacketSerError::InvalidValue),
        }
    }
}

/// The client's report on a resource pack.
#[derive(Debug, Clone, Copy, PartialEq, Eq, Structural)]
pub struct ResourcePackStatus {
    pub uuid: Uuid,
    pub result: ResourcePackResult,
}

impl View for ResourcePackStatus {
    type V = ResourcePackStatus;

    open spec fn view(&self) -> ResourcePackStatus {
        *self
    }
}

impl PacketDecode for ResourcePackStatus {
    const ID: i32 = 0x06;

    /// The pack's UUID, then the VarInt result (0 to 3).
    open spec fn parse(s: Seq<u8>) -> Result<(ResourcePackStatus, nat), PacketSerError> {
        match uuid_field(s) {
            Err(e) => Err(e),
            Ok((uuid, n1)) => match var_int_field(s.skip(n1 as int)) {
                Err(e) => Err(e),
                Ok((raw, n2)) => match pack_result_of(raw) {
                    None => Err(PacketSerError::InvalidValue),
                    Some(result) => Ok((ResourcePackStatus { uuid, result }, n1 + n2)),
                },
            },
        }
    }

    open spec fn readable(s: Seq<u8>) -> bool {
        true
    }

    fn decode(buf: &mut ByteReader) -> (r: Result<Self, PacketSerError>) {
        let ghost s = buf@;
        let uuid = read_uuid(buf)?;
        let raw = read_var_int_buf(buf)?;
        let result = ResourcePackResult::from_i32(raw)?;
        proof {
            assert(buf@ =~= s.skip((s.len() - buf@.len()) as int));
        }
        Ok(ResourcePackStatus { uuid, result })
    }
}

impl View for KnownPack {
    type V = (Seq<char>, Seq<char>, Seq<char>);

    open spec fn view(&self) -> (Seq<char>, Seq<char>, Seq<char>) {
        (self.namespace@, self.id@, self.version@)
    }
}

/// How one known pack reads: three strings.
pub open spec fn known_pack_parse(s: Seq<u8>) -> Result<((Seq<char>, Seq<char>, Seq<char>), nat), PacketSerError> {
    match string_field(s, 32767) {
        Err(e) => Err(e),
        Ok((ns, n1)) => match string_field(s.skip(n1 as int), 32767) {
            Err(e) => Err(e),
            Ok((id, n2)) => match string_field(s.skip(n1 as int).skip(n2 as int), 32767) {
                Err(e) => Err(e),
                Ok((version, n3)) => Ok(((ns, id, version), n1 + n2 + n3)),
            },
        },
    }
}

/// How `k` known packs read, one after another.
pub open spec fn known_packs_parse(s: Seq<u8>, k: nat) -> Result<(Seq<(Seq<char>, Seq<char>, Seq<char>)>, nat), PacketSerError>
    decreases k,
{
    if k == 0 {
        Ok((Seq::empty(), 0))
    } else {
        match known_pack_parse(s) {
            Err(e) => Err(e),
            Ok((p, n)) => match known_packs_parse(s.skip(n as int), (k - 1) as nat) {
                Err(e) => Err(e),
                Ok((ps, m)) => Ok((seq![p] + ps, n + m)),
            },
        }
    }
}

/// A read result with `acc` put before its items and `off` bytes before
/// its count.
pub open spec fn after_packs(
    acc: Seq<(Seq<char>, Seq<char>, Seq<char>)>,
    off: nat,
    r: Result<(Seq<(Seq<char>, Seq<char>, Seq<char>)>, nat), PacketSerError>,
) -> Result<(Seq<(Seq<char>, Seq<char>, Seq<char>)>, nat), PacketSerError> {
    match r {
        Err(e) => Err(e),
        Ok((ps, m)) => Ok((acc + ps, off + m)),
    }
}

fn read_known_pack(buf: &mut ByteReader) -> (r: Result<KnownPack, PacketSerError>)
    ensures
        got(r, known_pack_parse(old(buf)@), old(buf)@, final(buf)@),
{
    let ghost s = buf@;
    let namespace = read_string(buf, 32767)?;
    let id = read_string(buf, 32767)?;
    let version = read_string(buf, 32767)?;
    proof {
        assert(buf@ =~= s.skip((s.len() - buf@.len()) as int));
    }
    Ok(KnownPack { namespace, id, version })
}

/// The packs the client has, of those the server listed.
#[derive(Debug, Clone, Default)]
pub struct SelectKnownPacksAck {
    pub packs: Vec<KnownPack>,
}

/// The views of some known packs.
pub open spec fn packs_view(s: Seq<KnownPack>) -> Seq<(Seq<char>, Seq<char>, Seq<char>)> {
    Seq::new(s.len(), |i: int| s[i]@)
}

impl View for SelectKnownPacksAck {
    type V = Seq<(Seq<char>, Seq<char>, Seq<char>)>;

    open spec fn view(&self) -> Seq<(Seq<char>, Seq<char>, Seq<char>)> {
        packs_view(self.packs@)
    }
}

impl PacketDecode for SelectKnownPacksAck {
    const ID: i32 = 0x07;

    /// A VarInt count from 0 to 4096, then that many packs.
    open spec fn parse(s: Seq<u8>) -> Result<(Seq<(Seq<char>, Seq<char>, Seq<char>)>, nat), PacketSerError> {
        match var_int_field(s) {
            Err(e) => Err(e),
            Ok((count, n)) => if !(0 <= count <= 4096) {
                Err(PacketSerError::InvalidValue)
            } else {
                after_packs(Seq::empty(), n, known_packs_parse(s.skip(n as int), count as nat))
            },
        }
    }

    open spec fn readable(s: Seq<u8>) -> bool {
        true
    }

    fn decode(buf: &mut ByteReader) -> (r: Result<Self, PacketSerError>) {
        let ghost s = buf@;
        let count = read_var_int_buf(buf)?;
        if !(0 <= count && count <= 4096) {
            return Err(PacketSerError::InvalidValue);
        }
        let ghost n = var_int_field(s)->Ok_0.1;
        let mut packs: Vec<KnownPack> = Vec::new();
        let mut i: i32 = 0;
        proof {
            assert(packs_view(packs@) =~= Seq::<(Seq<char>, Seq<char>, Seq<char>)>::empty());
            assert(Seq::<(Seq<char>, Seq<char>, Seq<char>)>::empty() + Seq::empty() =~= Seq::<(Seq<char>, Seq<char>, Seq<char>)>::empty());
            assert(after_packs(Seq::empty(), n, known_packs_parse(buf@, count as nat))
                == Self::parse(s)) by {
                match known_packs_parse(buf@, count as nat) {
                    Ok((ps, m)) => {
                        assert(Seq::<(Seq<char>, Seq<char>, Seq<char>)>::empty() + ps =~= ps);
                    },
                    Err(_) => {},
                }
            }
        }
        while i < count
            invariant
                0 <= i <= count <= 4096,
                s == old(buf)@,
                buf@.len() <= s.len(),
                buf@ == s.skip(s.len() - buf@.len()),
                Self::parse(s) == after_packs(
                    packs_view(packs@),
                    (s.len() - buf@.len()) as nat,
                    known_packs_parse(buf@, (count - i) as nat),
                ),
            decreases count - i,
        {
            let ghost before = buf@;
            let ghost acc = packs_view(packs@);
            proof {
                let k = (count - i) as nat;
                assert(known_packs_parse(before, k) == match known_pack_parse(before) {
                    Err(e) => Err(e),
                    Ok((p, nn)) => match known_packs_parse(before.skip(nn as int), (k - 1) as nat) {
                        Err(e) => Err(e),
                        Ok((ps, m)) => Ok((seq![p] + ps, nn + m)),
                    },
                });
            }
            let pack = read_known_pack(buf)?;
            proof {
                let k = (count - i) as nat;
                let nn = known_pack_parse(before)->Ok_0.1;
                assert(buf@ =~= s.skip(s.len() - buf@.len()));
                assert(packs_view(packs@.push(pack)) =~= acc.push(pack@));
                match known_packs_parse(buf@, (k - 1) as nat) {
                    Ok((ps, m)) => {
                        assert(acc + (seq![pack@] + ps) =~= acc.push(pack@) + ps);
                    },
                    Err(_) => {},
                }
            }
            packs.push(pack);
            i = i + 1;
        }
        proof {
            assert(buf@ =~= s.skip(s.len() - buf@.len()));
            assert(packs_view(packs@) + Seq::empty() =~= packs_view(packs@));
        }
        Ok(SelectKnownPacksAck { packs })
    }
}

/// A dialog's custom click action: its id and optional NBT data.
#[derive(Debug)]
pub struct CustomClickAction {
    pub id: String,
    pub nbt: Option<NbtCompound>,
}

impl View for CustomClickAction {
    type V = (Seq<char>, Option<Seq<(Seq<char>, NbtData)>>);

    open spec fn view(&self) -> (Seq<char>, Option<Seq<(Seq<char>, NbtData)>>) {
        (
            self.id@,
            match self.nbt {
                Some(c) => Some(c@),
                None => None,
            },
        )
    }
}

impl PacketDecode for CustomClickAction {
    const ID: i32 = 0x08;

    /// The id string, a flag, and when the flag is set an NBT root whose
    /// compound is the data; any NBT error is an invalid value.
    open spec fn parse(s: Seq<u8>) -> Result<((Seq<char>, Option<Seq<(Seq<char>, NbtData)>>), nat), PacketSerError> {
        match string_field(s, 32767) {
            Err(e) => Err(e),
            Ok((id, n1)) => match bool_field(s.skip(n1 as int)) {
                Err(e) => Err(e),
                Ok((present, n2)) => if !present {
                    Ok(((id, None), n1 + n2))
                } else {
                    match root_parse(s.skip(n1 as int).skip(n2 as int), 0) {
                        Some(Ok(((_, entries), k))) => Ok(((id, Some(entries)), n1 + n2 + k)),
                        _ => Err(PacketSerError::InvalidValue),
                    }
                },
            },
        }
    }

    open spec fn readable(s: Seq<u8>) -> bool {
        true
    }

    fn decode(buf: &mut ByteReader) -> (r: Result<Self, PacketSerError>) {
        let ghost s = buf@;
        let id = read_string(buf, 32767)?;
        let has_nbt = get_bool_field(buf)?;
        if has_nbt {
            let ghost before = buf@;
            let mut reader = NbtReader::new();
            match reader.read_root(buf) {
                Ok(nbt) => {
                    proof {
                        let k = root_parse(before, 0)->0->Ok_0.1;
                        assert(buf@ =~= s.skip((s.len() - buf@.len()) as int));
                    }
                    Ok(CustomClickAction { id, nbt: Some(nbt.root) })
                },
                Err(_) => Err(PacketSerError::InvalidValue),
            }
        } else {
            proof {
                assert(buf@ =~= s.skip((s.len() - buf@.len()) as int));
            }
            Ok(CustomClickAction { id, nbt: None })
        }
    }
}

/// The client's acceptance of the code of conduct: an empty body.
#[derive(Debug, Clone, Copy, Default, PartialEq, Eq, Structural)]
pub struct AcceptCodeOfConduct;

impl View for AcceptCodeOfConduct {
    type V = AcceptCodeOfConduct;

    open spec fn view(&self) -> AcceptCodeOfConduct {
        *self
    }
}

impl PacketDecode for AcceptCodeOfConduct {
    const ID: i32 = 0x09;

    open spec fn parse(s: Seq<u8>) -> Result<(AcceptCodeOfConduct, nat), PacketSerError> {
        Ok((AcceptCodeOfConduct, 0))
    }

    open spec fn readable(s: Seq<u8>) -> bool {
        true
    }

    fn decode(buf: &mut ByteReader) -> (r: Result<Self, PacketSerError>) {
        proof {
            assert(buf@.skip(0) =~= buf@);
        }
        Ok(AcceptCodeOfConduct)
    }
}

} // verus!
