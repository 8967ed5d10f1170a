//! Wire codec of a registry's contents, the body of the Configuration-phase
//! `RegistryData` packet:
//!
//! ```text
//! registry_id: VarStr("minecraft:cat_variant")
//! entry_count: VarInt
//! repeat entry_count times:
//!     VarStr(entry identifier)
//!     NBT root compound named ""
//! ```
use vstd::prelude::*;
use vstd::utf8::*;
use crate::buffer::{ByteReader, ByteWriter, lemma_prefix_of_add, lemma_prefix_trans, prefix_of, stopped, writes};
use crate::codecs::{
    VarIntReadError, lemma_var_int_parse_len, lemma_var_int_roundtrip, read_var_int, var_int_bytes,
    var_int_read, write_var_int,
};
use crate::identifier::{
    Identifier, IdentifierParseError, identifier_text, lemma_identifier_text_roundtrip, parse_check,
    split_identifier, valid_identifier,
};
use crate::nbt::{NbtCompound, NbtData};
use crate::nbt::decode::{NbtDecodeError, NbtReader, drop, root_parse};
use crate::nbt::encode::{NbtEncodeError, NbtWriter, root_bytes, root_ok};
use crate::nbt::roundtrip::{lemma_root_roundtrip, readable};
use crate::protocol::ser::{
    all_ok, concat_wire, lemma_concat_wire_append, lemma_concat_wire_empty, lemma_concat_wire_step,
    lemma_list_next,
    string_from_utf8,
    var_int_wire,
};
use super::IdKey;

verus! {

#[derive(Debug)]
pub enum RegistryCodecError {
    /// The bytes ended inside a string, or a string is not UTF-8.
    Underflow,
    /// The destination has no room left.
    Overflow,
    /// The entry count is negative.
    InvalidEntryCount(i32),
    /// An entry's NBT could not be read.
    NbtDecode(NbtDecodeError),
    /// An entry's NBT could not be written.
    NbtEncode(NbtEncodeError),
    /// A VarInt could not be read.
    VarInt(VarIntReadError),
    /// An identifier is malformed.
    Identifier(IdentifierParseError),
    /// An entry's NBT root is not named `""`.
    UnexpectedRootName { entry: String, name: String },
}

/// The content of a `RegistryCodecError`.
pub ghost enum RegistryFault {
    Underflow,
    Overflow,
    InvalidEntryCount(i32),
    NbtDecode(NbtDecodeError),
    NbtEncode(NbtEncodeError),
    VarInt(VarIntReadError),
    Identifier(IdentifierParseError),
    /// The entry's identifier text and the root's name.
    UnexpectedRootName(Seq<char>, Seq<char>),
}

impl View for RegistryCodecError {
    type V = RegistryFault;

    open spec fn view(&self) -> RegistryFault {
        match self {
            RegistryCodecError::Underflow => RegistryFault::Underflow,
            RegistryCodecError::Overflow => RegistryFault::Overflow,
            RegistryCodecError::InvalidEntryCount(n) => RegistryFault::InvalidEntryCount(*n),
            RegistryCodecError::NbtDecode(e) => RegistryFault::NbtDecode(*e),
            RegistryCodecError::NbtEncode(e) => RegistryFault::NbtEncode(*e),
            RegistryCodecError::VarInt(e) => RegistryFault::VarInt(*e),
            RegistryCodecError::Identifier(e) => RegistryFault::Identifier(*e),
            RegistryCodecError::UnexpectedRootName { entry, name } => RegistryFault::UnexpectedRootName(
                entry@,
                name@,
            ),
        }
    }
}

/// One entry as data: its identifier and its compound's entries.
pub type EntryView = (IdKey, Seq<(Seq<char>, NbtData)>);

/// A whole registry as data: its identifier and its entries in order.
pub type RegistryView = (IdKey, Seq<EntryView>);

/// A registry's identifier and its entries, each an identifier and the
/// body of its NBT root.
#[derive(Debug)]
pub struct RegistryCodec {
    pub registry_id: Identifier,
    pub entries: Vec<(Identifier, NbtCompound)>,
}

/// The contents of some entries.
pub open spec fn view_entries(s: Seq<(Identifier, NbtCompound)>) -> Seq<EntryView> {
    s.map_values(|e: (Identifier, NbtCompound)| (e.0@, e.1@))
}

impl View for RegistryCodec {
    type V = RegistryView;

    open spec fn view(&self) -> RegistryView {
        (self.registry_id@, view_entries(self.entries@))
    }
}

// ---------------------------------------------------------------------------
// The bytes of a registry.
// ---------------------------------------------------------------------------

/// A string as this codec writes it: the VarInt length of its UTF-8 bytes,
/// then those bytes.
pub open spec fn var_str_wire(s: Seq<char>) -> Seq<u8> {
    var_int_wire(encode_utf8(s).len() as i32) + encode_utf8(s)
}

/// An identifier as its `namespace:path` text.
pub open spec fn id_wire(id: IdKey) -> Seq<u8> {
    var_str_wire(identifier_text(id.0, id.1))
}

/// An entry: its identifier, then its body as an NBT root named `""`.
pub open spec fn entry_wire(e: EntryView) -> Seq<u8> {
    id_wire(e.0) + root_bytes(Seq::empty(), e.1)
}

/// The bytes of an entry, as a function.
pub open spec fn entry_wire_fn() -> spec_fn(EntryView) -> Seq<u8> {
    |e: EntryView| entry_wire(e)
}

/// Whether an entry can be written: its body's strings fit their lengths.
pub open spec fn entry_ok_fn() -> spec_fn(EntryView) -> bool {
    |e: EntryView| root_ok(Seq::empty(), e.1)
}

/// The bytes of a registry.
pub open spec fn registry_wire(v: RegistryView) -> Seq<u8> {
    id_wire(v.0) + var_int_wire(v.1.len() as i32) + concat_wire(v.1, entry_wire_fn())
}

/// Whether a registry can be written.
pub open spec fn registry_ok(v: RegistryView) -> bool {
    all_ok(v.1, entry_ok_fn())
}

// ---------------------------------------------------------------------------
// Reading a registry.
// ---------------------------------------------------------------------------

/// Reading a VarInt-prefixed UTF-8 string: the text and the bytes taken.
pub open spec fn var_str_field(s: Seq<u8>) -> Result<(Seq<char>, nat), RegistryFault> {
    match var_int_read(s) {
        Err(e) => Err(RegistryFault::VarInt(e)),
        Ok((v, n)) => {
            let len = v as i32;
            if len < 0 || s.len() - n < len {
                Err(RegistryFault::Underflow)
            } else if valid_utf8(s.subrange(n as int, n + len)) {
                Ok((decode_utf8(s.subrange(n as int, n + len)), n + len as nat))
            } else {
                Err(RegistryFault::Underflow)
            }
        },
    }
}

/// Reading one entry (never `None`: the NBT root reads to a value or an
/// error).
pub open spec fn entry_parse(s: Seq<u8>) -> Option<Result<(EntryView, nat), RegistryFault>> {
    match var_str_field(s) {
        Err(e) => Some(Err(e)),
        Ok((name, n)) => match parse_check(name) {
            Err(e) => Some(Err(RegistryFault::Identifier(e))),
            Ok(_) => {
                let id = split_identifier(name);
                match root_parse(drop(s, n), 0) {
                    None => None,
                    Some(Err((e, _, _))) => Some(Err(RegistryFault::NbtDecode(e))),
                    Some(Ok(((root_name, body), k))) => if root_name.len() == 0 {
                        Some(Ok(((id, body), n + k)))
                    } else {
                        Some(Err(RegistryFault::UnexpectedRootName(identifier_text(id.0, id.1), root_name)))
                    },
                }
            },
        },
    }
}

/// Puts `acc` and `off` bytes in front of what a read of the rest gave.
pub open spec fn prepend(
    acc: Seq<EntryView>,
    off: nat,
    p: Option<Result<(Seq<EntryView>, nat), RegistryFault>>,
) -> Option<Result<(Seq<EntryView>, nat), RegistryFault>> {
    match p {
        Some(Ok((rest, k))) => Some(Ok((acc + rest, off + k))),
        other => other,
    }
}

/// Reading `count` entries.
pub open spec fn entries_field(s: Seq<u8>, count: nat) -> Option<Result<(Seq<EntryView>, nat), RegistryFault>>
    decreases count,
{
    if count == 0 {
        Some(Ok((Seq::empty(), 0)))
    } else {
        match entry_parse(s) {
            Some(Ok((e, k))) => prepend(seq![e], k, entries_field(drop(s, k), (count - 1) as nat)),
            Some(Err(e)) => Some(Err(e)),
            None => None,
        }
    }
}

/// Reading a whole registry: its contents and the bytes taken, or the
/// error (never `None`, as `lemma_registry_parse_some` shows).
pub open spec fn registry_parse(s: Seq<u8>) -> Option<Result<(RegistryView, nat), RegistryFault>> {
    match var_str_field(s) {
        Err(e) => Some(Err(e)),
        Ok((text, n1)) => match parse_check(text) {
            Err(e) => Some(Err(RegistryFault::Identifier(e))),
            Ok(_) => match var_int_read(drop(s, n1)) {
                Err(e) => Some(Err(RegistryFault::VarInt(e))),
                Ok((c, n2)) => if (c as i32) < 0 {
                    Some(Err(RegistryFault::InvalidEntryCount(c as i32)))
                } else {
                    match entries_field(drop(s, n1 + n2), c as i32 as nat) {
                        Some(Ok((entries, k))) => Some(
                            Ok(((split_identifier(text), entries), n1 + n2 + k)),
                        ),
                        Some(Err(e)) => Some(Err(e)),
                        None => None,
                    }
                },
            },
        },
    }
}

/// Reading `count` entries always comes to entries or an error.
proof fn lemma_entries_field_some(s: Seq<u8>, count: nat)
    ensures
        entries_field(s, count) is Some,
    decreases count,
{
    if count > 0 {
        match entry_parse(s) {
            Some(Ok((e, k))) => lemma_entries_field_some(drop(s, k), (count - 1) as nat),
            _ => {},
        }
    }
}

/// Reading a registry always comes to a registry or an error.
pub proof fn lemma_registry_parse_some(s: Seq<u8>)
    ensures
        registry_parse(s) is Some,
{
    match var_str_field(s) {
        Ok((text, n1)) => match var_int_read(drop(s, n1)) {
            Ok((c, n2)) => lemma_entries_field_some(drop(s, n1 + n2), c as i32 as nat),
            _ => {},
        },
        _ => {},
    }
}

proof fn lemma_prepend_prepend(
    acc: Seq<EntryView>,
    off: nat,
    e: EntryView,
    k: nat,
    p: Option<Result<(Seq<EntryView>, nat), RegistryFault>>,
)
    ensures
        prepend(acc, off, prepend(seq![e], k, p)) == prepend(acc.push(e), off + k, p),
{
    match p {
        Some(Ok((rest, n))) => {
            assert(acc + (seq![e] + rest) =~= acc.push(e) + rest);
        },
        _ => {},
    }
}

// ---------------------------------------------------------------------------
// Steps of a registry write.
// ---------------------------------------------------------------------------

/// What one step of a write heading for `target` did: on success `bytes`
/// were appended; on failure the write stopped short of the target.
pub open spec fn stepped(
    old_w: ByteWriter,
    new_w: ByteWriter,
    bytes: Seq<u8>,
    target: Seq<u8>,
    ok: bool,
    r: Result<(), RegistryCodecError>,
) -> bool {
    &&& new_w.capacity() == old_w.capacity()
    &&& (r is Ok ==> new_w@ == old_w@ + bytes && bytes.len() <= old_w.room())
    &&& (r matches Err(e) ==> stopped(old_w, new_w, target, ok) && (e is Overflow || e
        == RegistryCodecError::NbtEncode(NbtEncodeError::Overflow)))
}

/// Writes a string as its VarInt length and UTF-8 bytes.
fn var_str_to(buf: &mut ByteWriter, s: &str, Ghost(t): Ghost<Seq<u8>>, Ghost(ok): Ghost<bool>) -> (r: Result<(), RegistryCodecError>)
    requires
        prefix_of(old(buf)@ + var_str_wire(s@), t),
    ensures
        stepped(*old(buf), *final(buf), var_str_wire(s@), t, ok, r),
{
    let bytes = s.as_bytes();
    let ghost w0 = *buf;
    let ghost hdr = var_int_wire(bytes@.len() as i32);
    proof {
        assert(w0@ + var_str_wire(s@) =~= (w0@ + hdr) + bytes@);
        lemma_prefix_of_add(w0@ + hdr, bytes@);
        lemma_prefix_trans(w0@ + hdr, w0@ + var_str_wire(s@), t);
    }
    match write_var_int(bytes.len() as i32, buf) {
        Ok(()) => {},
        Err(_) => {
            proof {
                lemma_prefix_of_add(w0@ + hdr, bytes@);
                assert(hdr.len() > w0.room());
                assert(w0@ + hdr =~= buf@ + hdr.skip(w0.room()));
                lemma_prefix_of_add(buf@, hdr.skip(w0.room()));
                lemma_prefix_trans(buf@, w0@ + hdr, t);
            }
            return Err(RegistryCodecError::Overflow);
        },
    }
    if buf.remaining_mut() < bytes.len() {
        proof {
            lemma_prefix_of_add(buf@, bytes@);
            lemma_prefix_trans(buf@, w0@ + var_str_wire(s@), t);
        }
        return Err(RegistryCodecError::Overflow);
    }
    buf.put_slice(bytes);
    proof {
        assert(buf@ =~= w0@ + var_str_wire(s@));
    }
    Ok(())
}

/// Writes an entry: its identifier, then its body as a root named `""`.
fn entry_to(
    buf: &mut ByteWriter,
    id: &Identifier,
    body: &NbtCompound,
    Ghost(t): Ghost<Seq<u8>>,
    Ghost(ok): Ghost<bool>,
) -> (r: Result<(), RegistryCodecError>)
    requires
        prefix_of(old(buf)@ + entry_wire((id@, body@)), t),
        ok ==> root_ok(Seq::empty(), body@),
    ensures
        stepped(*old(buf), *final(buf), entry_wire((id@, body@)), t, ok, r),
        r is Ok ==> root_ok(Seq::empty(), body@),
{
    let ghost w0 = *buf;
    let ghost a = id_wire(id@);
    let ghost b = root_bytes(Seq::empty(), body@);
    let text = id.as_str();
    proof {
        assert(w0@ + entry_wire((id@, body@)) =~= (w0@ + a) + b);
        lemma_prefix_of_add(w0@ + a, b);
        lemma_prefix_trans(w0@ + a, w0@ + entry_wire((id@, body@)), t);
    }
    var_str_to(buf, text.as_str(), Ghost(t), Ghost(ok))?;
    let ghost w1 = *buf;
    let name = "";
    proof {
        reveal_strlit("");
        assert(name@ =~= Seq::<char>::empty());
    }
    let mut writer = NbtWriter::new();
    match writer.write_named_root(buf, name, body) {
        Ok(()) => {},
        Err(_) => {
            proof {
                assert(prefix_of(buf@, w1@ + b));
                assert(w1@ + b == w0@ + entry_wire((id@, body@)));
                lemma_prefix_trans(buf@, w1@ + b, t);
            }
            return Err(RegistryCodecError::NbtEncode(NbtEncodeError::Overflow));
        },
    }
    proof {
        assert(buf@ =~= w0@ + entry_wire((id@, body@)));
    }
    Ok(())
}

/// Reads a VarInt-prefixed UTF-8 string.
fn read_var_str(buf: &mut ByteReader) -> (r: Result<String, RegistryCodecError>)
    ensures
        match var_str_field(old(buf)@) {
            Ok((s, n)) => r matches Ok(x) && x@ == s && n <= old(buf)@.len() && final(buf)@ == old(
                buf,
            )@.skip(n as int),
            Err(e) => r matches Err(x) && x@ == e,
        },
{
    let ghost s = buf@;
    proof {
        lemma_var_int_parse_len(s, 0, 0);
    }
    let len = match read_var_int(buf) {
        Ok(v) => v,
        Err(e) => return Err(RegistryCodecError::VarInt(e)),
    };
    let ghost n = var_int_read(s)->Ok_0.1;
    if len < 0 || len as usize > buf.remaining() {
        return Err(RegistryCodecError::Underflow);
    }
    let bytes = buf.take_bytes(len as usize);
    proof {
        assert(bytes@ =~= s.subrange(n as int, n + len));
        assert(buf@ =~= s.skip(n + len));
    }
    match string_from_utf8(bytes) {
        Some(text) => Ok(text),
        None => Err(RegistryCodecError::Underflow),
    }
}

/// Reads one entry: its identifier and its NBT root, which must be named
/// `""`.
fn read_entry(buf: &mut ByteReader) -> (r: Result<(Identifier, NbtCompound), RegistryCodecError>)
    requires
        entry_parse(old(buf)@) is Some,
    ensures
        match entry_parse(old(buf)@) {
            Some(Ok((e, k))) => r matches Ok(x) && x.0@ == e.0 && x.1@ == e.1 && k <= old(buf)@.len()
                && final(buf)@ == old(buf)@.skip(k as int),
            Some(Err(e)) => r matches Err(x) && x@ == e,
            None => false,
        },
{
    let ghost s = buf@;
    let name = read_var_str(buf)?;
    let ghost n = var_str_field(s)->Ok_0.1;
    let entry_id = match Identifier::from_str(name.as_str()) {
        Ok(id) => id,
        Err(e) => return Err(RegistryCodecError::Identifier(e)),
    };
    proof {
        assert(buf@ =~= drop(s, n));
    }
    let mut reader = NbtReader::new();
    let nbt = match reader.read_root(buf) {
        Ok(v) => v,
        Err(e) => return Err(RegistryCodecError::NbtDecode(e)),
    };
    if !nbt.name.as_str().is_empty() {
        return Err(RegistryCodecError::UnexpectedRootName { entry: entry_id.as_str(), name: nbt.name });
    }
    proof {
        let k = root_parse(drop(s, n), 0)->0->Ok_0.1;
        assert(buf@ =~= s.skip((n + k) as int));
    }
    Ok((entry_id, nbt.root))
}

impl RegistryCodec {
    /// A registry with no entries.
    pub fn new(registry_id: Identifier) -> (c: Self)
        ensures
            c.registry_id == registry_id,
            c.entries@ == Seq::<(Identifier, NbtCompound)>::empty(),
    {
        RegistryCodec { registry_id, entries: Vec::new() }
    }

    /// Appends an entry.
    pub fn push(&mut self, id: Identifier, body: NbtCompound)
        ensures
            final(self).registry_id == old(self).registry_id,
            final(self).entries@ == old(self).entries@.push((id, body)),
    {
        self.entries.push((id, body));
    }

    /// The number of entries.
    pub fn len(&self) -> (n: usize)
        ensures
            n == self.entries@.len(),
    {
        self.entries.len()
    }

    /// Whether there is no entry.
    pub fn is_empty(&self) -> (b: bool)
        ensures
            b <==> self.entries@.len() == 0,
    {
        self.entries.len() == 0
    }

    /// Writes the registry: its identifier, the entry count, then each
    /// entry. It fails only for want of room, or where an entry's NBT
    /// cannot be written.
    pub fn encode(&self, buf: &mut ByteWriter) -> (r: Result<(), RegistryCodecError>)
        ensures
            writes(*old(buf), *final(buf), registry_wire(self@), registry_ok(self@), r is Ok),
            r matches Err(e) ==> e is Overflow || e == RegistryCodecError::NbtEncode(
                NbtEncodeError::Overflow,
            ),
    {
        let ghost w0 = *buf;
        let ghost v = self@;
        let ghost t = w0@ + registry_wire(v);
        let ghost ok = registry_ok(v);
        let ghost a = id_wire(v.0);
        let ghost b = var_int_wire(v.1.len() as i32);
        let ghost c = concat_wire(v.1, entry_wire_fn());
        proof {
            assert(t =~= w0@ + a + b + c);
            assert(w0@ + a + (b + c) =~= t);
            lemma_prefix_of_add(w0@ + a, b + c);
        }
        let text = self.registry_id.as_str();
        var_str_to(buf, text.as_str(), Ghost(t), Ghost(ok))?;
        proof {
            assert(buf@ + b + c =~= t);
            lemma_prefix_of_add(buf@ + b, c);
        }
        count_to(buf, self.entries.len() as i32, Ghost(t), Ghost(ok))?;
        proof {
            assert(buf@ + c =~= t);
            lemma_prefix_of_add(buf@ + c, Seq::empty());
            assert(buf@ + c + Seq::<u8>::empty() =~= buf@ + c);
        }
        entries_to(buf, &self.entries, Ghost(t), Ghost(ok))?;
        proof {
            assert(buf@ =~= w0@ + registry_wire(v));
            lemma_prefix_of_add(buf@, Seq::empty());
            assert(buf@ + Seq::<u8>::empty() =~= buf@);
        }
        Ok(())
    }

    /// Reads a registry, the inverse of `encode`.
    pub fn decode(buf: &mut ByteReader) -> (r: Result<Self, RegistryCodecError>)
        ensures
            match registry_parse(old(buf)@) {
                Some(Ok((v, k))) => r matches Ok(c) && c@ == v && k <= old(buf)@.len() && final(buf)@
                    == old(buf)@.skip(k as int),
                Some(Err(e)) => r matches Err(x) && x@ == e,
                None => false,
            },
    {
        let ghost s = buf@;
        proof {
            lemma_registry_parse_some(s);
        }
        let text = read_var_str(buf)?;
        let ghost n1 = var_str_field(s)->Ok_0.1;
        let registry_id = match Identifier::from_str(text.as_str()) {
            Ok(id) => id,
            Err(e) => return Err(RegistryCodecError::Identifier(e)),
        };
        proof {
            assert(buf@ =~= drop(s, n1));
            lemma_var_int_parse_len(buf@, 0, 0);
        }
        let count = match read_var_int(buf) {
            Ok(c) => c,
            Err(e) => return Err(RegistryCodecError::VarInt(e)),
        };
        if count < 0 {
            return Err(RegistryCodecError::InvalidEntryCount(count));
        }
        let ghost n2 = var_int_read(drop(s, n1))->Ok_0.1;
        proof {
            assert(buf@ =~= drop(s, n1 + n2));
        }
        let entries = read_entries(buf, count)?;
        proof {
            let k = entries_field(drop(s, n1 + n2), count as nat)->0->Ok_0.1;
            assert(s.skip((n1 + n2 + k) as int) =~= buf@);
        }
        Ok(RegistryCodec { registry_id, entries })
    }
}

/// Writes the entry count.
fn count_to(buf: &mut ByteWriter, n: i32, Ghost(t): Ghost<Seq<u8>>, Ghost(ok): Ghost<bool>) -> (r: Result<(), RegistryCodecError>)
    requires
        prefix_of(old(buf)@ + var_int_wire(n), t),
    ensures
        stepped(*old(buf), *final(buf), var_int_wire(n), t, ok, r),
{
    let ghost w0 = *buf;
    let ghost hdr = var_int_wire(n);
    match write_var_int(n, buf) {
        Ok(()) => Ok(()),
        Err(_) => {
            proof {
                assert(w0@ + hdr =~= buf@ + hdr.skip(w0.room()));
                lemma_prefix_of_add(buf@, hdr.skip(w0.room()));
                lemma_prefix_trans(buf@, w0@ + hdr, t);
            }
            Err(RegistryCodecError::Overflow)
        },
    }
}

/// Writes each entry in turn.
fn entries_to(
    buf: &mut ByteWriter,
    entries: &Vec<(Identifier, NbtCompound)>,
    Ghost(t): Ghost<Seq<u8>>,
    Ghost(ok): Ghost<bool>,
) -> (r: Result<(), RegistryCodecError>)
    requires
        prefix_of(old(buf)@ + concat_wire(view_entries(entries@), entry_wire_fn()), t),
        ok ==> all_ok(view_entries(entries@), entry_ok_fn()),
    ensures
        stepped(*old(buf), *final(buf), concat_wire(view_entries(entries@), entry_wire_fn()), t, ok, r),
        r is Ok ==> all_ok(view_entries(entries@), entry_ok_fn()),
{
    let ghost w0 = *buf;
    let ghost v = view_entries(entries@);
    let ghost f = entry_wire_fn();
    proof {
        lemma_concat_wire_empty(v, f);
        assert(w0@ + concat_wire(v.take(0), f) =~= w0@);
    }
    let mut i: usize = 0;
    while i < entries.len()
        invariant
            i <= entries@.len(),
            v == view_entries(entries@),
            f == entry_wire_fn(),
            w0 == *old(buf),
            prefix_of(w0@ + concat_wire(v, f), t),
            ok ==> all_ok(v, entry_ok_fn()),
            buf@ == w0@ + concat_wire(v.take(i as int), f),
            buf.capacity() == w0.capacity(),
            buf@.len() - w0@.len() <= w0.room(),
            forall|j: int| 0 <= j < i ==> root_ok(Seq::empty(), #[trigger] v[j].1),
        decreases entries@.len() - i,
    {
        proof {
            lemma_list_next(w0@, v, f, i as int, t);
            lemma_concat_wire_step(v, f, i as int);
            if ok {
                assert((entry_ok_fn())(v[i as int]));
            }
        }
        let e = &entries[i];
        entry_to(buf, &e.0, &e.1, Ghost(t), Ghost(ok))?;
        proof {
            assert(buf@ =~= w0@ + concat_wire(v.take(i + 1), f));
        }
        i = i + 1;
    }
    proof {
        lemma_concat_wire_empty(v, f);
        assert forall|j: int| 0 <= j < v.len() implies #[trigger] (entry_ok_fn())(v[j]) by {}
    }
    Ok(())
}

/// Reads `count` entries.
#[verifier::rlimit(60)]
fn read_entries(buf: &mut ByteReader, count: i32) -> (r: Result<Vec<(Identifier, NbtCompound)>, RegistryCodecError>)
    requires
        count >= 0,
        entries_field(old(buf)@, count as nat) is Some,
    ensures
        match entries_field(old(buf)@, count as nat) {
            Some(Ok((v, k))) => r matches Ok(x) && view_entries(x@) == v && k <= old(buf)@.len()
                && final(buf)@ == old(buf)@.skip(k as int),
            Some(Err(e)) => r matches Err(x) && x@ == e,
            None => false,
        },
{
    let ghost body = buf@;
    proof {
        assert(prepend(Seq::empty(), 0, entries_field(body, count as nat)) == entries_field(
            body,
            count as nat,
        )) by {
            match entries_field(body, count as nat) {
                Some(Ok((rest, k))) => {
                    assert(Seq::<EntryView>::empty() + rest =~= rest);
                },
                _ => {},
            }
        }
        assert(body.skip(0) =~= body);
    }
    let mut entries: Vec<(Identifier, NbtCompound)> = Vec::new();
    let mut i: i32 = 0;
    while i < count
        invariant
            0 <= i <= count,
            body == old(buf)@,
            body.len() >= buf@.len(),
            body.skip(body.len() - buf@.len()) == buf@,
            entries_field(body, count as nat) == prepend(
                view_entries(entries@),
                (body.len() - buf@.len()) as nat,
                entries_field(buf@, (count - i) as nat),
            ),
            entries_field(body, count as nat) is Some,
        decreases count - i,
    {
        let ghost before = buf@;
        let ghost off = (body.len() - before.len()) as nat;
        let ghost acc = view_entries(entries@);
        let entry = match read_entry(buf) {
            Ok(e) => e,
            Err(e) => {
                proof {
                    assert(entries_field(before, (count - i) as nat) == Some(
                        Err::<(Seq<EntryView>, nat), RegistryFault>(e@),
                    ));
                }
                return Err(e);
            },
        };
        proof {
            let (ev, k) = entry_parse(before)->0->Ok_0;
            lemma_prepend_prepend(acc, off, ev, k, entries_field(drop(before, k), (count - i - 1) as nat));
            assert(drop(before, k) =~= buf@);
            assert(body.skip(body.len() - buf@.len()) =~= buf@);
        }
        entries.push(entry);
        proof {
            assert(view_entries(entries@) =~= acc.push((entry.0@, entry.1@)));
        }
        i = i + 1;
    }
    proof {
        let k = (body.len() - buf@.len()) as nat;
        assert(view_entries(entries@) + Seq::<EntryView>::empty() =~= view_entries(entries@));
    }
    Ok(entries)
}

// ---------------------------------------------------------------------------
// Reading back what was written.
// ---------------------------------------------------------------------------

/// An entry the codec gives back as written: its identifier is well formed
/// and its text fits an `i32` length, and its body is `readable` as a root.
pub open spec fn entry_readable(e: EntryView) -> bool {
    &&& valid_identifier(e.0.0, e.0.1)
    &&& encode_utf8(identifier_text(e.0.0, e.0.1)).len() <= i32::MAX
    &&& readable(NbtData::Compound(e.1), 0)
}

/// A registry the codec gives back as written: its identifier is well
/// formed, its text and its entry count fit an `i32`, and every entry is
/// `entry_readable`.
pub open spec fn registry_readable(v: RegistryView) -> bool {
    &&& valid_identifier(v.0.0, v.0.1)
    &&& encode_utf8(identifier_text(v.0.0, v.0.1)).len() <= i32::MAX
    &&& v.1.len() <= i32::MAX
    &&& forall|i: int| 0 <= i < v.1.len() ==> #[trigger] entry_readable(v.1[i])
}

proof fn lemma_var_str_roundtrip(t: Seq<char>, rest: Seq<u8>)
    requires
        encode_utf8(t).len() <= i32::MAX,
    ensures
        var_str_field(var_str_wire(t) + rest) == Ok::<(Seq<char>, nat), RegistryFault>(
            (t, var_str_wire(t).len()),
        ),
{
    let enc = encode_utf8(t);
    let len = enc.len() as i32;
    let s = var_str_wire(t) + rest;
    assert(s =~= var_int_bytes(len as u32) + (enc + rest));
    lemma_var_int_roundtrip(len as u32, enc + rest);
    assert((len as u32) as i32 == len);
    let n = var_int_bytes(len as u32).len();
    assert(s.subrange(n as int, (n + enc.len()) as int) =~= enc);
    encode_utf8_valid_utf8(t);
    encode_utf8_decode_utf8(t);
}

proof fn lemma_entry_roundtrip(e: EntryView, rest: Seq<u8>)
    requires
        entry_readable(e),
        root_ok(Seq::empty(), e.1),
    ensures
        entry_parse(entry_wire(e) + rest) == Some(
            Ok::<(EntryView, nat), RegistryFault>((e, entry_wire(e).len())),
        ),
{
    let text = identifier_text(e.0.0, e.0.1);
    let body = root_bytes(Seq::empty(), e.1);
    let s = entry_wire(e) + rest;
    assert(s =~= var_str_wire(text) + (body + rest));
    lemma_var_str_roundtrip(text, body + rest);
    lemma_identifier_text_roundtrip(e.0.0, e.0.1);
    let n = var_str_wire(text).len();
    assert(drop(s, n) =~= body + rest);
    lemma_root_roundtrip(Seq::empty(), e.1, 0, rest);
}

proof fn lemma_entries_field_roundtrip(es: Seq<EntryView>, i: nat, rest: Seq<u8>)
    requires
        forall|j: int| 0 <= j < es.len() ==> #[trigger] entry_readable(es[j]),
        all_ok(es, entry_ok_fn()),
        i <= es.len(),
    ensures
        entries_field(concat_wire(es.skip(i as int), entry_wire_fn()) + rest, (es.len() - i) as nat)
            == Some(
            Ok::<(Seq<EntryView>, nat), RegistryFault>(
                (es.skip(i as int), concat_wire(es.skip(i as int), entry_wire_fn()).len()),
            ),
        ),
    decreases es.len() - i,
{
    let f = entry_wire_fn();
    if i == es.len() {
        assert(es.skip(i as int) =~= Seq::<EntryView>::empty());
        assert(concat_wire(es.skip(i as int), f) + rest =~= rest);
    } else {
        let x = es[i as int];
        let tail = es.skip((i + 1) as int);
        assert(es.skip(i as int) =~= seq![x] + tail);
        lemma_concat_wire_append(seq![x], tail, f);
        assert(seq![x].drop_last() =~= Seq::<EntryView>::empty());
        assert(concat_wire(Seq::<EntryView>::empty(), f) =~= Seq::<u8>::empty());
        assert(seq![x].last() == x);
        assert(f(x) == entry_wire(x));
        assert(concat_wire(seq![x], f) =~= entry_wire(x));
        let rest2 = concat_wire(tail, f) + rest;
        let s = concat_wire(es.skip(i as int), f) + rest;
        assert(s =~= entry_wire(x) + rest2);
        assert((entry_ok_fn())(es[i as int]));
        lemma_entry_roundtrip(x, rest2);
        let k = entry_wire(x).len();
        assert(drop(s, k) =~= rest2);
        lemma_entries_field_roundtrip(es, i + 1, rest);
    }
}

/// Reading back what `encode` wrote gives the same registry and takes
/// exactly the bytes written, whatever follows them: `decode` is the
/// inverse of `encode` on every registry it can write whose identifiers
/// are well formed and whose bodies are `readable`.
pub proof fn lemma_registry_roundtrip(v: RegistryView, rest: Seq<u8>)
    requires
        registry_ok(v),
        registry_readable(v),
    ensures
        registry_parse(registry_wire(v) + rest) == Some(
            Ok::<(RegistryView, nat), RegistryFault>((v, registry_wire(v).len())),
        ),
{
    let text = identifier_text(v.0.0, v.0.1);
    let c = v.1.len() as i32;
    let f = entry_wire_fn();
    let es = concat_wire(v.1, f);
    let s = registry_wire(v) + rest;
    assert(s =~= var_str_wire(text) + (var_int_bytes(c as u32) + (es + rest)));
    lemma_var_str_roundtrip(text, var_int_bytes(c as u32) + (es + rest));
    lemma_identifier_text_roundtrip(v.0.0, v.0.1);
    let n1 = var_str_wire(text).len();
    assert(drop(s, n1) =~= var_int_bytes(c as u32) + (es + rest));
    lemma_var_int_roundtrip(c as u32, es + rest);
    assert((c as u32) as i32 == c);
    let n2 = var_int_bytes(c as u32).len();
    assert(drop(s, n1 + n2) =~= es + rest);
    lemma_entries_field_roundtrip(v.1, 0, rest);
    assert(v.1.skip(0) =~= v.1);
}

} // verus!
