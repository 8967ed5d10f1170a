//! Field encodings shared by all packets, and the errors packet bodies
//! raise.
use vstd::prelude::*;
use vstd::utf8::*;
use crate::buffer::{
    ByteReader, ByteWriter, be_u16, be_u32, be_u64, lemma_prefix_of_add, lemma_prefix_trans,
    lemma_writes_seq, lemma_writes_stopped, prefix_of, stopped, u16_be, u32_be, u64_be, writes,
};
use crate::codecs::{
    VarIntReadError, VarIntWriteError, lemma_var_int_parse_len, read_var_int, var_int_bytes, var_int_consumed,
    var_int_read, write_var_int,
};
use crate::nbt::cesu::{java_cesu8_encode, to_java_cesu8};
use crate::nbt::NbtCompound;
use crate::nbt::encode::{NbtWriter, root_bytes, root_ok};
use crate::uuid::{Uuid, uuid_bytes, uuid_of};

verus! {

#[derive(Debug, Clone, Copy, PartialEq, Eq, Structural)]
pub enum PacketSerError {
    /// The body ended before a field did.
    Underflow,
    /// The destination has no room for a field.
    Overflow,
    /// A field holds a value the packet does not allow.
    InvalidValue,
    /// A VarInt could not be read.
    Decode(VarIntReadError),
    /// A VarInt could not be written.
    Encode(VarIntWriteError),
}

/// The errors that mean "the destination is full".
pub open spec fn room_error(e: PacketSerError) -> bool {
    e == PacketSerError::Overflow || e == PacketSerError::Encode(VarIntWriteError::Overflow)
}

/// What writing a body whose bytes are `wire` (acceptable when `ok`) did:
/// see `writes`; a failure is always for want of room.
pub open spec fn sent(old_w: ByteWriter, new_w: ByteWriter, wire: Seq<u8>, ok: bool, r: Result<(), PacketSerError>) -> bool {
    &&& writes(old_w, new_w, wire, ok, r is Ok)
    &&& (r matches Err(e) ==> room_error(e))
}

/// One step of a write heading for `target`: on success `bytes` were
/// appended; on failure the whole write stopped short of `target`.
pub open spec fn advanced(
    old_w: ByteWriter,
    new_w: ByteWriter,
    bytes: Seq<u8>,
    target: Seq<u8>,
    ok: bool,
    r: Result<(), PacketSerError>,
) -> bool {
    &&& new_w.capacity() == old_w.capacity()
    &&& (r is Ok ==> new_w@ == old_w@ + bytes && bytes.len() <= old_w.room())
    &&& (r matches Err(e) ==> stopped(old_w, new_w, target, ok) && room_error(e))
}

/// What reading a field of view type `V` from `old_s` did, given what the
/// field's encoding says of those bytes: on success the value and the
/// bytes taken; on failure the error.
pub open spec fn got<T: View>(
    r: Result<T, PacketSerError>,
    p: Result<(T::V, nat), PacketSerError>,
    old_s: Seq<u8>,
    new_s: Seq<u8>,
) -> bool {
    match p {
        Ok((v, n)) => (r matches Ok(x) && x@ == v) && n <= old_s.len() && new_s == old_s.skip(
            n as int,
        ),
        Err(e) => r matches Err(x) && x == e,
    }
}

/// Reading a VarInt field.
pub open spec fn var_int_field(s: Seq<u8>) -> Result<(i32, nat), PacketSerError> {
    match var_int_read(s) {
        Ok((v, n)) => Ok((v as i32, n)),
        Err(e) => Err(PacketSerError::Decode(e)),
    }
}

/// Reading a string field of at most `max_len` bytes: a VarInt length,
/// then that many UTF-8 bytes.
pub open spec fn string_field(s: Seq<u8>, max_len: nat) -> Result<(Seq<char>, nat), PacketSerError> {
    match var_int_field(s) {
        Err(e) => Err(e),
        Ok((len, n)) => if len < 0 || len > max_len {
            Err(PacketSerError::InvalidValue)
        } else if s.len() - n < len {
            Err(PacketSerError::Underflow)
        } else {
            let bytes = s.subrange(n as int, n + len);
            if valid_utf8(bytes) {
                Ok((decode_utf8(bytes), n + len as nat))
            } else {
                Err(PacketSerError::InvalidValue)
            }
        },
    }
}

/// Reading a fixed-size field of `k` bytes whose value `f` computes.
pub open spec fn fixed_field<T>(s: Seq<u8>, k: nat, v: T) -> Result<(T, nat), PacketSerError> {
    if s.len() < k {
        Err(PacketSerError::Underflow)
    } else {
        Ok((v, k))
    }
}

/// A one-byte field.
pub open spec fn u8_field(s: Seq<u8>) -> Result<(u8, nat), PacketSerError> {
    fixed_field(s, 1, s[0])
}

/// A big-endian two-byte field.
pub open spec fn u16_field(s: Seq<u8>) -> Result<(u16, nat), PacketSerError> {
    fixed_field(s, 2, be_u16(s))
}

/// A big-endian eight-byte field.
pub open spec fn u64_field(s: Seq<u8>) -> Result<(u64, nat), PacketSerError> {
    fixed_field(s, 8, be_u64(s))
}

/// A sixteen-byte UUID field.
pub open spec fn uuid_field(s: Seq<u8>) -> Result<(Uuid, nat), PacketSerError> {
    fixed_field(s, 16, uuid_of(s))
}

/// A one-byte boolean field: any non-zero byte is `true`.
pub open spec fn bool_field(s: Seq<u8>) -> Result<(bool, nat), PacketSerError> {
    match u8_field(s) {
        Ok((b, n)) => Ok((b != 0, n)),
        Err(e) => Err(e),
    }
}

/// A byte array after its VarInt length; a negative length, or one past
/// the end of the body, is an invalid value.
pub open spec fn prefixed_bytes_field(s: Seq<u8>) -> Result<(Seq<u8>, nat), PacketSerError> {
    match var_int_field(s) {
        Err(e) => Err(e),
        Ok((len, n)) => if len < 0 || len > s.len() - n {
            Err(PacketSerError::InvalidValue)
        } else {
            Ok((s.subrange(n as int, n + len), n + len as nat))
        },
    }
}

/// Everything that is left of the body.
pub open spec fn rest_field(s: Seq<u8>) -> Result<(Seq<u8>, nat), PacketSerError> {
    Ok((s, s.len()))
}

/// The bytes of a byte array after its VarInt length.
pub open spec fn prefixed_bytes_wire(b: Seq<u8>) -> Seq<u8> {
    var_int_wire(b.len() as i32) + b
}

/// The bytes of each item of `s`, in order.
pub open spec fn concat_wire<A>(s: Seq<A>, f: spec_fn(A) -> Seq<u8>) -> Seq<u8>
    decreases s.len(),
{
    if s.len() == 0 {
        Seq::empty()
    } else {
        concat_wire(s.drop_last(), f) + f(s.last())
    }
}

/// Whether `ok` holds of every item of `s`.
pub open spec fn all_ok<A>(s: Seq<A>, ok: spec_fn(A) -> bool) -> bool {
    forall|i: int| 0 <= i < s.len() ==> #[trigger] ok(s[i])
}

/// The bytes of `a + b` are those of `a`, then those of `b`.
pub proof fn lemma_concat_wire_append<A>(a: Seq<A>, b: Seq<A>, f: spec_fn(A) -> Seq<u8>)
    ensures
        concat_wire(a + b, f) == concat_wire(a, f) + concat_wire(b, f),
    decreases b.len(),
{
    if b.len() == 0 {
        assert(a + b =~= a);
        assert(concat_wire(a, f) + concat_wire(b, f) =~= concat_wire(a, f));
    } else {
        lemma_concat_wire_append(a, b.drop_last(), f);
        assert((a + b).drop_last() =~= a + b.drop_last());
        assert((a + b).last() == b.last());
        assert(concat_wire(a + b, f) =~= concat_wire(a, f) + concat_wire(b, f));
    }
}

/// Item `i` of a list comes right after the items before it.
pub proof fn lemma_concat_wire_step<A>(s: Seq<A>, f: spec_fn(A) -> Seq<u8>, i: int)
    requires
        0 <= i < s.len(),
    ensures
        concat_wire(s.take(i + 1), f) == concat_wire(s.take(i), f) + f(s[i]),
        concat_wire(s, f) == concat_wire(s.take(i + 1), f) + concat_wire(s.skip(i + 1), f),
{
    assert(s.take(i + 1).drop_last() =~= s.take(i));
    assert(s.take(i + 1).last() == s[i]);
    assert(s =~= s.take(i + 1) + s.skip(i + 1));
    lemma_concat_wire_append(s.take(i + 1), s.skip(i + 1), f);
}

/// Item `i` of a list whose bytes lie in `t` after `w0` comes next once
/// the items before it are written.
pub proof fn lemma_list_next<A>(w0: Seq<u8>, s: Seq<A>, f: spec_fn(A) -> Seq<u8>, i: int, t: Seq<u8>)
    requires
        prefix_of(w0 + concat_wire(s, f), t),
        0 <= i < s.len(),
    ensures
        prefix_of(w0 + concat_wire(s.take(i), f) + f(s[i]), t),
{
    lemma_concat_wire_step(s, f, i);
    let a = w0 + concat_wire(s.take(i + 1), f);
    assert(w0 + concat_wire(s.take(i), f) + f(s[i]) =~= a);
    lemma_prefix_of_add(a, concat_wire(s.skip(i + 1), f));
    assert(a + concat_wire(s.skip(i + 1), f) =~= w0 + concat_wire(s, f));
    lemma_prefix_trans(a, w0 + concat_wire(s, f), t);
}

/// The bytes of no items.
pub proof fn lemma_concat_wire_empty<A>(s: Seq<A>, f: spec_fn(A) -> Seq<u8>)
    ensures
        concat_wire(s.take(0), f) == Seq::<u8>::empty(),
        s.take(s.len() as int) == s,
{
    assert(s.take(0).len() == 0);
    assert(s.take(s.len() as int) =~= s);
}

/// The bytes of a VarInt field.
pub open spec fn var_int_wire(v: i32) -> Seq<u8> {
    var_int_bytes(v as u32)
}

/// The bytes of a string field: the VarInt length of its modified UTF-8
/// bytes, then those bytes.
pub open spec fn string_wire(s: Seq<char>) -> Seq<u8> {
    var_int_wire(java_cesu8_encode(s).len() as i32) + java_cesu8_encode(s)
}

/// The bytes of a boolean field.
pub open spec fn bool_wire(b: bool) -> Seq<u8> {
    if b {
        seq![1u8]
    } else {
        seq![0u8]
    }
}

/// Reads a VarInt.
pub fn read_var_int_buf(buf: &mut ByteReader) -> (r: Result<i32, PacketSerError>)
    ensures
        got(r, var_int_field(old(buf)@), old(buf)@, final(buf)@),
{
    proof {
        lemma_var_int_parse_len(buf@, 0, 0);
    }
    match read_var_int(buf) {
        Ok(v) => Ok(v),
        Err(e) => Err(PacketSerError::Decode(e)),
    }
}

/// Writes a VarInt.
pub fn write_var_int_buf(v: i32, buf: &mut ByteWriter) -> (r: Result<(), PacketSerError>)
    ensures
        sent(*old(buf), *final(buf), var_int_wire(v), true, r),
{
    let ghost enc = var_int_bytes(v as u32);
    match write_var_int(v, buf) {
        Ok(()) => {
            proof {
                lemma_prefix_of_add(buf@, Seq::empty());
                assert(buf@ + Seq::<u8>::empty() =~= buf@);
            }
            Ok(())
        },
        Err(_) => {
            proof {
                assert(old(buf)@ + enc =~= buf@ + enc.skip(old(buf).room()));
                lemma_prefix_of_add(buf@, enc.skip(old(buf).room()));
            }
            Err(PacketSerError::Encode(VarIntWriteError::Overflow))
        },
    }
}

/// Builds a `String` from bytes with `String::from_utf8`, which hands the
/// text back exactly when the bytes are valid UTF-8.
#[verifier::external_body]
pub(crate) fn string_from_utf8(bytes: Vec<u8>) -> (r: Option<String>)
    ensures
        r is Some <==> valid_utf8(bytes@),
        r matches Some(s) ==> s@ == decode_utf8(bytes@),
{
    String::from_utf8(bytes).ok()
}

/// Reads a string of at most `max_len` bytes.
pub fn read_string(buf: &mut ByteReader, max_len: usize) -> (r: Result<String, PacketSerError>)
    ensures
        got(r, string_field(old(buf)@, max_len as nat), old(buf)@, final(buf)@),
{
    let ghost s = buf@;
    let len = match read_var_int_buf(buf) {
        Ok(v) => v,
        Err(e) => return Err(e),
    };
    let ghost n = var_int_consumed(s);
    if len < 0 || len as usize > max_len {
        return Err(PacketSerError::InvalidValue);
    }
    let len = len as usize;
    if buf.remaining() < len {
        return Err(PacketSerError::Underflow);
    }
    let bytes = buf.take_bytes(len);
    proof {
        assert(bytes@ =~= s.subrange(n as int, n + len));
        assert(buf@ =~= s.skip(n + len));
    }
    match string_from_utf8(bytes) {
        Some(text) => Ok(text),
        None => Err(PacketSerError::InvalidValue),
    }
}

/// Writes a string as its modified UTF-8 bytes after their VarInt length.
/// The length limit is the reader's business; nothing checks it here.
pub fn write_string(value: &str, buf: &mut ByteWriter, _max_len: usize) -> (r: Result<(), PacketSerError>)
    ensures
        sent(*old(buf), *final(buf), string_wire(value@), true, r),
{
    let bytes = to_java_cesu8(value);
    let ghost w0 = *buf;
    let ghost hdr = var_int_wire(bytes@.len() as i32);
    match write_var_int_buf(bytes.len() as i32, buf) {
        Ok(()) => {},
        Err(e) => {
            proof {
                lemma_prefix_of_add(w0@ + hdr, bytes@);
                assert(w0@ + string_wire(value@) =~= w0@ + hdr + bytes@);
                lemma_prefix_trans(buf@, w0@ + hdr, w0@ + string_wire(value@));
            }
            return Err(e);
        },
    }
    let ghost w1 = *buf;
    if buf.remaining_mut() < bytes.len() {
        proof {
            assert(w0@ + string_wire(value@) =~= buf@ + bytes@);
            lemma_prefix_of_add(buf@, bytes@);
        }
        return Err(PacketSerError::Overflow);
    }
    buf.put_slice(bytes.as_slice());
    proof {
        assert(buf@ =~= w0@ + string_wire(value@));
        lemma_prefix_of_add(buf@, Seq::empty());
        assert(buf@ + Seq::<u8>::empty() =~= buf@);
    }
    Ok(())
}

/// Reads a UUID: sixteen bytes, most significant first.
pub fn read_uuid(buf: &mut ByteReader) -> (r: Result<Uuid, PacketSerError>)
    ensures
        got(r, uuid_field(old(buf)@), old(buf)@, final(buf)@),
{
    if buf.remaining() < 16 {
        return Err(PacketSerError::Underflow);
    }
    let mut bytes = [0u8; 16];
    let ghost s = buf@;
    let mut i: usize = 0;
    while i < 16
        invariant
            i <= 16,
            s.len() >= 16,
            buf@ == s.skip(i as int),
            forall|j: int| 0 <= j < i ==> bytes@[j] == s[j],
        decreases 16 - i,
    {
        let b = buf.get_u8();
        bytes.set(i, b);
        i = i + 1;
        proof {
            assert(buf@ =~= s.skip(i as int));
        }
    }
    let u = Uuid::from_bytes(bytes);
    proof {
        assert(bytes@.subrange(8, 16) =~= s.subrange(8, 16));
        assert(bytes@[0] == s[0] && bytes@[1] == s[1] && bytes@[2] == s[2] && bytes@[3] == s[3]);
        assert(bytes@[4] == s[4] && bytes@[5] == s[5] && bytes@[6] == s[6] && bytes@[7] == s[7]);
    }
    Ok(u)
}

/// Writes a UUID: sixteen bytes, most significant first.
pub fn write_uuid(value: Uuid, buf: &mut ByteWriter) -> (r: Result<(), PacketSerError>)
    ensures
        sent(*old(buf), *final(buf), uuid_bytes(value), true, r),
{
    let bytes = value.as_bytes();
    if buf.remaining_mut() < 16 {
        proof {
            lemma_prefix_of_add(buf@, uuid_bytes(value));
        }
        return Err(PacketSerError::Overflow);
    }
    buf.put_slice(&bytes);
    proof {
        lemma_prefix_of_add(buf@, Seq::empty());
        assert(buf@ + Seq::<u8>::empty() =~= buf@);
    }
    Ok(())
}

/// A packet the server sends: its id and its body's bytes.
pub trait PacketEncode {
    /// Numeric packet id used on the wire.
    const ID: i32;

    /// The bytes of the body.
    spec fn wire(&self) -> Seq<u8>;

    /// Whether the body can be written at all (every length fits its
    /// field).
    spec fn wire_ok(&self) -> bool;

    /// Writes the body (without length or id prefix).
    fn encode(&self, buf: &mut ByteWriter) -> (r: Result<(), PacketSerError>)
        ensures
            writes(*old(buf), *final(buf), self.wire(), self.wire_ok(), r is Ok),
    ;
}

/// A packet the server receives: its id and how its body reads.
pub trait PacketDecode: Sized + View {
    /// Numeric packet id used on the wire.
    const ID: i32;

    /// What reading the body from `s` yields: the packet's view and the
    /// bytes taken, or the error.
    spec fn parse(s: Seq<u8>) -> Result<(<Self as View>::V, nat), PacketSerError>;

    /// Whether reading from `s` runs to an answer; where it does not, the
    /// read stops with a panic.
    spec fn readable(s: Seq<u8>) -> bool;

    /// Reads the body (without length or id prefix).
    fn decode(buf: &mut ByteReader) -> (r: Result<Self, PacketSerError>)
        requires
            Self::readable(old(buf)@),
        ensures
            got(r, Self::parse(old(buf)@), old(buf)@, final(buf)@),
    ;
}

// ---------------------------------------------------------------------------
// Steps of a body write heading for a known target.
// ---------------------------------------------------------------------------

pub(crate) fn var_int_to(buf: &mut ByteWriter, v: i32, Ghost(t): Ghost<Seq<u8>>, Ghost(ok): Ghost<bool>) -> (r: Result<(), PacketSerError>)
    requires
        prefix_of(old(buf)@ + var_int_wire(v), t),
    ensures
        advanced(*old(buf), *final(buf), var_int_wire(v), t, ok, r),
{
    let ghost w0 = *buf;
    let r = write_var_int_buf(v, buf);
    proof {
        if r is Err {
            lemma_writes_stopped(w0, *buf, var_int_wire(v), true, t, ok);
        }
    }
    r
}

pub(crate) fn string_to(buf: &mut ByteWriter, v: &str, Ghost(t): Ghost<Seq<u8>>, Ghost(ok): Ghost<bool>) -> (r: Result<(), PacketSerError>)
    requires
        prefix_of(old(buf)@ + string_wire(v@), t),
    ensures
        advanced(*old(buf), *final(buf), string_wire(v@), t, ok, r),
{
    let ghost w0 = *buf;
    let r = write_string(v, buf, 32767);
    proof {
        if r is Err {
            lemma_writes_stopped(w0, *buf, string_wire(v@), true, t, ok);
        }
    }
    r
}

pub(crate) fn uuid_to(buf: &mut ByteWriter, v: Uuid, Ghost(t): Ghost<Seq<u8>>, Ghost(ok): Ghost<bool>) -> (r: Result<(), PacketSerError>)
    requires
        prefix_of(old(buf)@ + uuid_bytes(v), t),
    ensures
        advanced(*old(buf), *final(buf), uuid_bytes(v), t, ok, r),
{
    let ghost w0 = *buf;
    let r = write_uuid(v, buf);
    proof {
        if r is Err {
            lemma_writes_stopped(w0, *buf, uuid_bytes(v), true, t, ok);
        }
    }
    r
}

pub(crate) fn bytes_to(buf: &mut ByteWriter, v: &[u8], Ghost(t): Ghost<Seq<u8>>, Ghost(ok): Ghost<bool>) -> (r: Result<(), PacketSerError>)
    requires
        prefix_of(old(buf)@ + v@, t),
    ensures
        advanced(*old(buf), *final(buf), v@, t, ok, r),
{
    if buf.remaining_mut() < v.len() {
        proof {
            lemma_prefix_of_add(buf@, v@);
            lemma_writes_stopped(*buf, *buf, v@, true, t, ok);
        }
        return Err(PacketSerError::Overflow);
    }
    buf.put_slice(v);
    Ok(())
}

pub(crate) fn prefixed_bytes_to(buf: &mut ByteWriter, v: &[u8], Ghost(t): Ghost<Seq<u8>>, Ghost(ok): Ghost<bool>) -> (r: Result<(), PacketSerError>)
    requires
        prefix_of(old(buf)@ + prefixed_bytes_wire(v@), t),
    ensures
        advanced(*old(buf), *final(buf), prefixed_bytes_wire(v@), t, ok, r),
{
    let ghost w0 = *buf;
    proof {
        assert(w0@ + prefixed_bytes_wire(v@) =~= (w0@ + var_int_wire(v@.len() as i32)) + v@);
        lemma_prefix_of_add(w0@ + var_int_wire(v@.len() as i32), v@);
        lemma_prefix_trans(w0@ + var_int_wire(v@.len() as i32), w0@ + prefixed_bytes_wire(v@), t);
    }
    var_int_to(buf, v.len() as i32, Ghost(t), Ghost(ok))?;
    bytes_to(buf, v, Ghost(t), Ghost(ok))?;
    proof {
        assert(buf@ =~= w0@ + prefixed_bytes_wire(v@));
    }
    Ok(())
}

pub(crate) fn bool_to(buf: &mut ByteWriter, v: bool, Ghost(t): Ghost<Seq<u8>>, Ghost(ok): Ghost<bool>) -> (r: Result<(), PacketSerError>)
    requires
        prefix_of(old(buf)@ + bool_wire(v), t),
    ensures
        advanced(*old(buf), *final(buf), bool_wire(v), t, ok, r),
{
    if v {
        u8_to(buf, 1, Ghost(t), Ghost(ok))
    } else {
        u8_to(buf, 0, Ghost(t), Ghost(ok))
    }
}

/// Writes `name` and `c` as an NBT root; an NBT write error, whatever its
/// cause, comes back as `err`.
pub(crate) fn nbt_named_root_to(
    buf: &mut ByteWriter,
    name: &str,
    c: &NbtCompound,
    err: PacketSerError,
    Ghost(t): Ghost<Seq<u8>>,
    Ghost(ok): Ghost<bool>,
) -> (r: Result<(), PacketSerError>)
    requires
        prefix_of(old(buf)@ + root_bytes(name@, c@), t),
        ok ==> root_ok(name@, c@),
    ensures
        final(buf).capacity() == old(buf).capacity(),
        r is Ok ==> final(buf)@ == old(buf)@ + root_bytes(name@, c@) && root_bytes(name@, c@).len()
            <= old(buf).room() && root_ok(name@, c@),
        r matches Err(e) ==> stopped(*old(buf), *final(buf), t, ok) && e == err,
{
    let ghost w0 = *buf;
    let mut writer = NbtWriter::new();
    match writer.write_named_root(buf, name, c) {
        Ok(()) => Ok(()),
        Err(_) => {
            proof {
                lemma_writes_stopped(w0, *buf, root_bytes(name@, c@), root_ok(name@, c@), t, ok);
            }
            Err(err)
        },
    }
}

/// Writes a compound as an NBT root with an empty name. An NBT write
/// error, whatever its cause, is an invalid value here.
pub(crate) fn nbt_root_to(buf: &mut ByteWriter, c: &NbtCompound, Ghost(t): Ghost<Seq<u8>>, Ghost(ok): Ghost<bool>) -> (r: Result<(), PacketSerError>)
    requires
        prefix_of(old(buf)@ + root_bytes(Seq::empty(), c@), t),
        ok ==> root_ok(Seq::empty(), c@),
    ensures
        final(buf).capacity() == old(buf).capacity(),
        r is Ok ==> final(buf)@ == old(buf)@ + root_bytes(Seq::empty(), c@) && root_bytes(
            Seq::empty(),
            c@,
        ).len() <= old(buf).room() && root_ok(Seq::empty(), c@),
        r matches Err(e) ==> stopped(*old(buf), *final(buf), t, ok) && e
            == PacketSerError::InvalidValue,
{
    let name = "";
    proof {
        reveal_strlit("");
        assert(name@ =~= Seq::<char>::empty());
    }
    nbt_named_root_to(buf, name, c, PacketSerError::InvalidValue, Ghost(t), Ghost(ok))
}

pub(crate) fn u8_to(buf: &mut ByteWriter, v: u8, Ghost(t): Ghost<Seq<u8>>, Ghost(ok): Ghost<bool>) -> (r: Result<(), PacketSerError>)
    requires
        prefix_of(old(buf)@ + seq![v], t),
    ensures
        advanced(*old(buf), *final(buf), seq![v], t, ok, r),
{
    if buf.remaining_mut() < 1 {
        proof {
            lemma_prefix_of_add(buf@, seq![v]);
            lemma_writes_stopped(*buf, *buf, seq![v], true, t, ok);
        }
        return Err(PacketSerError::Overflow);
    }
    buf.put_u8(v);
    proof {
        assert(buf@ =~= old(buf)@ + seq![v]);
    }
    Ok(())
}

pub(crate) fn u64_to(buf: &mut ByteWriter, v: u64, Ghost(t): Ghost<Seq<u8>>, Ghost(ok): Ghost<bool>) -> (r: Result<(), PacketSerError>)
    requires
        prefix_of(old(buf)@ + u64_be(v), t),
    ensures
        advanced(*old(buf), *final(buf), u64_be(v), t, ok, r),
{
    if buf.remaining_mut() < 8 {
        proof {
            lemma_prefix_of_add(buf@, u64_be(v));
            lemma_writes_stopped(*buf, *buf, u64_be(v), true, t, ok);
        }
        return Err(PacketSerError::Overflow);
    }
    buf.put_u64(v);
    Ok(())
}

/// The step after `w` bytes toward `t = w + b + rest` writes `b`.
pub proof fn lemma_next(w: Seq<u8>, b: Seq<u8>, rest: Seq<u8>, t: Seq<u8>)
    requires
        t =~= w + b + rest,
    ensures
        prefix_of(w + b, t),
{
    lemma_prefix_of_add(w + b, rest);
}

/// A write that ends at its target succeeded with exactly those bytes.
pub proof fn lemma_arrived(w0: ByteWriter, w: ByteWriter, wire: Seq<u8>, ok: bool)
    requires
        w.capacity() == w0.capacity(),
        w@ =~= w0@ + wire,
        wire.len() <= w0.room(),
        ok,
    ensures
        writes(w0, w, wire, ok, true),
{
    lemma_prefix_of_add(w@, Seq::empty());
    assert(w@ + Seq::<u8>::empty() =~= w@);
}

// ---------------------------------------------------------------------------
// Field reads.
// ---------------------------------------------------------------------------

/// Reads one byte.
pub(crate) fn get_u8_field(buf: &mut ByteReader) -> (r: Result<u8, PacketSerError>)
    ensures
        got(r, u8_field(old(buf)@), old(buf)@, final(buf)@),
{
    if buf.remaining() < 1 {
        return Err(PacketSerError::Underflow);
    }
    Ok(buf.get_u8())
}

/// Reads a big-endian `u16`.
pub(crate) fn get_u16_field(buf: &mut ByteReader) -> (r: Result<u16, PacketSerError>)
    ensures
        got(r, u16_field(old(buf)@), old(buf)@, final(buf)@),
{
    if buf.remaining() < 2 {
        return Err(PacketSerError::Underflow);
    }
    Ok(buf.get_u16())
}

/// Reads a boolean byte.
pub(crate) fn get_bool_field(buf: &mut ByteReader) -> (r: Result<bool, PacketSerError>)
    ensures
        got(r, bool_field(old(buf)@), old(buf)@, final(buf)@),
{
    if buf.remaining() < 1 {
        return Err(PacketSerError::Underflow);
    }
    Ok(buf.get_u8() != 0)
}

/// Reads a byte array after its VarInt length.
pub(crate) fn get_prefixed_bytes(buf: &mut ByteReader) -> (r: Result<Vec<u8>, PacketSerError>)
    ensures
        got(r, prefixed_bytes_field(old(buf)@), old(buf)@, final(buf)@),
{
    let ghost s = buf@;
    let len = read_var_int_buf(buf)?;
    let ghost n = var_int_field(s)->Ok_0.1;
    if len < 0 || len as usize > buf.remaining() {
        return Err(PacketSerError::InvalidValue);
    }
    let out = buf.take_bytes(len as usize);
    proof {
        assert(out@ =~= s.subrange(n as int, n + len));
        assert(buf@ =~= s.skip(n + len));
    }
    Ok(out)
}

/// Reads everything left of the body.
pub(crate) fn get_rest(buf: &mut ByteReader) -> (r: Result<Vec<u8>, PacketSerError>)
    ensures
        got(r, rest_field(old(buf)@), old(buf)@, final(buf)@),
{
    let out = buf.take_rest();
    proof {
        assert(buf@ =~= old(buf)@.skip(old(buf)@.len() as int));
    }
    Ok(out)
}

/// Reads a big-endian `u64`.
pub(crate) fn get_u64_field(buf: &mut ByteReader) -> (r: Result<u64, PacketSerError>)
    ensures
        got(r, u64_field(old(buf)@), old(buf)@, final(buf)@),
{
    if buf.remaining() < 8 {
        return Err(PacketSerError::Underflow);
    }
    Ok(buf.get_u64())
}

} // verus!
