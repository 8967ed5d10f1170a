//! Writing NBT to bytes.
use vstd::prelude::*;
use crate::buffer::{
    ByteWriter, lemma_fail_first, lemma_fail_mid, lemma_prefix_of_add, lemma_writes_empty,
    lemma_writes_seq, prefix_of, u16_be, u32_be, u64_be, writes,
};
use super::cesu::{java_cesu8_decode, java_cesu8_encode, plain_text, to_java_cesu8};
use vstd::utf8::encode_utf8;
use super::{lemma_entries_data_len, lemma_values_data_len, NbtList,
    Nbt, NbtCompound, NbtData, NbtTag, NbtValue, data_tag, tag_id, value_data, values_data,
    entries_data,
};

verus! {

#[derive(Debug, Clone, Copy, PartialEq, Eq, Structural)]
pub enum NbtEncodeError {
    /// The destination is full, or a string is longer than 65535 bytes.
    Overflow,
}

/// A string can be written: its modified UTF-8 bytes fit a 16-bit length
/// (and, as `to_java_cesu8` promises of every text, they decode back to it).
pub open spec fn str_ok(s: Seq<char>) -> bool {
    &&& java_cesu8_encode(s).len() <= 0xFFFF
    &&& java_cesu8_decode(java_cesu8_encode(s)) == Some(s)
}

/// A string as NBT writes it: 16-bit length, then modified UTF-8 bytes.
pub open spec fn str_bytes(s: Seq<char>) -> Seq<u8> {
    u16_be(java_cesu8_encode(s).len() as u16) + java_cesu8_encode(s)
}

/// The big-endian bytes of each `i32`, in order.
pub open spec fn ints_bytes(a: Seq<i32>) -> Seq<u8> {
    Seq::new(4 * a.len(), |j: int| u32_be(a[j / 4] as u32)[j % 4])
}

/// The big-endian bytes of each `i64`, in order.
pub open spec fn longs_bytes(a: Seq<i64>) -> Seq<u8> {
    Seq::new(8 * a.len(), |j: int| u64_be(a[j / 8] as u64)[j % 8])
}

/// Each byte of a byte array, as written.
pub open spec fn array_bytes(a: Seq<i8>) -> Seq<u8> {
    Seq::new(a.len(), |i: int| a[i] as u8)
}

/// Every string inside a value fits a 16-bit length.
pub open spec fn payload_ok(d: NbtData) -> bool
    decreases d,
{
    match d {
        NbtData::String(s) => str_ok(s),
        NbtData::List(_, items) => items_ok(items),
        NbtData::Compound(entries) => entries_ok(entries),
        _ => true,
    }
}

/// `payload_ok` for each value.
pub open spec fn items_ok(s: Seq<NbtData>) -> bool
    decreases s,
{
    if s.len() == 0 {
        true
    } else {
        items_ok(s.drop_last()) && payload_ok(s.last())
    }
}

/// `payload_ok` for each entry, and each name fits a 16-bit length.
pub open spec fn entries_ok(s: Seq<(Seq<char>, NbtData)>) -> bool
    decreases s,
{
    if s.len() == 0 {
        true
    } else {
        entries_ok(s.drop_last()) && (str_ok(s.last().0) && payload_ok(s.last().1))
    }
}

/// The payload bytes of a value.
pub open spec fn payload_bytes(d: NbtData) -> Seq<u8>
    decreases d,
{
    match d {
        NbtData::Byte(v) => seq![v as u8],
        NbtData::Short(v) => u16_be(v as u16),
        NbtData::Int(v) => u32_be(v as u32),
        NbtData::Long(v) => u64_be(v as u64),
        NbtData::Float(b) => u32_be(b),
        NbtData::Double(b) => u64_be(b),
        NbtData::ByteArray(a) => u32_be(a.len() as i32 as u32) + array_bytes(a),
        NbtData::String(s) => str_bytes(s),
        NbtData::List(t, items) => seq![tag_id(t)] + u32_be(items.len() as i32 as u32)
            + items_bytes(items),
        NbtData::Compound(entries) => entries_bytes(entries) + seq![0u8],
        NbtData::IntArray(a) => u32_be(a.len() as i32 as u32) + ints_bytes(a),
        NbtData::LongArray(a) => u32_be(a.len() as i32 as u32) + longs_bytes(a),
    }
}

/// The payload bytes of each value, in order.
pub open spec fn items_bytes(s: Seq<NbtData>) -> Seq<u8>
    decreases s,
{
    if s.len() == 0 {
        Seq::empty()
    } else {
        items_bytes(s.drop_last()) + payload_bytes(s.last())
    }
}

/// One compound entry: its tag id, its name, its payload.
pub open spec fn entry_bytes(name: Seq<char>, d: NbtData) -> Seq<u8> {
    seq![tag_id(data_tag(d))] + str_bytes(name) + payload_bytes(d)
}

/// Each entry's bytes, in order.
pub open spec fn entries_bytes(s: Seq<(Seq<char>, NbtData)>) -> Seq<u8>
    decreases s,
{
    if s.len() == 0 {
        Seq::empty()
    } else {
        entries_bytes(s.drop_last()) + (seq![tag_id(data_tag(s.last().1))] + str_bytes(
            s.last().0,
        ) + payload_bytes(s.last().1))
    }
}

/// A root as NBT writes it: the compound tag id, the name, the compound.
pub open spec fn root_bytes(name: Seq<char>, entries: Seq<(Seq<char>, NbtData)>) -> Seq<u8> {
    seq![10u8] + str_bytes(name) + payload_bytes(NbtData::Compound(entries))
}

/// A root whose name is plain text as it is written: the compound tag id, the
/// name's UTF-8 bytes behind their 16-bit length, then the compound.
pub open spec fn plain_root_bytes(name: Seq<char>, entries: Seq<(Seq<char>, NbtData)>) -> Seq<u8> {
    seq![10u8] + u16_be(encode_utf8(name).len() as u16) + encode_utf8(name) + payload_bytes(
        NbtData::Compound(entries),
    )
}

/// Whether a root can be written: its name and every string fit a 16-bit length.
pub open spec fn root_ok(name: Seq<char>, entries: Seq<(Seq<char>, NbtData)>) -> bool {
    str_ok(name) && entries_ok(entries)
}

pub(crate) proof fn lemma_items_append(a: Seq<NbtData>, b: Seq<NbtData>)
    ensures
        items_bytes(a + b) == items_bytes(a) + items_bytes(b),
        items_ok(a + b) == (items_ok(a) && items_ok(b)),
    decreases b.len(),
{
    if b.len() == 0 {
        assert(a + b =~= a);
        assert(items_bytes(a) + items_bytes(b) =~= items_bytes(a));
    } else {
        lemma_items_append(a, b.drop_last());
        assert((a + b).drop_last() =~= a + b.drop_last());
        assert((a + b).last() == b.last());
        assert(items_bytes(a + b) =~= items_bytes(a) + items_bytes(b));
    }
}

pub(crate) proof fn lemma_items_step(s: Seq<NbtData>, i: int)
    requires
        0 <= i < s.len(),
    ensures
        items_bytes(s.take(i + 1)) == items_bytes(s.take(i)) + payload_bytes(s[i]),
        items_ok(s.take(i + 1)) == (items_ok(s.take(i)) && payload_ok(s[i])),
        items_bytes(s) == items_bytes(s.take(i + 1)) + items_bytes(s.skip(i + 1)),
        items_ok(s) == (items_ok(s.take(i + 1)) && items_ok(s.skip(i + 1))),
{
    assert(s.take(i + 1).drop_last() =~= s.take(i));
    assert(s.take(i + 1).last() == s[i]);
    assert(s =~= s.take(i + 1) + s.skip(i + 1));
    lemma_items_append(s.take(i + 1), s.skip(i + 1));
}

pub(crate) proof fn lemma_entries_append(a: Seq<(Seq<char>, NbtData)>, b: Seq<(Seq<char>, NbtData)>)
    ensures
        entries_bytes(a + b) == entries_bytes(a) + entries_bytes(b),
        entries_ok(a + b) == (entries_ok(a) && entries_ok(b)),
    decreases b.len(),
{
    if b.len() == 0 {
        assert(a + b =~= a);
        assert(entries_bytes(a) + entries_bytes(b) =~= entries_bytes(a));
    } else {
        lemma_entries_append(a, b.drop_last());
        assert((a + b).drop_last() =~= a + b.drop_last());
        assert((a + b).last() == b.last());
        assert(entries_bytes(a + b) =~= entries_bytes(a) + entries_bytes(b));
    }
}

pub(crate) proof fn lemma_entries_step(s: Seq<(Seq<char>, NbtData)>, i: int)
    requires
        0 <= i < s.len(),
    ensures
        entries_bytes(s.take(i + 1)) == entries_bytes(s.take(i)) + entry_bytes(s[i].0, s[i].1),
        entries_ok(s.take(i + 1)) == (entries_ok(s.take(i)) && (str_ok(s[i].0) && payload_ok(
            s[i].1,
        ))),
        entries_bytes(s) == entries_bytes(s.take(i + 1)) + entries_bytes(s.skip(i + 1)),
        entries_ok(s) == (entries_ok(s.take(i + 1)) && entries_ok(s.skip(i + 1))),
{
    assert(s.take(i + 1).drop_last() =~= s.take(i));
    assert(s.take(i + 1).last() == s[i]);
    assert(s =~= s.take(i + 1) + s.skip(i + 1));
    lemma_entries_append(s.take(i + 1), s.skip(i + 1));
}

proof fn lemma_array_step(a: Seq<i8>, i: int)
    requires
        0 <= i < a.len(),
    ensures
        array_bytes(a.take(i + 1)) == array_bytes(a.take(i)) + seq![a[i] as u8],
        array_bytes(a) == array_bytes(a.take(i + 1)) + array_bytes(a.skip(i + 1)),
{
    assert(array_bytes(a.take(i + 1)) =~= array_bytes(a.take(i)) + seq![a[i] as u8]);
    assert(array_bytes(a) =~= array_bytes(a.take(i + 1)) + array_bytes(a.skip(i + 1)));
}

pub(crate) proof fn lemma_ints_step(a: Seq<i32>, i: int)
    requires
        0 <= i < a.len(),
    ensures
        ints_bytes(a.take(i + 1)) == ints_bytes(a.take(i)) + u32_be(a[i] as u32),
        ints_bytes(a) == ints_bytes(a.take(i + 1)) + ints_bytes(a.skip(i + 1)),
{
    let l = ints_bytes(a.take(i + 1));
    let r = ints_bytes(a.take(i)) + u32_be(a[i] as u32);
    assert forall|j: int| 0 <= j < l.len() implies l[j] == r[j] by {
        if j < 4 * i {
            assert(j / 4 < i);
        } else {
            assert(j / 4 == i);
            assert(j % 4 == j - 4 * i);
        }
    }
    assert(l =~= r);
    let k = i + 1;
    let t = ints_bytes(a);
    let u = ints_bytes(a.take(k)) + ints_bytes(a.skip(k));
    assert forall|j: int| 0 <= j < t.len() implies t[j] == u[j] by {
        if j < 4 * k {
            assert(j / 4 < k);
        } else {
            assert((j - 4 * k) / 4 + k == j / 4);
            assert((j - 4 * k) % 4 == j % 4);
        }
    }
    assert(t =~= u);
}

pub(crate) proof fn lemma_longs_step(a: Seq<i64>, i: int)
    requires
        0 <= i < a.len(),
    ensures
        longs_bytes(a.take(i + 1)) == longs_bytes(a.take(i)) + u64_be(a[i] as u64),
        longs_bytes(a) == longs_bytes(a.take(i + 1)) + longs_bytes(a.skip(i + 1)),
{
    let l = longs_bytes(a.take(i + 1));
    let r = longs_bytes(a.take(i)) + u64_be(a[i] as u64);
    assert forall|j: int| 0 <= j < l.len() implies l[j] == r[j] by {
        if j < 8 * i {
            assert(j / 8 < i);
        } else {
            assert(j / 8 == i);
            assert(j % 8 == j - 8 * i);
        }
    }
    assert(l =~= r);
    let k = i + 1;
    let t = longs_bytes(a);
    let u = longs_bytes(a.take(k)) + longs_bytes(a.skip(k));
    assert forall|j: int| 0 <= j < t.len() implies t[j] == u[j] by {
        if j < 8 * k {
            assert(j / 8 < k);
        } else {
            assert((j - 8 * k) / 8 + k == j / 8);
            assert((j - 8 * k) % 8 == j % 8);
        }
    }
    assert(t =~= u);
}

/// Writes NBT into a `ByteWriter`.
pub struct NbtWriter;

impl NbtWriter {
    /// A writer.
    pub fn new() -> (w: Self) {
        NbtWriter
    }

    fn put_u8(&mut self, buf: &mut ByteWriter, v: u8) -> (r: Result<(), NbtEncodeError>)
        ensures
            writes(*old(buf), *final(buf), seq![v], true, r is Ok),
    {
        if buf.remaining_mut() < 1 {
            proof {
                lemma_writes_empty(*buf);
                lemma_prefix_of_add(buf@, seq![v]);
            }
            return Err(NbtEncodeError::Overflow);
        }
        buf.put_u8(v);
        proof {
            lemma_prefix_of_add(old(buf)@, seq![v]);
            assert(buf@ =~= old(buf)@ + seq![v]);
            lemma_prefix_of_add(buf@, Seq::empty());
            assert(buf@ + Seq::<u8>::empty() =~= buf@);
        }
        Ok(())
    }

    fn put_u16(&mut self, buf: &mut ByteWriter, v: u16) -> (r: Result<(), NbtEncodeError>)
        ensures
            writes(*old(buf), *final(buf), u16_be(v), true, r is Ok),
    {
        if buf.remaining_mut() < 2 {
            proof {
                lemma_writes_empty(*buf);
                lemma_prefix_of_add(buf@, u16_be(v));
            }
            return Err(NbtEncodeError::Overflow);
        }
        buf.put_u16(v);
        proof {
            lemma_prefix_of_add(old(buf)@, u16_be(v));
            lemma_prefix_of_add(buf@, Seq::empty());
            assert(buf@ + Seq::<u8>::empty() =~= buf@);
        }
        Ok(())
    }

    fn put_u32(&mut self, buf: &mut ByteWriter, v: u32) -> (r: Result<(), NbtEncodeError>)
        ensures
            writes(*old(buf), *final(buf), u32_be(v), true, r is Ok),
    {
        if buf.remaining_mut() < 4 {
            proof {
                lemma_writes_empty(*buf);
                lemma_prefix_of_add(buf@, u32_be(v));
            }
            return Err(NbtEncodeError::Overflow);
        }
        buf.put_u32(v);
        proof {
            lemma_prefix_of_add(old(buf)@, u32_be(v));
            lemma_prefix_of_add(buf@, Seq::empty());
            assert(buf@ + Seq::<u8>::empty() =~= buf@);
        }
        Ok(())
    }

    fn put_u64(&mut self, buf: &mut ByteWriter, v: u64) -> (r: Result<(), NbtEncodeError>)
        ensures
            writes(*old(buf), *final(buf), u64_be(v), true, r is Ok),
    {
        if buf.remaining_mut() < 8 {
            proof {
                lemma_writes_empty(*buf);
                lemma_prefix_of_add(buf@, u64_be(v));
            }
            return Err(NbtEncodeError::Overflow);
        }
        buf.put_u64(v);
        proof {
            lemma_prefix_of_add(old(buf)@, u64_be(v));
            lemma_prefix_of_add(buf@, Seq::empty());
            assert(buf@ + Seq::<u8>::empty() =~= buf@);
        }
        Ok(())
    }

    fn put_string(&mut self, buf: &mut ByteWriter, value: &str) -> (r: Result<(), NbtEncodeError>)
        ensures
            writes(*old(buf), *final(buf), str_bytes(value@), str_ok(value@), r is Ok),
            plain_text(value@) ==> java_cesu8_encode(value@) == encode_utf8(value@),
    {
        let bytes = to_java_cesu8(value);
        let len = bytes.len();
        if len > 0xFFFF {
            proof {
                lemma_writes_empty(*buf);
                lemma_prefix_of_add(buf@, str_bytes(value@));
            }
            return Err(NbtEncodeError::Overflow);
        }
        let ghost w0 = *buf;
        let ghost hdr = u16_be(len as u16);
        match self.put_u16(buf, len as u16) {
            Ok(()) => {},
            Err(e) => {
                proof {
                    lemma_prefix_of_add(hdr, bytes@);
                    lemma_fail_first(w0, *buf, hdr, true, str_bytes(value@), str_ok(value@));
                }
                return Err(e);
            },
        }
        let ghost w1 = *buf;
        if buf.remaining_mut() < len {
            proof {
                lemma_writes_empty(*buf);
                lemma_prefix_of_add(buf@, bytes@);
                lemma_prefix_of_add(hdr + bytes@, Seq::empty());
                assert(hdr + bytes@ + Seq::<u8>::empty() =~= hdr + bytes@);
                lemma_fail_mid(w0, w1, *buf, hdr, bytes@, true, str_bytes(value@), str_ok(value@));
            }
            return Err(NbtEncodeError::Overflow);
        }
        buf.put_slice(bytes.as_slice());
        proof {
            lemma_prefix_of_add(w1@, bytes@);
            lemma_prefix_of_add(buf@, Seq::empty());
            assert(buf@ + Seq::<u8>::empty() =~= buf@);
            lemma_writes_seq(w0, w1, *buf, hdr, bytes@, true, true);
        }
        Ok(())
    }

    fn write_byte_array(&mut self, buf: &mut ByteWriter, arr: &Vec<i8>) -> (r: Result<(), NbtEncodeError>)
        ensures
            writes(*old(buf), *final(buf), payload_bytes(NbtData::ByteArray(arr@)), true, r is Ok),
    {
        let ghost w0 = *buf;
        let ghost hdr = u32_be(arr@.len() as i32 as u32);
        let ghost total = payload_bytes(NbtData::ByteArray(arr@));
        match self.put_u32(buf, arr.len() as i32 as u32) {
            Ok(()) => {},
            Err(e) => {
                proof {
                    lemma_prefix_of_add(hdr, array_bytes(arr@));
                    lemma_fail_first(w0, *buf, hdr, true, total, true);
                }
                return Err(e);
            },
        }
        proof {
            assert(hdr + array_bytes(arr@.take(0)) =~= hdr);
        }
        let mut i: usize = 0;
        while i < arr.len()
            invariant
                i <= arr@.len(),
                w0 == *old(buf),
                hdr == u32_be(arr@.len() as i32 as u32),
                total == payload_bytes(NbtData::ByteArray(arr@)),
                writes(w0, *buf, hdr + array_bytes(arr@.take(i as int)), true, true),
            decreases arr@.len() - i,
        {
            let ghost wi = *buf;
            let ghost done = hdr + array_bytes(arr@.take(i as int));
            let ghost one = seq![arr@[i as int] as u8];
            proof {
                lemma_array_step(arr@, i as int);
                assert(total =~= (done + one) + array_bytes(arr@.skip(i + 1)));
                assert(done + one =~= hdr + array_bytes(arr@.take(i + 1)));
            }
            match self.put_u8(buf, arr[i] as u8) {
                Ok(()) => {},
                Err(e) => {
                    proof {
                        lemma_prefix_of_add(done + one, array_bytes(arr@.skip(i + 1)));
                        lemma_fail_mid(w0, wi, *buf, done, one, true, total, true);
                    }
                    return Err(e);
                },
            }
            proof {
                lemma_writes_seq(w0, wi, *buf, done, one, true, true);
            }
            i = i + 1;
        }
        proof {
            assert(arr@.take(arr@.len() as int) =~= arr@);
        }
        Ok(())
    }

    fn write_ints(&mut self, buf: &mut ByteWriter, arr: &Vec<i32>) -> (r: Result<(), NbtEncodeError>)
        ensures
            writes(*old(buf), *final(buf), payload_bytes(NbtData::IntArray(arr@)), true, r is Ok),
    {
        let ghost w0 = *buf;
        let ghost hdr = u32_be(arr@.len() as i32 as u32);
        let ghost total = payload_bytes(NbtData::IntArray(arr@));
        match self.put_u32(buf, arr.len() as i32 as u32) {
            Ok(()) => {},
            Err(e) => {
                proof {
                    lemma_prefix_of_add(hdr, ints_bytes(arr@));
                    lemma_fail_first(w0, *buf, hdr, true, total, true);
                }
                return Err(e);
            },
        }
        proof {
            assert(hdr + ints_bytes(arr@.take(0)) =~= hdr);
        }
        let mut i: usize = 0;
        while i < arr.len()
            invariant
                i <= arr@.len(),
                w0 == *old(buf),
                hdr == u32_be(arr@.len() as i32 as u32),
                total == payload_bytes(NbtData::IntArray(arr@)),
                writes(w0, *buf, hdr + ints_bytes(arr@.take(i as int)), true, true),
            decreases arr@.len() - i,
        {
            let ghost wi = *buf;
            let ghost done = hdr + ints_bytes(arr@.take(i as int));
            let ghost one = u32_be(arr@[i as int] as u32);
            proof {
                lemma_ints_step(arr@, i as int);
                assert(total =~= (done + one) + ints_bytes(arr@.skip(i + 1)));
                assert(done + one =~= hdr + ints_bytes(arr@.take(i + 1)));
            }
            match self.put_u32(buf, arr[i] as u32) {
                Ok(()) => {},
                Err(e) => {
                    proof {
                        lemma_prefix_of_add(done + one, ints_bytes(arr@.skip(i + 1)));
                        lemma_fail_mid(w0, wi, *buf, done, one, true, total, true);
                    }
                    return Err(e);
                },
            }
            proof {
                lemma_writes_seq(w0, wi, *buf, done, one, true, true);
            }
            i = i + 1;
        }
        proof {
            assert(arr@.take(arr@.len() as int) =~= arr@);
        }
        Ok(())
    }

    fn write_longs(&mut self, buf: &mut ByteWriter, arr: &Vec<i64>) -> (r: Result<(), NbtEncodeError>)
        ensures
            writes(*old(buf), *final(buf), payload_bytes(NbtData::LongArray(arr@)), true, r is Ok),
    {
        let ghost w0 = *buf;
        let ghost hdr = u32_be(arr@.len() as i32 as u32);
        let ghost total = payload_bytes(NbtData::LongArray(arr@));
        match self.put_u32(buf, arr.len() as i32 as u32) {
            Ok(()) => {},
            Err(e) => {
                proof {
                    lemma_prefix_of_add(hdr, longs_bytes(arr@));
                    lemma_fail_first(w0, *buf, hdr, true, total, true);
                }
                return Err(e);
            },
        }
        proof {
            assert(hdr + longs_bytes(arr@.take(0)) =~= hdr);
        }
        let mut i: usize = 0;
        while i < arr.len()
            invariant
                i <= arr@.len(),
                w0 == *old(buf),
                hdr == u32_be(arr@.len() as i32 as u32),
                total == payload_bytes(NbtData::LongArray(arr@)),
                writes(w0, *buf, hdr + longs_bytes(arr@.take(i as int)), true, true),
            decreases arr@.len() - i,
        {
            let ghost wi = *buf;
            let ghost done = hdr + longs_bytes(arr@.take(i as int));
            let ghost one = u64_be(arr@[i as int] as u64);
            proof {
                lemma_longs_step(arr@, i as int);
                assert(total =~= (done + one) + longs_bytes(arr@.skip(i + 1)));
                assert(done + one =~= hdr + longs_bytes(arr@.take(i + 1)));
            }
            match self.put_u64(buf, arr[i] as u64) {
                Ok(()) => {},
                Err(e) => {
                    proof {
                        lemma_prefix_of_add(done + one, longs_bytes(arr@.skip(i + 1)));
                        lemma_fail_mid(w0, wi, *buf, done, one, true, total, true);
                    }
                    return Err(e);
                },
            }
            proof {
                lemma_writes_seq(w0, wi, *buf, done, one, true, true);
            }
            i = i + 1;
        }
        proof {
            assert(arr@.take(arr@.len() as int) =~= arr@);
        }
        Ok(())
    }

    fn write_list(&mut self, buf: &mut ByteWriter, list: &NbtList) -> (r: Result<(), NbtEncodeError>)
        ensures
            writes(
                *old(buf),
                *final(buf),
                payload_bytes(NbtData::List(list@.0, list@.1)),
                payload_ok(NbtData::List(list@.0, list@.1)),
                r is Ok,
            ),
        decreases list, 0nat,
    {
        let ghost w0 = *buf;
        let ghost items = list@.1;
        let ghost hdr = seq![tag_id(list.element_type)] + u32_be(list.elements@.len() as i32 as u32);
        let ghost total = payload_bytes(NbtData::List(list@.0, list@.1));
        let ghost ok = payload_ok(NbtData::List(list@.0, list@.1));
        proof {
            lemma_values_data_len(list.elements@);
            assert(total == hdr + items_bytes(items));
        }
        match self.put_u8(buf, list.element_type.id()) {
            Ok(()) => {},
            Err(e) => {
                proof {
                    assert(total =~= seq![tag_id(list.element_type)] + (u32_be(
                        list.elements@.len() as i32 as u32,
                    ) + items_bytes(items)));
                    lemma_prefix_of_add(
                        seq![tag_id(list.element_type)],
                        u32_be(list.elements@.len() as i32 as u32) + items_bytes(items),
                    );
                    lemma_fail_first(w0, *buf, seq![tag_id(list.element_type)], true, total, ok);
                }
                return Err(e);
            },
        }
        let ghost w1 = *buf;
        match self.put_u32(buf, list.elements.len() as i32 as u32) {
            Ok(()) => {},
            Err(e) => {
                proof {
                    lemma_prefix_of_add(hdr, items_bytes(items));
                    lemma_fail_mid(
                        w0,
                        w1,
                        *buf,
                        seq![tag_id(list.element_type)],
                        u32_be(list.elements@.len() as i32 as u32),
                        true,
                        total,
                        ok,
                    );
                }
                return Err(e);
            },
        }
        proof {
            lemma_writes_seq(
                w0,
                w1,
                *buf,
                seq![tag_id(list.element_type)],
                u32_be(list.elements@.len() as i32 as u32),
                true,
                true,
            );
            assert(hdr + items_bytes(items.take(0)) =~= hdr);
        }
        let mut i: usize = 0;
        while i < list.elements.len()
            invariant
                i <= list.elements@.len(),
                w0 == *old(buf),
                items == list@.1,
                items.len() == list.elements@.len(),
                forall|j: int|
                    0 <= j < list.elements@.len() ==> #[trigger] items[j] == list.elements@[j]@,
                total == hdr + items_bytes(items),
                total == payload_bytes(NbtData::List(list@.0, list@.1)),
                ok == payload_ok(NbtData::List(list@.0, list@.1)),
                ok == items_ok(items),
                writes(w0, *buf, hdr + items_bytes(items.take(i as int)), true, true),
                items_ok(items.take(i as int)),
            decreases list.elements@.len() - i,
        {
            let ghost wi = *buf;
            let ghost done = hdr + items_bytes(items.take(i as int));
            let ghost one = payload_bytes(items[i as int]);
            proof {
                lemma_items_step(items, i as int);
                assert(total =~= (done + one) + items_bytes(items.skip(i + 1)));
                assert(done + one =~= hdr + items_bytes(items.take(i + 1)));
            }
            match self.write_payload(buf, &list.elements[i]) {
                Ok(()) => {},
                Err(e) => {
                    proof {
                        lemma_prefix_of_add(done + one, items_bytes(items.skip(i + 1)));
                        lemma_fail_mid(w0, wi, *buf, done, one, payload_ok(items[i as int]), total, ok);
                    }
                    return Err(e);
                },
            }
            proof {
                lemma_writes_seq(w0, wi, *buf, done, one, true, payload_ok(items[i as int]));
            }
            i = i + 1;
        }
        proof {
            assert(items.take(items.len() as int) =~= items);
        }
        Ok(())
    }

    fn write_entry(&mut self, buf: &mut ByteWriter, name: &String, value: &NbtValue) -> (r: Result<(), NbtEncodeError>)
        ensures
            writes(
                *old(buf),
                *final(buf),
                entry_bytes(name@, value@),
                str_ok(name@) && payload_ok(value@),
                r is Ok,
            ),
        decreases value, 3nat,
    {
        let ghost w0 = *buf;
        let ghost t = seq![tag_id(data_tag(value@))];
        let ghost total = entry_bytes(name@, value@);
        let ghost ok = str_ok(name@) && payload_ok(value@);
        proof {
            assert(total =~= t + (str_bytes(name@) + payload_bytes(value@)));
        }
        match self.put_u8(buf, value.tag().id()) {
            Ok(()) => {},
            Err(e) => {
                proof {
                    lemma_prefix_of_add(t, str_bytes(name@) + payload_bytes(value@));
                    lemma_fail_first(w0, *buf, t, true, total, ok);
                }
                return Err(e);
            },
        }
        let ghost w1 = *buf;
        match self.put_string(buf, name.as_str()) {
            Ok(()) => {},
            Err(e) => {
                proof {
                    lemma_prefix_of_add(t + str_bytes(name@), payload_bytes(value@));
                    lemma_fail_mid(w0, w1, *buf, t, str_bytes(name@), str_ok(name@), total, ok);
                }
                return Err(e);
            },
        }
        let ghost w2 = *buf;
        proof {
            lemma_writes_seq(w0, w1, w2, t, str_bytes(name@), true, str_ok(name@));
        }
        match self.write_payload(buf, value) {
            Ok(()) => {},
            Err(e) => {
                proof {
                    lemma_prefix_of_add(total, Seq::empty());
                    assert(total + Seq::<u8>::empty() =~= total);
                    lemma_fail_mid(
                        w0,
                        w2,
                        *buf,
                        t + str_bytes(name@),
                        payload_bytes(value@),
                        payload_ok(value@),
                        total,
                        ok,
                    );
                }
                return Err(e);
            },
        }
        proof {
            lemma_writes_seq(w0, w2, *buf, t + str_bytes(name@), payload_bytes(value@), true, payload_ok(value@));
        }
        Ok(())
    }

    fn write_compound(&mut self, buf: &mut ByteWriter, c: &NbtCompound) -> (r: Result<(), NbtEncodeError>)
        ensures
            writes(
                *old(buf),
                *final(buf),
                payload_bytes(NbtData::Compound(c@)),
                payload_ok(NbtData::Compound(c@)),
                r is Ok,
            ),
        decreases c, 0nat,
    {
        let ghost w0 = *buf;
        let ghost ents = c@;
        let ghost total = payload_bytes(NbtData::Compound(c@));
        let ghost ok = payload_ok(NbtData::Compound(c@));
        proof {
            lemma_entries_data_len(c.entries@);
            lemma_writes_empty(w0);
            assert(entries_bytes(ents.take(0)) =~= Seq::<u8>::empty()) by {
                assert(ents.take(0) =~= Seq::<(Seq<char>, NbtData)>::empty());
            }
            assert(ents.take(0) =~= Seq::<(Seq<char>, NbtData)>::empty());
        }
        let mut i: usize = 0;
        while i < c.entries.len()
            invariant
                i <= c.entries@.len(),
                w0 == *old(buf),
                ents == c@,
                ents.len() == c.entries@.len(),
                forall|j: int|
                    0 <= j < c.entries@.len() ==> #[trigger] ents[j] == (
                        c.entries@[j].0@,
                        c.entries@[j].1@,
                    ),
                total == entries_bytes(ents) + seq![0u8],
                ok == entries_ok(ents),
                writes(w0, *buf, entries_bytes(ents.take(i as int)), true, true),
                entries_ok(ents.take(i as int)),
            decreases c.entries@.len() - i,
        {
            let ghost wi = *buf;
            let ghost done = entries_bytes(ents.take(i as int));
            let ghost one = entry_bytes(ents[i as int].0, ents[i as int].1);
            proof {
                lemma_entries_step(ents, i as int);
                assert(total =~= (done + one) + (entries_bytes(ents.skip(i + 1)) + seq![0u8]));
            }
            let entry = &c.entries[i];
            match self.write_entry(buf, &entry.0, &entry.1) {
                Ok(()) => {},
                Err(e) => {
                    proof {
                        lemma_prefix_of_add(done + one, entries_bytes(ents.skip(i + 1)) + seq![0u8]);
                        lemma_fail_mid(
                            w0,
                            wi,
                            *buf,
                            done,
                            one,
                            str_ok(ents[i as int].0) && payload_ok(ents[i as int].1),
                            total,
                            ok,
                        );
                    }
                    return Err(e);
                },
            }
            proof {
                lemma_writes_seq(
                    w0,
                    wi,
                    *buf,
                    done,
                    one,
                    true,
                    str_ok(ents[i as int].0) && payload_ok(ents[i as int].1),
                );
            }
            i = i + 1;
        }
        proof {
            assert(ents.take(ents.len() as int) =~= ents);
        }
        let ghost wn = *buf;
        match self.put_u8(buf, 0) {
            Ok(()) => {},
            Err(e) => {
                proof {
                    lemma_prefix_of_add(total, Seq::empty());
                    assert(total + Seq::<u8>::empty() =~= total);
                    lemma_fail_mid(w0, wn, *buf, entries_bytes(ents), seq![0u8], true, total, ok);
                }
                return Err(e);
            },
        }
        proof {
            lemma_writes_seq(w0, wn, *buf, entries_bytes(ents), seq![0u8], true, true);
        }
        Ok(())
    }

    /// Writes the payload of `value`: its bytes without tag id or name.
    pub fn write_payload(&mut self, buf: &mut ByteWriter, value: &NbtValue) -> (r: Result<(), NbtEncodeError>)
        ensures
            writes(*old(buf), *final(buf), payload_bytes(value@), payload_ok(value@), r is Ok),
        decreases value, 2nat,
    {
        match value {
            NbtValue::Byte(v) => self.put_u8(buf, *v as u8),
            NbtValue::Short(v) => self.put_u16(buf, *v as u16),
            NbtValue::Int(v) => self.put_u32(buf, *v as u32),
            NbtValue::Long(v) => self.put_u64(buf, *v as u64),
            NbtValue::Float(v) => self.put_u32(buf, *v),
            NbtValue::Double(v) => self.put_u64(buf, *v),
            NbtValue::ByteArray(arr) => self.write_byte_array(buf, arr),
            NbtValue::String(s) => self.put_string(buf, s.as_str()),
            NbtValue::List(list) => self.write_list(buf, list),
            NbtValue::Compound(c) => self.write_compound(buf, c),
            NbtValue::IntArray(arr) => self.write_ints(buf, arr),
            NbtValue::LongArray(arr) => self.write_longs(buf, arr),
        }
    }

    /// Writes a root: the compound tag id, the root's name, its compound.
    pub fn write_root(&mut self, buf: &mut ByteWriter, nbt: &Nbt) -> (r: Result<(), NbtEncodeError>)
        ensures
            writes(
                *old(buf),
                *final(buf),
                root_bytes(nbt.name@, nbt.root@),
                root_ok(nbt.name@, nbt.root@),
                r is Ok,
            ),
            r is Ok && plain_text(nbt.name@) ==> root_bytes(nbt.name@, nbt.root@) == plain_root_bytes(
                nbt.name@,
                nbt.root@,
            ),
    {
        self.write_named_root(buf, nbt.name.as_str(), &nbt.root)
    }

    /// Writes a root made of `name` and `root`, as `write_root` would write
    /// a `Nbt` holding them.
    pub fn write_named_root(&mut self, buf: &mut ByteWriter, name: &str, root: &NbtCompound) -> (r: Result<(), NbtEncodeError>)
        ensures
            writes(*old(buf), *final(buf), root_bytes(name@, root@), root_ok(name@, root@), r is Ok),
            r is Ok && plain_text(name@) ==> root_bytes(name@, root@) == plain_root_bytes(name@, root@),
    {
        let ghost w0 = *buf;
        let ghost t = seq![10u8];
        let ghost body = payload_bytes(NbtData::Compound(root@));
        let ghost total = root_bytes(name@, root@);
        let ghost ok = root_ok(name@, root@);
        proof {
            assert(total =~= t + (str_bytes(name@) + body));
        }
        match self.put_u8(buf, 10) {
            Ok(()) => {},
            Err(e) => {
                proof {
                    lemma_prefix_of_add(t, str_bytes(name@) + body);
                    lemma_fail_first(w0, *buf, t, true, total, ok);
                }
                return Err(e);
            },
        }
        let ghost w1 = *buf;
        match self.put_string(buf, name) {
            Ok(()) => {},
            Err(e) => {
                proof {
                    lemma_prefix_of_add(t + str_bytes(name@), body);
                    lemma_fail_mid(w0, w1, *buf, t, str_bytes(name@), str_ok(name@), total, ok);
                }
                return Err(e);
            },
        }
        let ghost w2 = *buf;
        proof {
            lemma_writes_seq(w0, w1, w2, t, str_bytes(name@), true, str_ok(name@));
        }
        match self.write_compound(buf, root) {
            Ok(()) => {},
            Err(e) => {
                proof {
                    lemma_prefix_of_add(total, Seq::empty());
                    assert(total + Seq::<u8>::empty() =~= total);
                    lemma_fail_mid(
                        w0,
                        w2,
                        *buf,
                        t + str_bytes(name@),
                        body,
                        payload_ok(NbtData::Compound(root@)),
                        total,
                        ok,
                    );
                }
                return Err(e);
            },
        }
        proof {
            lemma_writes_seq(
                w0,
                w2,
                *buf,
                t + str_bytes(name@),
                body,
                true,
                payload_ok(NbtData::Compound(root@)),
            );
        }
        Ok(())
    }
}

} // verus!
