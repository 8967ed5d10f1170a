//! Reading NBT from bytes.
use vstd::prelude::*;
use crate::buffer::{ByteReader, be_u16, be_u32, be_u64};
use super::cesu::{from_java_cesu8, java_cesu8_decode};
use super::{
    MAX_DEPTH, Nbt, NbtCompound, NbtData, NbtList, NbtTag, NbtValue, compound_insert, tag_of,
    lemma_values_data_push,
};

verus! {

#[derive(Debug, Clone, Copy, PartialEq, Eq, Structural)]
pub enum NbtDecodeError {
    /// The bytes ended early, or a length was negative.
    Eof,
    /// A tag id that names no tag.
    InvalidTagId(u8),
    /// A string is not valid modified UTF-8.
    InvalidUtf8,
    /// Lists and compounds nest deeper than `MAX_DEPTH`.
    DepthExceeded,
    /// A list's element type names no tag.
    InvalidListType(u8),
}

/// What reading a payload from some bytes yields.
pub ghost enum NbtParse {
    /// The value and the number of bytes it took.
    Done(NbtData, nat),
    /// The error, the number of bytes taken before it, and the reader's
    /// nesting depth then.
    Failed(NbtDecodeError, nat, nat),
}

/// `s` without its first `k` bytes (empty when `k` is past the end).
pub open spec fn drop(s: Seq<u8>, k: nat) -> Seq<u8> {
    if k <= s.len() {
        s.subrange(k as int, s.len() as int)
    } else {
        Seq::empty()
    }
}

/// Reading a length-prefixed modified UTF-8 string: the text or the error,
/// and the bytes taken.
pub open spec fn string_parse(s: Seq<u8>) -> (Result<Seq<char>, NbtDecodeError>, nat) {
    if s.len() < 2 {
        (Err(NbtDecodeError::Eof), 0)
    } else {
        let len = be_u16(s) as nat;
        if s.len() - 2 < len {
            (Err(NbtDecodeError::Eof), 2)
        } else {
            match java_cesu8_decode(s.subrange(2, 2 + len as int)) {
                Some(text) => (Ok(text), 2 + len),
                None => (Err(NbtDecodeError::InvalidUtf8), 2 + len),
            }
        }
    }
}

/// Shifts the byte counts of a nested read by `k`.
pub open spec fn after(k: nat, p: NbtParse) -> NbtParse {
    match p {
        NbtParse::Done(v, n) => NbtParse::Done(v, k + n),
        NbtParse::Failed(e, n, d) => NbtParse::Failed(e, k + n, d),
    }
}

/// Reading the payload of a value tagged `tag` from `s`, at nesting depth `depth`.
pub open spec fn payload_parse(tag: NbtTag, s: Seq<u8>, depth: nat) -> NbtParse
    decreases s.len(), 0nat, 1nat,
{
    match tag {
        NbtTag::End => NbtParse::Failed(NbtDecodeError::InvalidTagId(0), 0, depth),
        NbtTag::Byte => if s.len() < 1 {
            NbtParse::Failed(NbtDecodeError::Eof, 0, depth)
        } else {
            NbtParse::Done(NbtData::Byte(s[0] as i8), 1)
        },
        NbtTag::Short => if s.len() < 2 {
            NbtParse::Failed(NbtDecodeError::Eof, 0, depth)
        } else {
            NbtParse::Done(NbtData::Short(be_u16(s) as i16), 2)
        },
        NbtTag::Int => if s.len() < 4 {
            NbtParse::Failed(NbtDecodeError::Eof, 0, depth)
        } else {
            NbtParse::Done(NbtData::Int(be_u32(s) as i32), 4)
        },
        NbtTag::Long => if s.len() < 8 {
            NbtParse::Failed(NbtDecodeError::Eof, 0, depth)
        } else {
            NbtParse::Done(NbtData::Long(be_u64(s) as i64), 8)
        },
        NbtTag::Float => if s.len() < 4 {
            NbtParse::Failed(NbtDecodeError::Eof, 0, depth)
        } else {
            NbtParse::Done(NbtData::Float(be_u32(s)), 4)
        },
        NbtTag::Double => if s.len() < 8 {
            NbtParse::Failed(NbtDecodeError::Eof, 0, depth)
        } else {
            NbtParse::Done(NbtData::Double(be_u64(s)), 8)
        },
        NbtTag::ByteArray => if s.len() < 4 {
            NbtParse::Failed(NbtDecodeError::Eof, 0, depth)
        } else {
            let len = be_u32(s) as i32;
            if len < 0 || s.len() - 4 < len {
                NbtParse::Failed(NbtDecodeError::Eof, 4, depth)
            } else {
                NbtParse::Done(
                    NbtData::ByteArray(Seq::new(len as nat, |i: int| s[4 + i] as i8)),
                    4 + len as nat,
                )
            }
        },
        NbtTag::String => match string_parse(s) {
            (Ok(text), n) => NbtParse::Done(NbtData::String(text), n),
            (Err(e), n) => NbtParse::Failed(e, n, depth),
        },
        NbtTag::List => if depth + 1 > MAX_DEPTH {
            NbtParse::Failed(NbtDecodeError::DepthExceeded, 0, depth + 1)
        } else if s.len() < 1 {
            NbtParse::Failed(NbtDecodeError::Eof, 0, depth + 1)
        } else {
            match tag_of(s[0]) {
                None => NbtParse::Failed(NbtDecodeError::InvalidListType(s[0]), 1, depth + 1),
                Some(et) => if s.len() < 5 {
                    NbtParse::Failed(NbtDecodeError::Eof, 1, depth + 1)
                } else {
                    let len = be_u32(s.subrange(1, 5)) as i32;
                    if len < 0 {
                        NbtParse::Failed(NbtDecodeError::Eof, 5, depth + 1)
                    } else {
                        after(
                            5,
                            list_parse(et, drop(s, 5), depth + 1, len as nat, Seq::empty()),
                        )
                    }
                },
            }
        },
        NbtTag::Compound => if depth + 1 > MAX_DEPTH {
            NbtParse::Failed(NbtDecodeError::DepthExceeded, 0, depth + 1)
        } else {
            entries_parse(s, depth + 1, Seq::empty())
        },
        NbtTag::IntArray => if s.len() < 4 {
            NbtParse::Failed(NbtDecodeError::Eof, 0, depth)
        } else {
            let len = be_u32(s) as i32;
            if len < 0 || (s.len() - 4) / 4 < len {
                NbtParse::Failed(NbtDecodeError::Eof, 4, depth)
            } else {
                NbtParse::Done(
                    NbtData::IntArray(
                        Seq::new(len as nat, |i: int| be_u32(s.subrange(4 + 4 * i, s.len() as int)) as i32),
                    ),
                    4 + 4 * len as nat,
                )
            }
        },
        NbtTag::LongArray => if s.len() < 4 {
            NbtParse::Failed(NbtDecodeError::Eof, 0, depth)
        } else {
            let len = be_u32(s) as i32;
            if len < 0 || (s.len() - 4) / 8 < len {
                NbtParse::Failed(NbtDecodeError::Eof, 4, depth)
            } else {
                NbtParse::Done(
                    NbtData::LongArray(
                        Seq::new(len as nat, |i: int| be_u64(s.subrange(4 + 8 * i, s.len() as int)) as i64),
                    ),
                    4 + 8 * len as nat,
                )
            }
        },
    }
}

/// Reading `count` more list elements tagged `et`, after `acc`. Depth is
/// the list's own (already counted); it drops back by one when the list ends.
pub open spec fn list_parse(et: NbtTag, s: Seq<u8>, depth: nat, count: nat, acc: Seq<NbtData>) -> NbtParse
    decreases s.len(), count + 1, 0nat,
{
    if count == 0 {
        NbtParse::Done(NbtData::List(et, acc), 0)
    } else {
        match payload_parse(et, s, depth) {
            NbtParse::Done(v, k) => after(
                k,
                list_parse(et, drop(s, k), depth, (count - 1) as nat, acc.push(v)),
            ),
            other => other,
        }
    }
}

/// Reading compound entries after `acc`, up to the `End` tag.
pub open spec fn entries_parse(s: Seq<u8>, depth: nat, acc: Seq<(Seq<char>, NbtData)>) -> NbtParse
    decreases s.len(), 0nat, 0nat,
{
    if s.len() < 1 {
        NbtParse::Failed(NbtDecodeError::Eof, 0, depth)
    } else if s[0] == 0 {
        NbtParse::Done(NbtData::Compound(acc), 1)
    } else {
        match tag_of(s[0]) {
            None => NbtParse::Failed(NbtDecodeError::InvalidTagId(s[0]), 1, depth),
            Some(tag) => match string_parse(drop(s, 1)) {
                (Err(e), n) => NbtParse::Failed(e, 1 + n, depth),
                (Ok(name), n) => match payload_parse(tag, drop(s, 1 + n), depth) {
                    NbtParse::Done(v, k) => after(
                        1 + n + k,
                        entries_parse(drop(s, 1 + n + k), depth, compound_insert(acc, name, v)),
                    ),
                    NbtParse::Failed(e, k, d) => NbtParse::Failed(e, 1 + n + k, d),
                },
            },
        }
    }
}

/// Reading a root at nesting depth `depth`: a compound tag id, a name, and
/// the compound's payload. On success the name, the entries and the bytes
/// taken; on failure the error, the bytes taken and the depth left.
/// (It is never `None`: every input reads to a root or an error.)
pub open spec fn root_parse(s: Seq<u8>, depth: nat) -> Option<
    Result<((Seq<char>, Seq<(Seq<char>, NbtData)>), nat), (NbtDecodeError, nat, nat)>,
> {
    if s.len() < 1 {
        Some(Err((NbtDecodeError::Eof, 0, depth)))
    } else if s[0] == 0 {
        Some(Err((NbtDecodeError::InvalidTagId(0), 1, depth)))
    } else {
        match tag_of(s[0]) {
            None => Some(Err((NbtDecodeError::InvalidTagId(s[0]), 1, depth))),
            Some(tag) => match string_parse(drop(s, 1)) {
                (Err(e), n) => Some(Err((e, 1 + n, depth))),
                (Ok(name), n) => match payload_parse(tag, drop(s, 1 + n), depth) {
                    NbtParse::Done(NbtData::Compound(entries), k) => Some(
                        Ok(((name, entries), 1 + n + k)),
                    ),
                    NbtParse::Done(_, k) => Some(Err((NbtDecodeError::InvalidTagId(s[0]), 1 + n + k, depth))),
                    NbtParse::Failed(e, k, d) => Some(Err((e, 1 + n + k, d))),
                },
            },
        }
    }
}

/// A streaming NBT reader; it tracks how deep it is inside lists and compounds.
pub struct NbtReader {
    depth: usize,
}

proof fn lemma_drop_skip(s: Seq<u8>, k: nat)
    requires
        k <= s.len(),
    ensures
        drop(s, k) == s.skip(k as int),
{
}

impl NbtReader {
    /// The current nesting depth.
    pub closed spec fn depth(&self) -> nat {
        self.depth as nat
    }

    /// A reader at depth zero.
    pub fn new() -> (r: Self)
        ensures
            r.depth() == 0,
    {
        NbtReader { depth: 0 }
    }

    fn need(&self, buf: &ByteReader, n: usize) -> (r: Result<(), NbtDecodeError>)
        ensures
            r is Ok <==> buf@.len() >= n,
            r matches Err(e) ==> e == NbtDecodeError::Eof,
    {
        if buf.remaining() < n {
            return Err(NbtDecodeError::Eof);
        }
        Ok(())
    }

    fn read_u8(&mut self, buf: &mut ByteReader) -> (r: Result<u8, NbtDecodeError>)
        ensures
            final(self).depth() == old(self).depth(),
            old(buf)@.len() >= 1 ==> r == Ok::<u8, NbtDecodeError>(old(buf)@[0]) && final(buf)@
                == old(buf)@.skip(1),
            old(buf)@.len() < 1 ==> r == Err::<u8, NbtDecodeError>(NbtDecodeError::Eof)
                && final(buf)@ == old(buf)@,
    {
        self.need(buf, 1)?;
        Ok(buf.get_u8())
    }

    fn read_u16(&mut self, buf: &mut ByteReader) -> (r: Result<u16, NbtDecodeError>)
        ensures
            final(self).depth() == old(self).depth(),
            old(buf)@.len() >= 2 ==> r == Ok::<u16, NbtDecodeError>(be_u16(old(buf)@))
                && final(buf)@ == old(buf)@.skip(2),
            old(buf)@.len() < 2 ==> r == Err::<u16, NbtDecodeError>(NbtDecodeError::Eof)
                && final(buf)@ == old(buf)@,
    {
        self.need(buf, 2)?;
        Ok(buf.get_u16())
    }

    fn read_i16(&mut self, buf: &mut ByteReader) -> (r: Result<i16, NbtDecodeError>)
        ensures
            final(self).depth() == old(self).depth(),
            old(buf)@.len() >= 2 ==> r == Ok::<i16, NbtDecodeError>(be_u16(old(buf)@) as i16)
                && final(buf)@ == old(buf)@.skip(2),
            old(buf)@.len() < 2 ==> r == Err::<i16, NbtDecodeError>(NbtDecodeError::Eof)
                && final(buf)@ == old(buf)@,
    {
        self.need(buf, 2)?;
        Ok(buf.get_i16())
    }

    fn read_i32(&mut self, buf: &mut ByteReader) -> (r: Result<i32, NbtDecodeError>)
        ensures
            final(self).depth() == old(self).depth(),
            old(buf)@.len() >= 4 ==> r == Ok::<i32, NbtDecodeError>(be_u32(old(buf)@) as i32)
                && final(buf)@ == old(buf)@.skip(4),
            old(buf)@.len() < 4 ==> r == Err::<i32, NbtDecodeError>(NbtDecodeError::Eof)
                && final(buf)@ == old(buf)@,
    {
        self.need(buf, 4)?;
        Ok(buf.get_i32())
    }

    fn read_i64(&mut self, buf: &mut ByteReader) -> (r: Result<i64, NbtDecodeError>)
        ensures
            final(self).depth() == old(self).depth(),
            old(buf)@.len() >= 8 ==> r == Ok::<i64, NbtDecodeError>(be_u64(old(buf)@) as i64)
                && final(buf)@ == old(buf)@.skip(8),
            old(buf)@.len() < 8 ==> r == Err::<i64, NbtDecodeError>(NbtDecodeError::Eof)
                && final(buf)@ == old(buf)@,
    {
        self.need(buf, 8)?;
        Ok(buf.get_i64())
    }

    fn read_string(&mut self, buf: &mut ByteReader) -> (r: Result<String, NbtDecodeError>)
        ensures
            final(self).depth() == old(self).depth(),
            string_parse(old(buf)@).1 <= old(buf)@.len(),
            final(buf)@ == old(buf)@.skip(string_parse(old(buf)@).1 as int),
            match string_parse(old(buf)@).0 {
                Ok(text) => r matches Ok(s) && s@ == text,
                Err(e) => r matches Err(e2) && e2 == e,
            },
    {
        let len = self.read_u16(buf)? as usize;
        self.need(buf, len)?;
        let ghost s = old(buf)@;
        let out = buf.take_bytes(len);
        proof {
            assert(out@ =~= s.subrange(2, 2 + len as int));
            assert(buf@ =~= s.skip(2 + len as int));
        }
        match from_java_cesu8(out.as_slice()) {
            Some(s) => Ok(s),
            None => Err(NbtDecodeError::InvalidUtf8),
        }
    }

    /// Reads the payload of a value tagged `tag`.
    #[verifier::rlimit(40)]
    pub fn read_payload(&mut self, buf: &mut ByteReader, tag: NbtTag) -> (r: Result<
        NbtValue,
        NbtDecodeError,
    >)
        requires
            old(self).depth() < usize::MAX,
        ensures
            match payload_parse(tag, old(buf)@, old(self).depth()) {
                NbtParse::Done(v, k) => r matches Ok(x) && x@ == v && k <= old(buf)@.len()
                    && final(buf)@ == old(buf)@.skip(k as int) && final(self).depth()
                    == old(self).depth(),
                NbtParse::Failed(e, k, d) => r matches Err(e2) && e2 == e && k <= old(buf)@.len()
                    && final(buf)@ == old(buf)@.skip(k as int) && final(self).depth() == d,
            },
        decreases old(buf)@.len(),
    {
        let ghost s = buf@;
        let ghost depth = self.depth();
        match tag {
            NbtTag::End => Err(NbtDecodeError::InvalidTagId(0)),
            NbtTag::Byte => Ok(NbtValue::Byte(self.read_u8(buf)? as i8)),
            NbtTag::Short => Ok(NbtValue::Short(self.read_i16(buf)?)),
            NbtTag::Int => Ok(NbtValue::Int(self.read_i32(buf)?)),
            NbtTag::Long => Ok(NbtValue::Long(self.read_i64(buf)?)),
            NbtTag::Float => {
                self.need(buf, 4)?;
                Ok(NbtValue::Float(buf.get_u32()))
            },
            NbtTag::Double => {
                self.need(buf, 8)?;
                Ok(NbtValue::Double(buf.get_u64()))
            },
            NbtTag::ByteArray => {
                let len = self.read_i32(buf)?;
                if len < 0 {
                    return Err(NbtDecodeError::Eof);
                }
                let len = len as usize;
                self.need(buf, len)?;
                let mut out: Vec<i8> = Vec::new();
                let mut i: usize = 0;
                while i < len
                    invariant
                        s.len() >= 4 + len,
                        i <= len,
                        buf@ == s.skip(4 + i),
                        out@ == Seq::new(i as nat, |j: int| s[4 + j] as i8),
                        self.depth() == depth,
                        s == old(buf)@,
                        depth == old(self).depth(),
                    decreases len - i,
                {
                    let b = buf.get_u8();
                    out.push(b as i8);
                    i = i + 1;
                    assert(buf@ =~= s.skip(4 + i));
                    assert(out@ =~= Seq::new(i as nat, |j: int| s[4 + j] as i8));
                }
                Ok(NbtValue::ByteArray(out))
            },
            NbtTag::String => Ok(NbtValue::String(self.read_string(buf)?)),
            NbtTag::List => {
                if self.depth >= MAX_DEPTH {
                    self.depth = self.depth + 1;
                    return Err(NbtDecodeError::DepthExceeded);
                }
                self.depth = self.depth + 1;
                let element_type_id = self.read_u8(buf)?;
                let element_type = match NbtTag::from_u8(element_type_id) {
                    Some(t) => t,
                    None => {
                        return Err(NbtDecodeError::InvalidListType(element_type_id));
                    },
                };
                let len = self.read_i32(buf)?;
                if len < 0 {
                    return Err(NbtDecodeError::Eof);
                }
                proof {
                    assert(s.skip(1).len() >= 4);
                    assert(s.skip(1).subrange(0, 4) =~= s.subrange(1, 5));
                    assert(be_u32(s.skip(1)) == be_u32(s.subrange(1, 5)));
                    assert(buf@ =~= drop(s, 5));
                }
                let ghost body_start = buf@;
                let count = len as usize;
                let mut elements: Vec<NbtValue> = Vec::new();
                let mut i: usize = 0;
                assert(super::values_data(elements@) =~= Seq::<NbtData>::empty());
                while i < count
                    invariant
                        i <= count,
                        s.len() >= 5,
                        body_start == drop(s, 5),
                        buf@.len() <= body_start.len(),
                        body_start.len() < s.len(),
                        self.depth() == depth + 1,
                        depth + 1 <= MAX_DEPTH,
                        s == old(buf)@,
                        depth == old(self).depth(),
                        tag == NbtTag::List,
                        after(5, list_parse(element_type, body_start, depth + 1, count as nat, Seq::empty()))
                            == payload_parse(NbtTag::List, s, depth),
                        list_parse(element_type, body_start, depth + 1, count as nat, Seq::empty())
                            == after(
                            (body_start.len() - buf@.len()) as nat,
                            list_parse(
                                element_type,
                                buf@,
                                depth + 1,
                                (count - i) as nat,
                                super::values_data(elements@),
                            ),
                        ),
                        body_start.skip(body_start.len() - buf@.len()) == buf@,
                    decreases count - i,
                {
                    let ghost before = buf@;
                    let ghost acc = super::values_data(elements@);
                    let value = match self.read_payload(buf, element_type) {
                        Ok(v) => v,
                        Err(e) => {
                            proof {
                                let k = (before.len() - buf@.len()) as nat;
                                let off = (body_start.len() - before.len()) as nat;
                                assert(s.skip((5 + off + k) as int) =~= buf@);
                                let inner = payload_parse(element_type, before, depth + 1);
                                assert(inner is Failed);
                                assert(list_parse(element_type, before, depth + 1, (count - i) as nat, acc)
                                    == inner);
                                let d2 = inner->Failed_2;
                                assert(payload_parse(NbtTag::List, s, depth) == NbtParse::Failed(
                                    e,
                                    5 + off + k,
                                    d2,
                                ));
                            }
                            return Err(e);
                        },
                    };
                    proof {
                        let k = (before.len() - buf@.len()) as nat;
                        lemma_drop_skip(before, k);
                        lemma_values_data_push(elements@, value);
                        lemma_after_after(
                            (body_start.len() - before.len()) as nat,
                            k,
                            list_parse(element_type, buf@, depth + 1, (count - i - 1) as nat, acc.push(value@)),
                        );
                        assert(body_start.skip(body_start.len() - buf@.len()) =~= buf@);
                    }
                    elements.push(value);
                    i = i + 1;
                }
                self.depth = self.depth - 1;
                proof {
                    assert(body_start.skip(body_start.len() - buf@.len()) == buf@);
                    assert(s.skip(5 + body_start.len() - buf@.len()) =~= buf@);
                }
                Ok(NbtValue::List(NbtList { element_type, elements }))
            },
            NbtTag::Compound => {
                if self.depth >= MAX_DEPTH {
                    self.depth = self.depth + 1;
                    return Err(NbtDecodeError::DepthExceeded);
                }
                self.depth = self.depth + 1;
                let mut compound = NbtCompound::new();
                loop
                    invariant_except_break
                        self.depth() == depth + 1,
                        depth + 1 <= MAX_DEPTH,
                        s == old(buf)@,
                        depth == old(self).depth(),
                        tag == NbtTag::Compound,
                        buf@.len() <= s.len(),
                        s.skip(s.len() - buf@.len()) == buf@,
                        entries_parse(s, depth + 1, Seq::empty()) == after(
                            (s.len() - buf@.len()) as nat,
                            entries_parse(buf@, depth + 1, compound@),
                        ),
                        payload_parse(NbtTag::Compound, s, depth) == entries_parse(s, depth + 1, Seq::empty()),
                    ensures
                        self.depth() == depth + 1,
                        tag == NbtTag::Compound,
                        s == old(buf)@,
                        depth == old(self).depth(),
                        buf@.len() <= s.len(),
                        s.skip(s.len() - buf@.len()) == buf@,
                        payload_parse(NbtTag::Compound, s, depth) == NbtParse::Done(
                            NbtData::Compound(compound@),
                            (s.len() - buf@.len()) as nat,
                        ),
                    decreases buf@.len(),
                {
                    let ghost before = buf@;
                    let ghost acc = compound@;
                    let ghost off = (s.len() - before.len()) as nat;
                    let tag_id = match self.read_u8(buf) {
                        Ok(t) => t,
                        Err(e) => {
                            proof {
                                assert(entries_parse(before, depth + 1, acc) == NbtParse::Failed(
                                    NbtDecodeError::Eof,
                                    0,
                                    depth + 1,
                                ));
                                assert(payload_parse(NbtTag::Compound, s, depth) == NbtParse::Failed(
                                    NbtDecodeError::Eof,
                                    off,
                                    depth + 1,
                                ));
                                assert(buf@ == s.skip(off as int));
                            }
                            return Err(e);
                        },
                    };
                    if tag_id == 0 {
                        proof {
                            assert(s.skip(s.len() - buf@.len()) =~= buf@);
                        }
                        break ;
                    }
                    let tag = match NbtTag::from_u8(tag_id) {
                        Some(t) => t,
                        None => {
                            proof {
                                assert(s.skip((off + 1) as int) =~= buf@);
                                assert(before[0] == tag_id);
                                assert(entries_parse(before, depth + 1, acc) == NbtParse::Failed(
                                    NbtDecodeError::InvalidTagId(tag_id),
                                    1,
                                    depth + 1,
                                ));
                                assert(payload_parse(NbtTag::Compound, s, depth) == NbtParse::Failed(
                                    NbtDecodeError::InvalidTagId(tag_id),
                                    off + 1,
                                    depth + 1,
                                ));
                            }
                            return Err(NbtDecodeError::InvalidTagId(tag_id));
                        },
                    };
                    proof {
                        lemma_drop_skip(before, 1);
                    }
                    let ghost n = string_parse(drop(before, 1)).1;
                    let name = match self.read_string(buf) {
                        Ok(x) => x,
                        Err(e) => {
                            proof {
                                assert(s.skip((off + 1 + n) as int) =~= buf@);
                            }
                            return Err(e);
                        },
                    };
                    proof {
                        lemma_drop_skip(before, 1 + n);
                        assert(buf@ =~= drop(before, 1 + n));
                    }
                    let value = match self.read_payload(buf, tag) {
                        Ok(v) => v,
                        Err(e) => {
                            proof {
                                let k = (drop(before, 1 + n).len() - buf@.len()) as nat;
                                assert(s.skip((off + 1 + n + k) as int) =~= buf@);
                            }
                            return Err(e);
                        },
                    };
                    proof {
                        let k = (drop(before, 1 + n).len() - buf@.len()) as nat;
                        lemma_drop_skip(before, 1 + n + k);
                        assert(buf@ =~= drop(before, 1 + n + k));
                        lemma_after_after(
                            off,
                            1 + n + k,
                            entries_parse(buf@, depth + 1, compound_insert(acc, name@, value@)),
                        );
                        assert(s.skip(s.len() - buf@.len()) =~= buf@);
                    }
                    compound.insert(name, value);
                }
                self.depth = self.depth - 1;
                Ok(NbtValue::Compound(compound))
            },
            NbtTag::IntArray => {
                let len = self.read_i32(buf)?;
                if len < 0 {
                    return Err(NbtDecodeError::Eof);
                }
                let len = len as usize;
                if buf.remaining() / 4 < len {
                    return Err(NbtDecodeError::Eof);
                }
                let mut out: Vec<i32> = Vec::new();
                let mut i: usize = 0;
                while i < len
                    invariant
                        s.len() >= 4 + 4 * len,
                        i <= len,
                        buf@ == s.skip(4 + 4 * i),
                        out@ == Seq::new(
                            i as nat,
                            |j: int| be_u32(s.subrange(4 + 4 * j, s.len() as int)) as i32,
                        ),
                        self.depth() == depth,
                        s == old(buf)@,
                        depth == old(self).depth(),
                    decreases len - i,
                {
                    let v = buf.get_i32();
                    proof {
                        assert(s.skip(4 + 4 * i) =~= s.subrange(4 + 4 * i, s.len() as int));
                    }
                    out.push(v);
                    i = i + 1;
                    assert(buf@ =~= s.skip(4 + 4 * i));
                    assert(out@ =~= Seq::new(
                        i as nat,
                        |j: int| be_u32(s.subrange(4 + 4 * j, s.len() as int)) as i32,
                    ));
                }
                Ok(NbtValue::IntArray(out))
            },
            NbtTag::LongArray => {
                let len = self.read_i32(buf)?;
                if len < 0 {
                    return Err(NbtDecodeError::Eof);
                }
                let len = len as usize;
                if buf.remaining() / 8 < len {
                    return Err(NbtDecodeError::Eof);
                }
                let mut out: Vec<i64> = Vec::new();
                let mut i: usize = 0;
                while i < len
                    invariant
                        s.len() >= 4 + 8 * len,
                        i <= len,
                        buf@ == s.skip(4 + 8 * i),
                        out@ == Seq::new(
                            i as nat,
                            |j: int| be_u64(s.subrange(4 + 8 * j, s.len() as int)) as i64,
                        ),
                        self.depth() == depth,
                        s == old(buf)@,
                        depth == old(self).depth(),
                    decreases len - i,
                {
                    let v = buf.get_i64();
                    proof {
                        assert(s.skip(4 + 8 * i) =~= s.subrange(4 + 8 * i, s.len() as int));
                    }
                    out.push(v);
                    i = i + 1;
                    assert(buf@ =~= s.skip(4 + 8 * i));
                    assert(out@ =~= Seq::new(
                        i as nat,
                        |j: int| be_u64(s.subrange(4 + 8 * j, s.len() as int)) as i64,
                    ));
                }
                Ok(NbtValue::LongArray(out))
            },
        }
    }

    /// Reads a root: a compound tag id, a name, and the compound itself.
    #[verifier::rlimit(40)]
    pub fn read_root(&mut self, buf: &mut ByteReader) -> (r: Result<Nbt, NbtDecodeError>)
        requires
            old(self).depth() < usize::MAX,
        ensures
            match root_parse(old(buf)@, old(self).depth()) {
                Some(Ok(((name, entries), k))) => r matches Ok(n) && n.name@ == name && n.root@
                    == entries && k <= old(buf)@.len() && final(buf)@ == old(buf)@.skip(k as int)
                    && final(self).depth() == old(self).depth(),
                Some(Err((e, k, d))) => r matches Err(e2) && e2 == e && final(buf)@ == old(
                    buf,
                )@.skip(k as int) && final(self).depth() == d,
                None => false,
            },
    {
        let ghost s = buf@;
        let tag_id = self.read_u8(buf)?;
        if tag_id == 0 {
            return Err(NbtDecodeError::InvalidTagId(0));
        }
        let tag = match NbtTag::from_u8(tag_id) {
            Some(t) => t,
            None => {
                return Err(NbtDecodeError::InvalidTagId(tag_id));
            },
        };
        proof {
            lemma_drop_skip(s, 1);
        }
        let name = self.read_string(buf)?;
        let ghost n = string_parse(drop(s, 1)).1;
        proof {
            lemma_drop_skip(s, 1 + n);
            assert(buf@ =~= drop(s, 1 + n));
        }
        let value = self.read_payload(buf, tag)?;
        proof {
            let k = (drop(s, 1 + n).len() - buf@.len()) as nat;
            assert(buf@ =~= s.skip((1 + n + k) as int));
        }
        match value {
            NbtValue::Compound(root) => Ok(Nbt { name, root }),
            _ => Err(NbtDecodeError::InvalidTagId(tag_id)),
        }
    }

    /// Reads the payload of a value tagged `tag`, with no header before it.
    pub fn read_named_payload(&mut self, buf: &mut ByteReader, tag: NbtTag) -> (r: Result<
        NbtValue,
        NbtDecodeError,
    >)
        requires
            old(self).depth() < usize::MAX,
        ensures
            match payload_parse(tag, old(buf)@, old(self).depth()) {
                NbtParse::Done(v, k) => r matches Ok(x) && x@ == v && final(buf)@ == old(buf)@.skip(
                    k as int,
                ) && final(self).depth() == old(self).depth(),
                NbtParse::Failed(e, k, d) => r matches Err(e2) && e2 == e && final(buf)@ == old(
                    buf,
                )@.skip(k as int) && final(self).depth() == d,
            },
    {
        self.read_payload(buf, tag)
    }
}

proof fn lemma_after_after(a: nat, b: nat, p: NbtParse)
    ensures
        after(a, after(b, p)) == after(a + b, p),
{
}

} // verus!
