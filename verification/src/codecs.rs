//! VarInt and VarLong: the little-endian base-128 integers of the Java
//! protocol. Seven bits per byte, low group first, high bit set on every
//! byte but the last. Negative numbers travel as their two's complement
//! bits, so every negative VarInt takes five bytes.
use vstd::prelude::*;
use vstd::arithmetic::power2::{lemma2_to64, lemma2_to64_rest, pow2};
use crate::buffer::{ByteReader, ByteWriter};

verus! {

/// Maximum number of bytes a VarInt can occupy (7 bits × 5 = 35 bits).
pub const MAX_VAR_INT_BYTES: usize = 5;

/// Maximum number of bytes a VarLong can occupy (7 bits × 10 = 70 bits).
pub const MAX_VAR_LONG_BYTES: usize = 10;

#[derive(Debug, Clone, Copy, PartialEq, Eq, Structural)]
pub enum VarIntReadError {
    /// More than five bytes carry a continuation bit.
    TooLarge,
    /// The buffer ended before the last byte.
    Underflow,
}

#[derive(Debug, Clone, Copy, PartialEq, Eq, Structural)]
pub enum VarIntWriteError {
    /// The destination has no room for the next byte.
    Overflow,
}

#[derive(Debug, Clone, Copy, PartialEq, Eq, Structural)]
pub enum VarLongReadError {
    /// More than ten bytes carry a continuation bit.
    TooLarge,
    /// The buffer ended before the last byte.
    Underflow,
}

#[derive(Debug, Clone, Copy, PartialEq, Eq, Structural)]
pub enum VarLongWriteError {
    /// The destination has no room for the next byte.
    Overflow,
}

// ---------------------------------------------------------------------------
// VarInt specification
// ---------------------------------------------------------------------------

/// Number of bytes the VarInt encoding of the bits `v` takes.
pub open spec fn var_int_len(v: u32) -> nat {
    if v < 0x80 {
        1
    } else if v < 0x4000 {
        2
    } else if v < 0x20_0000 {
        3
    } else if v < 0x1000_0000 {
        4
    } else {
        5
    }
}

/// Byte `i` of the VarInt encoding of `v`, whose length is `len`.
pub open spec fn var_int_byte(v: u32, i: u32, len: nat) -> u8 {
    let seg = ((v >> ((7 * i) as u32)) & 0x7F) as u8;
    if i + 1 < len {
        seg | 0x80
    } else {
        seg
    }
}

/// The VarInt encoding of the bits `v`.
pub open spec fn var_int_bytes(v: u32) -> Seq<u8> {
    Seq::new(var_int_len(v), |i: int| var_int_byte(v, i as u32, var_int_len(v)))
}

/// Decoding from byte `i` on, with the groups before `i` already in `acc`.
/// On success: the value and the number of bytes the VarInt took.
pub open spec fn var_int_parse(s: Seq<u8>, i: nat, acc: u32) -> Result<(u32, nat), VarIntReadError>
    decreases 5 - i,
{
    if i >= 5 {
        Err(VarIntReadError::TooLarge)
    } else if i >= s.len() {
        Err(VarIntReadError::Underflow)
    } else {
        let b = s[i as int];
        let acc2 = acc | (((b & 0x7F) as u32) << ((7 * i) as u32));
        if b & 0x80 == 0 {
            Ok((acc2, i + 1))
        } else {
            var_int_parse(s, i + 1, acc2)
        }
    }
}

/// What reading a VarInt from the front of `s` yields.
pub open spec fn var_int_read(s: Seq<u8>) -> Result<(u32, nat), VarIntReadError> {
    var_int_parse(s, 0, 0)
}

/// A successful read takes at least one byte past `i`, and no more than
/// there are.
pub proof fn lemma_var_int_parse_len(s: Seq<u8>, i: nat, acc: u32)
    ensures
        var_int_parse(s, i, acc) matches Ok((_, n)) ==> i < n <= s.len() && n <= 5,
    decreases 5 - i,
{
    if i < 5 && i < s.len() {
        let b = s[i as int];
        let acc2 = acc | (((b & 0x7F) as u32) << ((7 * i) as u32));
        lemma_var_int_parse_len(s, i + 1, acc2);
    }
}

/// How many bytes a read of a VarInt from `s` takes, successful or not.
pub open spec fn var_int_consumed(s: Seq<u8>) -> nat {
    match var_int_read(s) {
        Ok((_, n)) => n,
        Err(VarIntReadError::TooLarge) => 5,
        Err(VarIntReadError::Underflow) => s.len(),
    }
}

/// The low `7 * k` bits of `v`.
pub open spec fn var_int_low(v: u32, k: u32) -> u32 {
    v & (((1u64 << (7 * k) as u64) - 1u64) as u32)
}

proof fn lemma_var_int_len_shift(v: u32, k: u32)
    requires
        k < var_int_len(v),
    ensures
        (k + 1 < var_int_len(v)) == ((v >> ((7 * k) as u32)) >= 0x80),
        k + 1 == var_int_len(v) ==> var_int_low(v, (k + 1) as u32) == v,
        k + 1 == var_int_len(v) ==> v >> ((7 * k) as u32) < 0x80,
        k < 4 ==> (v >> ((7 * k) as u32)) >> 7 == v >> ((7 * (k + 1)) as u32),
{
    assert(k < 4 ==> (v >> ((7 * k) as u32)) >> 7 == v >> ((7 * (k + 1)) as u32)) by (bit_vector);
    if v < 0x80 {
        assert(k == 0);
        assert(v < 0x80 ==> (v >> 0u32) < 0x80 && var_int_low(v, 1) == v) by (bit_vector);
    } else if v < 0x4000 {
        assert(0x80 <= v < 0x4000 ==> (v >> 0u32) >= 0x80 && (v >> 7u32) < 0x80 && var_int_low(
            v,
            2,
        ) == v && (v >> 0u32) >> 7 == v >> 7u32) by (bit_vector);
    } else if v < 0x20_0000 {
        assert(0x4000 <= v < 0x20_0000 ==> (v >> 0u32) >= 0x80 && (v >> 7u32) >= 0x80 && (v
            >> 14u32) < 0x80 && var_int_low(v, 3) == v && (v >> 0u32) >> 7 == v >> 7u32 && (v
            >> 7u32) >> 7 == v >> 14u32) by (bit_vector);
    } else if v < 0x1000_0000 {
        assert(0x20_0000 <= v < 0x1000_0000 ==> (v >> 0u32) >= 0x80 && (v >> 7u32) >= 0x80 && (v
            >> 14u32) >= 0x80 && (v >> 21u32) < 0x80 && var_int_low(v, 4) == v && (v >> 0u32)
            >> 7 == v >> 7u32 && (v >> 7u32) >> 7 == v >> 14u32 && (v >> 14u32) >> 7 == v
            >> 21u32) by (bit_vector);
    } else {
        assert(0x1000_0000 <= v ==> (v >> 0u32) >= 0x80 && (v >> 7u32) >= 0x80 && (v >> 14u32)
            >= 0x80 && (v >> 21u32) >= 0x80 && (v >> 28u32) < 0x80 && var_int_low(v, 5) == v && (v
            >> 0u32) >> 7 == v >> 7u32 && (v >> 7u32) >> 7 == v >> 14u32 && (v >> 14u32) >> 7 == v
            >> 21u32 && (v >> 21u32) >> 7 == v >> 28u32) by (bit_vector);
    }
}

proof fn lemma_var_int_step(v: u32, k: u32, cont: bool)
    requires
        k < 5,
    ensures
        ({
            let seg = ((v >> ((7 * k) as u32)) & 0x7F) as u8;
            let b = if cont {
                seg | 0x80
            } else {
                seg
            };
            &&& (b & 0x80 == 0) == !cont
            &&& var_int_low(v, k) | (((b & 0x7F) as u32) << ((7 * k) as u32)) == var_int_low(v, (k + 1) as u32)
        }),
{
    let seg = ((v >> ((7 * k) as u32)) & 0x7F) as u8;
    assert(((seg | 0x80) & 0x80 != 0) && ((seg | 0x80) & 0x7F == seg) && (seg & 0x80 == 0) && (seg
        & 0x7F == seg)) by (bit_vector)
        requires
            seg == ((v >> ((7 * k) as u32)) & 0x7F) as u8,
    ;
    assert(var_int_low(v, k) | ((((v >> ((7 * k) as u32)) & 0x7F) as u8 as u32) << ((7 * k) as u32))
        == var_int_low(v, (k + 1) as u32)) by (bit_vector)
        requires
            k < 5,
    ;
}

proof fn lemma_var_int_parse_from(v: u32, rest: Seq<u8>, k: u32)
    requires
        k < var_int_len(v),
    ensures
        var_int_parse(var_int_bytes(v) + rest, k as nat, var_int_low(v, k)) == Ok::<
            (u32, nat),
            VarIntReadError,
        >((v, var_int_len(v))),
    decreases 5 - k,
{
    let len = var_int_len(v);
    let s = var_int_bytes(v) + rest;
    assert(s[k as int] == var_int_byte(v, k, len));
    lemma_var_int_len_shift(v, k);
    lemma_var_int_step(v, k, k + 1 < len);
    if k + 1 < len {
        lemma_var_int_parse_from(v, rest, (k + 1) as u32);
    }
}

/// Reading a VarInt back from its encoding, whatever follows it, gives the
/// value and the encoding's length.
pub proof fn lemma_var_int_roundtrip(v: u32, rest: Seq<u8>)
    ensures
        var_int_read(var_int_bytes(v) + rest) == Ok::<(u32, nat), VarIntReadError>(
            (v, var_int_bytes(v).len()),
        ),
{
    assert(var_int_low(v, 0) == 0) by (bit_vector);
    lemma_var_int_parse_from(v, rest, 0);
}

proof fn lemma_var_int_parse_prefix(s: Seq<u8>, t: Seq<u8>, i: nat, acc: u32)
    requires
        var_int_parse(s, i, acc) is Ok,
    ensures
        var_int_parse(s + t, i, acc) == var_int_parse(s, i, acc),
    decreases 5 - i,
{
    if i < 5 && i < s.len() {
        assert((s + t)[i as int] == s[i as int]);
        let b = s[i as int];
        if b & 0x80 != 0 {
            lemma_var_int_parse_prefix(s, t, i + 1, acc | (((b & 0x7F) as u32) << ((7 * i) as u32)));
        }
    }
}

/// A VarInt read does not look past the bytes it takes.
pub proof fn lemma_var_int_read_prefix(s: Seq<u8>, t: Seq<u8>)
    requires
        var_int_read(s) is Ok,
    ensures
        var_int_read(s + t) == var_int_read(s),
{
    lemma_var_int_parse_prefix(s, t, 0, 0);
}

// ---------------------------------------------------------------------------
// VarInt functions
// ---------------------------------------------------------------------------

/// Facts about the low seven bits of a 32-bit group.
proof fn lemma_group_bits32(bits: u32)
    by (bit_vector)
    ensures
        bits >> 0u32 == bits,
        bits & !0x7Fu32 == 0 ==> bits < 0x80,
        bits < 0x80 ==> bits as u8 == (bits & 0x7F) as u8,
        bits & !0x7Fu32 != 0 ==> bits >= 0x80,
        (bits as u8 & 0x7F) | 0x80 == ((bits & 0x7F) as u8) | 0x80,
        bits >> 7 == 0 <==> bits < 0x80,
{
}

/// Facts about the low seven bits of a 64-bit group.
proof fn lemma_group_bits64(bits: u64)
    by (bit_vector)
    ensures
        bits >> 0u64 == bits,
        bits & !0x7Fu64 == 0 ==> bits < 0x80,
        bits < 0x80 ==> bits as u8 == (bits & 0x7F) as u8,
        bits & !0x7Fu64 != 0 ==> bits >= 0x80,
        (bits as u8 & 0x7F) | 0x80 == ((bits & 0x7F) as u8) | 0x80,
        bits >> 7 == 0 <==> bits < 0x80,
{
}

/// Reads a signed VarInt (no zig-zag: the raw two's complement bits).
pub fn read_var_int(buf: &mut ByteReader) -> (res: Result<i32, VarIntReadError>)
    ensures
        res == (match var_int_read(old(buf)@) {
            Ok((v, _)) => Ok(v as i32),
            Err(e) => Err(e),
        }),
        final(buf)@ == old(buf)@.skip(var_int_consumed(old(buf)@) as int),
{
    let ghost s = buf@;
    let mut result: u32 = 0;
    let mut i: usize = 0;
    while i < MAX_VAR_INT_BYTES
        invariant
            s == old(buf)@,
            i <= 5,
            i <= s.len(),
            buf@ == s.skip(i as int),
            var_int_parse(s, i as nat, result) == var_int_read(s),
        decreases 5 - i,
    {
        if !buf.has_remaining() {
            assert(s.skip(i as int).len() == 0);
            assert(i == s.len());
            assert(buf@ =~= s.skip(s.len() as int));
            assert(var_int_parse(s, i as nat, result) == Err::<(u32, nat), VarIntReadError>(
                VarIntReadError::Underflow,
            ));
            return Err(VarIntReadError::Underflow);
        }
        let byte = buf.get_u8();
        assert(buf@ =~= s.skip(i + 1));
        let value = (byte & 0x7F) as u32;
        result = result | (value << ((7 * i) as u32));
        if (byte & 0x80) == 0 {
            return Ok(result as i32);
        }
        i = i + 1;
    }
    Err(VarIntReadError::TooLarge)
}

/// Writes a signed VarInt. Fails with `Overflow` when the encoding does not
/// fit; the bytes that fit are written then.
pub fn write_var_int(value: i32, buf: &mut ByteWriter) -> (res: Result<(), VarIntWriteError>)
    ensures
        final(buf).capacity() == old(buf).capacity(),
        res is Ok <==> old(buf).room() >= var_int_bytes(value as u32).len(),
        res is Ok ==> final(buf)@ == old(buf)@ + var_int_bytes(value as u32),
        res is Err ==> final(buf)@ == old(buf)@ + var_int_bytes(value as u32).take(old(buf).room()),
{
    let ghost orig = value as u32;
    let ghost enc = var_int_bytes(orig);
    let ghost len = var_int_len(orig);
    let mut bits = value as u32;
    let mut k: u32 = 0;
    proof {
        lemma_group_bits32(orig);
    }
    loop
        invariant
            orig == value as u32,
            k < len,
            len == var_int_len(orig),
            enc == var_int_bytes(orig),
            bits == orig >> ((7 * k) as u32),
            buf.capacity() == old(buf).capacity(),
            old(buf).room() >= k,
            buf.room() == old(buf).room() - k,
            buf@ == old(buf)@ + enc.take(k as int),
        decreases len - k,
    {
        proof {
            lemma_var_int_len_shift(orig, k);
        }
        if (bits & !0x7Fu32) == 0 {
            proof {
                lemma_group_bits32(bits);
            }
            if buf.remaining_mut() < 1 {
                assert(enc.take(old(buf).room()) =~= enc.take(k as int));
                return Err(VarIntWriteError::Overflow);
            }
            buf.put_u8(bits as u8);
            assert(enc.take(k + 1) =~= enc);
            assert(buf@ =~= old(buf)@ + enc);
            return Ok(());
        }
        proof {
            lemma_group_bits32(bits);
        }
        if buf.remaining_mut() < 1 {
            assert(enc.take(old(buf).room()) =~= enc.take(k as int));
            return Err(VarIntWriteError::Overflow);
        }
        let byte = (bits as u8 & 0x7F) | 0x80;
        buf.put_u8(byte);
        assert(enc.take(k + 1) =~= enc.take(k as int).push(enc[k as int]));
        assert(buf@ =~= old(buf)@ + enc.take(k + 1));
        bits = bits >> 7;
        k = k + 1;
    }
}

/// Size in bytes a VarInt will occupy once serialized.
pub fn var_int_size(value: i32) -> (size: usize)
    ensures
        size == var_int_bytes(value as u32).len(),
{
    let ghost orig = value as u32;
    let mut bits = value as u32;
    let mut size: usize = 0;
    proof {
        lemma_group_bits32(orig);
    }
    loop
        invariant_except_break
            size < var_int_len(orig),
            bits == orig >> ((7 * size) as u32),
        invariant
            orig == value as u32,
        ensures
            size == var_int_len(orig),
        decreases var_int_len(orig) - size,
    {
        proof {
            lemma_var_int_len_shift(orig, size as u32);
        }
        size = size + 1;
        let ghost before = bits;
        bits = bits >> 7;
        proof {
            lemma_group_bits32(before);
        }
        if bits == 0 {
            break ;
        }
    }
    size
}

// ---------------------------------------------------------------------------
// VarLong specification
// ---------------------------------------------------------------------------

/// The smallest value whose VarLong encoding takes more than `n` bytes
/// (`2^(7n)`), for `1 <= n <= 9`.
pub open spec fn var_long_bound(n: nat) -> u64 {
    if n <= 1 {
        0x80
    } else if n == 2 {
        0x4000
    } else if n == 3 {
        0x20_0000
    } else if n == 4 {
        0x1000_0000
    } else if n == 5 {
        0x8_0000_0000
    } else if n == 6 {
        0x400_0000_0000
    } else if n == 7 {
        0x2_0000_0000_0000
    } else if n == 8 {
        0x100_0000_0000_0000
    } else {
        0x8000_0000_0000_0000
    }
}

/// Number of bytes the VarLong encoding of the bits `v` takes.
pub open spec fn var_long_len(v: u64) -> nat {
    if v < var_long_bound(1) {
        1
    } else if v < var_long_bound(2) {
        2
    } else if v < var_long_bound(3) {
        3
    } else if v < var_long_bound(4) {
        4
    } else if v < var_long_bound(5) {
        5
    } else if v < var_long_bound(6) {
        6
    } else if v < var_long_bound(7) {
        7
    } else if v < var_long_bound(8) {
        8
    } else if v < var_long_bound(9) {
        9
    } else {
        10
    }
}

/// Byte `i` of the VarLong encoding of `v`, whose length is `len`.
pub open spec fn var_long_byte(v: u64, i: u64, len: nat) -> u8 {
    let seg = ((v >> ((7 * i) as u64)) & 0x7F) as u8;
    if i + 1 < len {
        seg | 0x80
    } else {
        seg
    }
}

/// The VarLong encoding of the bits `v`.
pub open spec fn var_long_bytes(v: u64) -> Seq<u8> {
    Seq::new(var_long_len(v), |i: int| var_long_byte(v, i as u64, var_long_len(v)))
}

/// Decoding from byte `i` on, with the groups before `i` already in `acc`.
pub open spec fn var_long_parse(s: Seq<u8>, i: nat, acc: u64) -> Result<(u64, nat), VarLongReadError>
    decreases 10 - i,
{
    if i >= 10 {
        Err(VarLongReadError::TooLarge)
    } else if i >= s.len() {
        Err(VarLongReadError::Underflow)
    } else {
        let b = s[i as int];
        let acc2 = acc | (((b & 0x7F) as u64) << ((7 * i) as u64));
        if b & 0x80 == 0 {
            Ok((acc2, i + 1))
        } else {
            var_long_parse(s, i + 1, acc2)
        }
    }
}

/// What reading a VarLong from the front of `s` yields.
pub open spec fn var_long_read(s: Seq<u8>) -> Result<(u64, nat), VarLongReadError> {
    var_long_parse(s, 0, 0)
}

/// How many bytes a read of a VarLong from `s` takes, successful or not.
pub open spec fn var_long_consumed(s: Seq<u8>) -> nat {
    match var_long_read(s) {
        Ok((_, n)) => n,
        Err(VarLongReadError::TooLarge) => 10,
        Err(VarLongReadError::Underflow) => s.len(),
    }
}

/// The low `7 * k` bits of `v` (all of them from `k == 10` on).
pub open spec fn var_long_low(v: u64, k: u64) -> u64 {
    if k >= 10 {
        v
    } else {
        v & (((1u128 << (7 * k) as u128) - 1u128) as u64)
    }
}

proof fn lemma_long_bounds()
    by (bit_vector)
    ensures
        0x80u128 == 1u128 << 7u128,
        0x4000u128 == 1u128 << 14u128,
        0x20_0000u128 == 1u128 << 21u128,
        0x1000_0000u128 == 1u128 << 28u128,
        0x8_0000_0000u128 == 1u128 << 35u128,
        0x400_0000_0000u128 == 1u128 << 42u128,
        0x2_0000_0000_0000u128 == 1u128 << 49u128,
        0x100_0000_0000_0000u128 == 1u128 << 56u128,
        0x8000_0000_0000_0000u128 == 1u128 << 63u128,
{
}

proof fn lemma_var_long_bound(k: u64)
    requires
        k < 9,
    ensures
        var_long_bound((k + 1) as nat) as u128 == 1u128 << (7 * (k + 1)) as u128,
{
    lemma_long_bounds();
}

proof fn lemma_var_long_len_facts(v: u64, k: u64)
    requires
        k < var_long_len(v),
    ensures
        (k + 1 < var_long_len(v)) == ((v >> ((7 * k) as u64)) >= 0x80),
        k + 1 == var_long_len(v) ==> var_long_low(v, (k + 1) as u64) == v,
        k + 1 == var_long_len(v) ==> v >> ((7 * k) as u64) < 0x80,
        k < 9 ==> (v >> ((7 * k) as u64)) >> 7 == v >> ((7 * (k + 1)) as u64),
{
    assert(k < 10);
    assert(k < 9 ==> (v >> ((7 * k) as u64)) >> 7 == v >> ((7 * (k + 1)) as u64)) by (bit_vector);
    if k < 9 {
        lemma_var_long_bound(k);
        let b = var_long_bound((k + 1) as nat);
        assert((k + 1 < var_long_len(v)) == (v >= b));
        assert(k < 9 && b as u128 == 1u128 << (7 * (k + 1)) as u128 ==> ((v >> ((7 * k) as u64)) >= 0x80) == (v
            >= b)) by (bit_vector);
        assert(k < 9 && b as u128 == 1u128 << (7 * (k + 1)) as u128 && v < b ==> var_long_low(v, (k + 1) as u64) == v) by (bit_vector);
        assert(k < 9 && b as u128 == 1u128 << (7 * (k + 1)) as u128 && v < b ==> v >> (7 * k)
            < 0x80) by (bit_vector);
    } else {
        assert(k == 9 ==> (v >> ((7 * k) as u64)) < 0x80) by (bit_vector);
    }
}

proof fn lemma_var_long_step(v: u64, k: u64, cont: bool)
    requires
        k < 10,
    ensures
        ({
            let seg = ((v >> ((7 * k) as u64)) & 0x7F) as u8;
            let b = if cont {
                seg | 0x80
            } else {
                seg
            };
            &&& (b & 0x80 == 0) == !cont
            &&& var_long_low(v, k) | (((b & 0x7F) as u64) << ((7 * k) as u64)) == var_long_low(v, (k + 1) as u64)
        }),
{
    let seg = ((v >> ((7 * k) as u64)) & 0x7F) as u8;
    assert(((seg | 0x80) & 0x80 != 0) && ((seg | 0x80) & 0x7F == seg) && (seg & 0x80 == 0) && (seg
        & 0x7F == seg)) by (bit_vector)
        requires
            seg == ((v >> ((7 * k) as u64)) & 0x7F) as u8,
    ;
    assert(var_long_low(v, k) | ((((v >> ((7 * k) as u64)) & 0x7F) as u8 as u64) << ((7 * k) as u64))
        == var_long_low(v, (k + 1) as u64)) by (bit_vector)
        requires
            k < 10,
    ;
}

proof fn lemma_var_long_parse_from(v: u64, rest: Seq<u8>, k: u64)
    requires
        k < var_long_len(v),
    ensures
        var_long_parse(var_long_bytes(v) + rest, k as nat, var_long_low(v, k)) == Ok::<
            (u64, nat),
            VarLongReadError,
        >((v, var_long_len(v))),
    decreases 10 - k,
{
    let len = var_long_len(v);
    let s = var_long_bytes(v) + rest;
    assert(s[k as int] == var_long_byte(v, k, len));
    lemma_var_long_len_facts(v, k);
    lemma_var_long_step(v, k, k + 1 < len);
    if k + 1 < len {
        lemma_var_long_parse_from(v, rest, (k + 1) as u64);
    }
}

/// Reading a VarLong back from its encoding, whatever follows it, gives the
/// value and the encoding's length.
pub proof fn lemma_var_long_roundtrip(v: u64, rest: Seq<u8>)
    ensures
        var_long_read(var_long_bytes(v) + rest) == Ok::<(u64, nat), VarLongReadError>(
            (v, var_long_bytes(v).len()),
        ),
{
    assert(var_long_low(v, 0) == 0) by (bit_vector);
    lemma_var_long_parse_from(v, rest, 0);
}

proof fn lemma_var_long_parse_prefix(s: Seq<u8>, t: Seq<u8>, i: nat, acc: u64)
    requires
        var_long_parse(s, i, acc) is Ok,
    ensures
        var_long_parse(s + t, i, acc) == var_long_parse(s, i, acc),
    decreases 10 - i,
{
    if i < 10 && i < s.len() {
        assert((s + t)[i as int] == s[i as int]);
        let b = s[i as int];
        if b & 0x80 != 0 {
            lemma_var_long_parse_prefix(s, t, i + 1, acc | (((b & 0x7F) as u64) << ((7 * i) as u64)));
        }
    }
}

/// A VarLong read does not look past the bytes it takes.
pub proof fn lemma_var_long_read_prefix(s: Seq<u8>, t: Seq<u8>)
    requires
        var_long_read(s) is Ok,
    ensures
        var_long_read(s + t) == var_long_read(s),
{
    lemma_var_long_parse_prefix(s, t, 0, 0);
}

// ---------------------------------------------------------------------------
// VarLong functions
// ---------------------------------------------------------------------------

/// Reads a signed VarLong (no zig-zag: the raw two's complement bits).
pub fn read_var_long(buf: &mut ByteReader) -> (res: Result<i64, VarLongReadError>)
    ensures
        res == (match var_long_read(old(buf)@) {
            Ok((v, _)) => Ok(v as i64),
            Err(e) => Err(e),
        }),
        final(buf)@ == old(buf)@.skip(var_long_consumed(old(buf)@) as int),
{
    let ghost s = buf@;
    let mut result: u64 = 0;
    let mut i: usize = 0;
    while i < MAX_VAR_LONG_BYTES
        invariant
            s == old(buf)@,
            i <= 10,
            i <= s.len(),
            buf@ == s.skip(i as int),
            var_long_parse(s, i as nat, result) == var_long_read(s),
        decreases 10 - i,
    {
        if !buf.has_remaining() {
            assert(s.skip(i as int).len() == 0);
            assert(i == s.len());
            assert(buf@ =~= s.skip(s.len() as int));
            assert(var_long_parse(s, i as nat, result) == Err::<(u64, nat), VarLongReadError>(
                VarLongReadError::Underflow,
            ));
            return Err(VarLongReadError::Underflow);
        }
        let byte = buf.get_u8();
        assert(buf@ =~= s.skip(i + 1));
        let value = (byte & 0x7F) as u64;
        result = result | (value << ((7 * i) as u64));
        if (byte & 0x80) == 0 {
            return Ok(result as i64);
        }
        i = i + 1;
    }
    Err(VarLongReadError::TooLarge)
}

/// Writes a signed VarLong. Fails with `Overflow` when the encoding does not
/// fit; the bytes that fit are written then.
pub fn write_var_long(value: i64, buf: &mut ByteWriter) -> (res: Result<(), VarLongWriteError>)
    ensures
        final(buf).capacity() == old(buf).capacity(),
        res is Ok <==> old(buf).room() >= var_long_bytes(value as u64).len(),
        res is Ok ==> final(buf)@ == old(buf)@ + var_long_bytes(value as u64),
        res is Err ==> final(buf)@ == old(buf)@ + var_long_bytes(value as u64).take(old(buf).room()),
{
    let ghost orig = value as u64;
    let ghost enc = var_long_bytes(orig);
    let ghost len = var_long_len(orig);
    let mut bits = value as u64;
    let mut k: u64 = 0;
    proof {
        lemma_group_bits64(orig);
    }
    loop
        invariant
            orig == value as u64,
            k < len,
            len == var_long_len(orig),
            enc == var_long_bytes(orig),
            bits == orig >> ((7 * k) as u64),
            buf.capacity() == old(buf).capacity(),
            old(buf).room() >= k,
            buf.room() == old(buf).room() - k,
            buf@ == old(buf)@ + enc.take(k as int),
        decreases len - k,
    {
        proof {
            lemma_var_long_len_facts(orig, k);
        }
        if (bits & !0x7Fu64) == 0 {
            proof {
                lemma_group_bits64(bits);
            }
            if buf.remaining_mut() < 1 {
                assert(enc.take(old(buf).room()) =~= enc.take(k as int));
                return Err(VarLongWriteError::Overflow);
            }
            buf.put_u8(bits as u8);
            assert(enc.take(k + 1) =~= enc);
            assert(buf@ =~= old(buf)@ + enc);
            return Ok(());
        }
        proof {
            lemma_group_bits64(bits);
        }
        if buf.remaining_mut() < 1 {
            assert(enc.take(old(buf).room()) =~= enc.take(k as int));
            return Err(VarLongWriteError::Overflow);
        }
        let byte = (bits as u8 & 0x7F) | 0x80;
        buf.put_u8(byte);
        assert(enc.take(k + 1) =~= enc.take(k as int).push(enc[k as int]));
        assert(buf@ =~= old(buf)@ + enc.take(k + 1));
        bits = bits >> 7;
        k = k + 1;
    }
}

/// A VarLong takes one to ten bytes: `n` bytes (short of ten) hold exactly
/// the values below `2^(7n)`, and it takes the fewest that hold the value.
pub proof fn lemma_var_long_len_range(v: u64)
    ensures
        1 <= var_long_len(v) <= 10,
        var_long_len(v) < 10 ==> (v as int) < pow2((7 * var_long_len(v)) as nat),
        var_long_len(v) > 1 ==> (v as int) >= pow2((7 * (var_long_len(v) - 1)) as nat),
{
    lemma2_to64();
    lemma2_to64_rest();
}

/// Size in bytes a VarLong will occupy once serialized.
pub fn var_long_size(value: i64) -> (size: usize)
    ensures
        size == var_long_bytes(value as u64).len(),
{
    let ghost orig = value as u64;
    let mut bits = value as u64;
    let mut size: usize = 0;
    proof {
        lemma_group_bits64(orig);
    }
    loop
        invariant_except_break
            size < var_long_len(orig),
            bits == orig >> ((7 * size) as u64),
        invariant
            orig == value as u64,
        ensures
            size == var_long_len(orig),
        decreases var_long_len(orig) - size,
    {
        proof {
            lemma_var_long_len_facts(orig, size as u64);
        }
        size = size + 1;
        let ghost before = bits;
        bits = bits >> 7;
        proof {
            lemma_group_bits64(before);
        }
        if bits == 0 {
            break ;
        }
    }
    size
}

} // verus!
