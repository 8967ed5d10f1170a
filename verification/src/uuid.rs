//! 128-bit player and entity identifiers, as the protocol carries them:
//! sixteen bytes, most significant first.
use vstd::prelude::*;
use crate::buffer::{be_u64, lemma_be_u64_roundtrip, u64_be};

verus! {

/// A 128-bit identifier, held as its high and low halves.
#[derive(Debug, Clone, Copy, PartialEq, Eq, Hash, Structural)]
pub struct Uuid {
    pub high: u64,
    pub low: u64,
}

impl View for Uuid {
    type V = Uuid;

    open spec fn view(&self) -> Uuid {
        *self
    }
}

/// The number a UUID stands for.
pub open spec fn uuid_value(u: Uuid) -> nat {
    u.high as nat * 0x1_0000_0000_0000_0000 + u.low as nat
}

/// The sixteen bytes of a UUID on the wire.
pub open spec fn uuid_bytes(u: Uuid) -> Seq<u8> {
    u64_be(u.high) + u64_be(u.low)
}

/// The UUID sixteen bytes stand for.
pub open spec fn uuid_of(b: Seq<u8>) -> Uuid {
    Uuid { high: be_u64(b), low: be_u64(b.subrange(8, 16)) }
}

/// Reading back the bytes of a UUID gives the UUID.
pub proof fn lemma_uuid_roundtrip(u: Uuid)
    ensures
        uuid_bytes(u).len() == 16,
        uuid_of(uuid_bytes(u)) == u,
{
    lemma_be_u64_roundtrip(u.high);
    lemma_be_u64_roundtrip(u.low);
    let b = uuid_bytes(u);
    assert(b.subrange(8, 16) =~= u64_be(u.low));
    assert(be_u64(b) == be_u64(u64_be(u.high)));
}

impl Uuid {
    /// The all-zero UUID.
    pub fn nil() -> (u: Self)
        ensures
            uuid_value(u) == 0,
    {
        Uuid { high: 0, low: 0 }
    }

    /// The UUID of the number `v`.
    pub fn from_u128(v: u128) -> (u: Self)
        ensures
            uuid_value(u) == v,
    {
        let high = (v >> 64u128) as u64;
        let low = v as u64;
        assert(((v >> 64u128) as u64) as u128 * 0x1_0000_0000_0000_0000u128 + (v as u64) as u128 == v)
            by (bit_vector);
        Uuid { high, low }
    }

    /// The number this UUID stands for.
    pub fn as_u128(&self) -> (v: u128)
        ensures
            v == uuid_value(*self),
    {
        let h = self.high as u128;
        let l = self.low as u128;
        assert(h < 0x1_0000_0000_0000_0000u128 && l < 0x1_0000_0000_0000_0000u128 ==> (h << 64u128)
            | l == h * 0x1_0000_0000_0000_0000u128 + l) by (bit_vector);
        (h << 64u128) | l
    }

    /// The UUID of sixteen big-endian bytes.
    pub fn from_bytes(b: [u8; 16]) -> (u: Self)
        ensures
            u == uuid_of(b@),
    {
        let high = ((b[0] as u64) << 56u64) | ((b[1] as u64) << 48u64) | ((b[2] as u64) << 40u64)
            | ((b[3] as u64) << 32u64) | ((b[4] as u64) << 24u64) | ((b[5] as u64) << 16u64) | ((
        b[6] as u64) << 8u64) | (b[7] as u64);
        let low = ((b[8] as u64) << 56u64) | ((b[9] as u64) << 48u64) | ((b[10] as u64) << 40u64)
            | ((b[11] as u64) << 32u64) | ((b[12] as u64) << 24u64) | ((b[13] as u64) << 16u64) | ((
        b[14] as u64) << 8u64) | (b[15] as u64);
        let ghost tail = b@.subrange(8, 16);
        assert(tail[0] == b[8] && tail[1] == b[9] && tail[2] == b[10] && tail[3] == b[11]);
        assert(tail[4] == b[12] && tail[5] == b[13] && tail[6] == b[14] && tail[7] == b[15]);
        Uuid { high, low }
    }

    /// The sixteen big-endian bytes of this UUID.
    pub fn as_bytes(&self) -> (b: [u8; 16])
        ensures
            b@ == uuid_bytes(*self),
    {
        let h = self.high;
        let l = self.low;
        let b: [u8; 16] = [
            (h >> 56u64) as u8,
            (h >> 48u64) as u8,
            (h >> 40u64) as u8,
            (h >> 32u64) as u8,
            (h >> 24u64) as u8,
            (h >> 16u64) as u8,
            (h >> 8u64) as u8,
            h as u8,
            (l >> 56u64) as u8,
            (l >> 48u64) as u8,
            (l >> 40u64) as u8,
            (l >> 32u64) as u8,
            (l >> 24u64) as u8,
            (l >> 16u64) as u8,
            (l >> 8u64) as u8,
            l as u8,
        ];
        assert(b@ =~= uuid_bytes(*self));
        b
    }
}

} // verus!
