//! Byte buffers the wire codecs read from and write to.
//!
//! `ByteReader` is a cursor over owned bytes: its view is the sequence of
//! bytes not yet consumed. `ByteWriter` appends to owned bytes up to a
//! capacity: its view is everything written so far, and `remaining_mut`
//! says how many more bytes fit.
use vstd::prelude::*;

verus! {

/// Big-endian value of two bytes.
pub open spec fn be_u16(s: Seq<u8>) -> u16 {
    ((s[0] as u16) << 8u16) | (s[1] as u16)
}

/// Big-endian value of four bytes.
pub open spec fn be_u32(s: Seq<u8>) -> u32 {
    ((s[0] as u32) << 24u32) | ((s[1] as u32) << 16u32) | ((s[2] as u32) << 8u32) | (s[3] as u32)
}

/// Big-endian value of eight bytes.
pub open spec fn be_u64(s: Seq<u8>) -> u64 {
    ((s[0] as u64) << 56u64) | ((s[1] as u64) << 48u64) | ((s[2] as u64) << 40u64) | ((s[3] as u64)
        << 32u64) | ((s[4] as u64) << 24u64) | ((s[5] as u64) << 16u64) | ((s[6] as u64) << 8u64)
        | (s[7] as u64)
}

/// The two big-endian bytes of `v`.
pub open spec fn u16_be(v: u16) -> Seq<u8> {
    seq![(v >> 8u16) as u8, v as u8]
}

/// The four big-endian bytes of `v`.
pub open spec fn u32_be(v: u32) -> Seq<u8> {
    seq![(v >> 24u32) as u8, (v >> 16u32) as u8, (v >> 8u32) as u8, v as u8]
}

/// The eight big-endian bytes of `v`.
pub open spec fn u64_be(v: u64) -> Seq<u8> {
    seq![
        (v >> 56u64) as u8,
        (v >> 48u64) as u8,
        (v >> 40u64) as u8,
        (v >> 32u64) as u8,
        (v >> 24u64) as u8,
        (v >> 16u64) as u8,
        (v >> 8u64) as u8,
        v as u8,
    ]
}

/// Reading back the big-endian bytes of a value gives the value.
pub proof fn lemma_be_u16_roundtrip(v: u16)
    ensures
        u16_be(v).len() == 2,
        be_u16(u16_be(v)) == v,
{
    assert(((((v >> 8u16) as u8) as u16) << 8u16) | ((v as u8) as u16) == v) by (bit_vector);
}

/// Reading back the big-endian bytes of a value gives the value.
pub proof fn lemma_be_u32_roundtrip(v: u32)
    ensures
        u32_be(v).len() == 4,
        be_u32(u32_be(v)) == v,
{
    assert(((((v >> 24u32) as u8) as u32) << 24u32) | ((((v >> 16u32) as u8) as u32) << 16u32) | (((
    (v >> 8u32) as u8) as u32) << 8u32) | ((v as u8) as u32) == v) by (bit_vector);
}

/// Reading back the big-endian bytes of a value gives the value.
pub proof fn lemma_be_u64_roundtrip(v: u64)
    ensures
        u64_be(v).len() == 8,
        be_u64(u64_be(v)) == v,
{
    assert(((((v >> 56u64) as u8) as u64) << 56u64) | ((((v >> 48u64) as u8) as u64) << 48u64) | (((
    (v >> 40u64) as u8) as u64) << 40u64) | ((((v >> 32u64) as u8) as u64) << 32u64) | ((((v
        >> 24u64) as u8) as u64) << 24u64) | ((((v >> 16u64) as u8) as u64) << 16u64) | ((((v
        >> 8u64) as u8) as u64) << 8u64) | ((v as u8) as u64) == v) by (bit_vector);
}

/// A read cursor over owned bytes.
pub struct ByteReader {
    bytes: Vec<u8>,
    pos: usize,
}

impl View for ByteReader {
    type V = Seq<u8>;

    /// The bytes not yet consumed.
    closed spec fn view(&self) -> Seq<u8> {
        self.bytes@.subrange(self.pos as int, self.bytes@.len() as int)
    }
}

impl ByteReader {
    #[verifier::type_invariant]
    closed spec fn inv(self) -> bool {
        self.pos <= self.bytes@.len()
    }

    /// A reader positioned at the first of `bytes`.
    pub fn new(bytes: Vec<u8>) -> (r: Self)
        ensures
            r@ == bytes@,
    {
        let r = ByteReader { bytes, pos: 0 };
        assert(r@ =~= r.bytes@);
        r
    }

    /// A reader over a copy of `bytes`.
    pub fn from_slice(bytes: &[u8]) -> (r: Self)
        ensures
            r@ == bytes@,
    {
        let mut v: Vec<u8> = Vec::with_capacity(bytes.len());
        let mut i: usize = 0;
        while i < bytes.len()
            invariant
                i <= bytes@.len(),
                v@ == bytes@.take(i as int),
            decreases bytes@.len() - i,
        {
            v.push(bytes[i]);
            i = i + 1;
            assert(v@ =~= bytes@.take(i as int));
        }
        assert(v@ =~= bytes@);
        Self::new(v)
    }

    /// Number of bytes left to read.
    pub fn remaining(&self) -> (n: usize)
        ensures
            n == self@.len(),
    {
        proof {
            use_type_invariant(self);
        }
        self.bytes.len() - self.pos
    }

    /// Whether any byte is left to read.
    pub fn has_remaining(&self) -> (b: bool)
        ensures
            b == (self@.len() > 0),
    {
        proof {
            use_type_invariant(self);
        }
        self.pos < self.bytes.len()
    }

    /// Takes the next byte.
    pub fn get_u8(&mut self) -> (b: u8)
        requires
            old(self)@.len() >= 1,
        ensures
            b == old(self)@[0],
            final(self)@ == old(self)@.skip(1),
    {
        proof {
            use_type_invariant(&*self);
            assert(self.bytes@.len() - self.pos >= 1);
        }
        let len = self.bytes.len();
        let b = self.bytes[self.pos];
        assert(self.pos < len);
        self.pos = self.pos + 1;
        assert(self@ =~= old(self)@.skip(1));
        b
    }

    /// Takes the next `n` bytes.
    pub fn take_bytes(&mut self, n: usize) -> (out: Vec<u8>)
        requires
            old(self)@.len() >= n,
        ensures
            out@ == old(self)@.take(n as int),
            final(self)@ == old(self)@.skip(n as int),
    {
        let mut out: Vec<u8> = Vec::with_capacity(n);
        let mut i: usize = 0;
        let ghost start = self@;
        while i < n
            invariant
                i <= n,
                start.len() >= n,
                out@ == start.take(i as int),
                self@ == start.skip(i as int),
            decreases n - i,
        {
            let b = self.get_u8();
            out.push(b);
            i = i + 1;
            assert(out@ =~= start.take(i as int));
            assert(self@ =~= start.skip(i as int));
        }
        out
    }

    /// Takes every remaining byte.
    pub fn take_rest(&mut self) -> (out: Vec<u8>)
        ensures
            out@ == old(self)@,
            final(self)@.len() == 0,
    {
        let n = self.remaining();
        let out = self.take_bytes(n);
        assert(old(self)@.take(n as int) =~= old(self)@);
        out
    }

    /// Takes a big-endian `u16`.
    pub fn get_u16(&mut self) -> (v: u16)
        requires
            old(self)@.len() >= 2,
        ensures
            v == be_u16(old(self)@),
            final(self)@ == old(self)@.skip(2),
    {
        let a = self.get_u8();
        let b = self.get_u8();
        assert(self@ =~= old(self)@.skip(2));
        ((a as u16) << 8u16) | (b as u16)
    }

    /// Takes a big-endian `u32`.
    pub fn get_u32(&mut self) -> (v: u32)
        requires
            old(self)@.len() >= 4,
        ensures
            v == be_u32(old(self)@),
            final(self)@ == old(self)@.skip(4),
    {
        let a = self.get_u8();
        let b = self.get_u8();
        let c = self.get_u8();
        let d = self.get_u8();
        assert(self@ =~= old(self)@.skip(4));
        ((a as u32) << 24u32) | ((b as u32) << 16u32) | ((c as u32) << 8u32) | (d as u32)
    }

    /// Takes a big-endian `u64`.
    pub fn get_u64(&mut self) -> (v: u64)
        requires
            old(self)@.len() >= 8,
        ensures
            v == be_u64(old(self)@),
            final(self)@ == old(self)@.skip(8),
    {
        let a = self.get_u8();
        let b = self.get_u8();
        let c = self.get_u8();
        let d = self.get_u8();
        let e = self.get_u8();
        let f = self.get_u8();
        let g = self.get_u8();
        let h = self.get_u8();
        assert(self@ =~= old(self)@.skip(8));
        ((a as u64) << 56u64) | ((b as u64) << 48u64) | ((c as u64) << 40u64) | ((d as u64) << 32u64)
            | ((e as u64) << 24u64) | ((f as u64) << 16u64) | ((g as u64) << 8u64) | (h as u64)
    }

    /// Takes a big-endian `i16`.
    pub fn get_i16(&mut self) -> (v: i16)
        requires
            old(self)@.len() >= 2,
        ensures
            v == be_u16(old(self)@) as i16,
            final(self)@ == old(self)@.skip(2),
    {
        self.get_u16() as i16
    }

    /// Takes a big-endian `i32`.
    pub fn get_i32(&mut self) -> (v: i32)
        requires
            old(self)@.len() >= 4,
        ensures
            v == be_u32(old(self)@) as i32,
            final(self)@ == old(self)@.skip(4),
    {
        self.get_u32() as i32
    }

    /// Takes a big-endian `i64`.
    pub fn get_i64(&mut self) -> (v: i64)
        requires
            old(self)@.len() >= 8,
        ensures
            v == be_u64(old(self)@) as i64,
            final(self)@ == old(self)@.skip(8),
    {
        self.get_u64() as i64
    }
}

/// An append-only byte sink with a fixed capacity.
pub struct ByteWriter {
    bytes: Vec<u8>,
    capacity: usize,
}

impl View for ByteWriter {
    type V = Seq<u8>;

    /// Everything written so far.
    closed spec fn view(&self) -> Seq<u8> {
        self.bytes@
    }
}

impl ByteWriter {
    /// Total number of bytes the writer accepts.
    pub closed spec fn capacity(&self) -> nat {
        self.capacity as nat
    }

    /// How many more bytes fit.
    pub open spec fn room(&self) -> int {
        if self@.len() <= self.capacity() {
            self.capacity() - self@.len()
        } else {
            0
        }
    }

    /// An empty writer that grows without practical bound.
    pub fn new() -> (w: Self)
        ensures
            w@ == Seq::<u8>::empty(),
            w.capacity() == usize::MAX,
    {
        ByteWriter { bytes: Vec::new(), capacity: usize::MAX }
    }

    /// An empty writer that accepts at most `capacity` bytes.
    pub fn with_limit(capacity: usize) -> (w: Self)
        ensures
            w@ == Seq::<u8>::empty(),
            w.capacity() == capacity,
    {
        ByteWriter { bytes: Vec::new(), capacity }
    }

    /// How many more bytes fit.
    pub fn remaining_mut(&self) -> (n: usize)
        ensures
            n == self.room(),
    {
        if self.bytes.len() <= self.capacity {
            self.capacity - self.bytes.len()
        } else {
            0
        }
    }

    /// Number of bytes written so far.
    pub fn len(&self) -> (n: usize)
        ensures
            n == self@.len(),
    {
        self.bytes.len()
    }

    /// Whether nothing has been written.
    pub fn is_empty(&self) -> (b: bool)
        ensures
            b == (self@.len() == 0),
    {
        self.bytes.len() == 0
    }

    /// The bytes written so far.
    pub fn as_slice(&self) -> (s: &[u8])
        ensures
            s@ == self@,
    {
        self.bytes.as_slice()
    }

    /// Gives up the writer and hands back what it holds.
    pub fn into_vec(self) -> (v: Vec<u8>)
        ensures
            v@ == self@,
    {
        self.bytes
    }

    /// Appends one byte.
    pub fn put_u8(&mut self, b: u8)
        requires
            old(self).room() >= 1,
        ensures
            final(self)@ == old(self)@.push(b),
            final(self).capacity() == old(self).capacity(),
    {
        self.bytes.push(b);
    }

    /// Appends every byte of `s`.
    pub fn put_slice(&mut self, s: &[u8])
        requires
            old(self).room() >= s@.len(),
        ensures
            final(self)@ == old(self)@ + s@,
            final(self).capacity() == old(self).capacity(),
    {
        let mut i: usize = 0;
        while i < s.len()
            invariant
                i <= s@.len(),
                self.capacity() == old(self).capacity(),
                old(self).room() >= s@.len(),
                self@ == old(self)@ + s@.take(i as int),
            decreases s@.len() - i,
        {
            self.put_u8(s[i]);
            i = i + 1;
            assert(self@ =~= old(self)@ + s@.take(i as int));
        }
        assert(s@.take(s@.len() as int) =~= s@);
    }

    /// Appends a big-endian `u16`.
    pub fn put_u16(&mut self, v: u16)
        requires
            old(self).room() >= 2,
        ensures
            final(self)@ == old(self)@ + u16_be(v),
            final(self).capacity() == old(self).capacity(),
    {
        self.put_u8((v >> 8u16) as u8);
        self.put_u8(v as u8);
        assert(self@ =~= old(self)@ + u16_be(v));
    }

    /// Appends a big-endian `u32`.
    pub fn put_u32(&mut self, v: u32)
        requires
            old(self).room() >= 4,
        ensures
            final(self)@ == old(self)@ + u32_be(v),
            final(self).capacity() == old(self).capacity(),
    {
        self.put_u8((v >> 24u32) as u8);
        self.put_u8((v >> 16u32) as u8);
        self.put_u8((v >> 8u32) as u8);
        self.put_u8(v as u8);
        assert(self@ =~= old(self)@ + u32_be(v));
    }

    /// Appends a big-endian `u64`.
    pub fn put_u64(&mut self, v: u64)
        requires
            old(self).room() >= 8,
        ensures
            final(self)@ == old(self)@ + u64_be(v),
            final(self).capacity() == old(self).capacity(),
    {
        self.put_u8((v >> 56u64) as u8);
        self.put_u8((v >> 48u64) as u8);
        self.put_u8((v >> 40u64) as u8);
        self.put_u8((v >> 32u64) as u8);
        self.put_u8((v >> 24u64) as u8);
        self.put_u8((v >> 16u64) as u8);
        self.put_u8((v >> 8u64) as u8);
        self.put_u8(v as u8);
        assert(self@ =~= old(self)@ + u64_be(v));
    }
}

/// `a` is a prefix of `b`.
pub open spec fn prefix_of(a: Seq<u8>, b: Seq<u8>) -> bool {
    a.len() <= b.len() && b.subrange(0, a.len() as int) == a
}

/// What a write of `bytes`, whose content is acceptable when `ok`, did to a
/// writer: it succeeded exactly when `ok` held and the bytes fit, and then
/// appended them; whatever happened, the writer grew by a prefix of them.
pub open spec fn writes(old_w: ByteWriter, new_w: ByteWriter, bytes: Seq<u8>, ok: bool, success: bool) -> bool {
    &&& new_w.capacity() == old_w.capacity()
    &&& success <==> (ok && bytes.len() <= old_w.room())
    &&& success ==> new_w@ == old_w@ + bytes
    &&& prefix_of(new_w@, old_w@ + bytes)
    &&& old_w@.len() <= new_w@.len()
}

/// A write meant to bring a writer to `target` stopped short: the target
/// was not acceptable or did not fit, and what the writer holds is a prefix
/// of it.
pub open spec fn stopped(old_w: ByteWriter, new_w: ByteWriter, target: Seq<u8>, ok: bool) -> bool {
    &&& new_w.capacity() == old_w.capacity()
    &&& !(ok && target.len() - old_w@.len() <= old_w.room())
    &&& prefix_of(new_w@, target)
    &&& old_w@.len() <= new_w@.len()
}

/// A sequence is a prefix of itself followed by anything.
pub proof fn lemma_prefix_of_add(a: Seq<u8>, r: Seq<u8>)
    ensures
        prefix_of(a, a + r),
{
    assert((a + r).subrange(0, a.len() as int) =~= a);
}

/// Being a prefix is transitive.
pub proof fn lemma_prefix_trans(a: Seq<u8>, b: Seq<u8>, c: Seq<u8>)
    requires
        prefix_of(a, b),
        prefix_of(b, c),
    ensures
        prefix_of(a, c),
{
    assert(c.subrange(0, a.len() as int) =~= c.subrange(0, b.len() as int).subrange(
        0,
        a.len() as int,
    ));
}

/// Writing nothing succeeds and changes nothing.
pub proof fn lemma_writes_empty(w: ByteWriter)
    ensures
        writes(w, w, Seq::empty(), true, true),
{
    assert(w@ + Seq::<u8>::empty() =~= w@);
    assert(w@.subrange(0, w@.len() as int) =~= w@);
}

/// Two successful writes in a row write their concatenation.
pub proof fn lemma_writes_seq(
    w0: ByteWriter,
    w1: ByteWriter,
    w2: ByteWriter,
    a: Seq<u8>,
    b: Seq<u8>,
    ok_a: bool,
    ok_b: bool,
)
    requires
        writes(w0, w1, a, ok_a, true),
        writes(w1, w2, b, ok_b, true),
    ensures
        writes(w0, w2, a + b, ok_a && ok_b, true),
{
    assert(w2@ =~= w0@ + (a + b));
    lemma_prefix_of_add(w2@, Seq::empty());
    assert(w2@ + Seq::<u8>::empty() =~= w2@);
}

/// A write that fails part-way through a larger one leaves the larger one
/// failed too.
pub proof fn lemma_fail_mid(
    w0: ByteWriter,
    wa: ByteWriter,
    wf: ByteWriter,
    prefix: Seq<u8>,
    mid: Seq<u8>,
    ok_mid: bool,
    total: Seq<u8>,
    ok_total: bool,
)
    requires
        writes(w0, wa, prefix, true, true),
        writes(wa, wf, mid, ok_mid, false),
        prefix_of(prefix + mid, total),
        ok_total ==> ok_mid,
    ensures
        writes(w0, wf, total, ok_total, false),
{
    assert(wa@ + mid =~= w0@ + (prefix + mid));
    assert(prefix_of(w0@ + (prefix + mid), w0@ + total)) by {
        assert((w0@ + total).subrange(0, (w0@ + (prefix + mid)).len() as int) =~= w0@ + (prefix
            + mid)) by {
            assert(total.subrange(0, (prefix + mid).len() as int) == prefix + mid);
        }
    }
    lemma_prefix_trans(wf@, wa@ + mid, w0@ + total);
}

/// A write that fails at its first part fails as a whole.
pub proof fn lemma_fail_first(
    w0: ByteWriter,
    wf: ByteWriter,
    mid: Seq<u8>,
    ok_mid: bool,
    total: Seq<u8>,
    ok_total: bool,
)
    requires
        writes(w0, wf, mid, ok_mid, false),
        prefix_of(mid, total),
        ok_total ==> ok_mid,
    ensures
        writes(w0, wf, total, ok_total, false),
{
    lemma_writes_empty(w0);
    assert(Seq::<u8>::empty() + mid =~= mid);
    lemma_fail_mid(w0, w0, wf, Seq::empty(), mid, ok_mid, total, ok_total);
}

/// A write that failed on its way to `target`, where its bytes come next,
/// stopped short of `target`.
pub proof fn lemma_writes_stopped(
    w0: ByteWriter,
    wf: ByteWriter,
    bytes: Seq<u8>,
    ok_b: bool,
    target: Seq<u8>,
    ok: bool,
)
    requires
        writes(w0, wf, bytes, ok_b, false),
        prefix_of(w0@ + bytes, target),
        ok ==> ok_b,
    ensures
        stopped(w0, wf, target, ok),
{
    lemma_prefix_trans(wf@, w0@ + bytes, target);
}

} // verus!
