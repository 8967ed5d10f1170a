//! AES/CFB8 encryption of the packet stream. The 16-byte shared secret
//! from the login key exchange is both the AES key and the IV.
use vstd::prelude::*;
pub use super::cipher_state::{CipherRead, CipherWrite};

verus! {

#[derive(Debug, Clone, Copy, PartialEq, Eq, Structural)]
pub enum EncryptionError {
    /// The secret was not 16 bytes long; carries the length it had.
    InvalidKeyLength(usize),
}

/// The 16-byte shared secret of the login key exchange.
#[derive(Debug, Clone)]
pub struct SharedSecret(pub [u8; 16]);

impl SharedSecret {
    /// The secret made of `bytes`, which must be 16 bytes long.
    pub fn from_bytes(bytes: &[u8]) -> (r: Result<Self, EncryptionError>)
        ensures
            bytes@.len() == 16 ==> (r matches Ok(s) && s.0@ == bytes@),
            bytes@.len() != 16 ==> r == Err::<Self, EncryptionError>(
                EncryptionError::InvalidKeyLength(bytes@.len() as usize),
            ),
    {
        if bytes.len() != 16 {
            return Err(EncryptionError::InvalidKeyLength(bytes.len()));
        }
        let mut key = [0u8; 16];
        let mut i: usize = 0;
        while i < 16
            invariant
                bytes@.len() == 16,
                i <= 16,
                forall|j: int| 0 <= j < i ==> key@[j] == bytes@[j],
            decreases 16 - i,
        {
            key.set(i, bytes[i]);
            i = i + 1;
        }
        assert(key@ =~= bytes@);
        Ok(SharedSecret(key))
    }

    /// The secret's bytes.
    pub fn as_bytes(&self) -> (b: &[u8; 16])
        ensures
            b@ == self.0@,
    {
        &self.0
    }

    /// The IV, which is the secret itself.
    pub fn iv(&self) -> (b: [u8; 16])
        ensures
            b@ == self.0@,
    {
        self.0
    }
}

/// The ciphertext byte an AES/CFB8 encryptor keyed with `state.0` (key
/// and IV alike) gives for `b` once it has encrypted the plaintext
/// `state.1`.
pub uninterp spec fn cfb8_encrypt_next(state: (Seq<u8>, Seq<u8>), b: u8) -> u8;

/// The plaintext byte an AES/CFB8 decryptor keyed with `state.0` gives for
/// `c` once it has decrypted the ciphertext `state.1`.
pub uninterp spec fn cfb8_decrypt_next(state: (Seq<u8>, Seq<u8>), c: u8) -> u8;

/// The ciphertext of the whole plaintext `p` under `key`.
pub open spec fn cfb8_ciphertext(key: Seq<u8>, p: Seq<u8>) -> Seq<u8>
    decreases p.len(),
{
    if p.len() == 0 {
        Seq::empty()
    } else {
        cfb8_ciphertext(key, p.drop_last()).push(cfb8_encrypt_next((key, p.drop_last()), p.last()))
    }
}

/// The plaintext of the whole ciphertext `c` under `key`.
pub open spec fn cfb8_plaintext(key: Seq<u8>, c: Seq<u8>) -> Seq<u8>
    decreases c.len(),
{
    if c.len() == 0 {
        Seq::empty()
    } else {
        cfb8_plaintext(key, c.drop_last()).push(cfb8_decrypt_next((key, c.drop_last()), c.last()))
    }
}

impl CipherWrite {
    /// An encryptor keyed (and IV'd) with `secret`.
    pub fn new(secret: &SharedSecret) -> (c: Self)
        ensures
            c@ == (secret.0@, Seq::<u8>::empty()),
    {
        CipherWrite::keyed(secret.as_bytes())
    }

    /// Encrypts `buf` in place, continuing the stream.
    pub fn encrypt(&mut self, buf: &mut Vec<u8>)
        ensures
            final(self)@ == (old(self)@.0, old(self)@.1 + old(buf)@),
            final(buf)@ == cfb8_ciphertext(old(self)@.0, old(self)@.1 + old(buf)@).skip(
                old(self)@.1.len() as int,
            ),
    {
        let ghost key = self@.0;
        let ghost h = self@.1;
        let ghost p = buf@;
        let mut i: usize = 0;
        proof {
            assert(h + p.take(0) =~= h);
            lemma_cfb8_ciphertext_len(key, h);
            assert(cfb8_ciphertext(key, h).skip(h.len() as int) =~= Seq::<u8>::empty());
        }
        while i < buf.len()
            invariant
                i <= buf@.len(),
                buf@.len() == p.len(),
                self@ == (key, h + p.take(i as int)),
                forall|j: int| i <= j < p.len() ==> buf@[j] == p[j],
                buf@.take(i as int) == cfb8_ciphertext(key, h + p.take(i as int)).skip(
                    h.len() as int,
                ),
                key == old(self)@.0,
                h == old(self)@.1,
                p == old(buf)@,
            decreases p.len() - i,
        {
            let ghost before = self@.1;
            let c = self.encrypt_byte(buf[i]);
            buf.set(i, c);
            proof {
                let full = h + p.take(i + 1);
                assert(before.push(p[i as int]) =~= full);
                assert(full.drop_last() =~= before);
                assert(full.last() == p[i as int]);
                assert(cfb8_ciphertext(key, full) == cfb8_ciphertext(key, before).push(c));
                lemma_cfb8_ciphertext_len(key, before);
                assert(cfb8_ciphertext(key, full).skip(h.len() as int) =~= cfb8_ciphertext(
                    key,
                    before,
                ).skip(h.len() as int).push(c));
                assert(buf@.take(i + 1) =~= cfb8_ciphertext(key, h + p.take(i + 1)).skip(
                    h.len() as int,
                ));
            }
            i = i + 1;
        }
        proof {
            assert(p.take(p.len() as int) =~= p);
            assert(buf@.take(p.len() as int) =~= buf@);
        }
    }
}

impl CipherRead {
    /// A decryptor keyed (and IV'd) with `secret`.
    pub fn new(secret: &SharedSecret) -> (c: Self)
        ensures
            c@ == (secret.0@, Seq::<u8>::empty()),
    {
        CipherRead::keyed(secret.as_bytes())
    }

    /// Decrypts `buf` in place, continuing the stream. Decryption undoes
    /// encryption: where the bytes decrypted so far are the ciphertext of
    /// some plaintext `p`, and `buf` holds what an encryptor with the same
    /// key writes for `q` after `p`, `buf` becomes `q`.
    #[verifier::rlimit(50)]
    pub fn decrypt(&mut self, buf: &mut Vec<u8>)
        ensures
            final(self)@ == (old(self)@.0, old(self)@.1 + old(buf)@),
            final(buf)@ == cfb8_plaintext(old(self)@.0, old(self)@.1 + old(buf)@).skip(
                old(self)@.1.len() as int,
            ),
            forall|p: Seq<u8>, q: Seq<u8>|
                #![trigger cfb8_ciphertext(old(self)@.0, p), cfb8_ciphertext(old(self)@.0, p + q)]
                old(self)@.1 == cfb8_ciphertext(old(self)@.0, p) && old(buf)@ == cfb8_ciphertext(
                    old(self)@.0,
                    p + q,
                ).skip(p.len() as int) ==> final(buf)@ == q,
    {
        let ghost key = self@.0;
        let ghost h = self@.1;
        let ghost p = buf@;
        let mut i: usize = 0;
        proof {
            assert(h + p.take(0) =~= h);
            lemma_cfb8_plaintext_len(key, h);
            assert(cfb8_plaintext(key, h).skip(h.len() as int) =~= Seq::<u8>::empty());
            assert forall|pp: Seq<u8>, qq: Seq<u8>|
                #![trigger cfb8_ciphertext(key, pp), cfb8_ciphertext(key, pp + qq)]
                h == cfb8_ciphertext(key, pp) && p == cfb8_ciphertext(key, pp + qq).skip(
                    pp.len() as int,
                ) implies buf@.take(0) == qq.take(0) by {
                assert(buf@.take(0) =~= qq.take(0));
            }
        }
        while i < buf.len()
            invariant
                i <= buf@.len(),
                buf@.len() == p.len(),
                self@ == (key, h + p.take(i as int)),
                forall|j: int| i <= j < p.len() ==> buf@[j] == p[j],
                buf@.take(i as int) == cfb8_plaintext(key, h + p.take(i as int)).skip(
                    h.len() as int,
                ),
                key == old(self)@.0,
                h == old(self)@.1,
                p == old(buf)@,
                forall|pp: Seq<u8>, qq: Seq<u8>|
                    #![trigger cfb8_ciphertext(key, pp), cfb8_ciphertext(key, pp + qq)]
                    h == cfb8_ciphertext(key, pp) && p == cfb8_ciphertext(key, pp + qq).skip(
                        pp.len() as int,
                    ) ==> buf@.take(i as int) == qq.take(i as int),
            decreases p.len() - i,
        {
            let ghost before = self@.1;
            let ghost buf0 = buf@;
            let b = self.decrypt_byte(buf[i]);
            buf.set(i, b);
            proof {
                assert forall|pp: Seq<u8>, qq: Seq<u8>|
                    #![trigger cfb8_ciphertext(key, pp), cfb8_ciphertext(key, pp + qq)]
                    h == cfb8_ciphertext(key, pp) && p == cfb8_ciphertext(key, pp + qq).skip(
                        pp.len() as int,
                    ) implies buf@.take(i + 1) == qq.take(i + 1) by {
                    let s = pp + qq;
                    let k = pp.len() + i;
                    lemma_cfb8_ciphertext_len(key, s);
                    lemma_cfb8_ciphertext_len(key, pp);
                    assert(buf0.take(i as int) == qq.take(i as int));
                    lemma_cfb8_ciphertext_take(key, s, pp.len() as int);
                    assert(s.take(pp.len() as int) =~= pp);
                    lemma_cfb8_ciphertext_take(key, s, k);
                    assert(s.take(k) =~= pp + qq.take(i as int));
                    assert(cfb8_ciphertext(key, s).take(k) =~= h + p.take(i as int));
                    lemma_cfb8_ciphertext_index(key, s, k);
                    assert(s[k] == qq[i as int]);
                    assert(p[i as int] == cfb8_ciphertext(key, s)[k]);
                    assert(cfb8_encrypt_next((key, pp + qq.take(i as int)), qq[i as int]) == p[i as int]);
                    assert(b == qq[i as int]);
                    assert(buf@.take(i + 1) =~= qq.take(i + 1));
                }
            }
            proof {
                let full = h + p.take(i + 1);
                assert(before.push(p[i as int]) =~= full);
                assert(full.drop_last() =~= before);
                assert(full.last() == p[i as int]);
                assert(cfb8_plaintext(key, full) == cfb8_plaintext(key, before).push(b));
                lemma_cfb8_plaintext_len(key, before);
                assert(cfb8_plaintext(key, full).skip(h.len() as int) =~= cfb8_plaintext(
                    key,
                    before,
                ).skip(h.len() as int).push(b));
                assert(buf@.take(i + 1) =~= cfb8_plaintext(key, h + p.take(i + 1)).skip(
                    h.len() as int,
                ));
            }
            i = i + 1;
        }
        proof {
            assert(p.take(p.len() as int) =~= p);
            assert(buf@.take(p.len() as int) =~= buf@);
            assert forall|pp: Seq<u8>, qq: Seq<u8>|
                #![trigger cfb8_ciphertext(key, pp), cfb8_ciphertext(key, pp + qq)]
                h == cfb8_ciphertext(key, pp) && p == cfb8_ciphertext(key, pp + qq).skip(
                    pp.len() as int,
                ) implies buf@ == qq by {
                lemma_cfb8_ciphertext_len(key, pp + qq);
                lemma_cfb8_ciphertext_len(key, pp);
                assert(qq.take(qq.len() as int) =~= qq);
            }
        }
    }
}

/// The ciphertext of a plaintext is as long as it.
pub proof fn lemma_cfb8_ciphertext_len(key: Seq<u8>, p: Seq<u8>)
    ensures
        cfb8_ciphertext(key, p).len() == p.len(),
    decreases p.len(),
{
    if p.len() > 0 {
        lemma_cfb8_ciphertext_len(key, p.drop_last());
    }
}

/// The ciphertext of the first `k` bytes is the first `k` bytes of the
/// ciphertext.
pub proof fn lemma_cfb8_ciphertext_take(key: Seq<u8>, p: Seq<u8>, k: int)
    requires
        0 <= k <= p.len(),
    ensures
        cfb8_ciphertext(key, p).take(k) == cfb8_ciphertext(key, p.take(k)),
    decreases p.len(),
{
    lemma_cfb8_ciphertext_len(key, p);
    if k == p.len() {
        assert(p.take(k) =~= p);
        assert(cfb8_ciphertext(key, p).take(k) =~= cfb8_ciphertext(key, p));
    } else {
        let d = p.drop_last();
        lemma_cfb8_ciphertext_take(key, d, k);
        lemma_cfb8_ciphertext_len(key, d);
        assert(d.take(k) =~= p.take(k));
        assert(cfb8_ciphertext(key, p).take(k) =~= cfb8_ciphertext(key, d).take(k));
    }
}

/// Byte `k` of the ciphertext is the encryption of plaintext byte `k`
/// after the bytes before it.
pub proof fn lemma_cfb8_ciphertext_index(key: Seq<u8>, p: Seq<u8>, k: int)
    requires
        0 <= k < p.len(),
    ensures
        cfb8_ciphertext(key, p)[k] == cfb8_encrypt_next((key, p.take(k)), p[k]),
{
    lemma_cfb8_ciphertext_take(key, p, k + 1);
    let t = p.take(k + 1);
    assert(t.drop_last() =~= p.take(k));
    assert(t.last() == p[k]);
    lemma_cfb8_ciphertext_len(key, p.take(k));
    lemma_cfb8_ciphertext_len(key, p);
    assert(cfb8_ciphertext(key, p)[k] == cfb8_ciphertext(key, p).take(k + 1)[k]);
}

/// The plaintext of a ciphertext is as long as it.
pub proof fn lemma_cfb8_plaintext_len(key: Seq<u8>, c: Seq<u8>)
    ensures
        cfb8_plaintext(key, c).len() == c.len(),
    decreases c.len(),
{
    if c.len() > 0 {
        lemma_cfb8_plaintext_len(key, c.drop_last());
    }
}

/// The plaintext of the first `k` bytes is the first `k` bytes of the
/// plaintext.
pub proof fn lemma_cfb8_plaintext_take(key: Seq<u8>, c: Seq<u8>, k: int)
    requires
        0 <= k <= c.len(),
    ensures
        cfb8_plaintext(key, c).take(k) == cfb8_plaintext(key, c.take(k)),
    decreases c.len(),
{
    lemma_cfb8_plaintext_len(key, c);
    if k == c.len() {
        assert(c.take(k) =~= c);
        assert(cfb8_plaintext(key, c).take(k) =~= cfb8_plaintext(key, c));
    } else {
        let d = c.drop_last();
        lemma_cfb8_plaintext_take(key, d, k);
        lemma_cfb8_plaintext_len(key, d);
        assert(d.take(k) =~= c.take(k));
        assert(cfb8_plaintext(key, c).take(k) =~= cfb8_plaintext(key, d).take(k));
    }
}

/// Encrypting a stream in two chunks gives what encrypting it in one does:
/// what `encrypt` writes for `a` after history `h`, then for `b` after
/// `h + a`, is what it writes for `a + b` after `h`.
pub proof fn lemma_cfb8_encrypt_chunks(key: Seq<u8>, h: Seq<u8>, a: Seq<u8>, b: Seq<u8>)
    ensures
        cfb8_ciphertext(key, h + a).skip(h.len() as int) + cfb8_ciphertext(key, h + a + b).skip(
            (h + a).len() as int,
        ) == cfb8_ciphertext(key, h + a + b).skip(h.len() as int),
{
    let all = h + a + b;
    lemma_cfb8_ciphertext_take(key, all, (h + a).len() as int);
    assert(all.take((h + a).len() as int) =~= h + a);
    lemma_cfb8_ciphertext_len(key, all);
    lemma_cfb8_ciphertext_len(key, h + a);
    assert(cfb8_ciphertext(key, h + a).skip(h.len() as int) + cfb8_ciphertext(key, all).skip(
        (h + a).len() as int,
    ) =~= cfb8_ciphertext(key, all).skip(h.len() as int));
}

/// Decrypting a stream in two chunks gives what decrypting it in one does.
pub proof fn lemma_cfb8_decrypt_chunks(key: Seq<u8>, h: Seq<u8>, a: Seq<u8>, b: Seq<u8>)
    ensures
        cfb8_plaintext(key, h + a).skip(h.len() as int) + cfb8_plaintext(key, h + a + b).skip(
            (h + a).len() as int,
        ) == cfb8_plaintext(key, h + a + b).skip(h.len() as int),
{
    let all = h + a + b;
    lemma_cfb8_plaintext_take(key, all, (h + a).len() as int);
    assert(all.take((h + a).len() as int) =~= h + a);
    lemma_cfb8_plaintext_len(key, all);
    lemma_cfb8_plaintext_len(key, h + a);
    assert(cfb8_plaintext(key, h + a).skip(h.len() as int) + cfb8_plaintext(key, all).skip(
        (h + a).len() as int,
    ) =~= cfb8_plaintext(key, all).skip(h.len() as int));
}

/// What `encrypt` writes for each of the chunks `cs`, given one after
/// another to an encryptor with key `key` that has encrypted `h`.
pub open spec fn cfb8_encrypt_pieces(key: Seq<u8>, h: Seq<u8>, cs: Seq<Seq<u8>>) -> Seq<Seq<u8>>
    decreases cs.len(),
{
    if cs.len() == 0 {
        Seq::empty()
    } else {
        let before = h + cs.drop_last().flatten();
        cfb8_encrypt_pieces(key, h, cs.drop_last()).push(
            cfb8_ciphertext(key, before + cs.last()).skip(before.len() as int),
        )
    }
}

/// What `decrypt` writes for each of the chunks `cs`, given one after
/// another to a decryptor with key `key` that has decrypted `h`.
pub open spec fn cfb8_decrypt_pieces(key: Seq<u8>, h: Seq<u8>, cs: Seq<Seq<u8>>) -> Seq<Seq<u8>>
    decreases cs.len(),
{
    if cs.len() == 0 {
        Seq::empty()
    } else {
        let before = h + cs.drop_last().flatten();
        cfb8_decrypt_pieces(key, h, cs.drop_last()).push(
            cfb8_plaintext(key, before + cs.last()).skip(before.len() as int),
        )
    }
}

/// Encryption does not depend on how the stream is cut: the chunks that
/// `encrypt` writes, joined, are what it writes for the joined input.
pub proof fn lemma_cfb8_encrypt_any_chunks(key: Seq<u8>, h: Seq<u8>, cs: Seq<Seq<u8>>)
    ensures
        cfb8_encrypt_pieces(key, h, cs).flatten() == cfb8_ciphertext(key, h + cs.flatten()).skip(
            h.len() as int,
        ),
    decreases cs.len(),
{
    if cs.len() == 0 {
        lemma_cfb8_ciphertext_len(key, h);
        assert(h + cs.flatten() =~= h);
        assert(cfb8_ciphertext(key, h).skip(h.len() as int) =~= Seq::<u8>::empty());
    } else {
        let prev = cs.drop_last();
        let last = cs.last();
        lemma_cfb8_encrypt_any_chunks(key, h, prev);
        assert(cs =~= prev.push(last));
        prev.lemma_flatten_push(last);
        cfb8_encrypt_pieces(key, h, prev).lemma_flatten_push(
            cfb8_ciphertext(key, h + prev.flatten() + last).skip((h + prev.flatten()).len() as int),
        );
        lemma_cfb8_encrypt_chunks(key, h, prev.flatten(), last);
        assert(h + cs.flatten() =~= h + prev.flatten() + last);
    }
}

/// Decryption does not depend on how the stream is cut: the chunks that
/// `decrypt` writes, joined, are what it writes for the joined input.
pub proof fn lemma_cfb8_decrypt_any_chunks(key: Seq<u8>, h: Seq<u8>, cs: Seq<Seq<u8>>)
    ensures
        cfb8_decrypt_pieces(key, h, cs).flatten() == cfb8_plaintext(key, h + cs.flatten()).skip(
            h.len() as int,
        ),
    decreases cs.len(),
{
    if cs.len() == 0 {
        lemma_cfb8_plaintext_len(key, h);
        assert(h + cs.flatten() =~= h);
        assert(cfb8_plaintext(key, h).skip(h.len() as int) =~= Seq::<u8>::empty());
    } else {
        let prev = cs.drop_last();
        let last = cs.last();
        lemma_cfb8_decrypt_any_chunks(key, h, prev);
        assert(cs =~= prev.push(last));
        prev.lemma_flatten_push(last);
        cfb8_decrypt_pieces(key, h, prev).lemma_flatten_push(
            cfb8_plaintext(key, h + prev.flatten() + last).skip((h + prev.flatten()).len() as int),
        );
        lemma_cfb8_decrypt_chunks(key, h, prev.flatten(), last);
        assert(h + cs.flatten() =~= h + prev.flatten() + last);
    }
}

/// Any cut of a ciphertext is what `decrypt`'s inverse clause asks for:
/// the bytes before `i` are the ciphertext of `d[..i]`, and bytes `i..j`
/// are what an encryptor writes for `d[i..j]` after `d[..i]`. So a
/// decryptor with the same key, fed the ciphertext of `d` in chunks cut
/// anywhere, gives back `d` chunk by chunk.
pub proof fn lemma_cfb8_ciphertext_cut(key: Seq<u8>, d: Seq<u8>, i: int, j: int)
    requires
        0 <= i <= j <= d.len(),
    ensures
        cfb8_ciphertext(key, d).take(i) == cfb8_ciphertext(key, d.take(i)),
        cfb8_ciphertext(key, d).subrange(i, j) == cfb8_ciphertext(key, d.take(i) + d.subrange(i, j)).skip(
            i,
        ),
        d.take(i) + d.subrange(i, j) == d.take(j),
{
    lemma_cfb8_ciphertext_take(key, d, i);
    lemma_cfb8_ciphertext_take(key, d, j);
    lemma_cfb8_ciphertext_len(key, d);
    assert(d.take(i) + d.subrange(i, j) =~= d.take(j));
    assert(cfb8_ciphertext(key, d).subrange(i, j) =~= cfb8_ciphertext(key, d).take(j).skip(i));
}

} // verus!
