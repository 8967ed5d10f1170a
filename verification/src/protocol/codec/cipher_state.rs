//! The two cipher states of the stream, each an AES-128/CFB8 cipher of the
//! `cfb8` crate beside a model of it: the key it was made with and the
//! bytes it has taken. Only the functions here, which touch the cipher,
//! set the model, so the model always describes the cipher beside it.
use vstd::prelude::*;
use aes::Aes128;
use cfb8::cipher::{BlockDecryptMut, BlockEncryptMut, KeyIvInit};
use cfb8::cipher::generic_array::GenericArray;
use super::encryption::{cfb8_ciphertext, cfb8_decrypt_next, cfb8_encrypt_next};

verus! {

/// An AES-128/CFB8 encryptor of the `cfb8` crate, held opaquely: Verus
/// refuses a declaration of `cfb8::Encryptor`, whose type parameter is
/// bounded by traits of the `cipher` crate.
#[verifier::external_body]
struct Cfb8Encryptor {
    inner: cfb8::Encryptor<Aes128>,
}

/// An AES-128/CFB8 decryptor of the `cfb8` crate, held opaquely for the
/// same reason.
#[verifier::external_body]
struct Cfb8Decryptor {
    inner: cfb8::Decryptor<Aes128>,
}

/// The write side: an encryptor, the key (also its IV) it was made with,
/// and the plaintext it has encrypted.
pub struct CipherWrite {
    cipher: Cfb8Encryptor,
    key: Ghost<Seq<u8>>,
    sent: Ghost<Seq<u8>>,
}

impl View for CipherWrite {
    type V = (Seq<u8>, Seq<u8>);

    /// The key, and the plaintext encrypted so far.
    closed spec fn view(&self) -> (Seq<u8>, Seq<u8>) {
        (self.key@, self.sent@)
    }
}

impl CipherWrite {
    /// Builds the encryptor with `cfb8::Encryptor::new`, `key` serving as
    /// both the AES key and the IV. Claimed: the state's key is `key` and
    /// nothing has been encrypted yet.
    #[verifier::external_body]
    pub(crate) fn keyed(key: &[u8; 16]) -> (c: Self)
        ensures
            c@ == (key@, Seq::<u8>::empty()),
    {
        CipherWrite {
            cipher: Cfb8Encryptor { inner: cfb8::Encryptor::<Aes128>::new(key.into(), key.into()) },
            key: Ghost(key@),
            sent: Ghost(Seq::empty()),
        }
    }

    /// Encrypts one byte with `BlockEncryptMut::encrypt_block_mut` on the
    /// CFB8 encryptor (one-byte blocks). Claimed: the result is the CFB8
    /// ciphertext byte for `b` under the key, after what was encrypted
    /// before, and the byte joins what was encrypted.
    #[verifier::external_body]
    pub(crate) fn encrypt_byte(&mut self, b: u8) -> (c: u8)
        ensures
            c == cfb8_encrypt_next(old(self)@, b),
            final(self)@ == (old(self)@.0, old(self)@.1.push(b)),
    {
        let mut block = [b];
        self.cipher.inner.encrypt_block_mut(GenericArray::from_mut_slice(&mut block));
        self.sent = Ghost(self.sent@.push(b));
        block[0]
    }
}

/// The read side: a decryptor, the key (also its IV) it was made with,
/// and the ciphertext it has decrypted.
pub struct CipherRead {
    cipher: Cfb8Decryptor,
    key: Ghost<Seq<u8>>,
    received: Ghost<Seq<u8>>,
}

impl View for CipherRead {
    type V = (Seq<u8>, Seq<u8>);

    /// The key, and the ciphertext decrypted so far.
    closed spec fn view(&self) -> (Seq<u8>, Seq<u8>) {
        (self.key@, self.received@)
    }
}

impl CipherRead {
    /// Builds the decryptor with `cfb8::Decryptor::new`, `key` serving as
    /// both the AES key and the IV. Claimed: the state's key is `key` and
    /// nothing has been decrypted yet.
    #[verifier::external_body]
    pub(crate) fn keyed(key: &[u8; 16]) -> (c: Self)
        ensures
            c@ == (key@, Seq::<u8>::empty()),
    {
        CipherRead {
            cipher: Cfb8Decryptor { inner: cfb8::Decryptor::<Aes128>::new(key.into(), key.into()) },
            key: Ghost(key@),
            received: Ghost(Seq::empty()),
        }
    }

    /// Decrypts one byte with `BlockDecryptMut::decrypt_block_mut` on the
    /// CFB8 decryptor. Claimed: the result is the CFB8 plaintext byte for
    /// `c` under the key after what was decrypted before, the byte joins
    /// what was decrypted, and decryption undoes encryption under the same
    /// key: when what came before is the ciphertext of some plaintext and
    /// `c` is the next ciphertext byte for `x`, the result is `x` (CFB8's
    /// shift register holds the last ciphertext bytes on both sides).
    #[verifier::external_body]
    pub(crate) fn decrypt_byte(&mut self, c: u8) -> (b: u8)
        ensures
            b == cfb8_decrypt_next(old(self)@, c),
            final(self)@ == (old(self)@.0, old(self)@.1.push(c)),
            forall|p: Seq<u8>, x: u8|
                #![trigger cfb8_encrypt_next((old(self)@.0, p), x)]
                old(self)@.1 == cfb8_ciphertext(old(self)@.0, p) && c == cfb8_encrypt_next(
                    (old(self)@.0, p),
                    x,
                ) ==> b == x,
    {
        let mut block = [c];
        self.cipher.inner.decrypt_block_mut(GenericArray::from_mut_slice(&mut block));
        self.received = Ghost(self.received@.push(c));
        block[0]
    }
}

} // verus!
