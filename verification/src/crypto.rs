//! The caller-supplied AEAD primitive.
//!
//! The ledger never generates, stores or derives key material: a [`Cipher`]
//! wraps a key the caller provides, and the trusted functions below hand the
//! actual sealing and opening to the XChaCha12-Poly1305 implementation.

use vstd::prelude::*;

verus! {

use chacha20poly1305::{XChaCha12Poly1305, Key, XNonce, KeyInit};
use chacha20poly1305::aead::{Aead, AeadCore, OsRng};

/// Width of an XChaCha12-Poly1305 key in bytes.
pub const KEY_LEN: usize = 32;

/// Width of an XChaCha12-Poly1305 nonce in bytes.
pub const NONCE_LEN: usize = 24;

/// Width of the Poly1305 authentication tag appended to every ciphertext.
pub const TAG_LEN: usize = 16;

/// The largest plaintext the stream cipher can seal: 64-byte blocks under a
/// 32-bit block counter.  Sealing anything shorter succeeds.
pub const MAX_PLAINTEXT_LEN: u64 = 64 * 0xffff_ffff;

/// The bytes that sealing a plaintext under a key and nonce produces.
pub uninterp spec fn seal_of(key: Seq<u8>, nonce: Seq<u8>, plain: Seq<u8>) -> Seq<u8>;

/// The plaintext that opening a ciphertext under a key and nonce yields, or
/// `None` when authentication rejects it.
pub uninterp spec fn open_of(key: Seq<u8>, nonce: Seq<u8>, ciphertext: Seq<u8>) -> Option<
    Seq<u8>,
>;

/// An XChaCha12-Poly1305 key supplied and owned by the caller.
pub struct Cipher {
    key: Vec<u8>,
}

impl View for Cipher {
    type V = Seq<u8>;

    closed spec fn view(&self) -> Seq<u8> {
        self.key@
    }
}

impl Cipher {
    /// A cipher is well formed when its key has the algorithm's width.
    pub open spec fn wf(&self) -> bool {
        self@.len() == KEY_LEN
    }

    /// Wrap a caller-supplied key; rejects keys of any width but the
    /// algorithm's.
    pub fn new(key: Vec<u8>) -> (r: Option<Cipher>)
        ensures
            r matches Some(c) ==> c.wf() && c@ == key@,
            r is None <==> key@.len() != KEY_LEN,
    {
        if key.len() == KEY_LEN {
            Some(Cipher { key })
        } else {
            None
        }
    }

    /// Relies on `XChaCha12Poly1305::new` and `Aead::encrypt`: sealing is a
    /// function of key, nonce and plaintext alone, appends the 16-byte
    /// Poly1305 tag to the encrypted bytes, and fails only when the
    /// plaintext reaches the stream cipher's counter limit.
    #[verifier::external_body]
    pub(crate) fn seal(&self, nonce: &[u8], plain: &[u8]) -> (r: Option<Vec<u8>>)
        requires
            self.wf(),
            nonce@.len() == NONCE_LEN,
        ensures
            r matches Some(c) ==> c@ == seal_of(self@, nonce@, plain@) && c@.len() == plain@.len()
                + TAG_LEN,
            plain@.len() < MAX_PLAINTEXT_LEN ==> r is Some,
    {
        let cipher = XChaCha12Poly1305::new(Key::from_slice(&self.key));
        cipher.encrypt(XNonce::from_slice(nonce), plain).ok()
    }

    /// Relies on `XChaCha12Poly1305::new` and `Aead::decrypt`: opening is a
    /// function of key, nonce and ciphertext alone, and inverts
    /// `Aead::encrypt` under the same key and nonce.
    #[verifier::external_body]
    pub(crate) fn open(&self, nonce: &[u8], ciphertext: &[u8]) -> (r: Option<Vec<u8>>)
        requires
            self.wf(),
            nonce@.len() == NONCE_LEN,
        ensures
            match open_of(self@, nonce@, ciphertext@) {
                Some(p) => r matches Some(q) && q@ == p,
                None => r is None,
            },
            r matches Some(q) ==> forall|p: Seq<u8>|
                ciphertext@ == seal_of(self@, nonce@, p) ==> q@ == p,
            r is None ==> forall|p: Seq<u8>| ciphertext@ != seal_of(self@, nonce@, p),
    {
        let cipher = XChaCha12Poly1305::new(Key::from_slice(&self.key));
        cipher.decrypt(XNonce::from_slice(nonce), ciphertext).ok()
    }
}

/// Relies on `AeadCore::generate_nonce` with `OsRng`: a nonce of the
/// algorithm's 24-byte width drawn fresh from the system's secure source;
/// nothing else is assumed of its value.
#[verifier::external_body]
pub(crate) fn fresh_nonce() -> (r: Vec<u8>)
    ensures
        r@.len() == NONCE_LEN,
{
    XChaCha12Poly1305::generate_nonce(&mut OsRng).to_vec()
}

} // verus!
