//! Frame transcoders: a plain pass-through for trusted local channels, and
//! the per-direction authenticated ciphers that a completed Noise handshake
//! leaves behind, each with its own monotonic nonce counter.

use vstd::prelude::*;
use chacha20poly1305::aead::{Aead, NewAead};
use chacha20poly1305::{ChaCha20Poly1305, Key, Nonce};
use crate::LNP_MSG_MAX_LEN;

verus! {

/// Length of the authentication tag that sealing appends to a frame.
pub const TAG_LEN: usize = 16;

/// Length of a symmetric cipher key.
pub const KEY_LEN: usize = 32;

/// Why a frame could not be sealed or opened.
#[derive(Clone, Copy, Debug, PartialEq, Eq)]
pub enum TranscoderError {
    /// The sealed frame would exceed `LNP_MSG_MAX_LEN`.
    FrameTooLarge,
    /// The nonce counter of this direction is used up; the session must end.
    NonceExhausted,
    /// The frame's tag does not authenticate it; the session must end.
    AuthenticationFailed,
    /// The direction was closed by an earlier authentication failure.
    ConnectionClosed,
}

/// The ChaCha20-Poly1305 sealing of `plaintext` under `key` and `nonce`, with
/// no associated data: ciphertext, then tag.
pub uninterp spec fn aead_sealed(key: Seq<u8>, nonce: Seq<u8>, plaintext: Seq<u8>) -> Seq<u8>;

/// Relies on `chacha20poly1305::ChaCha20Poly1305` through `aead::Aead::encrypt`:
/// the ciphertext followed by the 16-byte tag; it fails only on messages of
/// `u32::MAX` blocks of 64 bytes or more.
#[verifier::external_body]
fn aead_seal(key: &[u8], nonce: &[u8], plaintext: &[u8]) -> (r: Option<Vec<u8>>)
    requires
        key@.len() == KEY_LEN,
        nonce@.len() == 12,
    ensures
        r matches Some(c) ==> c@ == aead_sealed(key@, nonce@, plaintext@) && c@.len()
            == plaintext@.len() + TAG_LEN,
        plaintext@.len() <= u16::MAX ==> r is Some,
{
    let cipher = ChaCha20Poly1305::new(Key::from_slice(key));
    cipher.encrypt(Nonce::from_slice(nonce), plaintext).ok()
}

/// Relies on `chacha20poly1305::ChaCha20Poly1305` through `aead::Aead::decrypt`:
/// a plaintext comes back only when the tag authenticates the ciphertext,
/// that is when sealing that plaintext under the same key and nonce gives the
/// ciphertext back; and a ciphertext that is the sealing of some plaintext
/// (far below `u32::MAX` blocks) always authenticates.
#[verifier::external_body]
fn aead_open(key: &[u8], nonce: &[u8], ciphertext: &[u8]) -> (r: Option<Vec<u8>>)
    requires
        key@.len() == KEY_LEN,
        nonce@.len() == 12,
    ensures
        r matches Some(p) ==> aead_sealed(key@, nonce@, p@) == ciphertext@,
        ciphertext@.len() <= LNP_MSG_MAX_LEN && (exists|q: Seq<u8>| aead_sealed(key@, nonce@, q)
            == ciphertext@) ==> r is Some,
{
    let cipher = ChaCha20Poly1305::new(Key::from_slice(key));
    cipher.decrypt(Nonce::from_slice(nonce), ciphertext).ok()
}

/// The 12-byte nonce of counter value `n`: four zero bytes, then `n`
/// little-endian.
pub open spec fn nonce_bytes(n: u64) -> Seq<u8> {
    seq![
        0u8,
        0u8,
        0u8,
        0u8,
        (n % 0x100) as u8,
        ((n / 0x100) % 0x100) as u8,
        ((n / 0x1_0000) % 0x100) as u8,
        ((n / 0x100_0000) % 0x100) as u8,
        ((n / 0x1_0000_0000) % 0x100) as u8,
        ((n / 0x100_0000_0000) % 0x100) as u8,
        ((n / 0x1_0000_0000_0000) % 0x100) as u8,
        (n / 0x100_0000_0000_0000) as u8,
    ]
}

/// The 12-byte nonce of counter value `n`.
pub fn nonce_of(n: u64) -> (r: Vec<u8>)
    ensures
        r@ == nonce_bytes(n),
{
    let mut r: Vec<u8> = Vec::new();
    r.push(0);
    r.push(0);
    r.push(0);
    r.push(0);
    r.push((n % 0x100) as u8);
    r.push(((n / 0x100) % 0x100) as u8);
    r.push(((n / 0x1_0000) % 0x100) as u8);
    r.push(((n / 0x100_0000) % 0x100) as u8);
    r.push(((n / 0x1_0000_0000) % 0x100) as u8);
    r.push(((n / 0x100_0000_0000) % 0x100) as u8);
    r.push(((n / 0x1_0000_0000_0000) % 0x100) as u8);
    r.push((n / 0x100_0000_0000_0000) as u8);
    assert(r@ =~= nonce_bytes(n));
    r
}

/// Pass-through transcoder for local and trusted channels only: frames go
/// out and come in unchanged.
#[derive(Clone, Copy, Debug, Default, PartialEq, Eq)]
pub struct PlainTranscoder;

impl PlainTranscoder {
    pub fn encrypt(&self, frame: &[u8]) -> (r: Vec<u8>)
        ensures
            r@ == frame@,
    {
        vstd::slice::slice_to_vec(frame)
    }

    pub fn decrypt(&self, frame: &[u8]) -> (r: Vec<u8>)
        ensures
            r@ == frame@,
    {
        vstd::slice::slice_to_vec(frame)
    }
}

/// The sending half of an established Noise session: its key and the nonce
/// of the next frame.
#[derive(Debug)]
pub struct NoiseEncryptor {
    key: Vec<u8>,
    nonce: u64,
}

/// The receiving half of an established Noise session: its key, the nonce of
/// the next frame, and whether an authentication failure closed it.
#[derive(Debug)]
pub struct NoiseDecryptor {
    key: Vec<u8>,
    nonce: u64,
    closed: bool,
}

impl NoiseEncryptor {
    pub closed spec fn key(&self) -> Seq<u8> {
        self.key@
    }

    pub closed spec fn nonce(&self) -> u64 {
        self.nonce
    }

    pub closed spec fn wf(&self) -> bool {
        self.key@.len() == KEY_LEN
    }

    /// A sender keyed with `key`, starting at nonce zero; `None` unless the
    /// key has 32 bytes.
    pub fn new(key: Vec<u8>) -> (r: Option<NoiseEncryptor>)
        ensures
            key@.len() == KEY_LEN <==> r is Some,
            r matches Some(e) ==> e.wf() && e.key() == key@ && e.nonce() == 0,
    {
        if key.len() != KEY_LEN {
            return None;
        }
        Some(NoiseEncryptor { key, nonce: 0 })
    }

    /// The nonce that the next frame will be sealed with.
    pub fn next_nonce(&self) -> (r: u64)
        ensures
            r == self.nonce(),
    {
        self.nonce
    }

    /// Seals one frame with the current nonce and moves the nonce on by one.
    /// A frame that would not fit `LNP_MSG_MAX_LEN` once sealed is refused
    /// rather than split; a used-up nonce counter is refused for good.
    pub fn encrypt(&mut self, frame: &[u8]) -> (r: Result<Vec<u8>, TranscoderError>)
        requires
            old(self).wf(),
        ensures
            final(self).wf(),
            final(self).key() == old(self).key(),
            frame@.len() + TAG_LEN > LNP_MSG_MAX_LEN ==> r == Err::<Vec<u8>, TranscoderError>(
                TranscoderError::FrameTooLarge,
            ),
            frame@.len() + TAG_LEN <= LNP_MSG_MAX_LEN && old(self).nonce() == u64::MAX ==> r == Err::<
                Vec<u8>,
                TranscoderError,
            >(TranscoderError::NonceExhausted),
            r is Err ==> final(self).nonce() == old(self).nonce(),
            frame@.len() + TAG_LEN <= LNP_MSG_MAX_LEN && old(self).nonce() < u64::MAX ==> r is Ok,
            r matches Ok(c) ==> c@ == aead_sealed(old(self).key(), nonce_bytes(old(self).nonce()), frame@)
                && c@.len() == frame@.len() + TAG_LEN && final(self).nonce() == old(self).nonce() + 1,
    {
        if frame.len() > LNP_MSG_MAX_LEN - TAG_LEN {
            return Err(TranscoderError::FrameTooLarge);
        }
        if self.nonce == u64::MAX {
            return Err(TranscoderError::NonceExhausted);
        }
        let nonce = nonce_of(self.nonce);
        match aead_seal(self.key.as_slice(), nonce.as_slice(), frame) {
            Some(c) => {
                self.nonce = self.nonce + 1;
                Ok(c)
            },
            None => Err(TranscoderError::FrameTooLarge),
        }
    }
}

impl NoiseDecryptor {
    pub closed spec fn key(&self) -> Seq<u8> {
        self.key@
    }

    pub closed spec fn nonce(&self) -> u64 {
        self.nonce
    }

    /// Whether an authentication failure has closed this direction.
    pub closed spec fn shut(&self) -> bool {
        self.closed
    }

    pub closed spec fn wf(&self) -> bool {
        self.key@.len() == KEY_LEN
    }

    /// A receiver keyed with `key`, open, starting at nonce zero; `None`
    /// unless the key has 32 bytes.
    pub fn new(key: Vec<u8>) -> (r: Option<NoiseDecryptor>)
        ensures
            key@.len() == KEY_LEN <==> r is Some,
            r matches Some(d) ==> d.wf() && d.key() == key@ && d.nonce() == 0 && !d.shut(),
    {
        if key.len() != KEY_LEN {
            return None;
        }
        Some(NoiseDecryptor { key, nonce: 0, closed: false })
    }

    /// The nonce that the next frame must have been sealed with.
    pub fn next_nonce(&self) -> (r: u64)
        ensures
            r == self.nonce(),
    {
        self.nonce
    }

    /// Whether an authentication failure has closed this direction.
    pub fn is_closed(&self) -> (r: bool)
        ensures
            r == self.shut(),
    {
        self.closed
    }

    /// Opens one frame sealed with the current nonce and moves the nonce on
    /// by one. A frame that does not authenticate closes this direction:
    /// it and every later frame are refused.
    pub fn decrypt(&mut self, frame: &[u8]) -> (r: Result<Vec<u8>, TranscoderError>)
        requires
            old(self).wf(),
        ensures
            final(self).wf(),
            final(self).key() == old(self).key(),
            old(self).shut() ==> r == Err::<Vec<u8>, TranscoderError>(
                TranscoderError::ConnectionClosed,
            ) && final(self).shut(),
            !old(self).shut() && old(self).nonce() == u64::MAX ==> r == Err::<
                Vec<u8>,
                TranscoderError,
            >(TranscoderError::NonceExhausted),
            r is Err ==> final(self).nonce() == old(self).nonce(),
            r == Err::<Vec<u8>, TranscoderError>(TranscoderError::AuthenticationFailed)
                ==> final(self).shut(),
            r is Ok ==> !old(self).shut() && !final(self).shut() && old(self).nonce() < u64::MAX
                && final(self).nonce() == old(self).nonce() + 1,
            r matches Ok(p) ==> aead_sealed(old(self).key(), nonce_bytes(old(self).nonce()), p@)
                == frame@,
            r matches Err(e) ==> (e == TranscoderError::ConnectionClosed && old(self).shut()) || (e
                == TranscoderError::NonceExhausted && old(self).nonce() == u64::MAX) || (e
                == TranscoderError::AuthenticationFailed && !old(self).shut()),
            !old(self).shut() ==> (final(self).shut() <==> r == Err::<Vec<u8>, TranscoderError>(
                TranscoderError::AuthenticationFailed,
            )),
            !old(self).shut() && old(self).nonce() < u64::MAX && frame@.len() <= LNP_MSG_MAX_LEN && (
            exists|q: Seq<u8>| aead_sealed(old(self).key(), nonce_bytes(old(self).nonce()), q)
                == frame@) ==> r is Ok,
    {
        if self.closed {
            return Err(TranscoderError::ConnectionClosed);
        }
        if self.nonce == u64::MAX {
            return Err(TranscoderError::NonceExhausted);
        }
        let nonce = nonce_of(self.nonce);
        match aead_open(self.key.as_slice(), nonce.as_slice(), frame) {
            Some(p) => {
                self.nonce = self.nonce + 1;
                Ok(p)
            },
            None => {
                self.closed = true;
                Err(TranscoderError::AuthenticationFailed)
            },
        }
    }
}

/// The two directions of an established Noise session.
#[derive(Debug)]
pub struct NoiseTranscoder {
    pub encryptor: NoiseEncryptor,
    pub decryptor: NoiseDecryptor,
}

impl NoiseTranscoder {
    /// Splits the transcoder into its sending and receiving halves, each of
    /// which owns its own key and nonce.
    pub fn split(self) -> (r: (NoiseEncryptor, NoiseDecryptor))
        ensures
            r.0 == self.encryptor,
            r.1 == self.decryptor,
    {
        (self.encryptor, self.decryptor)
    }
}

} // verus!
