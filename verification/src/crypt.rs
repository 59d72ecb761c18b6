//! Sealing and opening the persisted blob.
//!
//! The store is persisted as one file whose layout is a 16-byte salt, a
//! 12-byte nonce, and the authenticated ciphertext of the serialized
//! records. The key is derived from the master password and the salt by
//! a slow password-based derivation. This module frames and checks the
//! bytes; reading and writing the file, and serializing the records,
//! happen outside.

use vstd::prelude::*;
use aes_gcm::aead::Aead;
use aes_gcm::KeyInit;
use ring::rand::SecureRandom;

verus! {

/// The salt length, in bytes.
pub const SALT_LEN: usize = 16;

/// The nonce length, in bytes.
pub const NONCE_LEN: usize = 12;

/// The key-derivation iteration count.
pub const KDF_ITERS: u32 = 100000;

/// The largest message the cipher seals: the AES-GCM plaintext limit.
pub const SEAL_MAX_BYTES: u64 = 0x1000000000;

/// The derived key: a function of the password, the salt and the
/// iteration count alone.
pub uninterp spec fn kdf_of(pass: Seq<char>, salt: Seq<u8>, iters: u32) -> Seq<u8>;

/// The authenticated ciphertext of a message under a key and nonce.
pub uninterp spec fn aead_seal_of(key: Seq<u8>, nonce: Seq<u8>, msg: Seq<u8>) -> Seq<u8>;

/// The decryption of a ciphertext under a key and nonce, if it
/// authenticates.
pub uninterp spec fn aead_open_of(key: Seq<u8>, nonce: Seq<u8>, ct: Seq<u8>) -> Option<Seq<u8>>;

/// Relies on ring::pbkdf2::derive with HMAC-SHA256: fills the output from
/// the password, salt and iteration count alone; the caller picks the
/// output length.
#[verifier::external_body]
fn derive_key(pass: &str, salt: &[u8], iters: u32) -> (r: Vec<u8>)
    requires
        iters >= 1,
    ensures
        r@ == kdf_of(pass@, salt@, iters),
        r@.len() == 32,
{
    let mut key = vec![0u8; 32];
    ring::pbkdf2::derive(
        ring::pbkdf2::PBKDF2_HMAC_SHA256,
        std::num::NonZeroU32::new(iters).unwrap(),
        salt,
        pass.as_bytes(),
        &mut key,
    );
    key
}

/// Relies on aes_gcm::Aes256Gcm::encrypt: the ciphertext is a function of
/// key, nonce and message alone, decrypting it under the same key and
/// nonce authenticates and returns the message, and encryption fails only
/// when the message exceeds the cipher's plaintext limit.
#[verifier::external_body]
fn aead_seal(key: &[u8], nonce: &[u8], msg: &[u8]) -> (r: Option<Vec<u8>>)
    requires
        key@.len() == 32,
        nonce@.len() == 12,
    ensures
        match r {
            Some(ct) => ct@ == aead_seal_of(key@, nonce@, msg@) && aead_open_of(key@, nonce@, ct@)
                == Some(msg@),
            None => msg@.len() > SEAL_MAX_BYTES,
        },
{
    match aes_gcm::Aes256Gcm::new_from_slice(key) {
        Ok(cipher) => match cipher.encrypt(aes_gcm::Nonce::from_slice(nonce), msg) {
            Ok(ct) => Some(ct),
            Err(_) => None,
        },
        Err(_) => None,
    }
}

/// Relies on aes_gcm::Aes256Gcm::decrypt: the outcome is a function of
/// key, nonce and ciphertext alone; a ciphertext that fails to
/// authenticate yields nothing.
#[verifier::external_body]
fn aead_open(key: &[u8], nonce: &[u8], ct: &[u8]) -> (r: Option<Vec<u8>>)
    requires
        key@.len() == 32,
        nonce@.len() == 12,
    ensures
        match r {
            Some(pt) => aead_open_of(key@, nonce@, ct@) == Some(pt@),
            None => aead_open_of(key@, nonce@, ct@) is None,
        },
{
    match aes_gcm::Aes256Gcm::new_from_slice(key) {
        Ok(cipher) => match cipher.decrypt(aes_gcm::Nonce::from_slice(nonce), ct) {
            Ok(pt) => Some(pt),
            Err(_) => None,
        },
        Err(_) => None,
    }
}

/// Relies on ring::rand::SystemRandom::fill: fresh random salt bytes;
/// only the length is promised, and an unavailable randomness source is
/// reported rather than escalated.
#[verifier::external_body]
fn fresh_salt() -> (r: Option<Vec<u8>>)
    ensures
        r matches Some(v) ==> v@.len() == SALT_LEN,
{
    let mut salt = vec![0u8; 16];
    match ring::rand::SystemRandom::new().fill(&mut salt) {
        Ok(()) => Some(salt),
        Err(_) => None,
    }
}

/// Relies on ring::rand::SystemRandom::fill: fresh random nonce bytes;
/// only the length is promised, and an unavailable randomness source is
/// reported rather than escalated.
#[verifier::external_body]
fn fresh_nonce() -> (r: Option<Vec<u8>>)
    ensures
        r matches Some(v) ==> v@.len() == NONCE_LEN,
{
    let mut nonce = vec![0u8; 12];
    match ring::rand::SystemRandom::new().fill(&mut nonce) {
        Ok(()) => Some(nonce),
        Err(_) => None,
    }
}

/// What a well-formed persisted file holds: the salt, then the nonce,
/// then the ciphertext.
pub open spec fn blob_wire(salt: Seq<u8>, nonce: Seq<u8>, ct: Seq<u8>) -> Seq<u8> {
    salt + nonce + ct
}

/// What opening a persisted blob under a password yields: nothing for a
/// blob too short to hold the header, else whatever the ciphertext
/// authenticates to under the derived key.
pub open spec fn open_wire(pass: Seq<char>, blob: Seq<u8>) -> Option<Seq<u8>> {
    if blob.len() < SALT_LEN + NONCE_LEN {
        None
    } else {
        aead_open_of(
            kdf_of(pass, blob.subrange(0, SALT_LEN as int), KDF_ITERS),
            blob.subrange(SALT_LEN as int, (SALT_LEN + NONCE_LEN) as int),
            blob.subrange((SALT_LEN + NONCE_LEN) as int, blob.len() as int),
        )
    }
}

/// Copies a byte range out of a slice.
fn copy_range(bytes: &[u8], from: usize, to: usize) -> (r: Vec<u8>)
    requires
        from <= to <= bytes@.len(),
    ensures
        r@ == bytes@.subrange(from as int, to as int),
{
    let mut out: Vec<u8> = Vec::new();
    let mut i: usize = from;
    while i < to
        invariant
            from <= i <= to <= bytes@.len(),
            out@ =~= bytes@.subrange(from as int, i as int),
        decreases to - i,
    {
        out.push(bytes[i]);
        assert(out@ =~= bytes@.subrange(from as int, i + 1));
        i += 1;
    }
    assert(out@ =~= bytes@.subrange(from as int, to as int));
    out
}

/// Appends a whole byte vector.
fn push_all(out: &mut Vec<u8>, bytes: &Vec<u8>)
    ensures
        final(out)@ == old(out)@ + bytes@,
{
    let ghost start = out@;
    let n = bytes.len();
    let mut i: usize = 0;
    while i < n
        invariant
            i <= n,
            n == bytes@.len(),
            out@ =~= start + bytes@.subrange(0, i as int),
        decreases n - i,
    {
        out.push(bytes[i]);
        assert(out@ =~= start + bytes@.subrange(0, i + 1));
        i += 1;
    }
    assert(out@ =~= start + bytes@);
}

/// Splits a persisted blob into salt, nonce and ciphertext; refuses a
/// blob too short to hold the header.
pub fn unframe(blob: &[u8]) -> (r: Option<(Vec<u8>, Vec<u8>, Vec<u8>)>)
    ensures
        match r {
            Some(p) => {
                &&& blob@.len() >= SALT_LEN + NONCE_LEN
                &&& p.0@ == blob@.subrange(0, SALT_LEN as int)
                &&& p.1@ == blob@.subrange(SALT_LEN as int, (SALT_LEN + NONCE_LEN) as int)
                &&& p.2@ == blob@.subrange((SALT_LEN + NONCE_LEN) as int, blob@.len() as int)
            },
            None => blob@.len() < SALT_LEN + NONCE_LEN,
        },
{
    let n = bytes_len(blob);
    if n < SALT_LEN + NONCE_LEN {
        return None;
    }
    let salt = copy_range(blob, 0, SALT_LEN);
    let nonce = copy_range(blob, SALT_LEN, SALT_LEN + NONCE_LEN);
    let ct = copy_range(blob, SALT_LEN + NONCE_LEN, n);
    Some((salt, nonce, ct))
}

/// The length of a byte slice.
fn bytes_len(bytes: &[u8]) -> (r: usize)
    ensures
        r == bytes@.len(),
{
    bytes.len()
}

/// Opens a persisted blob under a password: checks the frame, derives
/// the key, and authenticates the ciphertext. Exactly the blobs that
/// [`open_wire`] accepts open, to exactly that plaintext.
pub fn open_blob(pass: &str, blob: &[u8]) -> (r: Option<Vec<u8>>)
    ensures
        match r {
            Some(pt) => open_wire(pass@, blob@) == Some(pt@),
            None => open_wire(pass@, blob@) is None,
        },
{
    let parts = match unframe(blob) {
        Some(p) => p,
        None => {
            return None;
        },
    };
    let key = derive_key(pass, parts.0.as_slice(), KDF_ITERS);
    aead_open(key.as_slice(), parts.1.as_slice(), parts.2.as_slice())
}

/// Seals a plaintext under a password, salt and nonce into a framed
/// blob. A sealed blob opens back to the very plaintext under the same
/// password, and sealing succeeds for every plaintext within the
/// cipher's limit.
pub fn seal_blob(pass: &str, salt: &Vec<u8>, nonce: &Vec<u8>, plaintext: &Vec<u8>) -> (r: Option<
    Vec<u8>,
>)
    requires
        salt@.len() == SALT_LEN,
        nonce@.len() == NONCE_LEN,
    ensures
        match r {
            Some(b) => {
                &&& b@ == blob_wire(
                    salt@,
                    nonce@,
                    aead_seal_of(kdf_of(pass@, salt@, KDF_ITERS), nonce@, plaintext@),
                )
                &&& open_wire(pass@, b@) == Some(plaintext@)
            },
            None => plaintext@.len() > SEAL_MAX_BYTES,
        },
{
    let key = derive_key(pass, salt.as_slice(), KDF_ITERS);
    let ct = match aead_seal(key.as_slice(), nonce.as_slice(), plaintext.as_slice()) {
        Some(ct) => ct,
        None => {
            return None;
        },
    };
    let mut out: Vec<u8> = Vec::new();
    push_all(&mut out, salt);
    push_all(&mut out, nonce);
    push_all(&mut out, &ct);
    proof {
        assert(out@ =~= blob_wire(salt@, nonce@, ct@));
        assert(out@.subrange(0, SALT_LEN as int) =~= salt@);
        assert(out@.subrange(SALT_LEN as int, (SALT_LEN + NONCE_LEN) as int) =~= nonce@);
        assert(out@.subrange((SALT_LEN + NONCE_LEN) as int, out@.len() as int) =~= ct@);
    }
    Some(out)
}

/// Seals a plaintext under a password with a fresh random salt and
/// nonce: the layout of a brand-new store file. The blob opens back to
/// the very plaintext under the same password; within the cipher's
/// limit, the only reason nothing is sealed is that the operating
/// system's randomness source yielded no salt or nonce.
pub fn seal_new_blob(pass: &str, plaintext: &Vec<u8>) -> (r: Option<Vec<u8>>)
    ensures
        r matches Some(b) ==> open_wire(pass@, b@) == Some(plaintext@),
{
    let salt = match fresh_salt() {
        Some(s) => s,
        None => {
            return None;
        },
    };
    let nonce = match fresh_nonce() {
        Some(n) => n,
        None => {
            return None;
        },
    };
    seal_blob(pass, &salt, &nonce, plaintext)
}

} // verus!
