//! Cryptographic primitives of the artifact container: the password-based
//! key, the machine-derived key, the SHA-256 content digest, and the
//! authenticated envelope `nonce(12) || ciphertext || tag(16)`. The outside
//! calls stand behind trusted wrappers; everything around them is verified.

use vstd::prelude::*;
use vstd::string::StringSliceAdditionalSpecFns;

use crate::text::{ascii_to_string, hex_encode, hex_of};
use aes_gcm::aead::{Aead, KeyInit};
use rand::RngCore;
use sha2::Digest;

verus! {

/// Why a cryptographic operation was refused or failed.
#[derive(Debug, Clone, Copy, PartialEq, Eq, Structural)]
pub enum CryptoError {
    /// The envelope is shorter than the 12-byte nonce prefix.
    InvalidLength,
    /// The cipher refused to encrypt.
    EncryptionFailed,
    /// Authentication failed during decryption.
    DecryptionFailed,
}

impl CryptoError {
    /// A short human-readable description of the error.
    pub fn describe(&self) -> (r: String)
        ensures
            r@.len() > 0,
    {
        let s = match self {
            CryptoError::InvalidLength => String::from_str("Invalid encrypted data length"),
            CryptoError::EncryptionFailed => String::from_str("Encryption failed"),
            CryptoError::DecryptionFailed => String::from_str("Decryption failed"),
        };
        proof {
            reveal_strlit("Invalid encrypted data length");
            reveal_strlit("Encryption failed");
            reveal_strlit("Decryption failed");
        }
        s
    }
}

/// The 32-byte key that PBKDF2-HMAC-SHA256 derives from a password under this
/// suite's fixed salt and iteration count.
pub uninterp spec fn pbkdf2_key(password: Seq<u8>) -> Seq<u8>;

/// The SHA-256 digest of a byte sequence.
pub uninterp spec fn sha256_of(data: Seq<u8>) -> Seq<u8>;

/// The AES-256-GCM ciphertext (message then tag) for a key, nonce and
/// plaintext.
pub uninterp spec fn seal_of(key: Seq<u8>, nonce: Seq<u8>, plaintext: Seq<u8>) -> Seq<u8>;

/// What AES-256-GCM decryption yields for a key, nonce and ciphertext: the
/// plaintext when the tag verifies, nothing otherwise.
pub uninterp spec fn open_of(key: Seq<u8>, nonce: Seq<u8>, ciphertext: Seq<u8>) -> Option<Seq<u8>>;

/// Relies on `pbkdf2::pbkdf2_hmac` with `sha2::Sha256`: a deterministic
/// function of the password once the salt (`exam-recorder-suite-salt-v1`),
/// the iteration count (100 000) and the output length (32) are fixed, as
/// they are in this body.
#[verifier::external_body]
pub fn derive_key_from_password(password: &str) -> (r: Vec<u8>)
    ensures
        r@ == pbkdf2_key(password.spec_bytes()),
        r@.len() == 32,
{
    let salt = b"exam-recorder-suite-salt-v1";
    let mut key = [0u8; 32];
    pbkdf2::pbkdf2_hmac::<sha2::Sha256>(password.as_bytes(), salt, 100000, &mut key);
    key.to_vec()
}

/// Relies on `sha2::Sha256` (`Digest::digest`): a pure function of the input
/// whose output is 32 bytes.
#[verifier::external_body]
pub fn sha256(data: &[u8]) -> (r: Vec<u8>)
    ensures
        r@ == sha256_of(data@),
        r@.len() == 32,
{
    sha2::Sha256::digest(data).to_vec()
}

/// Relies on `rand::thread_rng` and `RngCore::fill_bytes`: fills the 12-byte
/// buffer; nothing is assumed about the values drawn.
#[verifier::external_body]
pub(crate) fn random_nonce() -> (r: Vec<u8>)
    ensures
        r@.len() == 12,
{
    let mut nonce = [0u8; 12];
    rand::thread_rng().fill_bytes(&mut nonce);
    nonce.to_vec()
}

/// Relies on `aes_gcm::Aes256Gcm` (`Aead::encrypt`): encryption is a
/// deterministic function of key, nonce and plaintext; the ciphertext is the
/// message followed by the 16-byte tag; decryption under the same key and
/// nonce recovers the plaintext; and the only refusal is a plaintext beyond
/// GCM's 2^36-byte ceiling.
#[verifier::external_body]
pub(crate) fn aead_seal(key: &[u8], nonce: &[u8], plaintext: &[u8]) -> (r: Result<Vec<u8>, CryptoError>)
    requires
        key@.len() == 32,
        nonce@.len() == 12,
    ensures
        r matches Ok(ct) ==> ct@ == seal_of(key@, nonce@, plaintext@) && ct@.len() == plaintext@.len()
            + 16 && open_of(key@, nonce@, ct@) == Some(plaintext@),
        r is Err ==> plaintext@.len() > 0x1000000000,
{
    let cipher = aes_gcm::Aes256Gcm::new(aes_gcm::Key::<aes_gcm::Aes256Gcm>::from_slice(key));
    match cipher.encrypt(aes_gcm::Nonce::from_slice(nonce), plaintext) {
        Ok(ct) => Ok(ct),
        Err(_) => Err(CryptoError::EncryptionFailed),
    }
}

/// Relies on `aes_gcm::Aes256Gcm` (`Aead::decrypt`): decryption is a
/// deterministic function of key, nonce and ciphertext; it fails whenever the
/// tag does not verify, in particular on inputs shorter than the 16-byte tag.
#[verifier::external_body]
pub(crate) fn aead_open(key: &[u8], nonce: &[u8], ciphertext: &[u8]) -> (r: Result<Vec<u8>, CryptoError>)
    requires
        key@.len() == 32,
        nonce@.len() == 12,
    ensures
        r matches Ok(pt) ==> open_of(key@, nonce@, ciphertext@) == Some(pt@),
        r is Err ==> open_of(key@, nonce@, ciphertext@) is None,
        r is Ok ==> ciphertext@.len() >= 16,
        r matches Err(e) ==> e == CryptoError::DecryptionFailed,
{
    let cipher = aes_gcm::Aes256Gcm::new(aes_gcm::Key::<aes_gcm::Aes256Gcm>::from_slice(key));
    match cipher.decrypt(aes_gcm::Nonce::from_slice(nonce), ciphertext) {
        Ok(pt) => Ok(pt),
        Err(_) => Err(CryptoError::DecryptionFailed),
    }
}

/// What decrypting an envelope under a password yields: the plaintext exactly
/// when the envelope carries a nonce prefix and its body authenticates under
/// the password's key.
pub open spec fn decrypt_spec(encrypted: Seq<u8>, password: Seq<char>) -> Option<Seq<u8>> {
    if encrypted.len() < 12 {
        None
    } else {
        open_of(
            pbkdf2_key(vstd::utf8::encode_utf8(password)),
            encrypted.subrange(0, 12),
            encrypted.subrange(12, encrypted.len() as int),
        )
    }
}

/// Encrypts `data` under the password-derived key with a fresh random nonce.
/// The envelope is 28 bytes longer than the data and decrypts, under the same
/// password, to exactly `data`; encryption is refused only beyond the
/// cipher's 2^36-byte ceiling.
pub fn encrypt_file(data: &[u8], password: &str) -> (r: Result<Vec<u8>, CryptoError>)
    ensures
        r matches Ok(env) ==> env@.len() == data@.len() + 28 && decrypt_spec(env@, password@)
            == Some(data@),
        r is Err ==> data@.len() > 0x1000000000,
{
    let key = derive_key_from_password(password);
    let nonce = random_nonce();
    let ct = match aead_seal(key.as_slice(), nonce.as_slice(), data) {
        Ok(ct) => ct,
        Err(e) => {
            return Err(e);
        },
    };
    let mut env = nonce;
    env.extend_from_slice(ct.as_slice());
    proof {
        assert(env@.subrange(0, 12) =~= env@.subrange(0, 12));
        assert(env@.len() == 12 + ct@.len());
        assert(env@.subrange(0, 12) =~= nonce@);
        assert(env@.subrange(12, env@.len() as int) =~= ct@);
    }
    Ok(env)
}

/// Decrypts an envelope produced by `encrypt_file` under the same password:
/// returns the plaintext exactly when `decrypt_spec` yields one, rejects
/// envelopes shorter than the nonce, and reports an authentication failure
/// otherwise.
pub fn decrypt_file(encrypted: &[u8], password: &str) -> (r: Result<Vec<u8>, CryptoError>)
    ensures
        r matches Ok(pt) ==> decrypt_spec(encrypted@, password@) == Some(pt@),
        r is Err ==> decrypt_spec(encrypted@, password@) is None,
        r is Ok ==> encrypted@.len() >= 28,
        encrypted@.len() < 12 ==> r == Err::<Vec<u8>, CryptoError>(CryptoError::InvalidLength),
        encrypted@.len() >= 12 && r is Err ==> r == Err::<Vec<u8>, CryptoError>(
            CryptoError::DecryptionFailed,
        ),
{
    if encrypted.len() < 12 {
        return Err(CryptoError::InvalidLength);
    }
    let key = derive_key_from_password(password);
    let nonce = vstd::slice::slice_subrange(encrypted, 0, 12);
    let body = vstd::slice::slice_subrange(encrypted, 12, encrypted.len());
    aead_open(key.as_slice(), nonce, body)
}

/// The lowercase-hex SHA-256 digest of `data`, as the artifact's integrity
/// member stores it.
pub fn calculate_file_hash(data: &[u8]) -> (r: String)
    ensures
        vstd::utf8::encode_utf8(r@) == hex_of(sha256_of(data@)),
        r@.len() == 64,
        sha256_of(data@).len() == 32,
{
    let digest = sha256(data);
    let hex = hex_encode(digest.as_slice());
    proof {
        lemma_hex_of_ascii(digest@);
        assert(hex@.len() == 64);
    }
    ascii_to_string(&hex)
}

/// Every byte of a lowercase-hex rendering is printable ASCII, and the
/// rendering is twice as long as its input.
pub proof fn lemma_hex_of_ascii(s: Seq<u8>)
    ensures
        hex_of(s).len() == 2 * s.len(),
        forall|i: int| 0 <= i < hex_of(s).len() ==> 48 <= #[trigger] hex_of(s)[i] < 123,
    decreases s.len(),
{
    if s.len() > 0 {
        lemma_hex_of_ascii(s.drop_first());
    }
}

/// The salt folded into the machine-derived key for the local counter file.
pub open spec fn state_salt() -> Seq<u8> {
    vstd::utf8::encode_utf8("exam-recorder-state-key-v1"@)
}

/// The machine key: SHA-256 over hostname bytes, then username bytes, then
/// the fixed state salt.
pub open spec fn machine_key_of(hostname: Seq<char>, username: Seq<char>) -> Seq<u8> {
    sha256_of(
        vstd::utf8::encode_utf8(hostname) + vstd::utf8::encode_utf8(username) + state_salt(),
    )
}

/// Derives the machine key for this host and user; the result is exactly
/// `machine_key_of` and is 32 bytes.
pub fn derive_state_key(hostname: &str, username: &str) -> (r: Vec<u8>)
    ensures
        r@ == machine_key_of(hostname@, username@),
        r@.len() == 32,
{
    let mut input: Vec<u8> = Vec::new();
    input.extend_from_slice(hostname.as_bytes());
    input.extend_from_slice(username.as_bytes());
    input.extend_from_slice("exam-recorder-state-key-v1".as_bytes());
    proof {
        assert(input@ =~= vstd::utf8::encode_utf8(hostname@) + vstd::utf8::encode_utf8(username@)
            + state_salt());
    }
    sha256(input.as_slice())
}

/// What decrypting a counter-file envelope under the machine key yields.
pub open spec fn decrypt_state_spec(encrypted: Seq<u8>, hostname: Seq<char>, username: Seq<char>) -> Option<
    Seq<u8>,
> {
    if encrypted.len() < 12 {
        None
    } else {
        open_of(
            machine_key_of(hostname, username),
            encrypted.subrange(0, 12),
            encrypted.subrange(12, encrypted.len() as int),
        )
    }
}

/// Encrypts counter-file plaintext under the machine key with a fresh random
/// nonce; the envelope decrypts, under the same machine key, to exactly
/// `data`; encryption is refused only beyond the cipher's 2^36-byte ceiling.
pub fn encrypt_state(data: &[u8], hostname: &str, username: &str) -> (r: Result<
    Vec<u8>,
    CryptoError,
>)
    ensures
        r matches Ok(env) ==> env@.len() == data@.len() + 28 && decrypt_state_spec(
            env@,
            hostname@,
            username@,
        ) == Some(data@),
        r is Err ==> data@.len() > 0x1000000000,
{
    let key = derive_state_key(hostname, username);
    let nonce = random_nonce();
    let ct = match aead_seal(key.as_slice(), nonce.as_slice(), data) {
        Ok(ct) => ct,
        Err(e) => {
            return Err(e);
        },
    };
    let mut env = nonce;
    env.extend_from_slice(ct.as_slice());
    proof {
        assert(env@.subrange(0, 12) =~= nonce@);
        assert(env@.subrange(12, env@.len() as int) =~= ct@);
    }
    Ok(env)
}

/// Decrypts a counter-file envelope under the machine key: the plaintext
/// exactly when `decrypt_state_spec` yields one.
pub fn decrypt_state(encrypted: &[u8], hostname: &str, username: &str) -> (r: Result<
    Vec<u8>,
    CryptoError,
>)
    ensures
        r matches Ok(pt) ==> decrypt_state_spec(encrypted@, hostname@, username@) == Some(pt@),
        r is Err ==> decrypt_state_spec(encrypted@, hostname@, username@) is None,
        r is Ok ==> encrypted@.len() >= 28,
        encrypted@.len() < 12 ==> r == Err::<Vec<u8>, CryptoError>(CryptoError::InvalidLength),
{
    if encrypted.len() < 12 {
        return Err(CryptoError::InvalidLength);
    }
    let key = derive_state_key(hostname, username);
    let nonce = vstd::slice::slice_subrange(encrypted, 0, 12);
    let body = vstd::slice::slice_subrange(encrypted, 12, encrypted.len());
    aead_open(key.as_slice(), nonce, body)
}

} // verus!
