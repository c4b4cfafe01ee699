//! The encrypted secrets layer: a memory-hard key derivation from a
//! password and salt, and an authenticated cipher over the fixed file
//! layout `salt(32) || nonce(24) || ciphertext`.

use vstd::prelude::*;
use vstd::slice::slice_subrange;
use chacha20poly1305::KeyInit;
use chacha20poly1305::aead::Aead;
use crate::errors::SecretsError;

verus! {

/// Memory cost of the key derivation, in KiB.
pub const ARGON2_MEM_COST_KIB: u32 = 46 * 1024;

/// Number of passes of the key derivation.
pub const ARGON2_TIME_COST: u32 = 1;

/// Degree of parallelism of the key derivation.
pub const ARGON2_LANES: u32 = 1;

/// Length of the derived symmetric key, in bytes.
pub const KEY_LENGTH: u32 = 32;

/// Length of the salt stored in front of the blob.
pub const SALT_LENGTH: usize = 32;

/// Length of the nonce stored after the salt.
pub const NONCE_LENGTH: usize = 24;

/// Combined length of salt and nonce.
pub const HEADER_LENGTH: usize = 56;

/// The digest that the Argon2id key derivation produces for a password,
/// salt and set of cost parameters. It depends on its arguments alone.
pub uninterp spec fn argon2id_hash(
    pw: Seq<u8>,
    salt: Seq<u8>,
    mem_cost: u32,
    time_cost: u32,
    lanes: u32,
    hash_length: u32,
) -> Seq<u8>;

/// Relies on argon2::hash_raw of the rust-argon2 crate, with the Argon2id
/// variant, version 0x13, and empty secret and associated data: the digest
/// is a function of the password, the salt and the cost parameters alone,
/// it is `hash_length` bytes long, and the call succeeds whenever the
/// parameters lie within the crate's documented bounds.
#[verifier::external_body]
fn argon2id_hash_raw(
    pw: &[u8],
    salt: &[u8],
    mem_cost: u32,
    time_cost: u32,
    lanes: u32,
    hash_length: u32,
) -> (r: Option<Vec<u8>>)
    ensures
        r matches Some(k) ==> k@ == argon2id_hash(pw@, salt@, mem_cost, time_cost, lanes,
            hash_length) && k@.len() == hash_length,
        (1 <= lanes <= 0xFFFFFF && 8 * lanes <= mem_cost && 8 <= mem_cost <= 0x200000 && 1
            <= time_cost && 4 <= hash_length && 8 <= salt@.len() <= u32::MAX && pw@.len()
            <= u32::MAX) ==> r is Some,
{
    let config = argon2::Config {
        variant: argon2::Variant::Argon2id,
        mem_cost,
        time_cost,
        lanes,
        hash_length,
        ..argon2::Config::default()
    };
    argon2::hash_raw(pw, salt, &config).ok()
}

/// The ciphertext (with its authentication tag) that the XChaCha20-Poly1305
/// construction produces for a key, nonce and plaintext. It depends on its
/// arguments alone.
pub uninterp spec fn xchacha_seal(key: Seq<u8>, nonce: Seq<u8>, pt: Seq<u8>) -> Seq<u8>;

/// Relies on chacha20poly1305::XChaCha20Poly1305, Aead::encrypt: the
/// ciphertext is a deterministic function of key, nonce and plaintext,
/// and is the plaintext followed by the 16-byte postfix authentication
/// tag, so it is exactly 16 bytes longer than the plaintext.
#[verifier::external_body]
fn xchacha_encrypt(key: &[u8], nonce: &[u8], pt: &[u8]) -> (r: Option<Vec<u8>>)
    requires
        key@.len() == 32,
        nonce@.len() == 24,
    ensures
        r matches Some(ct) ==> ct@ == xchacha_seal(key@, nonce@, pt@),
        r matches Some(ct) ==> ct@.len() == pt@.len() + 16,
{
    let aead = chacha20poly1305::XChaCha20Poly1305::new(chacha20poly1305::Key::from_slice(key));
    aead.encrypt(chacha20poly1305::XNonce::from_slice(nonce), pt).ok()
}

/// Relies on chacha20poly1305::XChaCha20Poly1305, Aead::decrypt: decryption
/// returns the unique plaintext whose sealing under the same key and nonce
/// gives the ciphertext, and fails (authentication failure) when no such
/// plaintext exists.
#[verifier::external_body]
fn xchacha_decrypt(key: &[u8], nonce: &[u8], ct: &[u8]) -> (r: Option<Vec<u8>>)
    requires
        key@.len() == 32,
        nonce@.len() == 24,
    ensures
        r matches Some(p) ==> ct@ == xchacha_seal(key@, nonce@, p@),
        r matches Some(p) ==> forall|pt: Seq<u8>|
            ct@ == xchacha_seal(key@, nonce@, pt) ==> p@ == pt,
        r is None ==> forall|pt: Seq<u8>| ct@ != xchacha_seal(key@, nonce@, pt),
{
    let aead = chacha20poly1305::XChaCha20Poly1305::new(chacha20poly1305::Key::from_slice(key));
    aead.decrypt(chacha20poly1305::XNonce::from_slice(nonce), ct).ok()
}

/// Relies on rand::rngs::OsRng, RngCore::try_fill_bytes: fills a buffer
/// from the operating system's random source. Nothing is assumed about the
/// bytes themselves.
#[verifier::external_body]
fn os_random_bytes(n: usize) -> (r: Option<Vec<u8>>)
    ensures
        r matches Some(b) ==> b@.len() == n,
{
    let mut buf = vec![0u8; n];
    match rand::RngCore::try_fill_bytes(&mut rand::rngs::OsRng, &mut buf) {
        Ok(()) => Some(buf),
        Err(_) => None,
    }
}

/// Relies on zeroize::Zeroize for Vec<u8>: overwrites the buffer's bytes
/// with zeroes (spare capacity included) and clears it.
#[verifier::external_body]
fn wipe(buf: &mut Vec<u8>)
    ensures
        final(buf)@.len() == 0,
{
    zeroize::Zeroize::zeroize(buf);
}

/// The key the secrets layer derives from a password and a salt.
pub open spec fn derived_key(pw: Seq<u8>, salt: Seq<u8>) -> Seq<u8> {
    argon2id_hash(pw, salt, ARGON2_MEM_COST_KIB, ARGON2_TIME_COST, ARGON2_LANES, KEY_LENGTH)
}

/// The blob is the fixed layout `salt(32) || nonce(24) || ciphertext`,
/// where the ciphertext seals `pt` under the key derived from `pw` and the
/// stored salt, with the stored nonce.
pub open spec fn sealed_layout(blob: Seq<u8>, pw: Seq<u8>, pt: Seq<u8>) -> bool {
    blob.len() >= 56 && blob.subrange(56, blob.len() as int) == xchacha_seal(
        derived_key(pw, blob.subrange(0, 32)),
        blob.subrange(32, 56),
        pt,
    )
}

/// Encrypts a plaintext under a password: draws a fresh salt and nonce,
/// derives the key, seals the plaintext, and lays the result out as
/// `salt(32) || nonce(24) || ciphertext`. Key, salt and nonce buffers are
/// wiped before returning. Together with `decrypt`, whose contract returns
/// exactly the plaintext sealed inside such a layout, this states the
/// round-trip law: decrypting the result with the same password gives back
/// the plaintext.
pub fn encrypt(plaintext: &[u8], password: &[u8]) -> (r: Result<Vec<u8>, SecretsError>)
    requires
        password@.len() <= u32::MAX,
    ensures
        r matches Ok(out) ==> sealed_layout(out@, password@, plaintext@),
        r matches Ok(out) ==> out@.len() == plaintext@.len() + 72,
{
    let mut salt = match os_random_bytes(SALT_LENGTH) {
        Some(s) => s,
        None => {
            return Err(SecretsError::Randomness);
        },
    };
    let mut nonce = match os_random_bytes(NONCE_LENGTH) {
        Some(n) => n,
        None => {
            wipe(&mut salt);
            return Err(SecretsError::Randomness);
        },
    };
    let mut key = match argon2id_hash_raw(
        password,
        salt.as_slice(),
        ARGON2_MEM_COST_KIB,
        ARGON2_TIME_COST,
        ARGON2_LANES,
        KEY_LENGTH,
    ) {
        Some(k) => k,
        None => {
            wipe(&mut salt);
            wipe(&mut nonce);
            return Err(SecretsError::KeyDerivation);
        },
    };
    let sealed = xchacha_encrypt(key.as_slice(), nonce.as_slice(), plaintext);
    wipe(&mut key);
    let sealed = match sealed {
        Some(c) => c,
        None => {
            wipe(&mut salt);
            wipe(&mut nonce);
            return Err(SecretsError::Encryption);
        },
    };
    let mut out: Vec<u8> = Vec::new();
    out.extend_from_slice(salt.as_slice());
    out.extend_from_slice(nonce.as_slice());
    out.extend_from_slice(sealed.as_slice());
    proof {
        assert(out@.subrange(0, 32) =~= salt@);
        assert(out@.subrange(32, 56) =~= nonce@);
        assert(out@.subrange(56, out@.len() as int) =~= sealed@);
    }
    wipe(&mut salt);
    wipe(&mut nonce);
    Ok(out)
}

/// Decrypts a blob laid out as `salt(32) || nonce(24) || ciphertext` under
/// a password. For every plaintext whose sealed layout the blob is, exactly
/// that plaintext is returned; a blob that is no such layout (wrong
/// password or corrupted data) is an authentication error, never silently
/// empty or corrupted output. The derived key is wiped before returning.
pub fn decrypt(blob: &[u8], password: &[u8]) -> (r: Result<Vec<u8>, SecretsError>)
    requires
        password@.len() <= u32::MAX,
    ensures
        r matches Ok(pt) ==> sealed_layout(blob@, password@, pt@),
        forall|pt: Seq<u8>|
            sealed_layout(blob@, password@, pt) ==> (r matches Ok(p) && p@ == pt),
        blob@.len() < 56 ==> r == Err::<Vec<u8>, SecretsError>(SecretsError::Truncated),
{
    if blob.len() < HEADER_LENGTH {
        return Err(SecretsError::Truncated);
    }
    let salt = slice_subrange(blob, 0, SALT_LENGTH);
    let nonce = slice_subrange(blob, SALT_LENGTH, HEADER_LENGTH);
    let ct = slice_subrange(blob, HEADER_LENGTH, blob.len());
    let mut key = match argon2id_hash_raw(
        password,
        salt,
        ARGON2_MEM_COST_KIB,
        ARGON2_TIME_COST,
        ARGON2_LANES,
        KEY_LENGTH,
    ) {
        Some(k) => k,
        None => {
            return Err(SecretsError::KeyDerivation);
        },
    };
    let opened = xchacha_decrypt(key.as_slice(), nonce, ct);
    wipe(&mut key);
    match opened {
        Some(pt) => Ok(pt),
        None => Err(SecretsError::Authentication),
    }
}

} // verus!
