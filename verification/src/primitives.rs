//! The cryptographic primitives that the protocol is built on.

use aes_gcm_siv::aead::Aead;
use aes_gcm_siv::KeyInit;
use hmac::Mac;
use rand::RngCore;
use sha2::Digest;
use vstd::prelude::*;

verus! {

/// The SHA-256 digest of a byte string.
pub uninterp spec fn sha256(data: Seq<u8>) -> Seq<u8>;

/// The HMAC-SHA-256 tag of a message under a key.
pub uninterp spec fn hmac_sha256(key: Seq<u8>, message: Seq<u8>) -> Seq<u8>;

/// The first 144 bytes of HKDF-SHA-256 for a salt, key material and context.
pub uninterp spec fn hkdf_sha256(salt: Seq<u8>, secret: Seq<u8>, info: Seq<u8>) -> Seq<u8>;

/// What AES-256-GCM-SIV makes of a message, with its tag at the end.
pub uninterp spec fn gcm_siv_sealed(
    key: Seq<u8>,
    nonce: Seq<u8>,
    aad: Seq<u8>,
    plain: Seq<u8>,
) -> Seq<u8>;

/// The message in what AES-256-GCM-SIV sealed, if its tag is right.
pub uninterp spec fn gcm_siv_opened(
    key: Seq<u8>,
    nonce: Seq<u8>,
    aad: Seq<u8>,
    body: Seq<u8>,
) -> Option<Seq<u8>>;

/// What ChaCha20-Poly1305 makes of a message, with its tag at the end.
pub uninterp spec fn chacha_sealed(
    key: Seq<u8>,
    nonce: Seq<u8>,
    aad: Seq<u8>,
    plain: Seq<u8>,
) -> Seq<u8>;

/// The message in what ChaCha20-Poly1305 sealed, if its tag is right.
pub uninterp spec fn chacha_opened(
    key: Seq<u8>,
    nonce: Seq<u8>,
    aad: Seq<u8>,
    body: Seq<u8>,
) -> Option<Seq<u8>>;

/// The longest message and the longest associated data of AES-256-GCM-SIV.
pub const GCM_SIV_MAX_BYTES: u64 = 0x10_0000_0000;

/// The number of 64-byte blocks that a ChaCha20-Poly1305 message stays below.
pub const CHACHA_MAX_BLOCKS: u64 = 0xffff_ffff;

/// `sha2::Sha256::digest` computes the SHA-256 digest of its argument.
#[verifier::external_body]
pub(crate) fn sha256_of(data: &[u8]) -> (digest: [u8; 32])
    ensures
        digest@ == sha256(data@),
{
    sha2::Sha256::digest(data).into()
}

/// The SHA-256 digest of bytes that come part by part, while they come.
#[verifier::external_body]
pub struct RunningDigest {
    hasher: sha2::Sha256,
}

/// The bytes that a digest has taken in so far.
pub uninterp spec fn taken_bytes(digest: RunningDigest) -> Seq<u8>;

/// `sha2::Sha256::new` starts a digest that has taken in nothing.
#[verifier::external_body]
pub(crate) fn running_digest() -> (digest: RunningDigest)
    ensures
        taken_bytes(digest) == Seq::<u8>::empty(),
{
    RunningDigest { hasher: sha2::Sha256::new() }
}

/// `sha2::Sha256::update` takes in further bytes behind those that were taken in.
#[verifier::external_body]
pub(crate) fn update_digest(digest: &mut RunningDigest, data: &[u8])
    ensures
        taken_bytes(*final(digest)) == taken_bytes(*old(digest)) + data@,
{
    digest.hasher.update(data);
}

/// `sha2::Sha256::finalize` computes the SHA-256 digest of all that was taken in.
#[verifier::external_body]
pub(crate) fn finish_digest(digest: RunningDigest) -> (value: [u8; 32])
    ensures
        value@ == sha256(taken_bytes(digest)),
{
    digest.hasher.finalize().into()
}

/// `hmac::Hmac<Sha256>`, keyed with any key, computes the tag of a message.
/// A key of any length is taken; the branch for a refused key is never reached.
#[verifier::external_body]
pub(crate) fn hmac_sha256_of(key: &[u8], message: &[u8]) -> (tag: Option<[u8; 32]>)
    ensures
        tag is Some,
        tag->Some_0@ == hmac_sha256(key@, message@),
{
    let mut mac = <hmac::Hmac<sha2::Sha256> as Mac>::new_from_slice(key).ok()?;
    mac.update(message);
    Some(mac.finalize().into_bytes().into())
}

/// `hmac::Mac::verify_slice` accepts a tag exactly if it is the tag of the message.
#[verifier::external_body]
pub(crate) fn hmac_sha256_accepts(key: &[u8], message: &[u8], tag: &[u8]) -> (accepted: bool)
    ensures
        accepted == (tag@ == hmac_sha256(key@, message@)),
{
    match <hmac::Hmac<sha2::Sha256> as Mac>::new_from_slice(key) {
        Ok(mut mac) => {
            mac.update(message);
            mac.verify_slice(tag).is_ok()
        },
        Err(_) => false,
    }
}

/// `hkdf::Hkdf<Sha256>` extracts with a salt and expands to 144 bytes, which is
/// within the 8160 bytes that it can expand to.
#[verifier::external_body]
pub(crate) fn hkdf_sha256_of(salt: &[u8], secret: &[u8], info: &[u8]) -> (output: Option<[u8; 144]>)
    ensures
        output is Some,
        output->Some_0@ == hkdf_sha256(salt@, secret@, info@),
{
    let hkdf = hkdf::Hkdf::<sha2::Sha256>::new(Some(salt), secret);
    let mut output = [0u8; 144];
    hkdf.expand(info, &mut output).ok()?;
    Some(output)
}

/// `aes_gcm_siv::Aes256GcmSiv` seals a message: the tag adds sixteen bytes, and
/// opening the result under the same key, nonce and associated data gives the
/// message back. A message or associated data beyond 2^36 bytes is refused.
#[verifier::external_body]
pub(crate) fn gcm_siv_seal(key: &[u8; 32], nonce: &[u8; 12], aad: &[u8], plain: &[u8]) -> (sealed:
    Option<Vec<u8>>)
    ensures
        match sealed {
            Some(body) => {
                &&& plain@.len() <= GCM_SIV_MAX_BYTES
                &&& aad@.len() <= GCM_SIV_MAX_BYTES
                &&& body@ == gcm_siv_sealed(key@, nonce@, aad@, plain@)
                &&& body@.len() == plain@.len() + 16
                &&& gcm_siv_opened(key@, nonce@, aad@, body@) == Some(plain@)
            },
            None => plain@.len() > GCM_SIV_MAX_BYTES || aad@.len() > GCM_SIV_MAX_BYTES,
        },
{
    let cipher = aes_gcm_siv::Aes256GcmSiv::new_from_slice(key).ok()?;
    let payload = aes_gcm_siv::aead::Payload { msg: plain, aad };
    cipher.encrypt(aes_gcm_siv::Nonce::from_slice(nonce), payload).ok()
}

/// `aes_gcm_siv::Aes256GcmSiv` opens what was sealed, or refuses it.
#[verifier::external_body]
pub(crate) fn gcm_siv_open(key: &[u8; 32], nonce: &[u8; 12], aad: &[u8], body: &[u8]) -> (plain:
    Option<Vec<u8>>)
    ensures
        match plain {
            Some(p) => gcm_siv_opened(key@, nonce@, aad@, body@) == Some(p@),
            None => gcm_siv_opened(key@, nonce@, aad@, body@) is None,
        },
{
    let cipher = aes_gcm_siv::Aes256GcmSiv::new_from_slice(key).ok()?;
    let payload = aes_gcm_siv::aead::Payload { msg: body, aad };
    cipher.decrypt(aes_gcm_siv::Nonce::from_slice(nonce), payload).ok()
}

/// `chacha20poly1305::ChaCha20Poly1305` seals a message: the tag adds sixteen
/// bytes, and opening the result under the same key, nonce and associated data
/// gives the message back. A message of 2^32 - 1 blocks or more is refused.
#[verifier::external_body]
pub(crate) fn chacha_seal(key: &[u8; 32], nonce: &[u8; 12], aad: &[u8], plain: &[u8]) -> (sealed:
    Option<Vec<u8>>)
    ensures
        match sealed {
            Some(body) => {
                &&& plain@.len() / 64 < CHACHA_MAX_BLOCKS
                &&& body@ == chacha_sealed(key@, nonce@, aad@, plain@)
                &&& body@.len() == plain@.len() + 16
                &&& chacha_opened(key@, nonce@, aad@, body@) == Some(plain@)
            },
            None => plain@.len() / 64 >= CHACHA_MAX_BLOCKS,
        },
{
    let cipher = chacha20poly1305::ChaCha20Poly1305::new_from_slice(key).ok()?;
    let payload = aes_gcm_siv::aead::Payload { msg: plain, aad };
    cipher.encrypt(chacha20poly1305::Nonce::from_slice(nonce), payload).ok()
}

/// `chacha20poly1305::ChaCha20Poly1305` opens what was sealed, or refuses it.
#[verifier::external_body]
pub(crate) fn chacha_open(key: &[u8; 32], nonce: &[u8; 12], aad: &[u8], body: &[u8]) -> (plain:
    Option<Vec<u8>>)
    ensures
        match plain {
            Some(p) => chacha_opened(key@, nonce@, aad@, body@) == Some(p@),
            None => chacha_opened(key@, nonce@, aad@, body@) is None,
        },
{
    let cipher = chacha20poly1305::ChaCha20Poly1305::new_from_slice(key).ok()?;
    let payload = aes_gcm_siv::aead::Payload { msg: body, aad };
    cipher.decrypt(chacha20poly1305::Nonce::from_slice(nonce), payload).ok()
}

/// `rand::thread_rng` fills a nonce of twelve bytes; nothing is said of them.
#[verifier::external_body]
pub(crate) fn random_nonce12() -> (nonce: [u8; 12]) {
    let mut nonce = [0u8; 12];
    rand::thread_rng().fill_bytes(&mut nonce);
    nonce
}

/// `rand::thread_rng` fills a nonce of 32 bytes; nothing is said of them.
#[verifier::external_body]
pub(crate) fn random_nonce32() -> (nonce: [u8; 32]) {
    let mut nonce = [0u8; 32];
    rand::thread_rng().fill_bytes(&mut nonce);
    nonce
}

} // verus!
