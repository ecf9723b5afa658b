//! Keys from the shared code, and sealing with them.

use crate::bytes;
use crate::bytes::{copy_array, hex_of, push_all};
use crate::net::error::NetError;
use crate::primitives;
use crate::primitives::{
    chacha_open, chacha_seal, gcm_siv_open, gcm_siv_seal, hkdf_sha256_of, random_nonce12, sha256_of,
};
use crate::settings::Settings;
use crate::text;
use crate::text::trim;
use vstd::prelude::*;
use vstd::utf8::*;

verus! {

/// The length of an authentication tag.
pub const AEAD_TAG_BYTES: usize = 16;

/// The keys that a handshake agrees on.
pub struct SessionKeyMaterial {
    pub session_id: [u8; 16],
    pub client_to_server_control: [u8; 32],
    pub server_to_client_control: [u8; 32],
    pub client_to_server_raw: [u8; 32],
    pub server_to_client_raw: [u8; 32],
}

/// The bytes of a shared code, without white space around it.
pub open spec fn secret_bytes(code: Seq<char>) -> Seq<u8> {
    encode_utf8(text::trimmed(code))
}

/// The digest input for a purpose: the purpose, a zero byte, the data.
pub open spec fn in_context(context: Seq<char>, data: Seq<u8>) -> Seq<u8> {
    encode_utf8(context) + seq![0u8] + data
}

/// The public identifier of the sharing domain of a code.
pub open spec fn domain_id(code: Seq<char>) -> Seq<char> {
    bytes::hex_text(
        primitives::sha256(
            in_context("lan-clipboard/discovery/v5"@, secret_bytes(code)),
        ).take(16),
    )
}

/// The 144 bytes of key material for a code and a handshake transcript.
pub open spec fn key_bytes(code: Seq<char>, transcript: Seq<u8>) -> Seq<u8> {
    primitives::hkdf_sha256(
        primitives::sha256(in_context("lan-clipboard/session-salt/v5"@, transcript)),
        secret_bytes(code),
        encode_utf8("lan-clipboard/session-keys/v5"@),
    )
}

/// The bytes of `b` from `from` up to `to`.
pub open spec fn part(b: Seq<u8>, from: int, to: int) -> Seq<u8> {
    Seq::new((to - from) as nat, |i: int| b[from + i])
}

/// Key material is laid out in its 144 bytes: the session identifier, then the
/// four keys.
pub open spec fn is_key_layout(m: SessionKeyMaterial, b: Seq<u8>) -> bool {
    &&& m.session_id@ == part(b, 0, 16)
    &&& m.client_to_server_control@ == part(b, 16, 48)
    &&& m.server_to_client_control@ == part(b, 48, 80)
    &&& m.client_to_server_raw@ == part(b, 80, 112)
    &&& m.server_to_client_raw@ == part(b, 112, 144)
}

/// The shared code without white space around it.
pub fn effective_secret(settings: &Settings) -> (secret: String)
    ensures
        secret@ == text::trimmed(settings@.shared_code),
{
    trim(&settings.sync.shared_code)
}

/// Concatenates a purpose, a zero byte and data.
pub fn contextual(context: &str, data: &[u8]) -> (input: Vec<u8>)
    ensures
        input@ == in_context(context@, data@),
{
    let mut input: Vec<u8> = Vec::new();
    push_all(&mut input, context.as_bytes());
    input.push(0);
    push_all(&mut input, data);
    assert(input@ =~= in_context(context@, data@));
    input
}

/// The public identifier of the domain that `settings` belong to.
pub fn discovery_domain_id(settings: &Settings) -> (id: String)
    ensures
        id@ == domain_id(settings@.shared_code),
{
    discovery_domain_id_from_secret(&settings.sync.shared_code)
}

/// The public identifier of the domain of a shared code.
pub fn discovery_domain_id_from_secret(secret: &str) -> (id: String)
    ensures
        id@ == domain_id(secret@),
{
    let secret = trim(secret);
    let input = contextual("lan-clipboard/discovery/v5", secret.as_str().as_bytes());
    let digest = sha256_of(&input);
    let head: [u8; 16] = copy_array(&digest, 0);
    proof {
        assert(digest@.subrange(0, 16) =~= digest@.take(16));
    }
    hex_of(&head)
}

/// Derives the keys of a session. There are none for an empty code.
pub fn derive_session_key_material(secret: &str, transcript: &[u8]) -> (result: Result<
    SessionKeyMaterial,
    NetError,
>)
    ensures
        match result {
            Ok(m) => text::trimmed(secret@).len() > 0 && is_key_layout(
                m,
                key_bytes(secret@, transcript@),
            ),
            Err(e) => text::trimmed(secret@).len() == 0 && e == NetError::EmptySharedCode,
        },
{
    let secret = trim(secret);
    if secret.as_str().is_empty() {
        return Err(NetError::EmptySharedCode);
    }
    let salt_input = contextual("lan-clipboard/session-salt/v5", transcript);
    let salt = sha256_of(&salt_input);
    match hkdf_sha256_of(
        &salt,
        secret.as_str().as_bytes(),
        "lan-clipboard/session-keys/v5".as_bytes(),
    ) {
        None => Err(NetError::SessionKeyDerivation),
        Some(output) => {
            let material = SessionKeyMaterial {
                session_id: copy_array(&output, 0),
                client_to_server_control: copy_array(&output, 16),
                server_to_client_control: copy_array(&output, 48),
                client_to_server_raw: copy_array(&output, 80),
                server_to_client_raw: copy_array(&output, 112),
            };
            proof {
                assert(material.session_id@ =~= part(output@, 0, 16));
                assert(material.client_to_server_control@ =~= part(output@, 16, 48));
                assert(material.server_to_client_control@ =~= part(output@, 48, 80));
                assert(material.client_to_server_raw@ =~= part(output@, 80, 112));
                assert(material.server_to_client_raw@ =~= part(output@, 112, 144));
            }
            Ok(material)
        },
    }
}

/// Seals a control body under a given nonce.
pub fn encrypt_bytes_with(plain: &[u8], aad: &[u8], key: &[u8; 32], nonce: &[u8; 12]) -> (result:
    Result<Vec<u8>, NetError>)
    ensures
        match result {
            Ok(body) => {
                &&& body@ == primitives::gcm_siv_sealed(key@, nonce@, aad@, plain@)
                &&& body@.len() == plain@.len() + AEAD_TAG_BYTES
                &&& primitives::gcm_siv_opened(key@, nonce@, aad@, body@) == Some(plain@)
            },
            Err(e) => {
                &&& e == NetError::EncryptFailed
                &&& plain@.len() > primitives::GCM_SIV_MAX_BYTES || aad@.len()
                    > primitives::GCM_SIV_MAX_BYTES
            },
        },
{
    match gcm_siv_seal(key, nonce, aad, plain) {
        Some(body) => Ok(body),
        None => Err(NetError::EncryptFailed),
    }
}

/// Seals a control body under a random nonce.
pub fn encrypt_bytes(plain: &[u8], aad: &[u8], key: &[u8; 32]) -> (result: Result<
    ([u8; 12], Vec<u8>),
    NetError,
>)
    ensures
        match result {
            Ok((nonce, body)) => {
                &&& body@ == primitives::gcm_siv_sealed(key@, nonce@, aad@, plain@)
                &&& body@.len() == plain@.len() + AEAD_TAG_BYTES
                &&& primitives::gcm_siv_opened(key@, nonce@, aad@, body@) == Some(plain@)
            },
            Err(e) => {
                &&& e == NetError::EncryptFailed
                &&& plain@.len() > primitives::GCM_SIV_MAX_BYTES || aad@.len()
                    > primitives::GCM_SIV_MAX_BYTES
            },
        },
{
    let nonce = random_nonce12();
    match encrypt_bytes_with(plain, aad, key, &nonce) {
        Ok(body) => Ok((nonce, body)),
        Err(e) => Err(e),
    }
}

/// Opens a control body.
pub fn decrypt_bytes(nonce: &[u8; 12], body: &[u8], aad: &[u8], key: &[u8; 32]) -> (result: Result<
    Vec<u8>,
    NetError,
>)
    ensures
        match result {
            Ok(plain) => primitives::gcm_siv_opened(key@, nonce@, aad@, body@) == Some(plain@),
            Err(e) => e == NetError::DecryptFailed && primitives::gcm_siv_opened(
                key@,
                nonce@,
                aad@,
                body@,
            ) is None,
        },
{
    match gcm_siv_open(key, nonce, aad, body) {
        Some(plain) => Ok(plain),
        None => Err(NetError::DecryptFailed),
    }
}

/// Seals a chunk of a stream under a given nonce.
pub fn encrypt_raw_payload_bytes_with(
    plain: &[u8],
    aad: &[u8],
    key: &[u8; 32],
    nonce: &[u8; 12],
) -> (result: Result<Vec<u8>, NetError>)
    ensures
        match result {
            Ok(body) => {
                &&& body@ == primitives::chacha_sealed(key@, nonce@, aad@, plain@)
                &&& body@.len() == plain@.len() + AEAD_TAG_BYTES
                &&& primitives::chacha_opened(key@, nonce@, aad@, body@) == Some(plain@)
            },
            Err(e) => {
                &&& e == NetError::EncryptRawFailed
                &&& plain@.len() / 64 >= primitives::CHACHA_MAX_BLOCKS
            },
        },
{
    match chacha_seal(key, nonce, aad, plain) {
        Some(body) => Ok(body),
        None => Err(NetError::EncryptRawFailed),
    }
}

/// Seals a chunk of a stream under a random nonce.
pub fn encrypt_raw_payload_bytes(plain: &[u8], aad: &[u8], key: &[u8; 32]) -> (result: Result<
    ([u8; 12], Vec<u8>),
    NetError,
>)
    ensures
        match result {
            Ok((nonce, body)) => {
                &&& body@ == primitives::chacha_sealed(key@, nonce@, aad@, plain@)
                &&& body@.len() == plain@.len() + AEAD_TAG_BYTES
                &&& primitives::chacha_opened(key@, nonce@, aad@, body@) == Some(plain@)
            },
            Err(e) => {
                &&& e == NetError::EncryptRawFailed
                &&& plain@.len() / 64 >= primitives::CHACHA_MAX_BLOCKS
            },
        },
{
    let nonce = random_nonce12();
    match encrypt_raw_payload_bytes_with(plain, aad, key, &nonce) {
        Ok(body) => Ok((nonce, body)),
        Err(e) => Err(e),
    }
}

/// Opens a chunk of a stream.
pub fn decrypt_raw_payload_bytes(
    nonce: &[u8; 12],
    body: &[u8],
    aad: &[u8],
    key: &[u8; 32],
) -> (result: Result<Vec<u8>, NetError>)
    ensures
        match result {
            Ok(plain) => primitives::chacha_opened(key@, nonce@, aad@, body@) == Some(plain@),
            Err(e) => e == NetError::DecryptRawFailed && primitives::chacha_opened(
                key@,
                nonce@,
                aad@,
                body@,
            ) is None,
        },
{
    match chacha_open(key, nonce, aad, body) {
        Some(plain) => Ok(plain),
        None => Err(NetError::DecryptRawFailed),
    }
}

/// Two codes that differ in more than the white space around them are different secrets, and
/// white space around a code makes no difference.
pub proof fn different_codes_are_different_secrets(a: Seq<char>, b: Seq<char>)
    ensures
        text::trimmed(a) == text::trimmed(b) <==> secret_bytes(a) == secret_bytes(b),
        secret_bytes(text::trimmed(a)) == secret_bytes(a),
        text::trimmed(a) == text::trimmed(b) ==> domain_id(a) == domain_id(b),
{
    text::trim_is_idempotent(a);
    encode_utf8_decode_utf8(text::trimmed(a));
    encode_utf8_decode_utf8(text::trimmed(b));
}

/// A purpose and data that are put together can be told apart again, if no purpose holds a
/// zero byte: other data, or data for another purpose, is another input.
pub proof fn inputs_are_bound_to_their_purpose(context: Seq<char>, a: Seq<u8>, b: Seq<u8>)
    ensures
        in_context(context, a) == in_context(context, b) <==> a == b,
        in_context(context, a).len() == encode_utf8(context).len() + 1 + a.len(),
        in_context(context, a)[encode_utf8(context).len() as int] == 0,
{
    let n = encode_utf8(context).len() as int + 1;
    assert(in_context(context, a).skip(n) =~= a);
    assert(in_context(context, b).skip(n) =~= b);
}

/// The five parts of the key material follow each other without gaps or overlaps: together
/// they are all of it.
pub proof fn key_material_is_divided(m: SessionKeyMaterial, b: Seq<u8>)
    requires
        b.len() == 144,
        is_key_layout(m, b),
    ensures
        m.session_id@ + m.client_to_server_control@ + m.server_to_client_control@
            + m.client_to_server_raw@ + m.server_to_client_raw@ == b,
{
    assert(m.session_id@ + m.client_to_server_control@ + m.server_to_client_control@
        + m.client_to_server_raw@ + m.server_to_client_raw@ =~= b);
}

/// The domain of a code is the first half of a digest, in hexadecimal: that of a fixed purpose, a
/// zero and the code without the white space around it.
pub proof fn domains_are_derived_from_codes(code: Seq<char>)
    ensures
        domain_id(code) == bytes::hex_text(
            primitives::sha256(
                encode_utf8("lan-clipboard/discovery/v5"@) + seq![0u8] + encode_utf8(
                    text::trimmed(code),
                ),
            ).take(16),
        ),
{
}

/// The keys of a session are derived from the code and from everything that was exchanged before:
/// both go into them as they are.
pub proof fn keys_are_derived_from_code_and_transcript(code: Seq<char>, transcript: Seq<u8>)
    ensures
        key_bytes(code, transcript) == primitives::hkdf_sha256(
            primitives::sha256(
                encode_utf8("lan-clipboard/session-salt/v5"@) + seq![0u8] + transcript,
            ),
            encode_utf8(text::trimmed(code)),
            encode_utf8("lan-clipboard/session-keys/v5"@),
        ),
{
}

} // verus!
