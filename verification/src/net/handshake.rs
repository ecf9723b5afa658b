//! Mutual authentication of two devices that know one shared code.
//!
//! The server sends a challenge, the client answers with a response, the server
//! acknowledges. Each message is bound to the ones before it by a tag under the
//! shared code, and both sides derive the keys of the session from the first two.

use crate::bytes::{copy_array, copy_range, push_all, same_bytes};
use crate::net::crypto;
use crate::net::crypto::{contextual, derive_session_key_material, SessionKeyMaterial};
use crate::net::error::NetError;
use crate::primitives;
use crate::primitives::{hmac_sha256_accepts, hmac_sha256_of, random_nonce32};
use crate::text;
use crate::text::trim;
use crate::uuid_text;
use crate::uuid_text::{is_nil_uuid, parse_uuid_text};
use vstd::prelude::*;
use vstd::utf8::*;

verus! {

/// The version of the handshake.
pub const HANDSHAKE_VERSION: u8 = 5;

pub const CHALLENGE_KIND: u8 = 1;

pub const RESPONSE_KIND: u8 = 2;

pub const ACK_KIND: u8 = 3;

/// The length of the header of each message.
pub const HEADER_BYTES: usize = 8;

/// The length of a device identifier.
pub const DEVICE_ID_BYTES: usize = 16;

/// The length of a nonce.
pub const NONCE_BYTES: usize = 32;

/// The length of a tag.
pub const MAC_BYTES: usize = 32;

/// The length of a challenge before its tag.
pub const CHALLENGE_PREFIX_BYTES: usize = 56;

/// The length of a response before its tag.
pub const RESPONSE_PREFIX_BYTES: usize = 56;

/// The length of an acknowledgement before its tag.
pub const ACK_PREFIX_BYTES: usize = 24;

/// The length of a challenge.
pub const CHALLENGE_BYTES: usize = 88;

/// The length of a response.
pub const RESPONSE_BYTES: usize = 88;

/// The length of an acknowledgement.
pub const ACK_BYTES: usize = 56;

/// An authenticated connection to a peer. Its keys are never shown.
pub struct Session {
    pub local_device_id: [u8; 16],
    pub peer_device_id: [u8; 16],
    pub session_id: [u8; 16],
    pub send_control_key: [u8; 32],
    pub receive_control_key: [u8; 32],
    pub send_raw_key: [u8; 32],
    pub receive_raw_key: [u8; 32],
    pub next_send_control_sequence: u64,
    pub expected_receive_control_sequence: u64,
}

/// A session as plain values.
#[verifier::ext_equal]
pub struct SessionView {
    pub local_device_id: Seq<u8>,
    pub peer_device_id: Seq<u8>,
    pub session_id: Seq<u8>,
    pub send_control_key: Seq<u8>,
    pub receive_control_key: Seq<u8>,
    pub send_raw_key: Seq<u8>,
    pub receive_raw_key: Seq<u8>,
    pub next_send_control_sequence: u64,
    pub expected_receive_control_sequence: u64,
}

impl View for Session {
    type V = SessionView;

    open spec fn view(&self) -> SessionView {
        SessionView {
            local_device_id: self.local_device_id@,
            peer_device_id: self.peer_device_id@,
            session_id: self.session_id@,
            send_control_key: self.send_control_key@,
            receive_control_key: self.receive_control_key@,
            send_raw_key: self.send_raw_key@,
            receive_raw_key: self.receive_raw_key@,
            next_send_control_sequence: self.next_send_control_sequence,
            expected_receive_control_sequence: self.expected_receive_control_sequence,
        }
    }
}

/// Which side of the connection this device is.
#[derive(Debug, Clone, Copy, PartialEq, Eq, Structural)]
pub enum SessionRole {
    Client,
    Server,
}

/// The header of a message of a kind: a magic word, the version, the kind, two
/// reserved zero bytes.
pub open spec fn header(kind: u8) -> Seq<u8> {
    seq![0x4c, 0x43, 0x42, 0x35, HANDSHAKE_VERSION, kind, 0, 0]
}

/// The tag of a message under a shared code, for a purpose.
pub open spec fn mac(code: Seq<char>, context: Seq<char>, data: Seq<u8>) -> Seq<u8> {
    primitives::hmac_sha256(crypto::secret_bytes(code), crypto::in_context(context, data))
}

/// The tag of a challenge.
pub open spec fn challenge_mac(code: Seq<char>, prefix: Seq<u8>) -> Seq<u8> {
    mac(code, "lan-clipboard/handshake/challenge/v5"@, prefix)
}

/// The tag of a response, bound to the challenge.
pub open spec fn response_mac(code: Seq<char>, challenge: Seq<u8>, prefix: Seq<u8>) -> Seq<u8> {
    mac(code, "lan-clipboard/handshake/response/v5"@, challenge + prefix)
}

/// The tag of an acknowledgement, bound to challenge and response.
pub open spec fn ack_mac(
    code: Seq<char>,
    challenge: Seq<u8>,
    response: Seq<u8>,
    prefix: Seq<u8>,
) -> Seq<u8> {
    mac(code, "lan-clipboard/handshake/ack/v5"@, challenge + response + prefix)
}

/// A shared code with nothing but white space.
pub open spec fn is_empty_code(code: Seq<char>) -> bool {
    text::trimmed(code).len() == 0
}

/// The challenge of a server.
pub open spec fn challenge_message(code: Seq<char>, server: Seq<u8>, nonce: Seq<u8>) -> Seq<u8> {
    let prefix = header(CHALLENGE_KIND) + server + nonce;
    prefix + challenge_mac(code, prefix)
}

/// The response of a client to a challenge.
pub open spec fn response_message(
    code: Seq<char>,
    challenge: Seq<u8>,
    client: Seq<u8>,
    nonce: Seq<u8>,
) -> Seq<u8> {
    let prefix = header(RESPONSE_KIND) + client + nonce;
    prefix + response_mac(code, challenge, prefix)
}

/// The acknowledgement of a server.
pub open spec fn ack_message(
    code: Seq<char>,
    challenge: Seq<u8>,
    response: Seq<u8>,
    session_id: Seq<u8>,
) -> Seq<u8> {
    let prefix = header(ACK_KIND) + session_id;
    prefix + ack_mac(code, challenge, response, prefix)
}

/// What a client makes of a challenge: the server's identifier, or why it refuses.
pub open spec fn checked_challenge(code: Seq<char>, challenge: Seq<u8>) -> Result<
    Seq<u8>,
    NetError,
> {
    if challenge.take(8) != header(CHALLENGE_KIND) {
        Err(NetError::InvalidHandshakeHeader)
    } else if is_empty_code(code) {
        Err(NetError::EmptySharedCode)
    } else if challenge.skip(56) != challenge_mac(code, challenge.take(56)) {
        Err(NetError::HandshakeAuthentication)
    } else if uuid_text::is_nil(challenge.subrange(8, 24)) {
        Err(NetError::NilDeviceId)
    } else {
        Ok(challenge.subrange(8, 24))
    }
}

/// What a server makes of a response: the client's identifier, or why it refuses.
pub open spec fn checked_response(
    code: Seq<char>,
    challenge: Seq<u8>,
    server: Seq<u8>,
    response: Seq<u8>,
) -> Result<Seq<u8>, NetError> {
    if response.take(8) != header(RESPONSE_KIND) {
        Err(NetError::InvalidHandshakeHeader)
    } else if is_empty_code(code) {
        Err(NetError::EmptySharedCode)
    } else if response.skip(56) != response_mac(code, challenge, response.take(56)) {
        Err(NetError::HandshakeAuthentication)
    } else if uuid_text::is_nil(response.subrange(8, 24)) {
        Err(NetError::NilDeviceId)
    } else if response.subrange(8, 24) == server {
        Err(NetError::SameDeviceId)
    } else {
        Ok(response.subrange(8, 24))
    }
}

/// What a client makes of an acknowledgement.
pub open spec fn checked_ack(
    code: Seq<char>,
    challenge: Seq<u8>,
    response: Seq<u8>,
    session_id: Seq<u8>,
    ack: Seq<u8>,
) -> Result<(), NetError> {
    if ack.take(8) != header(ACK_KIND) {
        Err(NetError::InvalidHandshakeHeader)
    } else if ack.subrange(8, 24) != session_id {
        Err(NetError::AckSessionMismatch)
    } else if is_empty_code(code) {
        Err(NetError::EmptySharedCode)
    } else if ack.skip(24) != ack_mac(code, challenge, response, ack.take(24)) {
        Err(NetError::HandshakeAuthentication)
    } else {
        Ok(())
    }
}

/// The session that one side derives from a transcript.
pub open spec fn derived_session(
    code: Seq<char>,
    challenge: Seq<u8>,
    response: Seq<u8>,
    local: Seq<u8>,
    peer: Seq<u8>,
    role: SessionRole,
) -> SessionView {
    let keys = crypto::key_bytes(code, challenge + response);
    let client_control = crypto::part(keys, 16, 48);
    let server_control = crypto::part(keys, 48, 80);
    let client_raw = crypto::part(keys, 80, 112);
    let server_raw = crypto::part(keys, 112, 144);
    let is_client = role == SessionRole::Client;
    SessionView {
        local_device_id: local,
        peer_device_id: peer,
        session_id: crypto::part(keys, 0, 16),
        send_control_key: if is_client { client_control } else { server_control },
        receive_control_key: if is_client { server_control } else { client_control },
        send_raw_key: if is_client { client_raw } else { server_raw },
        receive_raw_key: if is_client { server_raw } else { client_raw },
        next_send_control_sequence: 0,
        expected_receive_control_sequence: 0,
    }
}

impl Session {
    /// Moves on to the next control frame to send. A counter never wraps.
    pub fn advance_send_control_sequence(&mut self) -> (result: Result<(), NetError>)
        ensures
            match result {
                Ok(_) => old(self)@.next_send_control_sequence < u64::MAX && final(self)@ == (
                SessionView {
                    next_send_control_sequence: (old(self)@.next_send_control_sequence + 1) as u64,
                    ..old(self)@
                }),
                Err(e) => old(self)@.next_send_control_sequence == u64::MAX && e
                    == NetError::SendSequenceExhausted && final(self)@ == old(self)@,
            },
    {
        if self.next_send_control_sequence == u64::MAX {
            return Err(NetError::SendSequenceExhausted);
        }
        self.next_send_control_sequence = self.next_send_control_sequence + 1;
        Ok(())
    }

    /// Moves on to the next control frame to receive. A counter never wraps.
    pub fn advance_receive_control_sequence(&mut self) -> (result: Result<(), NetError>)
        ensures
            match result {
                Ok(_) => old(self)@.expected_receive_control_sequence < u64::MAX && final(self)@
                    == (SessionView {
                    expected_receive_control_sequence: (old(
                        self,
                    )@.expected_receive_control_sequence + 1) as u64,
                    ..old(self)@
                }),
                Err(e) => old(self)@.expected_receive_control_sequence == u64::MAX && e
                    == NetError::ReceiveSequenceExhausted && final(self)@ == old(self)@,
            },
    {
        if self.expected_receive_control_sequence == u64::MAX {
            return Err(NetError::ReceiveSequenceExhausted);
        }
        self.expected_receive_control_sequence = self.expected_receive_control_sequence + 1;
        Ok(())
    }

    /// Tells whether a device identifier is that of the authenticated peer.
    pub fn source_matches_peer(&self, source_device_id: &str) -> (matches: bool)
        ensures
            matches == (uuid_text::uuid_bytes(source_device_id@) == Some(self@.peer_device_id)),
    {
        match parse_uuid_text(source_device_id) {
            Some(id) => same_bytes(&id, &self.peer_device_id),
            None => false,
        }
    }
}

/// Overwrites the keys of a session that is no longer used.
pub fn clear_session_keys(session: &mut Session)
    ensures
        final(session)@ == (SessionView {
            send_control_key: Seq::new(32, |i: int| 0u8),
            receive_control_key: Seq::new(32, |i: int| 0u8),
            send_raw_key: Seq::new(32, |i: int| 0u8),
            receive_raw_key: Seq::new(32, |i: int| 0u8),
            ..old(session)@
        }),
{
    session.send_control_key = [0u8; 32];
    session.receive_control_key = [0u8; 32];
    session.send_raw_key = [0u8; 32];
    session.receive_raw_key = [0u8; 32];
}

fn handshake_header(kind: u8) -> (bytes: Vec<u8>)
    ensures
        bytes@ == header(kind),
{
    let mut bytes: Vec<u8> = Vec::new();
    bytes.push(0x4c);
    bytes.push(0x43);
    bytes.push(0x42);
    bytes.push(0x35);
    bytes.push(HANDSHAKE_VERSION);
    bytes.push(kind);
    bytes.push(0);
    bytes.push(0);
    assert(bytes@ =~= header(kind));
    bytes
}

fn validate_header(message: &[u8], kind: u8) -> (result: Result<(), NetError>)
    requires
        message@.len() >= HEADER_BYTES,
    ensures
        match result {
            Ok(_) => message@.take(8) == header(kind),
            Err(e) => e == NetError::InvalidHandshakeHeader && message@.take(8) != header(kind),
        },
{
    let expected = handshake_header(kind);
    let found = copy_range(message, 0, HEADER_BYTES);
    assert(message@.take(8) =~= message@.subrange(0, 8));
    if same_bytes(&found, &expected) {
        Ok(())
    } else {
        Err(NetError::InvalidHandshakeHeader)
    }
}

fn calculate_mac(shared_code: &str, context: &str, data: &[u8]) -> (result: Result<
    [u8; 32],
    NetError,
>)
    ensures
        match result {
            Ok(tag) => !is_empty_code(shared_code@) && tag@ == mac(shared_code@, context@, data@),
            Err(e) => is_empty_code(shared_code@) && e == NetError::EmptySharedCode,
        },
{
    let secret = trim(shared_code);
    if secret.as_str().is_empty() {
        return Err(NetError::EmptySharedCode);
    }
    let message = contextual(context, data);
    match hmac_sha256_of(secret.as_str().as_bytes(), &message) {
        Some(tag) => Ok(tag),
        None => Err(NetError::EmptySharedCode),
    }
}

fn verify_mac(shared_code: &str, context: &str, data: &[u8], expected: &[u8]) -> (result: Result<
    (),
    NetError,
>)
    ensures
        match result {
            Ok(_) => !is_empty_code(shared_code@) && expected@ == mac(
                shared_code@,
                context@,
                data@,
            ),
            Err(e) => if is_empty_code(shared_code@) {
                e == NetError::EmptySharedCode
            } else {
                e == NetError::HandshakeAuthentication && expected@ != mac(
                    shared_code@,
                    context@,
                    data@,
                )
            },
        },
{
    let secret = trim(shared_code);
    if secret.as_str().is_empty() {
        return Err(NetError::EmptySharedCode);
    }
    let message = contextual(context, data);
    if hmac_sha256_accepts(secret.as_str().as_bytes(), &message, expected) {
        Ok(())
    } else {
        Err(NetError::HandshakeAuthentication)
    }
}

/// Builds the challenge of a server.
pub fn build_challenge(
    shared_code: &str,
    server_device_id: &[u8; 16],
    server_nonce: &[u8; 32],
) -> (result: Result<[u8; 88], NetError>)
    ensures
        match result {
            Ok(m) => {
                &&& !uuid_text::is_nil(server_device_id@)
                &&& !is_empty_code(shared_code@)
                &&& m@ == challenge_message(shared_code@, server_device_id@, server_nonce@)
            },
            Err(e) => if uuid_text::is_nil(server_device_id@) {
                e == NetError::NilDeviceId
            } else {
                is_empty_code(shared_code@) && e == NetError::EmptySharedCode
            },
        },
{
    if is_nil_uuid(server_device_id) {
        return Err(NetError::NilDeviceId);
    }
    let mut message = handshake_header(CHALLENGE_KIND);
    push_all(&mut message, server_device_id);
    push_all(&mut message, server_nonce);
    match calculate_mac(shared_code, "lan-clipboard/handshake/challenge/v5", &message) {
        Err(e) => Err(e),
        Ok(tag) => {
            push_all(&mut message, &tag);
            let whole: [u8; 88] = copy_array(&message, 0);
            assert(message@.subrange(0, 88) =~= message@);
            Ok(whole)
        },
    }
}

/// Checks a challenge and gives the server's identifier.
pub fn verify_challenge(shared_code: &str, challenge: &[u8; 88]) -> (result: Result<
    [u8; 16],
    NetError,
>)
    ensures
        match result {
            Ok(id) => checked_challenge(shared_code@, challenge@) == Ok::<_, NetError>(id@),
            Err(e) => checked_challenge(shared_code@, challenge@) == Err::<Seq<u8>, _>(e),
        },
{
    if let Err(e) = validate_header(challenge, CHALLENGE_KIND) {
        return Err(e);
    }
    let prefix = copy_range(challenge, 0, CHALLENGE_PREFIX_BYTES);
    let tag = copy_range(challenge, CHALLENGE_PREFIX_BYTES, CHALLENGE_BYTES);
    assert(prefix@ =~= challenge@.take(56));
    assert(tag@ =~= challenge@.skip(56));
    if let Err(e) = verify_mac(shared_code, "lan-clipboard/handshake/challenge/v5", &prefix, &tag) {
        return Err(e);
    }
    parse_device_id(challenge)
}

/// The device identifier that a message carries behind its header.
fn parse_device_id(message: &[u8]) -> (result: Result<[u8; 16], NetError>)
    requires
        message@.len() >= 24,
    ensures
        match result {
            Ok(id) => id@ == message@.subrange(8, 24) && !uuid_text::is_nil(id@),
            Err(e) => e == NetError::NilDeviceId && uuid_text::is_nil(message@.subrange(8, 24)),
        },
{
    let id: [u8; 16] = copy_array(message, HEADER_BYTES);
    if is_nil_uuid(&id) {
        return Err(NetError::NilDeviceId);
    }
    Ok(id)
}

/// Builds the response of a client to a challenge.
pub fn build_response(
    shared_code: &str,
    challenge: &[u8; 88],
    client_device_id: &[u8; 16],
    client_nonce: &[u8; 32],
) -> (result: Result<[u8; 88], NetError>)
    ensures
        match result {
            Ok(m) => {
                &&& !uuid_text::is_nil(client_device_id@)
                &&& !is_empty_code(shared_code@)
                &&& m@ == response_message(
                    shared_code@,
                    challenge@,
                    client_device_id@,
                    client_nonce@,
                )
            },
            Err(e) => if uuid_text::is_nil(client_device_id@) {
                e == NetError::NilDeviceId
            } else {
                is_empty_code(shared_code@) && e == NetError::EmptySharedCode
            },
        },
{
    if is_nil_uuid(client_device_id) {
        return Err(NetError::NilDeviceId);
    }
    let mut message = handshake_header(RESPONSE_KIND);
    push_all(&mut message, client_device_id);
    push_all(&mut message, client_nonce);
    let mut data = copy_range(challenge, 0, CHALLENGE_BYTES);
    push_all(&mut data, &message);
    assert(data@ =~= challenge@ + message@);
    match calculate_mac(shared_code, "lan-clipboard/handshake/response/v5", &data) {
        Err(e) => Err(e),
        Ok(tag) => {
            push_all(&mut message, &tag);
            let whole: [u8; 88] = copy_array(&message, 0);
            assert(message@.subrange(0, 88) =~= message@);
            Ok(whole)
        },
    }
}

/// Checks a response and gives the client's identifier.
pub fn verify_response(
    shared_code: &str,
    challenge: &[u8; 88],
    server_device_id: &[u8; 16],
    response: &[u8; 88],
) -> (result: Result<[u8; 16], NetError>)
    ensures
        match result {
            Ok(id) => checked_response(shared_code@, challenge@, server_device_id@, response@)
                == Ok::<_, NetError>(id@),
            Err(e) => checked_response(shared_code@, challenge@, server_device_id@, response@)
                == Err::<Seq<u8>, _>(e),
        },
{
    if let Err(e) = validate_header(response, RESPONSE_KIND) {
        return Err(e);
    }
    let prefix = copy_range(response, 0, RESPONSE_PREFIX_BYTES);
    let tag = copy_range(response, RESPONSE_PREFIX_BYTES, RESPONSE_BYTES);
    assert(prefix@ =~= response@.take(56));
    assert(tag@ =~= response@.skip(56));
    let mut data = copy_range(challenge, 0, CHALLENGE_BYTES);
    push_all(&mut data, &prefix);
    assert(data@ =~= challenge@ + prefix@);
    if let Err(e) = verify_mac(shared_code, "lan-clipboard/handshake/response/v5", &data, &tag) {
        return Err(e);
    }
    match parse_device_id(response) {
        Err(e) => Err(e),
        Ok(id) => if same_bytes(&id, server_device_id) {
            Err(NetError::SameDeviceId)
        } else {
            Ok(id)
        },
    }
}

/// Builds the acknowledgement of a server.
pub fn build_ack(
    shared_code: &str,
    challenge: &[u8; 88],
    response: &[u8; 88],
    session_id: &[u8; 16],
) -> (result: Result<[u8; 56], NetError>)
    ensures
        match result {
            Ok(m) => {
                &&& !is_empty_code(shared_code@)
                &&& m@ == ack_message(shared_code@, challenge@, response@, session_id@)
            },
            Err(e) => is_empty_code(shared_code@) && e == NetError::EmptySharedCode,
        },
{
    let mut message = handshake_header(ACK_KIND);
    push_all(&mut message, session_id);
    let mut data = transcript(challenge, response);
    push_all(&mut data, &message);
    assert(data@ =~= challenge@ + response@ + message@);
    match calculate_mac(shared_code, "lan-clipboard/handshake/ack/v5", &data) {
        Err(e) => Err(e),
        Ok(tag) => {
            push_all(&mut message, &tag);
            let whole: [u8; 56] = copy_array(&message, 0);
            assert(message@.subrange(0, 56) =~= message@);
            Ok(whole)
        },
    }
}

/// Checks an acknowledgement.
pub fn verify_ack(
    shared_code: &str,
    challenge: &[u8; 88],
    response: &[u8; 88],
    expected_session_id: &[u8; 16],
    ack: &[u8; 56],
) -> (result: Result<(), NetError>)
    ensures
        result == checked_ack(
            shared_code@,
            challenge@,
            response@,
            expected_session_id@,
            ack@,
        ),
{
    if let Err(e) = validate_header(ack, ACK_KIND) {
        return Err(e);
    }
    let id = copy_range(ack, HEADER_BYTES, ACK_PREFIX_BYTES);
    if !same_bytes(&id, expected_session_id) {
        return Err(NetError::AckSessionMismatch);
    }
    let prefix = copy_range(ack, 0, ACK_PREFIX_BYTES);
    let tag = copy_range(ack, ACK_PREFIX_BYTES, ACK_BYTES);
    assert(prefix@ =~= ack@.take(24));
    assert(tag@ =~= ack@.skip(24));
    let mut data = transcript(challenge, response);
    push_all(&mut data, &prefix);
    assert(data@ =~= challenge@ + response@ + prefix@);
    match verify_mac(shared_code, "lan-clipboard/handshake/ack/v5", &data, &tag) {
        Ok(_) => Ok(()),
        Err(e) => Err(e),
    }
}

/// Both messages that the keys of a session depend on.
fn transcript(challenge: &[u8; 88], response: &[u8; 88]) -> (bytes: Vec<u8>)
    ensures
        bytes@ == challenge@ + response@,
{
    let mut bytes = copy_range(challenge, 0, CHALLENGE_BYTES);
    push_all(&mut bytes, response);
    assert(bytes@ =~= challenge@ + response@);
    bytes
}

/// Derives the session of one side from the transcript.
pub fn derive_session(
    shared_code: &str,
    challenge: &[u8; 88],
    response: &[u8; 88],
    local_device_id: [u8; 16],
    peer_device_id: [u8; 16],
    role: SessionRole,
) -> (result: Result<Session, NetError>)
    ensures
        match result {
            Ok(s) => !is_empty_code(shared_code@) && s@ == derived_session(
                shared_code@,
                challenge@,
                response@,
                local_device_id@,
                peer_device_id@,
                role,
            ),
            Err(e) => is_empty_code(shared_code@) && e == NetError::EmptySharedCode,
        },
{
    let bytes = transcript(challenge, response);
    match derive_session_key_material(shared_code, &bytes) {
        Err(e) => Err(e),
        Ok(material) => Ok(session_from_material(material, local_device_id, peer_device_id, role)),
    }
}

/// Assigns the keys of a session to the directions, by the role of this side.
fn session_from_material(
    material: SessionKeyMaterial,
    local_device_id: [u8; 16],
    peer_device_id: [u8; 16],
    role: SessionRole,
) -> (session: Session)
    ensures
        session@ == (SessionView {
            local_device_id: local_device_id@,
            peer_device_id: peer_device_id@,
            session_id: material.session_id@,
            send_control_key: if role == SessionRole::Client {
                material.client_to_server_control@
            } else {
                material.server_to_client_control@
            },
            receive_control_key: if role == SessionRole::Client {
                material.server_to_client_control@
            } else {
                material.client_to_server_control@
            },
            send_raw_key: if role == SessionRole::Client {
                material.client_to_server_raw@
            } else {
                material.server_to_client_raw@
            },
            receive_raw_key: if role == SessionRole::Client {
                material.server_to_client_raw@
            } else {
                material.client_to_server_raw@
            },
            next_send_control_sequence: 0,
            expected_receive_control_sequence: 0,
        }),
{
    match role {
        SessionRole::Client => Session {
            local_device_id,
            peer_device_id,
            session_id: material.session_id,
            send_control_key: material.client_to_server_control,
            receive_control_key: material.server_to_client_control,
            send_raw_key: material.client_to_server_raw,
            receive_raw_key: material.server_to_client_raw,
            next_send_control_sequence: 0,
            expected_receive_control_sequence: 0,
        },
        SessionRole::Server => Session {
            local_device_id,
            peer_device_id,
            session_id: material.session_id,
            send_control_key: material.server_to_client_control,
            receive_control_key: material.client_to_server_control,
            send_raw_key: material.server_to_client_raw,
            receive_raw_key: material.client_to_server_raw,
            next_send_control_sequence: 0,
            expected_receive_control_sequence: 0,
        },
    }
}

/// What the configured identifier of this device stands for.
pub open spec fn local_device(value: Seq<char>) -> Result<Seq<u8>, NetError> {
    match uuid_text::uuid_bytes(value) {
        None => Err(NetError::InvalidLocalDeviceId),
        Some(id) => if uuid_text::is_nil(id) {
            Err(NetError::NilDeviceId)
        } else {
            Ok(id)
        },
    }
}

/// Reads the configured identifier of this device.
pub fn parse_local_device_id(value: &str) -> (result: Result<[u8; 16], NetError>)
    ensures
        match result {
            Ok(id) => local_device(value@) == Ok::<_, NetError>(id@),
            Err(e) => local_device(value@) == Err::<Seq<u8>, _>(e),
        },
{
    match parse_uuid_text(value) {
        None => Err(NetError::InvalidLocalDeviceId),
        Some(id) => if is_nil_uuid(&id) {
            Err(NetError::NilDeviceId)
        } else {
            Ok(id)
        },
    }
}

/// What a client answers to a challenge: the response and its session, or why
/// it hangs up.
pub open spec fn client_answer(
    code: Seq<char>,
    local: Seq<char>,
    challenge: Seq<u8>,
    nonce: Seq<u8>,
) -> Result<(Seq<u8>, SessionView), NetError> {
    match local_device(local) {
        Err(e) => Err(e),
        Ok(client) => match checked_challenge(code, challenge) {
            Err(e) => Err(e),
            Ok(server) => if client == server {
                Err(NetError::SameDeviceId)
            } else {
                let response = response_message(code, challenge, client, nonce);
                Ok(
                    (
                        response,
                        derived_session(
                            code,
                            challenge,
                            response,
                            client,
                            server,
                            SessionRole::Client,
                        ),
                    ),
                )
            },
        },
    }
}

/// Answers a challenge with a given nonce.
pub fn client_respond_with(
    shared_code: &str,
    local_device_id: &str,
    challenge: &[u8; 88],
    nonce: &[u8; 32],
) -> (result: Result<([u8; 88], Session), NetError>)
    ensures
        match result {
            Ok((m, s)) => client_answer(shared_code@, local_device_id@, challenge@, nonce@)
                == Ok::<_, NetError>((m@, s@)),
            Err(e) => client_answer(shared_code@, local_device_id@, challenge@, nonce@) == Err::<
                (Seq<u8>, SessionView),
                _,
            >(e),
        },
{
    let client = match parse_local_device_id(local_device_id) {
        Ok(id) => id,
        Err(e) => return Err(e),
    };
    let server = match verify_challenge(shared_code, challenge) {
        Ok(id) => id,
        Err(e) => return Err(e),
    };
    if same_bytes(&client, &server) {
        return Err(NetError::SameDeviceId);
    }
    let response = match build_response(shared_code, challenge, &client, nonce) {
        Ok(m) => m,
        Err(e) => return Err(e),
    };
    match derive_session(
        shared_code,
        challenge,
        &response,
        client,
        server,
        SessionRole::Client,
    ) {
        Ok(session) => Ok((response, session)),
        Err(e) => Err(e),
    }
}

/// Answers a challenge with a random nonce.
pub fn client_respond(shared_code: &str, local_device_id: &str, challenge: &[u8; 88]) -> (result:
    Result<([u8; 88], Session), NetError>)
    ensures
        exists|nonce: Seq<u8>|
            nonce.len() == 32 && match result {
                Ok((m, s)) => #[trigger] client_answer(
                    shared_code@,
                    local_device_id@,
                    challenge@,
                    nonce,
                ) == Ok::<_, NetError>((m@, s@)),
                Err(e) => client_answer(shared_code@, local_device_id@, challenge@, nonce)
                    == Err::<(Seq<u8>, SessionView), _>(e),
            },
{
    let nonce = random_nonce32();
    let result = client_respond_with(shared_code, local_device_id, challenge, &nonce);
    assert(nonce@.len() == 32);
    result
}

/// Finishes the client's side: the acknowledgement must fit the session.
/// The keys of a session that is given up are overwritten.
pub fn client_confirm(
    shared_code: &str,
    challenge: &[u8; 88],
    response: &[u8; 88],
    session: Session,
    ack: &[u8; 56],
) -> (result: Result<Session, NetError>)
    ensures
        match result {
            Ok(s) => s@ == session@ && checked_ack(
                shared_code@,
                challenge@,
                response@,
                session@.session_id,
                ack@,
            ) is Ok,
            Err(e) => checked_ack(
                shared_code@,
                challenge@,
                response@,
                session@.session_id,
                ack@,
            ) == Err::<(), _>(e),
        },
{
    let mut session = session;
    match verify_ack(shared_code, challenge, response, &session.session_id, ack) {
        Ok(_) => Ok(session),
        Err(e) => {
            clear_session_keys(&mut session);
            Err(e)
        },
    }
}

/// How a server opens the handshake: its identifier and the challenge, or why
/// it cannot.
pub open spec fn server_opening(code: Seq<char>, local: Seq<char>, nonce: Seq<u8>) -> Result<
    (Seq<u8>, Seq<u8>),
    NetError,
> {
    match local_device(local) {
        Err(e) => Err(e),
        Ok(server) => if is_empty_code(code) {
            Err(NetError::EmptySharedCode)
        } else {
            Ok((server, challenge_message(code, server, nonce)))
        },
    }
}

/// Opens the handshake as a server, with a given nonce.
pub fn server_greet_with(shared_code: &str, local_device_id: &str, nonce: &[u8; 32]) -> (result:
    Result<([u8; 16], [u8; 88]), NetError>)
    ensures
        match result {
            Ok((id, m)) => server_opening(shared_code@, local_device_id@, nonce@) == Ok::<
                _,
                NetError,
            >((id@, m@)),
            Err(e) => server_opening(shared_code@, local_device_id@, nonce@) == Err::<
                (Seq<u8>, Seq<u8>),
                _,
            >(e),
        },
{
    let id = match parse_local_device_id(local_device_id) {
        Ok(id) => id,
        Err(e) => return Err(e),
    };
    match build_challenge(shared_code, &id, nonce) {
        Ok(challenge) => Ok((id, challenge)),
        Err(e) => Err(e),
    }
}

/// Opens the handshake as a server, with a random nonce.
pub fn server_greet(shared_code: &str, local_device_id: &str) -> (result: Result<
    ([u8; 16], [u8; 88]),
    NetError,
>)
    ensures
        exists|nonce: Seq<u8>|
            nonce.len() == 32 && match result {
                Ok((id, m)) => #[trigger] server_opening(shared_code@, local_device_id@, nonce)
                    == Ok::<_, NetError>((id@, m@)),
                Err(e) => server_opening(shared_code@, local_device_id@, nonce) == Err::<
                    (Seq<u8>, Seq<u8>),
                    _,
                >(e),
            },
{
    let nonce = random_nonce32();
    let result = server_greet_with(shared_code, local_device_id, &nonce);
    assert(nonce@.len() == 32);
    result
}

/// What a server answers to a response: the acknowledgement and its session,
/// or why it hangs up.
pub open spec fn server_answer(
    code: Seq<char>,
    server: Seq<u8>,
    challenge: Seq<u8>,
    response: Seq<u8>,
) -> Result<(Seq<u8>, SessionView), NetError> {
    match checked_response(code, challenge, server, response) {
        Err(e) => Err(e),
        Ok(client) => {
            let session = derived_session(
                code,
                challenge,
                response,
                server,
                client,
                SessionRole::Server,
            );
            Ok((ack_message(code, challenge, response, session.session_id), session))
        },
    }
}

/// Finishes the server's side: checks the response and acknowledges it.
pub fn server_accept(
    shared_code: &str,
    local_device_id: [u8; 16],
    challenge: &[u8; 88],
    response: &[u8; 88],
) -> (result: Result<([u8; 56], Session), NetError>)
    ensures
        match result {
            Ok((m, s)) => server_answer(shared_code@, local_device_id@, challenge@, response@)
                == Ok::<_, NetError>((m@, s@)),
            Err(e) => server_answer(shared_code@, local_device_id@, challenge@, response@) == Err::<
                (Seq<u8>, SessionView),
                _,
            >(e),
        },
{
    let client = match verify_response(shared_code, challenge, &local_device_id, response) {
        Ok(id) => id,
        Err(e) => return Err(e),
    };
    let session = match derive_session(
        shared_code,
        challenge,
        response,
        local_device_id,
        client,
        SessionRole::Server,
    ) {
        Ok(session) => session,
        Err(e) => return Err(e),
    };
    match build_ack(shared_code, challenge, response, &session.session_id) {
        Ok(ack) => Ok((ack, session)),
        Err(e) => Err(e),
    }
}

/// Each side's sending keys are the other side's receiving keys, and both
/// name the session alike.
pub open spec fn are_mirrored(client: SessionView, server: SessionView) -> bool {
    &&& client.session_id == server.session_id
    &&& client.send_control_key == server.receive_control_key
    &&& client.receive_control_key == server.send_control_key
    &&& client.send_raw_key == server.receive_raw_key
    &&& client.receive_raw_key == server.send_raw_key
    &&& client.local_device_id == server.peer_device_id
    &&& client.peer_device_id == server.local_device_id
    &&& client.next_send_control_sequence == server.expected_receive_control_sequence
    &&& server.next_send_control_sequence == client.expected_receive_control_sequence
}

proof fn prefix_of_message(kind: u8, id: Seq<u8>, rest: Seq<u8>, tag: Seq<u8>)
    requires
        id.len() == 16,
    ensures
        (header(kind) + id + rest + tag).take(8) == header(kind),
        (header(kind) + id + rest + tag).subrange(8, 24) == id,
        (header(kind) + id + rest + tag).take(24 + rest.len() as int) == header(kind) + id + rest,
        (header(kind) + id + rest + tag).skip(24 + rest.len() as int) == tag,
{
    let m = header(kind) + id + rest + tag;
    assert(m.take(8) =~= header(kind));
    assert(m.subrange(8, 24) =~= id);
    assert(m.take(24 + rest.len() as int) =~= header(kind) + id + rest);
    assert(m.skip(24 + rest.len() as int) =~= tag);
}

/// Two devices with different identifiers and the same shared code, but for
/// white space around it, complete the handshake: each side learns the other's
/// identifier, and their sessions mirror each other.
pub proof fn handshake_completes(
    client_code: Seq<char>,
    server_code: Seq<char>,
    client_text: Seq<char>,
    client: Seq<u8>,
    server: Seq<u8>,
    server_nonce: Seq<u8>,
    client_nonce: Seq<u8>,
)
    requires
        text::trimmed(client_code) == text::trimmed(server_code),
        !is_empty_code(client_code),
        local_device(client_text) == Ok::<_, NetError>(client),
        client.len() == 16,
        server.len() == 16,
        !uuid_text::is_nil(server),
        client != server,
        server_nonce.len() == 32,
        client_nonce.len() == 32,
    ensures
        ({
            let challenge = challenge_message(server_code, server, server_nonce);
            let answer = client_answer(client_code, client_text, challenge, client_nonce);
            &&& answer is Ok
            &&& {
                let reply = server_answer(server_code, server, challenge, answer->Ok_0.0);
                &&& reply is Ok
                &&& checked_ack(
                    client_code,
                    challenge,
                    answer->Ok_0.0,
                    answer->Ok_0.1.session_id,
                    reply->Ok_0.0,
                ) is Ok
                &&& are_mirrored(answer->Ok_0.1, reply->Ok_0.1)
                &&& answer->Ok_0.1.peer_device_id == server
                &&& reply->Ok_0.1.peer_device_id == client
            }
        }),
{
    let challenge = challenge_message(server_code, server, server_nonce);
    let prefix = header(CHALLENGE_KIND) + server + server_nonce;
    prefix_of_message(CHALLENGE_KIND, server, server_nonce, challenge_mac(server_code, prefix));
    let response = response_message(client_code, challenge, client, client_nonce);
    let response_prefix = header(RESPONSE_KIND) + client + client_nonce;
    prefix_of_message(
        RESPONSE_KIND,
        client,
        client_nonce,
        response_mac(client_code, challenge, response_prefix),
    );
    let keys = crypto::key_bytes(client_code, challenge + response);
    let id = crypto::part(keys, 0, 16);
    let ack = ack_message(server_code, challenge, response, id);
    let tag = ack_mac(server_code, challenge, response, header(ACK_KIND) + id);
    assert(header(ACK_KIND) + id + Seq::<u8>::empty() =~= header(ACK_KIND) + id);
    prefix_of_message(ACK_KIND, id, Seq::empty(), tag);
}

/// A challenge begins with `LCB5`, version 5 and its number, 1; then come the server's
/// identifier, the nonce and the tag. A response is laid out alike, under the number 2.
pub proof fn messages_have_their_layout(
    code: Seq<char>,
    challenge: Seq<u8>,
    id: Seq<u8>,
    nonce: Seq<u8>,
    session_id: Seq<u8>,
    response: Seq<u8>,
)
    requires
        id.len() == 16,
        nonce.len() == 32,
        session_id.len() == 16,
    ensures
        ({
            let m = challenge_message(code, id, nonce);
            &&& m.take(8) == seq![76u8, 67, 66, 53, 5, 1, 0, 0]
            &&& m.subrange(8, 24) == id
            &&& m.subrange(24, 56) == nonce
            &&& m.skip(56) == primitives::hmac_sha256(
                crypto::secret_bytes(code),
                crypto::in_context("lan-clipboard/handshake/challenge/v5"@, m.take(56)),
            )
        }),
        ({
            let m = response_message(code, challenge, id, nonce);
            &&& m.take(8) == seq![76u8, 67, 66, 53, 5, 2, 0, 0]
            &&& m.subrange(8, 24) == id
            &&& m.subrange(24, 56) == nonce
            &&& m.skip(56) == primitives::hmac_sha256(
                crypto::secret_bytes(code),
                crypto::in_context("lan-clipboard/handshake/response/v5"@, challenge + m.take(56)),
            )
        }),
        ({
            let m = ack_message(code, challenge, response, session_id);
            &&& m.take(8) == seq![76u8, 67, 66, 53, 5, 3, 0, 0]
            &&& m.subrange(8, 24) == session_id
            &&& m.skip(24) == primitives::hmac_sha256(
                crypto::secret_bytes(code),
                crypto::in_context(
                    "lan-clipboard/handshake/ack/v5"@,
                    challenge + response + m.take(24),
                ),
            )
        }),
{
    let c = challenge_message(code, id, nonce);
    let c_prefix = header(CHALLENGE_KIND) + id + nonce;
    assert(c.take(56) =~= c_prefix);
    assert(c.take(8) =~= header(CHALLENGE_KIND));
    assert(c.subrange(8, 24) =~= id);
    assert(c.subrange(24, 56) =~= nonce);
    assert(c.skip(56) =~= challenge_mac(code, c_prefix));
    let r = response_message(code, challenge, id, nonce);
    let r_prefix = header(RESPONSE_KIND) + id + nonce;
    assert(r.take(56) =~= r_prefix);
    assert(r.take(8) =~= header(RESPONSE_KIND));
    assert(r.subrange(8, 24) =~= id);
    assert(r.subrange(24, 56) =~= nonce);
    assert(r.skip(56) =~= response_mac(code, challenge, r_prefix));
    let a = ack_message(code, challenge, response, session_id);
    let a_prefix = header(ACK_KIND) + session_id;
    assert(a.take(24) =~= a_prefix);
    assert(a.take(8) =~= header(ACK_KIND));
    assert(a.subrange(8, 24) =~= session_id);
    assert(a.skip(24) =~= ack_mac(code, challenge, response, a_prefix));
}

/// A challenge is accepted exactly if it has the right header and its tag is the one that the
/// shared code gives all of it, and comes from a device with an identifier; what it says is
/// then the server's identifier. With another tag, whatever is altered, it is refused.
pub proof fn challenges_are_accepted_by_their_tag(code: Seq<char>, challenge: Seq<u8>)
    requires
        challenge.len() == 88,
        text::trimmed(code).len() > 0,
    ensures
        ({
            let tag = primitives::hmac_sha256(
                encode_utf8(text::trimmed(code)),
                encode_utf8("lan-clipboard/handshake/challenge/v5"@) + seq![0u8] + challenge.take(56),
            );
            let found = checked_challenge(code, challenge);
            &&& found is Ok <==> {
                &&& challenge.take(8) == seq![76u8, 67, 66, 53, 5, 1, 0, 0]
                &&& challenge.skip(56) == tag
                &&& exists|i: int| 8 <= i < 24 && #[trigger] challenge[i] != 0
            }
            &&& found is Ok ==> found->Ok_0 == challenge.subrange(8, 24)
            &&& challenge.take(8) == seq![76u8, 67, 66, 53, 5, 1, 0, 0] && challenge.skip(56) != tag
                ==> found == Err::<Seq<u8>, _>(NetError::HandshakeAuthentication)
        }),
{
    assert(header(CHALLENGE_KIND) == seq![76u8, 67, 66, 53, 5, 1, 0, 0]);
    nil_is_all_zero(challenge);
}

proof fn nil_is_all_zero(m: Seq<u8>)
    requires
        m.len() >= 24,
    ensures
        uuid_text::is_nil(m.subrange(8, 24)) <==> !(exists|i: int|
            8 <= i < 24 && #[trigger] m[i] != 0),
{
    let id = m.subrange(8, 24);
    if !uuid_text::is_nil(id) {
        let k = choose|k: int| 0 <= k < id.len() && id[k] != 0;
        assert(m[8 + k] != 0);
    }
    if exists|i: int| 8 <= i < 24 && #[trigger] m[i] != 0 {
        let i = choose|i: int| 8 <= i < 24 && #[trigger] m[i] != 0;
        assert(id[i - 8] != 0);
    }
}

/// A response is accepted exactly if it has the right header, its tag is the one that the shared
/// code gives the challenge and all of the response, and it comes from another device with an
/// identifier.
pub proof fn responses_are_accepted_by_their_tag(
    code: Seq<char>,
    challenge: Seq<u8>,
    server: Seq<u8>,
    response: Seq<u8>,
)
    requires
        response.len() == 88,
        text::trimmed(code).len() > 0,
    ensures
        ({
            let tag = primitives::hmac_sha256(
                encode_utf8(text::trimmed(code)),
                encode_utf8("lan-clipboard/handshake/response/v5"@) + seq![0u8] + (challenge
                    + response.take(56)),
            );
            let found = checked_response(code, challenge, server, response);
            &&& found is Ok <==> {
                &&& response.take(8) == seq![76u8, 67, 66, 53, 5, 2, 0, 0]
                &&& response.skip(56) == tag
                &&& exists|i: int| 8 <= i < 24 && #[trigger] response[i] != 0
                &&& response.subrange(8, 24) != server
            }
            &&& found is Ok ==> found->Ok_0 == response.subrange(8, 24)
            &&& response.take(8) == seq![76u8, 67, 66, 53, 5, 2, 0, 0] && response.skip(56) != tag
                ==> found == Err::<Seq<u8>, _>(NetError::HandshakeAuthentication)
        }),
{
    assert(header(RESPONSE_KIND) == seq![76u8, 67, 66, 53, 5, 2, 0, 0]);
    nil_is_all_zero(response);
}

/// An acknowledgement is accepted exactly if it has the right header, names the session, and its
/// tag is the one that the shared code gives the whole exchange.
pub proof fn acknowledgements_are_accepted_by_their_tag(
    code: Seq<char>,
    challenge: Seq<u8>,
    response: Seq<u8>,
    session_id: Seq<u8>,
    ack: Seq<u8>,
)
    requires
        ack.len() == 56,
        text::trimmed(code).len() > 0,
    ensures
        checked_ack(code, challenge, response, session_id, ack) is Ok <==> {
            &&& ack.take(8) == seq![76u8, 67, 66, 53, 5, 3, 0, 0]
            &&& ack.subrange(8, 24) == session_id
            &&& ack.skip(24) == primitives::hmac_sha256(
                encode_utf8(text::trimmed(code)),
                encode_utf8("lan-clipboard/handshake/ack/v5"@) + seq![0u8] + (challenge + response
                    + ack.take(24)),
            )
        },
{
    assert(header(ACK_KIND) == seq![76u8, 67, 66, 53, 5, 3, 0, 0]);
}

/// Nothing is answered without a shared code, and no device answers itself.
pub proof fn strangers_get_no_answer(
    code: Seq<char>,
    challenge: Seq<u8>,
    server: Seq<u8>,
    response: Seq<u8>,
    client: Seq<u8>,
    nonce: Seq<u8>,
)
    requires
        client.len() == 16,
        exists|i: int| 0 <= i < 16 && #[trigger] client[i] != 0,
    ensures
        text::trimmed(code).len() == 0 ==> {
            &&& client_answer(code, uuid_text::hyphenated(client), challenge, nonce) is Err
            &&& server_answer(code, server, challenge, response) is Err
            &&& server_opening(code, uuid_text::hyphenated(client), nonce) is Err
        },
        challenge.subrange(8, 24) == client ==> client_answer(
            code,
            uuid_text::hyphenated(client),
            challenge,
            nonce,
        ) is Err,
        response.subrange(8, 24) == server ==> server_answer(code, server, challenge, response) is Err,
{
    uuid_text::hyphenated_is_read_back(client);
}

/// A session sends with one key and receives with another, for frames and for payloads; both
/// counts start at zero; and its parties are the two devices.
pub proof fn sessions_start_at_zero(
    code: Seq<char>,
    challenge: Seq<u8>,
    response: Seq<u8>,
    local: Seq<u8>,
    peer: Seq<u8>,
    role: SessionRole,
)
    ensures
        ({
            let keys = crypto::key_bytes(code, challenge + response);
            let s = derived_session(code, challenge, response, local, peer, role);
            &&& s.local_device_id == local
            &&& s.peer_device_id == peer
            &&& s.next_send_control_sequence == 0
            &&& s.expected_receive_control_sequence == 0
            &&& s.session_id == crypto::part(keys, 0, 16)
            &&& role == SessionRole::Client ==> s.send_control_key == crypto::part(keys, 16, 48)
                && s.receive_control_key == crypto::part(keys, 48, 80) && s.send_raw_key
                == crypto::part(keys, 80, 112) && s.receive_raw_key == crypto::part(keys, 112, 144)
            &&& role == SessionRole::Server ==> s.receive_control_key == crypto::part(keys, 16, 48)
                && s.send_control_key == crypto::part(keys, 48, 80) && s.receive_raw_key
                == crypto::part(keys, 80, 112) && s.send_raw_key == crypto::part(keys, 112, 144)
        }),
{
}

} // verus!
