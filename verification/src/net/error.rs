//! Why a peer, a frame or a stream is refused.

use vstd::prelude::*;

verus! {

/// Why a peer, a frame or a stream is refused.
#[derive(Debug, Clone, Copy, PartialEq, Eq, Structural)]
pub enum NetError {
    EmptySharedCode,
    SessionKeyDerivation,
    EncryptFailed,
    DecryptFailed,
    EncryptRawFailed,
    DecryptRawFailed,
    HandshakeAuthentication,
    InvalidHandshakeHeader,
    InvalidLocalDeviceId,
    NilDeviceId,
    SameDeviceId,
    AckSessionMismatch,
    SendSequenceExhausted,
    ReceiveSequenceExhausted,
    InvalidRawPayloadSize,
    InvalidRawTransferId,
    InvalidExpectedTransferId,
    InvalidItemId,
    InvalidSourceDeviceId,
    InvalidStreamEndItemId,
    RawFrameTooShort,
    UnsupportedRawVersion,
    UnencryptedRaw,
    RawSessionMismatch,
    RawTransferMismatch,
    RawChunkMismatch,
    InvalidDecodedRawSize,
    InvalidControlFrameSize,
    UnsupportedWireVersion,
    UnencryptedControl,
    ControlSessionMismatch,
    ControlSequenceMismatch,
    InvalidDecodedControlSize,
    MalformedControlBody,
    ControlBodyTooLarge,
    ControlFrameTooLarge,
    InvalidFrameLength,
    FrameTooLarge,
    SourceMismatch,
    ImageNeedsStream,
    LocalPayload,
    PayloadSize,
    FileStreamSize,
    FileChunkCount,
    ImageStreamSize,
    ImageDecodeLimit,
    ImageChunkCount,
    StreamEndEmpty,
    InvalidContentHash,
    TimestampSkew,
    TopLevelCount,
    UnsafeTopLevelName,
    DuplicateTopLevelName,
}

impl NetError {
    /// What to write to the log.
    pub open spec fn spec_message(self) -> Seq<char> {
        match self {
            NetError::EmptySharedCode => "shared code is empty"@,
            NetError::SessionKeyDerivation => "session key derivation failed"@,
            NetError::EncryptFailed => "encrypt failed"@,
            NetError::DecryptFailed => "decrypt failed (shared code mismatch?)"@,
            NetError::EncryptRawFailed => "encrypt raw payload failed"@,
            NetError::DecryptRawFailed => "decrypt raw payload failed (shared code mismatch?)"@,
            NetError::HandshakeAuthentication => "handshake authentication failed"@,
            NetError::InvalidHandshakeHeader => "invalid handshake header"@,
            NetError::InvalidLocalDeviceId => "invalid local device id"@,
            NetError::NilDeviceId => "handshake device id must not be nil"@,
            NetError::SameDeviceId => "handshake peer uses the local device id"@,
            NetError::AckSessionMismatch => "handshake acknowledgement session mismatch"@,
            NetError::SendSequenceExhausted => "control send sequence exhausted"@,
            NetError::ReceiveSequenceExhausted => "control receive sequence exhausted"@,
            NetError::InvalidRawPayloadSize => "invalid raw payload size"@,
            NetError::InvalidRawTransferId => "invalid raw transfer id"@,
            NetError::InvalidExpectedTransferId => "invalid expected raw transfer id"@,
            NetError::InvalidItemId => "invalid item id"@,
            NetError::InvalidSourceDeviceId => "invalid source device id"@,
            NetError::InvalidStreamEndItemId => "invalid file stream end item id"@,
            NetError::RawFrameTooShort => "raw payload frame too short"@,
            NetError::UnsupportedRawVersion => "unsupported raw payload version"@,
            NetError::UnencryptedRaw => "unencrypted raw payload is not allowed"@,
            NetError::RawSessionMismatch => "raw payload session mismatch"@,
            NetError::RawTransferMismatch => "raw payload transfer id mismatch"@,
            NetError::RawChunkMismatch => "raw payload chunk sequence mismatch"@,
            NetError::InvalidDecodedRawSize => "invalid decoded raw payload size"@,
            NetError::InvalidControlFrameSize => "invalid control frame size"@,
            NetError::UnsupportedWireVersion => "unsupported wire version"@,
            NetError::UnencryptedControl => "unencrypted control frame is not allowed"@,
            NetError::ControlSessionMismatch => "control frame session mismatch"@,
            NetError::ControlSequenceMismatch => "control frame sequence mismatch"@,
            NetError::InvalidDecodedControlSize => "invalid decoded control body size"@,
            NetError::MalformedControlBody => "malformed control body"@,
            NetError::ControlBodyTooLarge => "control body exceeds configured limit"@,
            NetError::ControlFrameTooLarge => "control frame exceeds hard limit"@,
            NetError::InvalidFrameLength => "invalid wire frame length"@,
            NetError::FrameTooLarge => "wire frame exceeds hard limit"@,
            NetError::SourceMismatch => "payload source device does not match authenticated peer"@,
            NetError::ImageNeedsStream => "image payload must use the raw stream transport"@,
            NetError::LocalPayload => {
                "machine-local file payload cannot be serialized to the wire"@
            },
            NetError::PayloadSize => "portable payload size mismatch or limit exceeded"@,
            NetError::FileStreamSize => "file stream size outside configured limit"@,
            NetError::FileChunkCount => "invalid file stream chunk count"@,
            NetError::ImageStreamSize => "image stream size outside configured limit"@,
            NetError::ImageDecodeLimit => "image stream exceeds decode safety limit"@,
            NetError::ImageChunkCount => "invalid image stream chunk count"@,
            NetError::StreamEndEmpty => "file stream end has no chunks"@,
            NetError::InvalidContentHash => "invalid content hash"@,
            NetError::TimestampSkew => "clipboard timestamp outside allowed clock skew"@,
            NetError::TopLevelCount => "invalid top-level entry count"@,
            NetError::UnsafeTopLevelName => "unsafe top-level entry name"@,
            NetError::DuplicateTopLevelName => "duplicate top-level entry name"@,
        }
    }

    /// What to write to the log.
    pub fn message(&self) -> (text: &'static str)
        ensures
            text@ == self.spec_message(),
    {
        match self {
            NetError::EmptySharedCode => "shared code is empty",
            NetError::SessionKeyDerivation => "session key derivation failed",
            NetError::EncryptFailed => "encrypt failed",
            NetError::DecryptFailed => "decrypt failed (shared code mismatch?)",
            NetError::EncryptRawFailed => "encrypt raw payload failed",
            NetError::DecryptRawFailed => "decrypt raw payload failed (shared code mismatch?)",
            NetError::HandshakeAuthentication => "handshake authentication failed",
            NetError::InvalidHandshakeHeader => "invalid handshake header",
            NetError::InvalidLocalDeviceId => "invalid local device id",
            NetError::NilDeviceId => "handshake device id must not be nil",
            NetError::SameDeviceId => "handshake peer uses the local device id",
            NetError::AckSessionMismatch => "handshake acknowledgement session mismatch",
            NetError::SendSequenceExhausted => "control send sequence exhausted",
            NetError::ReceiveSequenceExhausted => "control receive sequence exhausted",
            NetError::InvalidRawPayloadSize => "invalid raw payload size",
            NetError::InvalidRawTransferId => "invalid raw transfer id",
            NetError::InvalidExpectedTransferId => "invalid expected raw transfer id",
            NetError::InvalidItemId => "invalid item id",
            NetError::InvalidSourceDeviceId => "invalid source device id",
            NetError::InvalidStreamEndItemId => "invalid file stream end item id",
            NetError::RawFrameTooShort => "raw payload frame too short",
            NetError::UnsupportedRawVersion => "unsupported raw payload version",
            NetError::UnencryptedRaw => "unencrypted raw payload is not allowed",
            NetError::RawSessionMismatch => "raw payload session mismatch",
            NetError::RawTransferMismatch => "raw payload transfer id mismatch",
            NetError::RawChunkMismatch => "raw payload chunk sequence mismatch",
            NetError::InvalidDecodedRawSize => "invalid decoded raw payload size",
            NetError::InvalidControlFrameSize => "invalid control frame size",
            NetError::UnsupportedWireVersion => "unsupported wire version",
            NetError::UnencryptedControl => "unencrypted control frame is not allowed",
            NetError::ControlSessionMismatch => "control frame session mismatch",
            NetError::ControlSequenceMismatch => "control frame sequence mismatch",
            NetError::InvalidDecodedControlSize => "invalid decoded control body size",
            NetError::MalformedControlBody => "malformed control body",
            NetError::ControlBodyTooLarge => "control body exceeds configured limit",
            NetError::ControlFrameTooLarge => "control frame exceeds hard limit",
            NetError::InvalidFrameLength => "invalid wire frame length",
            NetError::FrameTooLarge => "wire frame exceeds hard limit",
            NetError::SourceMismatch => "payload source device does not match authenticated peer",
            NetError::ImageNeedsStream => "image payload must use the raw stream transport",
            NetError::LocalPayload => "machine-local file payload cannot be serialized to the wire",
            NetError::PayloadSize => "portable payload size mismatch or limit exceeded",
            NetError::FileStreamSize => "file stream size outside configured limit",
            NetError::FileChunkCount => "invalid file stream chunk count",
            NetError::ImageStreamSize => "image stream size outside configured limit",
            NetError::ImageDecodeLimit => "image stream exceeds decode safety limit",
            NetError::ImageChunkCount => "invalid image stream chunk count",
            NetError::StreamEndEmpty => "file stream end has no chunks",
            NetError::InvalidContentHash => "invalid content hash",
            NetError::TimestampSkew => "clipboard timestamp outside allowed clock skew",
            NetError::TopLevelCount => "invalid top-level entry count",
            NetError::UnsafeTopLevelName => "unsafe top-level entry name",
            NetError::DuplicateTopLevelName => "duplicate top-level entry name",
        }
    }
}

} // verus!
