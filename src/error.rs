use vstd::prelude::*;

verus! {

/// Every way in which decoding, encryption or a session step can fail.
#[derive(Debug, Clone, PartialEq, Eq)]
pub enum ProtocolError {
    /// The input ended before the value was complete.
    UnexpectedEnd,
    /// A variable-length integer ran over five groups.
    MalformedVarInt,
    /// A string was not UTF-8, or a length prefix was negative.
    InvalidEncoding,
    /// No packet with this id is known in the current state; the bytes of
    /// the frame that follow the id are kept for diagnosis.
    UnknownPacketId { id: i32, data: Vec<u8> },
    /// Frames cannot be decoded in this connection state.
    UnsupportedState,
    /// A chunk slice would run past the decompressed data, or the data did
    /// not decompress.
    TruncatedChunkData,
    /// A key had the wrong length, a public key was malformed, or an
    /// encryption failed.
    CryptoFailure,
    /// The stream cipher was enabled twice.
    AlreadyEncrypted,
    /// The connection's transport is gone.
    ConnectionClosed,
}

} // verus!
