//! Error taxonomy of the protocol engine.
use vstd::prelude::*;

verus! {

/// Everything that can go wrong in a protocol exchange.
///
/// `ProtocolViolation` and `ChecksumMismatch` are unrecoverable for the
/// current connection: the stream disconnects itself as a side effect of
/// reporting them. All other errors are local to one operation.
#[derive(Debug)]
pub enum GdbError {
    /// No live connection.
    NotConnected,
    /// The transport failed or the peer closed the connection.
    IoFailure,
    /// A bad acknowledgment byte or a frame that does not start with the
    /// start marker.
    ProtocolViolation,
    /// A frame whose transmitted checksum disagrees with the payload.
    ChecksumMismatch,
    /// A reply payload beginning with the error marker; the raw payload is
    /// surfaced verbatim.
    ServerError(Vec<u8>),
    /// A decoded byte count that disagrees with the expected count.
    LengthMismatch,
    /// A textual reply that is not valid text.
    TextDecodeError,
}

} // verus!
