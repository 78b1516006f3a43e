use vstd::prelude::*;

verus! {

/// The kinds of failure the transport core reports to its callers.
#[derive(Debug, Clone, Copy, PartialEq, Eq, Structural)]
pub enum ErrorCode {
    /// A received message was already seen, or acknowledges a stale counter.
    Duplicate,
    /// No exchange matches a received message, and none may be created for it.
    NoExchange,
    /// The session has no free exchange slot.
    NoSpaceExchanges,
    /// The session table is full.
    NoSpaceSessions,
    /// No session has the requested id.
    NoSession,
    /// An argument or a received value is not acceptable.
    Invalid,
    /// A buffer is too small for the data.
    NoSpace,
    /// A message was retransmitted the maximum number of times.
    TxTimeout,
    /// A received structure is malformed.
    InvalidData,
    /// A cryptographic operation failed.
    Crypto,
}

/// The error type of the crate.
pub type Error = ErrorCode;

} // verus!
