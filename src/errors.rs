use vstd::prelude::*;

verus! {

/// Why the oracle workflow gave up on one request. Connectivity failures are
/// the caller's: they happen outside this library.
#[derive(Debug, Clone, Copy, PartialEq, Eq, Structural)]
pub enum OracleError {
    /// A mechanism code other than the known ones.
    InvalidStatusMechanism(i32),
    /// A status type code other than the known ones.
    InvalidStatusType(i32),
    /// An oracle id that does not fit in a byte.
    InvalidOracleId(u32),
    /// The status source returned no status at all.
    EmptyStatuses,
    /// A status is older than the one before it.
    StatusesNotSortedByTime,
    /// A status clears a bit that the one before it had set.
    StatusBitCleared,
    /// A report must carry at least one status.
    EmptyReport,
    /// Aggregation for a request that this node never stored.
    RequestNotFound,
    /// A stored report for the key was expected and is missing.
    ReportNotFound,
    /// A report for this (request, oracle) key is already stored.
    ReportAlreadyExists,
    /// A request id that is not 32 bytes of hex.
    InvalidRequestId,
}

/// Why a text form of a bitmask was refused.
#[derive(Debug, Clone, Copy, PartialEq, Eq, Structural)]
pub enum WireError {
    /// The text is not standard padded base64.
    InvalidBase64,
    /// The text decodes to a byte string other than eight bytes long.
    InvalidLength,
}

/// Errors of the credential status service.
#[derive(Debug, Clone, PartialEq, Eq)]
pub enum ApiError {
    DatabaseError(String),
    SerializationError(String),
    CommonError(String),
}

} // verus!
