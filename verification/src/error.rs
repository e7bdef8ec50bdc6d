//! Error taxonomy shared by every component of the pool client.

use vstd::prelude::*;
use vstd::string::*;

verus! {

/// Why a configuration or a set of genesis transactions was rejected.
#[derive(Clone, Copy, Debug, PartialEq, Eq, Structural)]
pub enum ConfigFault {
    /// No genesis transaction was supplied.
    NoTransactions,
    /// The genesis file holds no transaction record.
    EmptyGenesisFile,
    /// The genesis file could not be read.
    UnreadableGenesisFile,
    /// A genesis transaction does not follow the record grammar.
    MalformedTransaction,
    /// A timeout or a limit of the configuration is zero.
    ZeroLimit,
    /// The quorum threshold is zero.
    ZeroQuorum,
    /// Fewer nodes are queried per request than the quorum needs.
    ReadNodesBelowQuorum,
    /// The quorum threshold is larger than the roster.
    QuorumExceedsRoster,
    /// The protocol version number is not known.
    UnknownProtocolVersion,
}

/// Why a request of the caller was rejected before anything was sent.
#[derive(Clone, Copy, Debug, PartialEq, Eq, Structural)]
pub enum RequestFault {
    /// The request carries no payload.
    EmptyRequest,
    /// The request names a node that is not in the roster.
    UnknownNode,
    /// A request with the same identifier is still in flight.
    DuplicateRequest,
}

/// The coarse class of a failure.
#[derive(Clone, Copy, Debug, PartialEq, Eq, Structural)]
pub enum VdrErrorKind {
    Config,
    Connection,
    Timeout,
    NoConsensus,
    Request,
    Cancelled,
}

/// A failure of the pool client.
#[derive(Clone, Copy, Debug, PartialEq, Eq, Structural)]
pub enum VdrError {
    /// Invalid configuration or genesis transactions. Fatal at start-up.
    Config(ConfigFault),
    /// The transport to one node failed.
    Connection,
    /// The deadline passed before a quorum was reached.
    Timeout,
    /// Every queried node answered or failed and no value reached the quorum.
    NoConsensus,
    /// The caller's request is malformed.
    Request(RequestFault),
    /// The runner was stopped while the command was outstanding.
    Cancelled,
}

pub type VdrResult<T> = Result<T, VdrError>;

impl VdrError {
    /// The class of this failure.
    pub open spec fn spec_kind(self) -> VdrErrorKind {
        match self {
            VdrError::Config(_) => VdrErrorKind::Config,
            VdrError::Connection => VdrErrorKind::Connection,
            VdrError::Timeout => VdrErrorKind::Timeout,
            VdrError::NoConsensus => VdrErrorKind::NoConsensus,
            VdrError::Request(_) => VdrErrorKind::Request,
            VdrError::Cancelled => VdrErrorKind::Cancelled,
        }
    }

    /// The text shown to an operator for this failure.
    pub open spec fn spec_message(self) -> Seq<char> {
        match self {
            VdrError::Config(ConfigFault::NoTransactions) => "No genesis transactions"@,
            VdrError::Config(ConfigFault::EmptyGenesisFile) => "Empty genesis transaction file"@,
            VdrError::Config(ConfigFault::UnreadableGenesisFile) =>
                "Genesis transaction file cannot be read"@,
            VdrError::Config(ConfigFault::MalformedTransaction) => "Malformed genesis transaction"@,
            VdrError::Config(ConfigFault::ZeroLimit) => "Timeouts and limits must be positive"@,
            VdrError::Config(ConfigFault::ZeroQuorum) => "Quorum threshold must be positive"@,
            VdrError::Config(ConfigFault::ReadNodesBelowQuorum) =>
                "Fewer nodes are read than the quorum needs"@,
            VdrError::Config(ConfigFault::QuorumExceedsRoster) =>
                "Quorum threshold exceeds the roster size"@,
            VdrError::Config(ConfigFault::UnknownProtocolVersion) => "Unknown protocol version"@,
            VdrError::Connection => "Connection to the node failed"@,
            VdrError::Timeout => "Request timed out"@,
            VdrError::NoConsensus => "No consensus among the nodes"@,
            VdrError::Request(RequestFault::EmptyRequest) => "Empty request"@,
            VdrError::Request(RequestFault::UnknownNode) => "Unknown target node"@,
            VdrError::Request(RequestFault::DuplicateRequest) =>
                "Request identifier already in flight"@,
            VdrError::Cancelled => "Request cancelled"@,
        }
    }

    #[verifier::when_used_as_spec(spec_kind)]
    pub fn kind(self) -> (k: VdrErrorKind)
        ensures
            k == self.spec_kind(),
    {
        match self {
            VdrError::Config(_) => VdrErrorKind::Config,
            VdrError::Connection => VdrErrorKind::Connection,
            VdrError::Timeout => VdrErrorKind::Timeout,
            VdrError::NoConsensus => VdrErrorKind::NoConsensus,
            VdrError::Request(_) => VdrErrorKind::Request,
            VdrError::Cancelled => VdrErrorKind::Cancelled,
        }
    }

    /// The operator-facing text of this failure.
    pub fn message(self) -> (text: String)
        ensures
            text@ == self.spec_message(),
    {
        let text: &str = match self {
            VdrError::Config(ConfigFault::NoTransactions) => "No genesis transactions",
            VdrError::Config(ConfigFault::EmptyGenesisFile) => "Empty genesis transaction file",
            VdrError::Config(ConfigFault::UnreadableGenesisFile) =>
                "Genesis transaction file cannot be read",
            VdrError::Config(ConfigFault::MalformedTransaction) => "Malformed genesis transaction",
            VdrError::Config(ConfigFault::ZeroLimit) => "Timeouts and limits must be positive",
            VdrError::Config(ConfigFault::ZeroQuorum) => "Quorum threshold must be positive",
            VdrError::Config(ConfigFault::ReadNodesBelowQuorum) =>
                "Fewer nodes are read than the quorum needs",
            VdrError::Config(ConfigFault::QuorumExceedsRoster) =>
                "Quorum threshold exceeds the roster size",
            VdrError::Config(ConfigFault::UnknownProtocolVersion) => "Unknown protocol version",
            VdrError::Connection => "Connection to the node failed",
            VdrError::Timeout => "Request timed out",
            VdrError::NoConsensus => "No consensus among the nodes",
            VdrError::Request(RequestFault::EmptyRequest) => "Empty request",
            VdrError::Request(RequestFault::UnknownNode) => "Unknown target node",
            VdrError::Request(RequestFault::DuplicateRequest) =>
                "Request identifier already in flight",
            VdrError::Cancelled => "Request cancelled",
        };
        text.to_owned()
    }
}

} // verus!
