//! Pool configuration and its validation.

use crate::error::{ConfigFault, VdrError, VdrResult};
use vstd::prelude::*;

verus! {

/// Version of the node protocol that requests are written for.
#[allow(non_camel_case_types)]
#[derive(Clone, Copy, Debug, PartialEq, Eq, Structural)]
pub enum ProtocolVersion {
    Node1_3,
    Node1_4,
}

impl ProtocolVersion {
    /// The number that stands for this version on the wire.
    pub open spec fn spec_id(self) -> u64 {
        match self {
            ProtocolVersion::Node1_3 => 1,
            ProtocolVersion::Node1_4 => 2,
        }
    }

    #[verifier::when_used_as_spec(spec_id)]
    pub fn to_id(self) -> (id: u64)
        ensures
            id == self.spec_id(),
    {
        match self {
            ProtocolVersion::Node1_3 => 1,
            ProtocolVersion::Node1_4 => 2,
        }
    }

    /// The version with the given number, if there is one.
    pub fn from_id(id: u64) -> (r: VdrResult<ProtocolVersion>)
        ensures
            r matches Ok(v) ==> v.spec_id() == id,
            r matches Err(e) ==> e == VdrError::Config(ConfigFault::UnknownProtocolVersion),
            r is Ok <==> (id == 1 || id == 2),
    {
        if id == 1 {
            Ok(ProtocolVersion::Node1_3)
        } else if id == 2 {
            Ok(ProtocolVersion::Node1_4)
        } else {
            Err(VdrError::Config(ConfigFault::UnknownProtocolVersion))
        }
    }
}

impl Default for ProtocolVersion {
    fn default() -> (v: ProtocolVersion)
        ensures
            v == ProtocolVersion::Node1_4,
    {
        ProtocolVersion::Node1_4
    }
}

/// The error that stands for a configuration's fault, if it has one.
pub open spec fn config_error(fault: Option<ConfigFault>) -> Option<VdrError> {
    match fault {
        Some(f) => Some(VdrError::Config(f)),
        None => None,
    }
}

/// Settings of a pool. Times are in milliseconds.
#[derive(Clone, Copy, Debug, PartialEq, Eq, Structural)]
pub struct PoolConfig {
    pub protocol_version: ProtocolVersion,
    /// How long a node may take to acknowledge a request.
    pub ack_timeout: u64,
    /// How long a request may wait for a quorum: its default deadline.
    pub reply_timeout: u64,
    /// How many requests may share one connection.
    pub conn_request_limit: usize,
    /// How long an idle connection is kept.
    pub conn_active_timeout: u64,
    /// How many nodes a request is sent to when it names none.
    pub request_read_nodes: usize,
    /// How many agreeing replies make a value authoritative.
    pub quorum_threshold: usize,
}

impl PoolConfig {
    /// The first fault of the configuration taken by itself, if it has one.
    pub open spec fn fault(self) -> Option<ConfigFault> {
        if self.ack_timeout == 0 || self.reply_timeout == 0 || self.conn_request_limit == 0
            || self.conn_active_timeout == 0 {
            Some(ConfigFault::ZeroLimit)
        } else if self.quorum_threshold == 0 {
            Some(ConfigFault::ZeroQuorum)
        } else if self.request_read_nodes < self.quorum_threshold {
            Some(ConfigFault::ReadNodesBelowQuorum)
        } else {
            None
        }
    }

    /// The first fault of the configuration for a roster of `roster_len`
    /// nodes, if it has one.
    pub open spec fn fault_for(self, roster_len: nat) -> Option<ConfigFault> {
        if self.fault() is Some {
            self.fault()
        } else if self.quorum_threshold > roster_len {
            Some(ConfigFault::QuorumExceedsRoster)
        } else {
            None
        }
    }

    /// The configuration is consistent in itself.
    pub open spec fn valid(self) -> bool {
        self.fault() is None
    }

    /// The configuration is consistent and fits a roster of `roster_len` nodes:
    /// `1 <= quorum_threshold <= roster_len`.
    pub open spec fn valid_for(self, roster_len: nat) -> bool {
        self.fault_for(roster_len) is None
    }

    /// The configuration a pool has unless it is given another.
    pub open spec fn spec_default() -> PoolConfig {
        PoolConfig {
            protocol_version: ProtocolVersion::Node1_4,
            ack_timeout: 20_000,
            reply_timeout: 60_000,
            conn_request_limit: 5,
            conn_active_timeout: 5_000,
            request_read_nodes: 2,
            quorum_threshold: 2,
        }
    }

    /// Checks the configuration by itself: it fails with the first fault.
    pub fn validate(&self) -> (r: VdrResult<()>)
        ensures
            r is Ok <==> self.valid(),
            r matches Err(e) ==> Some(e) == config_error(self.fault()),
    {
        if self.ack_timeout == 0 || self.reply_timeout == 0 || self.conn_request_limit == 0
            || self.conn_active_timeout == 0 {
            Err(VdrError::Config(ConfigFault::ZeroLimit))
        } else if self.quorum_threshold == 0 {
            Err(VdrError::Config(ConfigFault::ZeroQuorum))
        } else if self.request_read_nodes < self.quorum_threshold {
            Err(VdrError::Config(ConfigFault::ReadNodesBelowQuorum))
        } else {
            Ok(())
        }
    }

    /// Checks the configuration against the size of the roster it is to
    /// serve: it fails with the first fault.
    pub fn validate_for(&self, roster_len: usize) -> (r: VdrResult<()>)
        ensures
            r is Ok <==> self.valid_for(roster_len as nat),
            r matches Err(e) ==> Some(e) == config_error(self.fault_for(roster_len as nat)),
    {
        match self.validate() {
            Err(e) => Err(e),
            Ok(()) => {
                if self.quorum_threshold > roster_len {
                    Err(VdrError::Config(ConfigFault::QuorumExceedsRoster))
                } else {
                    Ok(())
                }
            },
        }
    }

    /// How many nodes a request is sent to when it names none: the configured
    /// breadth, and never more than the roster has.
    pub open spec fn spec_fan_out(self, roster_len: nat) -> nat {
        if self.request_read_nodes <= roster_len {
            self.request_read_nodes as nat
        } else {
            roster_len
        }
    }

    pub fn fan_out(&self, roster_len: usize) -> (n: usize)
        ensures
            n == self.spec_fan_out(roster_len as nat),
    {
        if self.request_read_nodes <= roster_len {
            self.request_read_nodes
        } else {
            roster_len
        }
    }
}

impl Default for PoolConfig {
    fn default() -> (c: PoolConfig)
        ensures
            c == PoolConfig::spec_default(),
    {
        PoolConfig {
            protocol_version: ProtocolVersion::Node1_4,
            ack_timeout: 20_000,
            reply_timeout: 60_000,
            conn_request_limit: 5,
            conn_active_timeout: 5_000,
            request_read_nodes: 2,
            quorum_threshold: 2,
        }
    }
}

/// The default configuration is consistent in itself.
pub proof fn lemma_default_valid()
    ensures
        PoolConfig::spec_default().valid(),
{
}

} // verus!
