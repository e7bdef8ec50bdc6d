//! What a transport hands to the quorum engine.
//!
//! The transport itself (connections, sockets, the wire protocol) is not
//! here. It sends bytes to a node and waits for the node's reply until the
//! deadline; this module turns what came of that into an event for the
//! engine.

use crate::consensus::{EventView, NodeEvent, NodeFault};
use vstd::prelude::*;

verus! {

/// The raw reply of one node to one request.
#[derive(Clone, Debug, PartialEq, Eq)]
pub struct NodeReply {
    /// The node that replied, by its place in the roster.
    pub node: usize,
    /// The bytes it sent.
    pub payload: Vec<u8>,
    /// When the reply arrived, in milliseconds on the caller's clock.
    pub arrived_at: u64,
    /// How long the node took, in milliseconds.
    pub latency: u64,
}

/// Why waiting for a node's reply ended without one.
#[derive(Clone, Copy, Debug, PartialEq, Eq, Structural)]
pub enum TransportError {
    /// The deadline passed.
    Timeout,
    /// The connection to the node failed.
    Connection,
}

/// The event for a reply that arrived: the decoded value with the reply's
/// latency, or a failure of the node where the reply could not be decoded.
pub fn reply_event(reply: &NodeReply, decoded: Option<String>) -> (event: NodeEvent)
    ensures
        event@ == (match decoded {
            Some(value) => EventView::Reply {
                node: reply.node,
                value: value@,
                latency: reply.latency,
            },
            None => EventView::Failure { node: reply.node, fault: NodeFault::Undecodable },
        }),
{
    match decoded {
        Some(value) => NodeEvent::Reply { node: reply.node, value, latency: reply.latency },
        None => NodeEvent::Failure { node: reply.node, fault: NodeFault::Undecodable },
    }
}

/// The event for a wait that ended without a reply: the deadline, or a
/// failure of the node, which does not fail the request.
pub fn error_event(node: usize, error: TransportError) -> (event: NodeEvent)
    ensures
        event@ == (match error {
            TransportError::Timeout => EventView::Deadline,
            TransportError::Connection => EventView::Failure {
                node,
                fault: NodeFault::Connection,
            },
        }),
{
    match error {
        TransportError::Timeout => NodeEvent::Deadline,
        TransportError::Connection => NodeEvent::Failure { node, fault: NodeFault::Connection },
    }
}

} // verus!
