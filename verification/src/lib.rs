//! Client-side pool for a permissioned ledger.
//!
//! The client trusts no single validator node. Its trust anchor is the
//! genesis log: a list of transactions, one for each node, anchored in a
//! hash tree ([`genesis`], [`merkle`]). Every request is sent to several
//! nodes, and a reply counts only once enough of them agree ([`consensus`]).
//!
//! A [`factory::PoolFactory`] validates the genesis transactions and the
//! configuration ([`config`]) and makes pools ([`pool`]) and runners
//! ([`runner`]). [`proxy`] holds the decisions of an HTTP front end, and
//! [`transport`] what a transport hands to the engine.
//!
//! Nothing here does I/O. A request in flight is a state machine: the caller
//! sends what it is told to send and hands back what happened.

pub mod config;
pub mod consensus;
pub mod error;
pub mod factory;
pub mod genesis;
pub mod hash;
pub mod merkle;
pub mod pool;
pub mod proxy;
pub mod runner;
pub mod text;
pub mod transport;
