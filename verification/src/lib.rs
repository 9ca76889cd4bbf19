//! Offline-first, decentralized infrastructure-remediation orchestrator.
//!
//! The core of the library is the action-graph execution engine and the peer
//! mesh coordination layer: a dependency-ordered action graph with verified
//! acyclicity and status-transition discipline, an execution engine that
//! dispatches ready nodes and handles retries and skip propagation, and a
//! peer table with last-writer-wins snapshot merging for gossip.

pub mod agents;
pub mod config;
pub mod engine;
pub mod errors;
pub mod graph;
pub mod mesh;
pub mod peers;
pub mod registry;
