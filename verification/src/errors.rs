//! Error taxonomy for plan submission, execution, and mesh coordination.

use vstd::prelude::*;

verus! {

/// Every failure the orchestrator core can report.
///
/// Graph-structural errors (`CycleDetected`, `MalformedPlan`) are fatal at
/// plan-submission time. `CapabilityFailure` is recovered locally via the
/// retry policy when `retryable` is true. Mesh errors never propagate into
/// plan execution.
#[derive(Debug, Clone, PartialEq, Eq)]
pub enum MeshError {
    /// The dependency relation of a submitted node set contains a cycle.
    CycleDetected,
    /// A status change was requested that the transition discipline forbids.
    InvalidTransition,
    /// No capability is registered under the requested name.
    UnknownCapability,
    /// A capability was registered twice under one name.
    DuplicateCapability,
    /// A capability invocation failed; retried only when `retryable`.
    CapabilityFailure { retryable: bool, reason: String },
    /// A submitted plan is structurally invalid: duplicate node id, missing
    /// action name, or a dependency on a node that does not exist.
    MalformedPlan,
    /// The authenticated handshake with a discovered peer failed.
    MeshHandshakeFailed,
    /// A connected peer stopped responding within the liveness timeout.
    PeerTimeout,
}

impl MeshError {
    /// A human-readable description of the error.
    pub fn describe(&self) -> String {
        match self {
            MeshError::CycleDetected => "dependency relation contains a cycle".to_owned(),
            MeshError::InvalidTransition => "status transition not permitted".to_owned(),
            MeshError::UnknownCapability => "no capability registered under that name".to_owned(),
            MeshError::DuplicateCapability => "capability name already bound".to_owned(),
            MeshError::CapabilityFailure { retryable: _, reason: _ } => {
                "capability invocation failed".to_owned()
            },
            MeshError::MalformedPlan => "plan is structurally invalid".to_owned(),
            MeshError::MeshHandshakeFailed => "peer handshake failed".to_owned(),
            MeshError::PeerTimeout => "peer liveness timeout".to_owned(),
        }
    }
}

} // verus!
