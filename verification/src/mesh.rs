//! The mesh coordinator's session logic: the per-peer connection lifecycle
//! and the gossip decisions, as a pure step function. The hosting process
//! performs discovery, transport and timers, feeds one event at a time, and
//! carries the returned action out; connection failures never propagate into
//! plan execution, only into this peer's visibility.

use crate::errors::MeshError;
use crate::peers::PlanSnapshot;
use vstd::prelude::*;

verus! {

/// Lifecycle of one peer connection: Discovered -> Handshaking -> Connected,
/// Disconnected on failure or timeout, back to Handshaking on rediscovery.
#[derive(Debug, Clone, Copy, PartialEq, Eq, Structural)]
pub enum PeerConnState {
    Discovered,
    Handshaking,
    Connected,
    Disconnected,
}

/// What the transport reports to the coordinator about one peer.
#[derive(Debug, Clone, PartialEq, Eq)]
pub enum MeshEvent {
    Found,
    HandshakeOk,
    HandshakeFailed,
    TimedOut,
    Tick,
    Frame { plan_id: String, version: u64, snapshot: PlanSnapshot },
}

/// What the hosting process must do next for that peer.
#[derive(Debug, Clone, Copy, PartialEq, Eq, Structural)]
pub enum MeshAction {
    StartHandshake,
    BroadcastOwnedSnapshots,
    MergeFrame,
    DropConnection,
    Nothing,
}

/// The session transition relation: a discovered or rediscovered peer is
/// handshaken; a completed handshake connects; a failed handshake or a
/// liveness timeout disconnects; on a gossip tick a connected peer is sent
/// every locally owned snapshot; a frame from a connected peer is merged.
/// Every other (state, event) pair changes nothing.
pub open spec fn spec_mesh_step(state: PeerConnState, event: MeshEvent) -> (
    PeerConnState,
    MeshAction,
) {
    match (state, event) {
        (PeerConnState::Discovered, MeshEvent::Found) => (
            PeerConnState::Handshaking,
            MeshAction::StartHandshake,
        ),
        (PeerConnState::Disconnected, MeshEvent::Found) => (
            PeerConnState::Handshaking,
            MeshAction::StartHandshake,
        ),
        (PeerConnState::Handshaking, MeshEvent::HandshakeOk) => (
            PeerConnState::Connected,
            MeshAction::Nothing,
        ),
        (PeerConnState::Handshaking, MeshEvent::HandshakeFailed) => (
            PeerConnState::Disconnected,
            MeshAction::DropConnection,
        ),
        (PeerConnState::Connected, MeshEvent::TimedOut) => (
            PeerConnState::Disconnected,
            MeshAction::DropConnection,
        ),
        (PeerConnState::Connected, MeshEvent::Tick) => (
            PeerConnState::Connected,
            MeshAction::BroadcastOwnedSnapshots,
        ),
        (PeerConnState::Connected, MeshEvent::Frame { plan_id: _, version: _, snapshot: _ }) => (
            PeerConnState::Connected,
            MeshAction::MergeFrame,
        ),
        _ => (state, MeshAction::Nothing),
    }
}

/// Take one session step for one peer.
pub fn mesh_step(state: PeerConnState, event: &MeshEvent) -> (r: (PeerConnState, MeshAction))
    ensures
        r == spec_mesh_step(state, *event),
        state == PeerConnState::Connected && (*event) is Tick ==> r.1
            == MeshAction::BroadcastOwnedSnapshots,
        state == PeerConnState::Connected && (*event) is Frame ==> r.1 == MeshAction::MergeFrame,
{
    match (state, event) {
        (PeerConnState::Discovered, MeshEvent::Found) => (
            PeerConnState::Handshaking,
            MeshAction::StartHandshake,
        ),
        (PeerConnState::Disconnected, MeshEvent::Found) => (
            PeerConnState::Handshaking,
            MeshAction::StartHandshake,
        ),
        (PeerConnState::Handshaking, MeshEvent::HandshakeOk) => (
            PeerConnState::Connected,
            MeshAction::Nothing,
        ),
        (PeerConnState::Handshaking, MeshEvent::HandshakeFailed) => (
            PeerConnState::Disconnected,
            MeshAction::DropConnection,
        ),
        (PeerConnState::Connected, MeshEvent::TimedOut) => (
            PeerConnState::Disconnected,
            MeshAction::DropConnection,
        ),
        (PeerConnState::Connected, MeshEvent::Tick) => (
            PeerConnState::Connected,
            MeshAction::BroadcastOwnedSnapshots,
        ),
        (PeerConnState::Connected, MeshEvent::Frame { plan_id: _, version: _, snapshot: _ }) => (
            PeerConnState::Connected,
            MeshAction::MergeFrame,
        ),
        _ => (state, MeshAction::Nothing),
    }
}

/// The error a session event is reported under on the observability
/// channel, if any: a failed handshake and a liveness timeout degrade this
/// peer's visibility only, never the plan's execution.
pub fn mesh_error_of(event: &MeshEvent) -> (r: Option<MeshError>)
    ensures
        (*event) is HandshakeFailed ==> r == Some(MeshError::MeshHandshakeFailed),
        (*event) is TimedOut ==> r == Some(MeshError::PeerTimeout),
        !((*event) is HandshakeFailed) && !((*event) is TimedOut) ==> r is None,
{
    match event {
        MeshEvent::HandshakeFailed => Some(MeshError::MeshHandshakeFailed),
        MeshEvent::TimedOut => Some(MeshError::PeerTimeout),
        _ => None,
    }
}

} // verus!
