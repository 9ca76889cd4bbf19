//! One engine scheduling step: fold a capability invocation's outcome into
//! the graph, honoring the retry policy. The hosting process runs the loop
//! (dispatch via `mark`, invoke the capability, hand the outcome here); the
//! decision of what the outcome does to the plan is made and verified here.

use crate::errors::MeshError;
use crate::graph::ActionGraph;
use crate::graph::Status;
use crate::graph::consistent;
use crate::graph::dep_failed_or_skipped;
use crate::graph::settled;
use vstd::prelude::*;

verus! {

/// A failure the retry policy may recover from.
pub open spec fn retryable_failure(e: MeshError) -> bool {
    e matches MeshError::CapabilityFailure { retryable: true, reason: _ }
}

/// The status the step gives the completed node: Succeeded on success;
/// Ready again when the failure was retryable and attempts remain
/// (`attempt_count` counts dispatches, so a node runs at most
/// `max_retries + 1` times); Failed otherwise — an unknown capability or
/// other non-retryable error is not transient and is never retried.
pub open spec fn step_status(outcome: Result<String, MeshError>, attempts: u64, max_retries: u64) -> Status {
    match outcome {
        Ok(_) => Status::Succeeded,
        Err(e) => {
            if retryable_failure(e) && attempts <= max_retries {
                Status::Ready
            } else {
                Status::Failed
            }
        },
    }
}

/// Fold one invocation outcome into the graph. Accepted exactly for a node
/// that is currently Running; anything else is refused with
/// `InvalidTransition` and the graph is untouched. On acceptance the node
/// moves to `step_status(outcome, ...)`, a Failed node's verdict is
/// propagated (every transitive dependent left waiting becomes Skipped), and
/// the graph ends fully settled.
pub fn engine_step(
    g: &mut ActionGraph,
    node_id: &String,
    outcome: &Result<String, MeshError>,
    max_retries: u64,
) -> (r: Result<(), MeshError>)
    requires
        old(g).wf(),
        consistent(old(g).nodes@),
    ensures
        final(g).wf(),
        consistent(final(g).nodes@),
        final(g).plan_id == old(g).plan_id,
        final(g).nodes@.len() == old(g).nodes@.len(),
        r is Err ==> r == Err::<(), MeshError>(MeshError::InvalidTransition) && *final(g) == *old(
            g,
        ),
        r is Ok <==> exists|i: int|
            0 <= i < old(g).nodes@.len() && (#[trigger] old(g).nodes@[i].id@) == node_id@ && old(
                g,
            ).nodes@[i].status == Status::Running,
        r is Ok ==> settled(final(g).nodes@),
        r is Ok ==> exists|i: int|
            {
                &&& 0 <= i < old(g).nodes@.len()
                &&& (#[trigger] old(g).nodes@[i].id@) == node_id@
                &&& old(g).nodes@[i].status == Status::Running
                &&& final(g).nodes@[i].status == step_status(
                    *outcome,
                    old(g).nodes@[i].attempt_count,
                    max_retries,
                )
                &&& ((*outcome) matches Ok(out) ==> final(g).nodes@[i].result == Some(out))
                &&& ((*outcome) is Err ==> final(g).nodes@[i].attempt_count == old(
                    g,
                ).nodes@[i].attempt_count)
            },
        r is Ok ==> forall|j: int|
            0 <= j < old(g).nodes@.len() && (#[trigger] final(g).nodes@[j].status)
                == Status::Skipped && old(g).nodes@[j].status != Status::Skipped
                ==> dep_failed_or_skipped(final(g).nodes@, j),
{
    let i = match g.find_node(node_id) {
        Some(i) => i,
        None => {
            return Err(MeshError::InvalidTransition);
        },
    };
    if g.nodes[i].status != Status::Running {
        assert forall|j: int|
            0 <= j < g.nodes@.len() && (#[trigger] g.nodes@[j].id@) == node_id@ implies g.nodes@[j].status
            != Status::Running by {
            assert(j == i);
        }
        return Err(MeshError::InvalidTransition);
    }
    match outcome {
        Ok(out) => {
            let res = g.mark(node_id, Status::Succeeded, Some(out.clone()));
            proof {
                assert(res is Ok);
                let i2 = choose|i2: int|
                    {
                        &&& 0 <= i2 < old(g).nodes@.len()
                        &&& (#[trigger] old(g).nodes@[i2].id@) == node_id@
                        &&& crate::graph::api_transition(old(g).nodes@[i2].status, Status::Succeeded)
                        &&& g.nodes@[i2].status == Status::Succeeded
                        &&& g.nodes@[i2].attempt_count == old(g).nodes@[i2].attempt_count
                        &&& g.nodes@[i2].result == Some(*out)
                    };
                assert(i2 == i as int);
            }
            Ok(())
        },
        Err(e) => {
            let retry = match e {
                MeshError::CapabilityFailure { retryable, reason: _ } => *retryable,
                _ => false,
            };
            if retry && g.nodes[i].attempt_count <= max_retries {
                let res = g.retry_node(node_id);
                proof {
                    assert(res is Ok);
                    let i2 = choose|i2: int|
                        {
                            &&& 0 <= i2 < old(g).nodes@.len()
                            &&& (#[trigger] old(g).nodes@[i2].id@) == node_id@
                            &&& old(g).nodes@[i2].status == Status::Running
                            &&& g.nodes@[i2].status == Status::Ready
                        };
                    assert(i2 == i as int);
                }
                Ok(())
            } else {
                let res = g.mark(node_id, Status::Failed, None);
                proof {
                    assert(res is Ok);
                    let i2 = choose|i2: int|
                        {
                            &&& 0 <= i2 < old(g).nodes@.len()
                            &&& (#[trigger] old(g).nodes@[i2].id@) == node_id@
                            &&& crate::graph::api_transition(old(g).nodes@[i2].status, Status::Failed)
                            &&& g.nodes@[i2].status == Status::Failed
                            &&& g.nodes@[i2].attempt_count == old(g).nodes@[i2].attempt_count
                        };
                    assert(i2 == i as int);
                }
                Ok(())
            }
        },
    }
}

} // verus!
