//! The action graph: an immutable-shape, mutable-status DAG of named steps.
//!
//! Acyclicity is established at submission time by a verified topological
//! check and carried as an explicit rank witness, so every later operation
//! can rely on it. Node statuses follow a fixed transition discipline:
//! Pending -> Ready -> Running -> {Succeeded, Failed}, Failed -> Ready on
//! retry, and Pending/Ready -> Skipped when a dependency is Failed/Skipped.

use crate::errors::MeshError;
use vstd::prelude::*;
use vstd::set::axiom_set_insert_len;
use vstd::set_lib::lemma_int_range;
use vstd::set_lib::set_int_range;

verus! {

/// Per-node execution status.
#[derive(Debug, Clone, Copy, PartialEq, Eq, Structural)]
pub enum Status {
    Pending,
    Ready,
    Running,
    Succeeded,
    Failed,
    Skipped,
}

/// The derived status of a whole plan.
#[derive(Debug, Clone, Copy, PartialEq, Eq, Structural)]
pub enum PlanStatus {
    Running,
    Succeeded,
    Failed,
    Cancelled,
}

/// Succeeded iff every node Succeeded; Failed iff any node Failed once no
/// node can still move; Cancelled when the only non-successes were Skipped
/// without a failure; Running otherwise.
pub open spec fn spec_plan_status(nodes: Seq<ActionNode>) -> PlanStatus {
    if exists|i: int| 0 <= i < nodes.len() && !is_done(#[trigger] nodes[i].status) {
        PlanStatus::Running
    } else if exists|i: int| 0 <= i < nodes.len() && (#[trigger] nodes[i].status) == Status::Failed {
        PlanStatus::Failed
    } else if exists|i: int|
        0 <= i < nodes.len() && (#[trigger] nodes[i].status) == Status::Skipped {
        PlanStatus::Cancelled
    } else {
        PlanStatus::Succeeded
    }
}

/// One step of a submitted plan, in wire form: a unique id, the name of the
/// capability that runs it, and the ids of the steps it depends on.
#[derive(Debug, Clone)]
pub struct Step {
    pub id: String,
    pub action: String,
    pub deps: Vec<String>,
}

/// A node of an action graph. `deps` holds indices into the owning graph's
/// node vector. `result` is present only once the node has Succeeded.
#[derive(Debug, Clone)]
pub struct ActionNode {
    pub id: String,
    pub action: String,
    pub deps: Vec<usize>,
    pub status: Status,
    pub attempt_count: u64,
    pub result: Option<String>,
}

/// Every dependency index points at a node of the graph.
pub open spec fn deps_in_range(nodes: Seq<ActionNode>) -> bool {
    forall|i: int, k: int|
        0 <= i < nodes.len() && 0 <= k < nodes[i].deps@.len()
            ==> (#[trigger] nodes[i].deps@[k]) < nodes.len()
}

/// `r` is a topological rank: every dependency of a node ranks strictly
/// below the node itself.
pub open spec fn rank_ok(nodes: Seq<ActionNode>, r: Seq<nat>) -> bool {
    &&& r.len() == nodes.len()
    &&& forall|i: int, k: int|
        0 <= i < nodes.len() && 0 <= k < nodes[i].deps@.len()
            ==> r[#[trigger] nodes[i].deps@[k] as int] < r[i]
}

/// The dependency relation admits a topological rank, i.e. has no cycle.
pub open spec fn acyclic(nodes: Seq<ActionNode>) -> bool {
    exists|r: Seq<nat>| rank_ok(nodes, r)
}

/// Executable counterpart of `rank_ok`, over machine integers.
pub open spec fn valid_rank(nodes: Seq<ActionNode>, rank: Seq<usize>) -> bool {
    &&& rank.len() == nodes.len()
    &&& forall|i: int, k: int|
        0 <= i < nodes.len() && 0 <= k < nodes[i].deps@.len()
            ==> rank[#[trigger] nodes[i].deps@[k] as int] < rank[i]
}

/// A machine-integer rank witnesses acyclicity.
pub proof fn lemma_valid_rank_acyclic(nodes: Seq<ActionNode>, rank: Seq<usize>)
    requires
        deps_in_range(nodes),
        valid_rank(nodes, rank),
    ensures
        acyclic(nodes),
{
    let r = rank.map_values(|v: usize| v as nat);
    assert(r.len() == rank.len());
    assert forall|i: int| 0 <= i < rank.len() implies #[trigger] r[i] == rank[i] as nat by {}
    assert forall|i: int, k: int|
        0 <= i < nodes.len() && 0 <= k < nodes[i].deps@.len() implies r[#[trigger] nodes[i].deps@[k] as int]
        < r[i] by {
        let d = nodes[i].deps@[k] as int;
        assert(rank[d] < rank[i]);
        assert(r[d] == rank[d] as nat);
        assert(r[i] == rank[i] as nat);
    }
    assert(rank_ok(nodes, r));
}

/// All dependencies of node `i` are already removed.
pub open spec fn node_deps_removed(nodes: Seq<ActionNode>, removed: Seq<bool>, i: int) -> bool {
    forall|k: int|
        0 <= k < nodes[i].deps@.len() ==> removed[#[trigger] nodes[i].deps@[k] as int]
}

/// The set of indices marked removed.
pub open spec fn removed_set(removed: Seq<bool>) -> Set<int> {
    Set::new(|i: int| 0 <= i < removed.len() && removed[i])
}

/// Infinite descent: if every unremoved node keeps an unremoved dependency,
/// no topological rank can exist, because ranks would have to decrease
/// forever along that chain.
proof fn lemma_no_rank(nodes: Seq<ActionNode>, removed: Seq<bool>, r: Seq<nat>, j: int)
    requires
        deps_in_range(nodes),
        removed.len() == nodes.len(),
        forall|i: int|
            0 <= i < nodes.len() && !removed[i] ==> !node_deps_removed(nodes, removed, i),
        0 <= j < nodes.len(),
        !removed[j],
    ensures
        !rank_ok(nodes, r),
    decreases r[j],
{
    if rank_ok(nodes, r) {
        assert(!node_deps_removed(nodes, removed, j));
        assert(exists|k: int|
            0 <= k < nodes[j].deps@.len() && !removed[#[trigger] nodes[j].deps@[k] as int]);
        let k = choose|k: int|
            0 <= k < nodes[j].deps@.len() && !removed[#[trigger] nodes[j].deps@[k] as int];
        let d = nodes[j].deps@[k] as int;
        assert(0 <= d < nodes.len());
        assert(r[d] < r[j]);
        lemma_no_rank(nodes, removed, r, d);
    }
}

/// A stalled elimination pass with an unremoved node left over proves a cycle.
proof fn lemma_stalled_cyclic(nodes: Seq<ActionNode>, removed: Seq<bool>, j: int)
    requires
        deps_in_range(nodes),
        removed.len() == nodes.len(),
        forall|i: int|
            0 <= i < nodes.len() && !removed[i] ==> !node_deps_removed(nodes, removed, i),
        0 <= j < nodes.len(),
        !removed[j],
    ensures
        !acyclic(nodes),
{
    if acyclic(nodes) {
        let r = choose|r: Seq<nat>| rank_ok(nodes, r);
        lemma_no_rank(nodes, removed, r, j);
    }
}

/// True iff every dependency of node `i` is marked removed.
fn deps_all_removed(nodes: &Vec<ActionNode>, removed: &Vec<bool>, i: usize) -> (r: bool)
    requires
        deps_in_range(nodes@),
        removed@.len() == nodes@.len(),
        i < nodes@.len(),
    ensures
        r == node_deps_removed(nodes@, removed@, i as int),
{
    let deps = &nodes[i].deps;
    let mut k: usize = 0;
    while k < deps.len()
        invariant
            deps_in_range(nodes@),
            removed@.len() == nodes@.len(),
            i < nodes@.len(),
            deps@ == nodes@[i as int].deps@,
            k <= deps@.len(),
            forall|k0: int|
                0 <= k0 < k ==> removed@[#[trigger] nodes@[i as int].deps@[k0] as int],
        decreases deps@.len() - k,
    {
        let d = deps[k];
        if !removed[d] {
            return false;
        }
        k += 1;
    }
    true
}

/// Find a node that is not yet removed but whose dependencies all are.
fn find_removable(nodes: &Vec<ActionNode>, removed: &Vec<bool>) -> (r: Option<usize>)
    requires
        deps_in_range(nodes@),
        removed@.len() == nodes@.len(),
    ensures
        match r {
            Some(i) => i < nodes@.len() && !removed@[i as int] && node_deps_removed(
                nodes@,
                removed@,
                i as int,
            ),
            None => forall|i: int|
                0 <= i < nodes@.len() && !removed@[i] ==> !node_deps_removed(
                    nodes@,
                    removed@,
                    i,
                ),
        },
{
    let mut i: usize = 0;
    while i < nodes.len()
        invariant
            deps_in_range(nodes@),
            removed@.len() == nodes@.len(),
            i <= nodes@.len(),
            forall|i0: int|
                0 <= i0 < i && !removed@[i0] ==> !node_deps_removed(nodes@, removed@, i0),
        decreases nodes@.len() - i,
    {
        if !removed[i] && deps_all_removed(nodes, removed, i) {
            return Some(i);
        }
        i += 1;
    }
    None
}

/// Find any node not yet removed.
fn find_unremoved(removed: &Vec<bool>) -> (r: Option<usize>)
    ensures
        match r {
            Some(j) => j < removed@.len() && !removed@[j as int],
            None => forall|i: int| 0 <= i < removed@.len() ==> removed@[i],
        },
{
    let mut i: usize = 0;
    while i < removed.len()
        invariant
            i <= removed@.len(),
            forall|i0: int| 0 <= i0 < i ==> removed@[i0],
        decreases removed@.len() - i,
    {
        if !removed[i] {
            return Some(i);
        }
        i += 1;
    }
    None
}

/// Topological elimination (Kahn's scheme): repeatedly remove a node whose
/// dependencies are all removed. Succeeds with a rank and the removal order
/// exactly when the dependency relation is acyclic.
fn compute_order(nodes: &Vec<ActionNode>) -> (r: Option<(Vec<usize>, Vec<usize>)>)
    requires
        deps_in_range(nodes@),
    ensures
        match r {
            Some(ro) => {
                &&& valid_rank(nodes@, ro.0@)
                &&& acyclic(nodes@)
                &&& ro.1@.len() == nodes@.len()
                &&& forall|i: int| 0 <= i < nodes@.len() ==> (#[trigger] ro.0@[i]) < nodes@.len()
                &&& forall|p: int| 0 <= p < nodes@.len() ==> (#[trigger] ro.1@[p]) < nodes@.len()
                &&& forall|i: int, p: int|
                    #![trigger ro.0@[i], ro.1@[p]]
                    0 <= i < nodes@.len() && 0 <= p < nodes@.len() ==> (ro.0@[i] == p <==> ro.1@[p]
                        == i)
            },
            None => !acyclic(nodes@),
        },
{
    let n = nodes.len();
    let mut removed: Vec<bool> = Vec::new();
    let mut rank: Vec<usize> = Vec::new();
    let mut fill: usize = 0;
    while fill < n
        invariant
            removed@.len() == fill,
            rank@.len() == fill,
            fill <= n,
            forall|i: int| 0 <= i < fill ==> !removed@[i],
        decreases n - fill,
    {
        removed.push(false);
        rank.push(0);
        fill += 1;
    }
    let mut order: Vec<usize> = Vec::new();
    let mut count: usize = 0;
    proof {
        assert(removed_set(removed@) =~= Set::<int>::empty());
    }
    while count < n
        invariant
            n == nodes@.len(),
            deps_in_range(nodes@),
            removed@.len() == n,
            rank@.len() == n,
            order@.len() == count,
            count <= n,
            removed_set(removed@).finite(),
            removed_set(removed@).len() == count,
            forall|p: int|
                0 <= p < count ==> (#[trigger] order@[p]) < n && removed@[order@[p] as int],
            forall|i: int| 0 <= i < n && removed@[i] ==> (#[trigger] rank@[i]) < count,
            forall|i: int, p: int|
                #![trigger rank@[i], order@[p]]
                0 <= i < n && 0 <= p < count ==> ((removed@[i] && rank@[i] == p) <==> order@[p]
                    == i),
            forall|i: int|
                0 <= i < n && removed@[i] ==> node_deps_removed(nodes@, removed@, i),
            forall|i: int, k: int|
                0 <= i < n && removed@[i] && 0 <= k < nodes@[i].deps@.len()
                    ==> rank@[#[trigger] nodes@[i].deps@[k] as int] < rank@[i],
        decreases n - count,
    {
        match find_removable(nodes, &removed) {
            Some(i) => {
                let ghost pre = removed@;
                removed[i] = true;
                rank[i] = count;
                order.push(i);
                proof {
                    assert(removed_set(removed@) =~= removed_set(pre).insert(i as int));
                    axiom_set_insert_len(removed_set(pre), i as int);
                }
                count += 1;
            },
            None => {
                match find_unremoved(&removed) {
                    Some(j) => {
                        proof {
                            lemma_stalled_cyclic(nodes@, removed@, j as int);
                        }
                        return None;
                    },
                    None => {
                        proof {
                            assert(removed_set(removed@) =~= set_int_range(0, n as int));
                            lemma_int_range(0, n as int);
                            assert(false);
                        }
                        return None;
                    },
                }
            },
        }
    }
    proof {
        assert forall|j: int| 0 <= j < n implies removed@[j] by {
            if !removed@[j] {
                let rs = removed_set(removed@);
                let range = set_int_range(0, n as int);
                lemma_int_range(0, n as int);
                assert(rs.subset_of(range));
                rs.lemma_subset_not_in_lt(range, j);
                assert(false);
            }
        }
        lemma_valid_rank_acyclic(nodes@, rank@);
    }
    Some((rank, order))
}

/// A node that is waiting for its dependencies: not yet dispatched.
pub open spec fn is_waiting(s: Status) -> bool {
    s == Status::Pending || s == Status::Ready
}

/// A node that will never change status again.
pub open spec fn is_done(s: Status) -> bool {
    s == Status::Succeeded || s == Status::Failed || s == Status::Skipped
}

/// The status transitions the engine may ever perform: the forward path
/// Pending -> Ready -> Running -> {Succeeded, Failed}, retry Failed -> Ready,
/// and Pending/Ready -> Skipped.
pub open spec fn transition_allowed(from: Status, to: Status) -> bool {
    ||| (from == Status::Pending && to == Status::Ready)
    ||| (from == Status::Ready && to == Status::Running)
    ||| (from == Status::Running && (to == Status::Succeeded || to == Status::Failed))
    ||| (from == Status::Failed && to == Status::Ready)
    ||| (is_waiting(from) && to == Status::Skipped)
}

/// The transitions the public `mark` entry point accepts: a dispatch
/// (Ready -> Running) or the completion of a running node.
pub open spec fn api_transition(from: Status, to: Status) -> bool {
    ||| (from == Status::Ready && to == Status::Running)
    ||| (from == Status::Running && (to == Status::Succeeded || to == Status::Failed))
}

/// Every dependency of node `i` has Succeeded.
pub open spec fn deps_succeeded(nodes: Seq<ActionNode>, i: int) -> bool {
    forall|k: int|
        0 <= k < nodes[i].deps@.len() ==> nodes[#[trigger] nodes[i].deps@[k] as int].status
            == Status::Succeeded
}

/// Some dependency of node `i` has Failed or been Skipped, so `i` can never run.
pub open spec fn dep_failed_or_skipped(nodes: Seq<ActionNode>, i: int) -> bool {
    exists|k: int|
        0 <= k < nodes[i].deps@.len() && is_dead(nodes[#[trigger] nodes[i].deps@[k] as int].status)
}

/// A status that permanently prevents dependents from running.
pub open spec fn is_dead(s: Status) -> bool {
    s == Status::Failed || s == Status::Skipped
}

/// What a waiting node's status must be, given its dependencies' statuses.
#[verifier::opaque]
pub open spec fn waiting_eval(nodes: Seq<ActionNode>, i: int) -> Status {
    if dep_failed_or_skipped(nodes, i) {
        Status::Skipped
    } else if deps_succeeded(nodes, i) {
        Status::Ready
    } else {
        Status::Pending
    }
}

/// Dispatched or dispatchable nodes really have all dependencies Succeeded.
#[verifier::opaque]
pub open spec fn consistent(nodes: Seq<ActionNode>) -> bool {
    forall|i: int|
        0 <= i < nodes.len() && ((#[trigger] nodes[i].status) == Status::Ready || nodes[i].status
            == Status::Running) ==> deps_succeeded(nodes, i)
}

/// Readiness is fully propagated: every waiting node's status agrees with
/// its dependencies' statuses.
#[verifier::opaque]
pub open spec fn settled(nodes: Seq<ActionNode>) -> bool {
    forall|i: int|
        0 <= i < nodes.len() && is_waiting(#[trigger] nodes[i].status) ==> nodes[i].status
            == waiting_eval(nodes, i)
}

/// Node `j` individually agrees with its dependencies' statuses.
pub open spec fn node_settled(nodes: Seq<ActionNode>, j: int) -> bool {
    is_waiting(nodes[j].status) ==> nodes[j].status == waiting_eval(nodes, j)
}

/// `waiting_eval` depends only on the statuses of the node's dependencies.
proof fn lemma_eval_unchanged(a: Seq<ActionNode>, b: Seq<ActionNode>, j: int)
    requires
        0 <= j < a.len(),
        b.len() == a.len(),
        a[j].deps@ == b[j].deps@,
        forall|k: int|
            0 <= k < a[j].deps@.len() ==> b[#[trigger] a[j].deps@[k] as int].status == a[a[j].deps@[
                k
            ] as int].status,
    ensures
        waiting_eval(b, j) == waiting_eval(a, j),
{
    reveal(crate::graph::waiting_eval);
    if dep_failed_or_skipped(a, j) {
        let k = choose|k: int|
            0 <= k < a[j].deps@.len() && is_dead(a[#[trigger] a[j].deps@[k] as int].status);
        assert(is_dead(b[b[j].deps@[k] as int].status));
        assert(dep_failed_or_skipped(b, j));
    } else {
        assert forall|k: int|
            0 <= k < b[j].deps@.len() implies !is_dead(
            b[#[trigger] b[j].deps@[k] as int].status,
        ) by {
            assert(!is_dead(a[a[j].deps@[k] as int].status));
        }
        assert(!dep_failed_or_skipped(b, j));
    }
    if deps_succeeded(a, j) {
        assert forall|k: int|
            0 <= k < b[j].deps@.len() implies b[#[trigger] b[j].deps@[k] as int].status
            == Status::Succeeded by {
            assert(a[a[j].deps@[k] as int].status == Status::Succeeded);
        }
        assert(deps_succeeded(b, j));
    } else {
        let k = choose|k: int|
            0 <= k < a[j].deps@.len() && a[#[trigger] a[j].deps@[k] as int].status
                != Status::Succeeded;
        assert(b[b[j].deps@[k] as int].status != Status::Succeeded);
        assert(!deps_succeeded(b, j));
    }
}

/// Compute what a waiting node's status should be from its dependencies.
fn eval_waiting(nodes: &Vec<ActionNode>, i: usize) -> (st: Status)
    requires
        deps_in_range(nodes@),
        i < nodes@.len(),
    ensures
        st == waiting_eval(nodes@, i as int),
{
    let deps = &nodes[i].deps;
    let mut all_succ = true;
    let mut k: usize = 0;
    while k < deps.len()
        invariant
            deps_in_range(nodes@),
            i < nodes@.len(),
            deps@ == nodes@[i as int].deps@,
            k <= deps@.len(),
            forall|k0: int|
                0 <= k0 < k ==> !is_dead(nodes@[#[trigger] nodes@[i as int].deps@[k0] as int].status),
            all_succ == forall|k0: int|
                0 <= k0 < k ==> nodes@[#[trigger] nodes@[i as int].deps@[k0] as int].status
                    == Status::Succeeded,
        decreases deps@.len() - k,
    {
        let d = deps[k];
        let st = nodes[d].status;
        if st == Status::Failed || st == Status::Skipped {
            proof {
                reveal(crate::graph::waiting_eval);
                assert(dep_failed_or_skipped(nodes@, i as int));
            }
            return Status::Skipped;
        }
        if st != Status::Succeeded {
            all_succ = false;
        }
        k += 1;
    }
    proof {
        reveal(crate::graph::waiting_eval);
    }
    if all_succ {
        Status::Ready
    } else {
        Status::Pending
    }
}

/// Some step of the plan carries this id.
pub open spec fn step_has_id(steps: Seq<Step>, id: Seq<char>) -> bool {
    exists|j: int| 0 <= j < steps.len() && (#[trigger] steps[j].id@) == id
}

/// Structural validity of a submitted step list: unique ids, a non-empty
/// action name on every step, and every dependency naming an existing step.
pub open spec fn steps_well_formed(steps: Seq<Step>) -> bool {
    &&& forall|i: int, j: int|
        #![trigger steps[i].id@, steps[j].id@]
        0 <= i < steps.len() && 0 <= j < steps.len() && i != j ==> steps[i].id@ != steps[j].id@
    &&& forall|i: int| 0 <= i < steps.len() ==> (#[trigger] steps[i].action@).len() > 0
    &&& forall|i: int, k: int|
        0 <= i < steps.len() && 0 <= k < steps[i].deps@.len() ==> step_has_id(
            steps,
            (#[trigger] steps[i].deps@[k])@,
        )
}

/// Step `i` declares a dependency on the step with `j`'s id.
pub open spec fn step_dep_on(steps: Seq<Step>, i: int, j: int) -> bool {
    exists|k: int|
        0 <= k < steps[i].deps@.len() && steps[j].id@ == (#[trigger] steps[i].deps@[k])@
}

/// The declared dependency relation of the step list admits a topological
/// rank, i.e. contains no cycle.
pub open spec fn steps_acyclic(steps: Seq<Step>) -> bool {
    exists|r: Seq<nat>|
        {
            &&& r.len() == steps.len()
            &&& forall|i: int, j: int|
                0 <= i < steps.len() && 0 <= j < steps.len() && #[trigger] step_dep_on(steps, i, j)
                    ==> r[j] < r[i]
        }
}

/// The nodes are the steps with every dependency name resolved to the index
/// of the step that carries it.
pub open spec fn resolves(steps: Seq<Step>, nodes: Seq<ActionNode>) -> bool {
    &&& nodes.len() == steps.len()
    &&& forall|i: int|
        0 <= i < steps.len() ==> (#[trigger] nodes[i]).id@ == steps[i].id@ && nodes[i].action@
            == steps[i].action@ && nodes[i].deps@.len() == steps[i].deps@.len()
    &&& forall|i: int, k: int|
        0 <= i < steps.len() && 0 <= k < steps[i].deps@.len() ==> (#[trigger] nodes[i].deps@[k])
            < steps.len() && steps[nodes[i].deps@[k] as int].id@ == steps[i].deps@[k]@
}

/// With unique ids, the resolved index relation has a cycle exactly when the
/// declared name relation does.
proof fn lemma_resolved_acyclic(steps: Seq<Step>, nodes: Seq<ActionNode>)
    requires
        steps_well_formed(steps),
        resolves(steps, nodes),
    ensures
        acyclic(nodes) <==> steps_acyclic(steps),
{
    if acyclic(nodes) {
        let r = choose|r: Seq<nat>| rank_ok(nodes, r);
        assert forall|i: int, j: int|
            0 <= i < steps.len() && 0 <= j < steps.len() && #[trigger] step_dep_on(steps, i, j)
                implies r[j] < r[i] by {
            let k = choose|k: int|
                0 <= k < steps[i].deps@.len() && steps[j].id@ == (#[trigger] steps[i].deps@[k])@;
            let d = nodes[i].deps@[k] as int;
            assert(steps[d].id@ == steps[i].deps@[k]@);
            assert(steps[d].id@ == steps[j].id@);
            assert(d == j);
            assert(r[d] < r[i]);
        }
        assert(r.len() == steps.len());
        assert(steps_acyclic(steps));
    }
    if steps_acyclic(steps) {
        let r = choose|r: Seq<nat>|
            {
                &&& r.len() == steps.len()
                &&& forall|i: int, j: int|
                    0 <= i < steps.len() && 0 <= j < steps.len() && #[trigger] step_dep_on(
                        steps,
                        i,
                        j,
                    ) ==> r[j] < r[i]
            };
        assert forall|i: int, k: int|
            0 <= i < nodes.len() && 0 <= k < nodes[i].deps@.len() implies r[#[trigger] nodes[i].deps@[
            k
        ] as int] < r[i] by {
            let d = nodes[i].deps@[k] as int;
            assert(steps[d].id@ == steps[i].deps@[k]@);
            assert(step_dep_on(steps, i, d));
        }
        assert(rank_ok(nodes, r));
    }
}

/// First step carrying the given id, scanning from the front.
fn find_step(steps: &Vec<Step>, id: &String) -> (r: Option<usize>)
    ensures
        match r {
            Some(j) => j < steps@.len() && steps@[j as int].id@ == id@ && forall|j0: int|
                0 <= j0 < j ==> (#[trigger] steps@[j0].id@) != id@,
            None => !step_has_id(steps@, id@),
        },
{
    let mut j: usize = 0;
    while j < steps.len()
        invariant
            j <= steps@.len(),
            forall|j0: int| 0 <= j0 < j ==> (#[trigger] steps@[j0].id@) != id@,
        decreases steps@.len() - j,
    {
        if steps[j].id == *id {
            return Some(j);
        }
        j += 1;
    }
    None
}

/// A dependency-ordered plan: the unit of execution. The shape (nodes and
/// edges) is fixed at submission; only statuses, attempt counts and results
/// change afterwards. `rank` and `order` carry the topological witness
/// established at submission: `order` lists the nodes in a dependency-first
/// order and `rank` is its inverse.
#[derive(Debug)]
pub struct ActionGraph {
    pub plan_id: String,
    pub nodes: Vec<ActionNode>,
    pub rank: Vec<usize>,
    pub order: Vec<usize>,
}

impl ActionGraph {
    /// Structural well-formedness: dependencies in range, a valid stored
    /// topological witness, and unique node ids.
    pub open spec fn wf(self) -> bool {
        &&& deps_in_range(self.nodes@)
        &&& valid_rank(self.nodes@, self.rank@)
        &&& self.order@.len() == self.nodes@.len()
        &&& forall|i: int|
            0 <= i < self.nodes@.len() ==> (#[trigger] self.rank@[i]) < self.nodes@.len()
        &&& forall|p: int|
            0 <= p < self.nodes@.len() ==> (#[trigger] self.order@[p]) < self.nodes@.len()
        &&& forall|i: int, p: int|
            #![trigger self.rank@[i], self.order@[p]]
            0 <= i < self.nodes@.len() && 0 <= p < self.nodes@.len() ==> (self.rank@[i] == p
                <==> self.order@[p] == i)
        &&& forall|i: int, j: int|
            #![trigger self.nodes@[i].id@, self.nodes@[j].id@]
            0 <= i < self.nodes@.len() && 0 <= j < self.nodes@.len() && i != j
                ==> self.nodes@[i].id@ != self.nodes@[j].id@
    }

    /// Statuses are in a sane, fully propagated state.
    pub open spec fn statuses_ok(self) -> bool {
        consistent(self.nodes@) && settled(self.nodes@)
    }

    /// Validate and resolve a submitted step list into an action graph.
    ///
    /// Rejected with `MalformedPlan` exactly when the step list is not
    /// structurally valid (duplicate id, empty action name, or a dependency
    /// on a step that does not exist), and with `CycleDetected` exactly when
    /// it is structurally valid but its dependency relation contains a
    /// cycle. On rejection no graph exists, so no node of the plan can ever
    /// run. On success every node starts Pending, or Ready when it has no
    /// dependencies.
    #[verifier::rlimit(30)]
    pub fn from_steps(plan_id: String, steps: &Vec<Step>) -> (r: Result<ActionGraph, MeshError>)
        ensures
            r is Ok <==> steps_well_formed(steps@) && steps_acyclic(steps@),
            r == Err::<ActionGraph, MeshError>(MeshError::MalformedPlan) <==> !steps_well_formed(
                steps@,
            ),
            r == Err::<ActionGraph, MeshError>(MeshError::CycleDetected) <==> steps_well_formed(
                steps@,
            ) && !steps_acyclic(steps@),
            r matches Ok(g) ==> {
                &&& g.wf()
                &&& g.statuses_ok()
                &&& g.plan_id == plan_id
                &&& resolves(steps@, g.nodes@)
                &&& initial_nodes(g.nodes@)
            },
    {
        let nodes = match resolve_steps(steps) {
            Ok(nodes) => nodes,
            Err(e) => {
                return Err(e);
            },
        };
        match compute_order(&nodes) {
            None => {
                proof {
                    lemma_resolved_acyclic(steps@, nodes@);
                }
                Err(MeshError::CycleDetected)
            },
            Some((rank, order)) => {
                proof {
                    lemma_resolved_acyclic(steps@, nodes@);
                }
                Ok(assemble(plan_id, nodes, rank, order, Ghost(steps@)))
            },
        }
    }
}

/// Pack freshly resolved nodes and their topological witness into a graph.
fn assemble(
    plan_id: String,
    nodes: Vec<ActionNode>,
    rank: Vec<usize>,
    order: Vec<usize>,
    Ghost(steps): Ghost<Seq<Step>>,
) -> (g: ActionGraph)
    requires
        steps_well_formed(steps),
        resolves(steps, nodes@),
        initial_nodes(nodes@),
        deps_in_range(nodes@),
        valid_rank(nodes@, rank@),
        order@.len() == nodes@.len(),
        forall|i: int| 0 <= i < nodes@.len() ==> (#[trigger] rank@[i]) < nodes@.len(),
        forall|p: int| 0 <= p < nodes@.len() ==> (#[trigger] order@[p]) < nodes@.len(),
        forall|i: int, p: int|
            #![trigger rank@[i], order@[p]]
            0 <= i < nodes@.len() && 0 <= p < nodes@.len() ==> (rank@[i] == p <==> order@[p] == i),
    ensures
        g.wf(),
        g.statuses_ok(),
        g.plan_id == plan_id,
        g.nodes == nodes,
        resolves(steps, g.nodes@),
        initial_nodes(g.nodes@),
{
    proof {
        lemma_initial_statuses(nodes@);
        lemma_resolved_unique_ids(steps, nodes@);
    }
    ActionGraph { plan_id, nodes, rank, order }
}

impl ActionGraph {
    /// Unchanged shape: ids, actions, edges, attempt counts and results all
    /// kept; only statuses may differ.
    pub open spec fn same_skeleton(a: Seq<ActionNode>, b: Seq<ActionNode>) -> bool {
        &&& b.len() == a.len()
        &&& forall|i: int|
            0 <= i < a.len() ==> (#[trigger] b[i]).id == a[i].id && b[i].action == a[i].action
                && b[i].deps == a[i].deps && b[i].attempt_count == a[i].attempt_count && b[i].result
                == a[i].result
    }

    /// Propagate dependency outcomes to waiting nodes: a waiting node with a
    /// Failed or Skipped dependency becomes Skipped, one whose dependencies
    /// have all Succeeded becomes Ready. The pass walks the stored
    /// topological order, so a verdict reaches every transitive dependent in
    /// one sweep and the graph ends fully settled; every change made follows
    /// the transition discipline.
    #[verifier::rlimit(40)]
    pub fn refresh(&mut self)
        requires
            old(self).wf(),
            consistent(old(self).nodes@),
        ensures
            final(self).wf(),
            final(self).plan_id == old(self).plan_id,
            final(self).rank == old(self).rank,
            final(self).order == old(self).order,
            Self::same_skeleton(old(self).nodes@, final(self).nodes@),
            consistent(final(self).nodes@),
            settled(final(self).nodes@),
            forall|i: int|
                0 <= i < old(self).nodes@.len() && !is_waiting(
                    #[trigger] old(self).nodes@[i].status,
                ) ==> final(self).nodes@[i].status == old(self).nodes@[i].status,
            forall|i: int|
                0 <= i < old(self).nodes@.len() && final(self).nodes@[i].status != (
                #[trigger] old(self).nodes@[i].status) ==> transition_allowed(
                    old(self).nodes@[i].status,
                    final(self).nodes@[i].status,
                ) && (final(self).nodes@[i].status == Status::Ready || final(self).nodes@[i].status
                    == Status::Skipped),
            forall|i: int|
                0 <= i < old(self).nodes@.len() && (#[trigger] final(self).nodes@[i].status)
                    == Status::Skipped && old(self).nodes@[i].status != Status::Skipped
                    ==> dep_failed_or_skipped(final(self).nodes@, i),
            forall|i: int|
                0 <= i < old(self).nodes@.len() && (#[trigger] final(self).nodes@[i].status)
                    == Status::Ready ==> deps_succeeded(final(self).nodes@, i),
    {
        proof {
            reveal(crate::graph::consistent);
        }
        let ghost orig = self.nodes@;
        let n = self.nodes.len();
        let mut p: usize = 0;
        while p < n
            invariant
                old(self).wf(),
                orig == old(self).nodes@,
                self.plan_id == old(self).plan_id,
                self.rank == old(self).rank,
                self.order == old(self).order,
                n == self.nodes@.len(),
                orig.len() == n,
                p <= n,
                deps_in_range(self.nodes@),
                Self::same_skeleton(orig, self.nodes@),
                forall|j: int|
                    0 <= j < n && !is_waiting(#[trigger] orig[j].status) ==> self.nodes@[j].status
                        == orig[j].status,
                forall|j: int|
                    0 <= j < n && self.nodes@[j].status != (#[trigger] orig[j].status)
                        ==> transition_allowed(orig[j].status, self.nodes@[j].status)
                        && (self.nodes@[j].status == Status::Ready || self.nodes@[j].status
                        == Status::Skipped),
                forall|j: int|
                    0 <= j < n && (#[trigger] self.nodes@[j].status) == Status::Skipped
                        && orig[j].status != Status::Skipped ==> dep_failed_or_skipped(
                        self.nodes@,
                        j,
                    ),
                forall|j: int|
                    0 <= j < n && (#[trigger] self.nodes@[j].status) == Status::Ready
                        && orig[j].status != Status::Ready ==> deps_succeeded(self.nodes@, j),
                forall|j: int|
                    0 <= j < n && ((#[trigger] orig[j].status) == Status::Ready || orig[j].status
                        == Status::Running) ==> deps_succeeded(orig, j),
                forall|q: int|
                    0 <= q < p ==> node_settled(self.nodes@, #[trigger] self.order@[q] as int),
            decreases n - p,
        {
            let i = self.order[p];
            proof {
                assert(self.rank@[i as int] == p);
            }
            let ghost pre = self.nodes@;
            let st_now = self.nodes[i].status;
            let ghost ev = waiting_eval(pre, i as int);
            proof {
                reveal(crate::graph::waiting_eval);
                if pre[i as int].status == Status::Ready {
                    assert(deps_succeeded(pre, i as int)) by {
                        if orig[i as int].status == Status::Ready {
                            assert(deps_succeeded(orig, i as int));
                            assert forall|k: int|
                                0 <= k < pre[i as int].deps@.len() implies pre[#[trigger] pre[i as int].deps@[
                                k
                            ] as int].status == Status::Succeeded by {
                                let d = orig[i as int].deps@[k] as int;
                                assert(orig[d].status == Status::Succeeded);
                                assert(!is_waiting(orig[d].status));
                            }
                        }
                    }
                    assert(!dep_failed_or_skipped(pre, i as int)) by {
                        assert forall|k: int|
                            0 <= k < pre[i as int].deps@.len() implies !is_dead(
                            pre[#[trigger] pre[i as int].deps@[k] as int].status,
                        ) by {
                            assert(pre[pre[i as int].deps@[k] as int].status == Status::Succeeded);
                        }
                    }
                    assert(ev == Status::Ready);
                }
            }
            let st = eval_waiting(&self.nodes, i);
            if st_now == Status::Pending || st_now == Status::Ready {
                if st == Status::Skipped {
                    self.nodes[i].status = Status::Skipped;
                } else if st == Status::Ready {
                    self.nodes[i].status = Status::Ready;
                }
            }
            proof {
                lemma_refresh_step(orig, pre, self.nodes@, i as int);
                let cur = self.nodes@;
                assert forall|k: int|
                    0 <= k < pre[i as int].deps@.len() implies cur[#[trigger] pre[i as int].deps@[
                    k
                ] as int].status == pre[pre[i as int].deps@[k] as int].status by {
                    let d = pre[i as int].deps@[k] as int;
                    assert(self.rank@[d] < self.rank@[i as int]);
                }
                lemma_eval_unchanged(pre, cur, i as int);
                assert(node_settled(cur, i as int));
                assert forall|q: int|
                    0 <= q < p + 1 implies node_settled(cur, #[trigger] self.order@[q] as int) by {
                    let j = self.order@[q] as int;
                    if q < p {
                        assert(self.rank@[j] == q);
                        assert(j != i as int);
                        assert(cur[j].status == pre[j].status);
                        assert forall|k: int|
                            0 <= k < pre[j].deps@.len() implies cur[#[trigger] pre[j].deps@[k] as int].status
                            == pre[pre[j].deps@[k] as int].status by {
                            let d = pre[j].deps@[k] as int;
                            assert(self.rank@[d] < self.rank@[j]);
                            assert(d != i as int);
                        }
                        lemma_eval_unchanged(pre, cur, j);
                        assert(node_settled(pre, j));
                    }
                }
            }
            p += 1;
        }
        proof {
            reveal(crate::graph::settled);
            assert forall|j: int|
                0 <= j < self.nodes@.len() && is_waiting(#[trigger] self.nodes@[j].status) implies self.nodes@[j].status
                == waiting_eval(self.nodes@, j) by {
                let q = self.rank@[j] as int;
                assert(self.order@[q] == j);
                assert(node_settled(self.nodes@, j));
            }
            lemma_refresh_post(orig, self.nodes@);
            assert forall|a: int, k: int|
                0 <= a < self.nodes@.len() && 0 <= k < self.nodes@[a].deps@.len() implies self.rank@[#[trigger] self.nodes@[a].deps@[
                k
            ] as int] < self.rank@[a] by {
                assert(self.nodes@[a].deps == orig[a].deps);
                assert(self.rank@[orig[a].deps@[k] as int] < self.rank@[a]);
            }
            assert forall|a: int, b: int|
                #![trigger self.nodes@[a].id@, self.nodes@[b].id@]
                0 <= a < self.nodes@.len() && 0 <= b < self.nodes@.len() && a != b implies self.nodes@[
                a
            ].id@ != self.nodes@[b].id@ by {
                assert(self.nodes@[a].id == orig[a].id);
                assert(self.nodes@[b].id == orig[b].id);
                assert(orig[a].id@ != orig[b].id@);
            }
        }
    }
}

impl ActionGraph {
    /// A caller-driven status change: dispatch a Ready node (Ready ->
    /// Running, counting the attempt) or complete a Running one (Running ->
    /// Succeeded with its result, or Running -> Failed). Any other request,
    /// or an unknown node id, is refused with `InvalidTransition` and leaves
    /// the graph untouched. After a successful change, dependency outcomes
    /// are propagated to waiting nodes.
    pub fn mark(&mut self, node_id: &String, to: Status, result: Option<String>) -> (r: Result<
        (),
        MeshError,
    >)
        requires
            old(self).wf(),
            consistent(old(self).nodes@),
        ensures
            final(self).wf(),
            consistent(final(self).nodes@),
            final(self).plan_id == old(self).plan_id,
            final(self).rank == old(self).rank,
            final(self).order == old(self).order,
            final(self).nodes@.len() == old(self).nodes@.len(),
            forall|j: int|
                0 <= j < old(self).nodes@.len() ==> (#[trigger] final(self).nodes@[j]).id == old(
                    self,
                ).nodes@[j].id && final(self).nodes@[j].action == old(self).nodes@[j].action
                    && final(self).nodes@[j].deps == old(self).nodes@[j].deps,
            r is Err ==> r == Err::<(), MeshError>(MeshError::InvalidTransition) && *final(self)
                == *old(self),
            r is Ok ==> settled(final(self).nodes@),
            r is Ok ==> forall|j: int|
                0 <= j < old(self).nodes@.len() && (#[trigger] old(self).nodes@[j].id@) != node_id@
                    ==> final(self).nodes@[j].attempt_count == old(self).nodes@[j].attempt_count
                    && final(self).nodes@[j].result == old(self).nodes@[j].result,
            r is Ok <==> exists|i: int|
                0 <= i < old(self).nodes@.len() && (#[trigger] old(self).nodes@[i].id@) == node_id@
                    && api_transition(old(self).nodes@[i].status, to),
            r is Ok ==> exists|i: int|
                {
                    &&& 0 <= i < old(self).nodes@.len()
                    &&& (#[trigger] old(self).nodes@[i].id@) == node_id@
                    &&& api_transition(old(self).nodes@[i].status, to)
                    &&& final(self).nodes@[i].status == to
                    &&& final(self).nodes@[i].attempt_count == (if to == Status::Running {
                        if old(self).nodes@[i].attempt_count < u64::MAX {
                            (old(self).nodes@[i].attempt_count + 1) as u64
                        } else {
                            old(self).nodes@[i].attempt_count
                        }
                    } else {
                        old(self).nodes@[i].attempt_count
                    })
                    &&& final(self).nodes@[i].result == (if to == Status::Succeeded {
                        result
                    } else {
                        old(self).nodes@[i].result
                    })
                },
            r is Ok ==> forall|j: int|
                0 <= j < old(self).nodes@.len() && final(self).nodes@[j].status != (
                #[trigger] old(self).nodes@[j].status) ==> transition_allowed(
                    old(self).nodes@[j].status,
                    final(self).nodes@[j].status,
                ),
            r is Ok ==> forall|j: int|
                0 <= j < old(self).nodes@.len() && (#[trigger] final(self).nodes@[j].status)
                    == Status::Skipped && old(self).nodes@[j].status != Status::Skipped
                    ==> dep_failed_or_skipped(final(self).nodes@, j),
    {
        let n = self.nodes.len();
        let i = match self.find_node(node_id) {
            Some(i) => i,
            None => {
                return Err(MeshError::InvalidTransition);
            },
        };
        let from = self.nodes[i].status;
        let allowed = (from == Status::Ready && to == Status::Running) || (from == Status::Running
            && (to == Status::Succeeded || to == Status::Failed));
        if !allowed {
            assert forall|j: int|
                0 <= j < n && (#[trigger] self.nodes@[j].id@) == node_id@ implies !api_transition(
                self.nodes@[j].status,
                to,
            ) by {
                assert(j == i);
            }
            return Err(MeshError::InvalidTransition);
        }
        let ghost orig = self.nodes@;
        if to == Status::Running {
            let a = self.nodes[i].attempt_count;
            self.nodes[i].attempt_count = if a < u64::MAX {
                a + 1
            } else {
                a
            };
        }
        if to == Status::Succeeded {
            self.nodes[i].result = result;
        }
        self.nodes[i].status = to;
        proof {
            reveal(crate::graph::consistent);
            assert forall|j: int|
                0 <= j < n && ((#[trigger] self.nodes@[j].status) == Status::Ready
                    || self.nodes@[j].status == Status::Running) implies deps_succeeded(
                self.nodes@,
                j,
            ) by {
                if j != i {
                    assert(deps_succeeded(orig, j));
                } else {
                    assert(orig[j].status == Status::Ready || orig[j].status == Status::Running);
                    assert(deps_succeeded(orig, j));
                }
                assert forall|k: int|
                    0 <= k < self.nodes@[j].deps@.len() implies self.nodes@[#[trigger] self.nodes@[j].deps@[
                    k
                ] as int].status == Status::Succeeded by {
                    let d = orig[j].deps@[k] as int;
                    assert(orig[d].status == Status::Succeeded);
                    assert(d != i);
                }
            }
        }
        self.refresh();
        Ok(())
    }

    /// Return a failed invocation's node to Ready for another attempt: the
    /// retry arm Running -> Failed -> Ready of the transition discipline,
    /// taken as one step so that no dependent is skipped in between.
    /// Refused with `InvalidTransition` unless the node is currently
    /// Running. Attempt counts and results are untouched; the count grows
    /// only on dispatch.
    pub fn retry_node(&mut self, node_id: &String) -> (r: Result<(), MeshError>)
        requires
            old(self).wf(),
            consistent(old(self).nodes@),
        ensures
            final(self).wf(),
            consistent(final(self).nodes@),
            final(self).plan_id == old(self).plan_id,
            final(self).rank == old(self).rank,
            final(self).order == old(self).order,
            Self::same_skeleton(old(self).nodes@, final(self).nodes@),
            r is Err ==> r == Err::<(), MeshError>(MeshError::InvalidTransition) && *final(self)
                == *old(self),
            r is Ok ==> settled(final(self).nodes@),
            r is Ok <==> exists|i: int|
                0 <= i < old(self).nodes@.len() && (#[trigger] old(self).nodes@[i].id@) == node_id@
                    && old(self).nodes@[i].status == Status::Running,
            r is Ok ==> exists|i: int|
                0 <= i < old(self).nodes@.len() && (#[trigger] old(self).nodes@[i].id@) == node_id@
                    && old(self).nodes@[i].status == Status::Running
                    && final(self).nodes@[i].status == Status::Ready,
            r is Ok ==> forall|j: int|
                0 <= j < old(self).nodes@.len() && final(self).nodes@[j].status != (
                #[trigger] old(self).nodes@[j].status) ==> transition_allowed(
                    old(self).nodes@[j].status,
                    final(self).nodes@[j].status,
                ) || (old(self).nodes@[j].status == Status::Running && final(self).nodes@[j].status
                    == Status::Ready),
            r is Ok ==> forall|j: int|
                0 <= j < old(self).nodes@.len() && (#[trigger] final(self).nodes@[j].status)
                    == Status::Skipped && old(self).nodes@[j].status != Status::Skipped
                    ==> dep_failed_or_skipped(final(self).nodes@, j),
    {
        let n = self.nodes.len();
        let i = match self.find_node(node_id) {
            Some(i) => i,
            None => {
                return Err(MeshError::InvalidTransition);
            },
        };
        if self.nodes[i].status != Status::Running {
            assert forall|j: int|
                0 <= j < n && (#[trigger] self.nodes@[j].id@) == node_id@ implies self.nodes@[j].status
                != Status::Running by {
                assert(j == i);
            }
            return Err(MeshError::InvalidTransition);
        }
        let ghost orig = self.nodes@;
        self.nodes[i].status = Status::Ready;
        proof {
            reveal(crate::graph::consistent);
            assert forall|j: int|
                0 <= j < n && ((#[trigger] self.nodes@[j].status) == Status::Ready
                    || self.nodes@[j].status == Status::Running) implies deps_succeeded(
                self.nodes@,
                j,
            ) by {
                assert(orig[j].status == Status::Ready || orig[j].status == Status::Running);
                assert(deps_succeeded(orig, j));
                assert forall|k: int|
                    0 <= k < self.nodes@[j].deps@.len() implies self.nodes@[#[trigger] self.nodes@[j].deps@[
                    k
                ] as int].status == Status::Succeeded by {
                    let d = orig[j].deps@[k] as int;
                    assert(orig[d].status == Status::Succeeded);
                    assert(d != i);
                }
            }
        }
        let ghost mid = self.nodes@;
        self.refresh();
        proof {
            if self.nodes@[i as int].status != Status::Ready {
                assert(self.nodes@[i as int].status == Status::Skipped);
                assert(dep_failed_or_skipped(self.nodes@, i as int));
                let k = choose|k: int|
                    0 <= k < self.nodes@[i as int].deps@.len() && is_dead(
                        self.nodes@[#[trigger] self.nodes@[i as int].deps@[k] as int].status,
                    );
                let d = mid[i as int].deps@[k] as int;
                assert(mid[d].status == Status::Succeeded);
                assert(!is_waiting(mid[d].status));
                assert(self.nodes@[d].status == Status::Succeeded);
                assert(false);
            }
        }
        Ok(())
    }

    /// The index of the node carrying the given id.
    pub fn find_node(&self, node_id: &String) -> (r: Option<usize>)
        ensures
            match r {
                Some(i) => i < self.nodes@.len() && self.nodes@[i as int].id@ == node_id@,
                None => forall|j: int|
                    0 <= j < self.nodes@.len() ==> (#[trigger] self.nodes@[j].id@) != node_id@,
            },
    {
        let mut i: usize = 0;
        while i < self.nodes.len()
            invariant
                i <= self.nodes@.len(),
                forall|j: int| 0 <= j < i ==> (#[trigger] self.nodes@[j].id@) != node_id@,
            decreases self.nodes@.len() - i,
        {
            if self.nodes[i].id == *node_id {
                return Some(i);
            }
            i += 1;
        }
        None
    }

    /// The indices of the nodes currently Ready, in increasing order.
    pub fn ready_nodes(&self) -> (r: Vec<usize>)
        ensures
            forall|k: int|
                0 <= k < r@.len() ==> (#[trigger] r@[k]) < self.nodes@.len()
                    && self.nodes@[r@[k] as int].status == Status::Ready,
            forall|i: int|
                0 <= i < self.nodes@.len() && (#[trigger] self.nodes@[i].status) == Status::Ready
                    ==> r@.contains(i as usize),
            forall|k1: int, k2: int| 0 <= k1 < k2 < r@.len() ==> r@[k1] < r@[k2],
    {
        let mut r: Vec<usize> = Vec::new();
        let mut i: usize = 0;
        while i < self.nodes.len()
            invariant
                i <= self.nodes@.len(),
                forall|k: int|
                    0 <= k < r@.len() ==> (#[trigger] r@[k]) < i && self.nodes@[r@[k] as int].status
                        == Status::Ready,
                forall|j: int|
                    0 <= j < i && (#[trigger] self.nodes@[j].status) == Status::Ready
                        ==> r@.contains(j as usize),
                forall|k1: int, k2: int| 0 <= k1 < k2 < r@.len() ==> r@[k1] < r@[k2],
            decreases self.nodes@.len() - i,
        {
            let ghost pre = r@;
            if self.nodes[i].status == Status::Ready {
                r.push(i);
            }
            proof {
                assert forall|j: int|
                    0 <= j < i + 1 && (#[trigger] self.nodes@[j].status) == Status::Ready implies r@.contains(
                    j as usize,
                ) by {
                    if j < i {
                        let k = choose|k: int| 0 <= k < pre.len() && pre[k] == j as usize;
                        assert(r@[k] == j as usize);
                    } else {
                        assert(r@[r@.len() - 1] == i);
                    }
                }
            }
            i += 1;
        }
        r
    }

    /// The first Ready node, if any.
    pub fn next_ready(&self) -> (r: Option<usize>)
        ensures
            match r {
                Some(i) => i < self.nodes@.len() && self.nodes@[i as int].status == Status::Ready,
                None => forall|i: int|
                    0 <= i < self.nodes@.len() ==> (#[trigger] self.nodes@[i].status)
                        != Status::Ready,
            },
    {
        let mut i: usize = 0;
        while i < self.nodes.len()
            invariant
                i <= self.nodes@.len(),
                forall|j: int| 0 <= j < i ==> (#[trigger] self.nodes@[j].status) != Status::Ready,
            decreases self.nodes@.len() - i,
        {
            if self.nodes[i].status == Status::Ready {
                return Some(i);
            }
            i += 1;
        }
        None
    }

    /// Which nodes are still live, by a full scan.
    fn any_with(&self, failed: bool) -> (r: bool)
        ensures
            failed ==> r == exists|i: int|
                0 <= i < self.nodes@.len() && (#[trigger] self.nodes@[i].status) == Status::Failed,
            !failed ==> r == exists|i: int|
                0 <= i < self.nodes@.len() && (#[trigger] self.nodes@[i].status) == Status::Skipped,
    {
        let want = if failed {
            Status::Failed
        } else {
            Status::Skipped
        };
        let mut i: usize = 0;
        while i < self.nodes.len()
            invariant
                i <= self.nodes@.len(),
                want == (if failed {
                    Status::Failed
                } else {
                    Status::Skipped
                }),
                forall|j: int| 0 <= j < i ==> (#[trigger] self.nodes@[j].status) != want,
            decreases self.nodes@.len() - i,
        {
            if self.nodes[i].status == want {
                return true;
            }
            i += 1;
        }
        false
    }

    /// Whether some node is not yet in a terminal status.
    fn any_live(&self) -> (r: bool)
        ensures
            r == exists|i: int|
                0 <= i < self.nodes@.len() && !is_done(#[trigger] self.nodes@[i].status),
    {
        let mut i: usize = 0;
        while i < self.nodes.len()
            invariant
                i <= self.nodes@.len(),
                forall|j: int| 0 <= j < i ==> is_done(#[trigger] self.nodes@[j].status),
            decreases self.nodes@.len() - i,
        {
            let st = self.nodes[i].status;
            if st == Status::Pending || st == Status::Ready || st == Status::Running {
                return true;
            }
            i += 1;
        }
        false
    }

    /// The overall plan status: Running while any node may still move;
    /// otherwise Failed when any node Failed, Cancelled when nodes were
    /// Skipped with no failure (only cancellation produces that), and
    /// Succeeded when every node Succeeded.
    pub fn plan_status(&self) -> (r: PlanStatus)
        ensures
            r == spec_plan_status(self.nodes@),
    {
        if self.any_live() {
            PlanStatus::Running
        } else if self.any_with(true) {
            PlanStatus::Failed
        } else if self.any_with(false) {
            PlanStatus::Cancelled
        } else {
            PlanStatus::Succeeded
        }
    }

    /// Mark every waiting node Skipped: cancellation. In-flight Running
    /// nodes are left to finish; terminal nodes are untouched.
    pub fn cancel(&mut self)
        requires
            old(self).wf(),
            consistent(old(self).nodes@),
        ensures
            final(self).wf(),
            consistent(final(self).nodes@),
            settled(final(self).nodes@),
            final(self).plan_id == old(self).plan_id,
            final(self).rank == old(self).rank,
            final(self).order == old(self).order,
            Self::same_skeleton(old(self).nodes@, final(self).nodes@),
            forall|i: int|
                0 <= i < old(self).nodes@.len() ==> final(self).nodes@[i].status == (if is_waiting(
                    #[trigger] old(self).nodes@[i].status,
                ) {
                    Status::Skipped
                } else {
                    old(self).nodes@[i].status
                }),
    {
        let ghost orig = self.nodes@;
        let n = self.nodes.len();
        let mut i: usize = 0;
        while i < n
            invariant
                old(self).wf(),
                orig == old(self).nodes@,
                n == self.nodes@.len(),
                orig.len() == n,
                i <= n,
                self.plan_id == old(self).plan_id,
                self.rank == old(self).rank,
                self.order == old(self).order,
                Self::same_skeleton(orig, self.nodes@),
                forall|j: int|
                    0 <= j < i ==> self.nodes@[j].status == (if is_waiting(
                        #[trigger] orig[j].status,
                    ) {
                        Status::Skipped
                    } else {
                        orig[j].status
                    }),
                forall|j: int| i <= j < n ==> (#[trigger] self.nodes@[j].status) == orig[j].status,
            decreases n - i,
        {
            let st = self.nodes[i].status;
            if st == Status::Pending || st == Status::Ready {
                self.nodes[i].status = Status::Skipped;
            }
            i += 1;
        }
        proof {
            reveal(crate::graph::consistent);
            assert forall|j: int|
                0 <= j < self.nodes@.len() && ((#[trigger] self.nodes@[j].status) == Status::Ready
                    || self.nodes@[j].status == Status::Running) implies deps_succeeded(
                self.nodes@,
                j,
            ) by {
                assert(!is_waiting(orig[j].status));
                assert(self.nodes@[j].status == orig[j].status);
                assert(deps_succeeded(orig, j));
                assert forall|k: int|
                    0 <= k < self.nodes@[j].deps@.len() implies self.nodes@[#[trigger] self.nodes@[j].deps@[
                    k
                ] as int].status == Status::Succeeded by {
                    let d = orig[j].deps@[k] as int;
                    assert(orig[d].status == Status::Succeeded);
                    assert(!is_waiting(orig[d].status));
                }
            }
            reveal(crate::graph::settled);
            assert forall|j: int|
                0 <= j < self.nodes@.len() implies !is_waiting(#[trigger] self.nodes@[j].status) by {
                if is_waiting(orig[j].status) {
                    assert(self.nodes@[j].status == Status::Skipped);
                } else {
                    assert(self.nodes@[j].status == orig[j].status);
                }
            }
            assert forall|a: int, k: int|
                0 <= a < self.nodes@.len() && 0 <= k < self.nodes@[a].deps@.len() implies self.rank@[#[trigger] self.nodes@[a].deps@[
                k
            ] as int] < self.rank@[a] by {
                assert(self.nodes@[a].deps == orig[a].deps);
                assert(self.rank@[orig[a].deps@[k] as int] < self.rank@[a]);
            }
            assert forall|a: int, b: int|
                #![trigger self.nodes@[a].id@, self.nodes@[b].id@]
                0 <= a < self.nodes@.len() && 0 <= b < self.nodes@.len() && a != b implies self.nodes@[
                a
            ].id@ != self.nodes@[b].id@ by {
                assert(self.nodes@[a].id == orig[a].id);
                assert(self.nodes@[b].id == orig[b].id);
                assert(orig[a].id@ != orig[b].id@);
            }
        }
    }

    /// The id and current status of every node, in node order.
    pub fn status_list(&self) -> (r: Vec<(String, Status)>)
        ensures
            r@.len() == self.nodes@.len(),
            forall|i: int|
                0 <= i < r@.len() ==> (#[trigger] r@[i]).0@ == self.nodes@[i].id@ && r@[i].1
                    == self.nodes@[i].status,
    {
        let mut r: Vec<(String, Status)> = Vec::new();
        let mut i: usize = 0;
        while i < self.nodes.len()
            invariant
                i <= self.nodes@.len(),
                r@.len() == i,
                forall|j: int|
                    0 <= j < i ==> (#[trigger] r@[j]).0@ == self.nodes@[j].id@ && r@[j].1
                        == self.nodes@[j].status,
            decreases self.nodes@.len() - i,
        {
            r.push((self.nodes[i].id.clone(), self.nodes[i].status));
            i += 1;
        }
        r
    }
}

/// One refresh update keeps every propagation fact of the earlier updates:
/// Succeeded and dead statuses are stable, so dependency verdicts stand.
proof fn lemma_refresh_step(orig: Seq<ActionNode>, pre: Seq<ActionNode>, cur: Seq<ActionNode>, i: int)
    requires
        pre.len() == orig.len(),
        cur.len() == pre.len(),
        0 <= i < pre.len(),
        deps_in_range(pre),
        forall|j: int| 0 <= j < pre.len() && j != i ==> (#[trigger] cur[j]) == pre[j],
        cur[i].deps == pre[i].deps,
        cur[i].status == pre[i].status || (is_waiting(pre[i].status) && (cur[i].status
            == Status::Skipped && dep_failed_or_skipped(pre, i) || cur[i].status == Status::Ready
            && deps_succeeded(pre, i))),
        forall|j: int|
            0 <= j < pre.len() && (#[trigger] pre[j].status) == Status::Skipped && orig[j].status
                != Status::Skipped ==> dep_failed_or_skipped(pre, j),
        forall|j: int|
            0 <= j < pre.len() && (#[trigger] pre[j].status) == Status::Ready && orig[j].status
                != Status::Ready ==> deps_succeeded(pre, j),
    ensures
        forall|j: int|
            0 <= j < cur.len() && (#[trigger] cur[j].status) == Status::Skipped && orig[j].status
                != Status::Skipped ==> dep_failed_or_skipped(cur, j),
        forall|j: int|
            0 <= j < cur.len() && (#[trigger] cur[j].status) == Status::Ready && orig[j].status
                != Status::Ready ==> deps_succeeded(cur, j),
{
    assert forall|j: int|
        0 <= j < cur.len() && (#[trigger] cur[j].status) == Status::Skipped && orig[j].status
            != Status::Skipped implies dep_failed_or_skipped(cur, j) by {
        assert(dep_failed_or_skipped(pre, j));
        let k = choose|k: int|
            0 <= k < pre[j].deps@.len() && is_dead(pre[#[trigger] pre[j].deps@[k] as int].status);
        assert(is_dead(cur[cur[j].deps@[k] as int].status));
        assert(dep_failed_or_skipped(cur, j));
    }
    assert forall|j: int|
        0 <= j < cur.len() && (#[trigger] cur[j].status) == Status::Ready && orig[j].status
            != Status::Ready implies deps_succeeded(cur, j) by {
        assert(deps_succeeded(pre, j));
        assert forall|k: int|
            0 <= k < cur[j].deps@.len() implies cur[#[trigger] cur[j].deps@[k] as int].status
            == Status::Succeeded by {
            assert(pre[pre[j].deps@[k] as int].status == Status::Succeeded);
        }
    }
}

/// After a refresh pass, dispatchability facts carry from the original
/// statuses to the final ones.
proof fn lemma_refresh_post(orig: Seq<ActionNode>, cur: Seq<ActionNode>)
    requires
        cur.len() == orig.len(),
        deps_in_range(orig),
        forall|j: int| 0 <= j < orig.len() ==> (#[trigger] cur[j]).deps == orig[j].deps,
        forall|j: int|
            0 <= j < orig.len() && !is_waiting(#[trigger] orig[j].status) ==> cur[j].status
                == orig[j].status,
        forall|j: int|
            0 <= j < orig.len() && cur[j].status != (#[trigger] orig[j].status) ==> (cur[j].status
                == Status::Ready || cur[j].status == Status::Skipped),
        forall|j: int|
            0 <= j < orig.len() && ((#[trigger] orig[j].status) == Status::Ready || orig[j].status
                == Status::Running) ==> deps_succeeded(orig, j),
        forall|j: int|
            0 <= j < orig.len() && (#[trigger] cur[j].status) == Status::Ready && orig[j].status
                != Status::Ready ==> deps_succeeded(cur, j),
    ensures
        consistent(cur),
{
    reveal(crate::graph::consistent);
    assert forall|j: int|
        0 <= j < cur.len() && ((#[trigger] cur[j].status) == Status::Ready || cur[j].status
            == Status::Running) implies deps_succeeded(cur, j) by {
        if cur[j].status == Status::Ready && orig[j].status != Status::Ready {
            assert(deps_succeeded(cur, j));
        } else {
            assert(cur[j].status == orig[j].status);
            assert(deps_succeeded(orig, j));
            assert forall|k: int|
                0 <= k < cur[j].deps@.len() implies cur[#[trigger] cur[j].deps@[k] as int].status
                == Status::Succeeded by {
                assert(cur[j].deps == orig[j].deps);
                let d = orig[j].deps@[k] as int;
                assert(0 <= d < orig.len());
                assert(orig[d].status == Status::Succeeded);
                assert(!is_waiting(orig[d].status));
                assert(cur[d].status == orig[d].status);
            }
        }
    }
}

/// Resolved nodes inherit the uniqueness of the step ids.
proof fn lemma_resolved_unique_ids(steps: Seq<Step>, nodes: Seq<ActionNode>)
    requires
        steps_well_formed(steps),
        resolves(steps, nodes),
    ensures
        forall|i: int, j: int|
            #![trigger nodes[i].id@, nodes[j].id@]
            0 <= i < nodes.len() && 0 <= j < nodes.len() && i != j ==> nodes[i].id@ != nodes[j].id@,
{
    assert forall|i: int, j: int|
        #![trigger nodes[i].id@, nodes[j].id@]
        0 <= i < nodes.len() && 0 <= j < nodes.len() && i != j implies nodes[i].id@
        != nodes[j].id@ by {
        assert(nodes[i].id@ == steps[i].id@);
        assert(nodes[j].id@ == steps[j].id@);
        assert(steps[i].id@ != steps[j].id@);
    }
}

/// Freshly resolved nodes: nothing attempted, no results, statuses set from
/// the dependency count alone.
pub open spec fn initial_nodes(nodes: Seq<ActionNode>) -> bool {
    forall|i: int|
        0 <= i < nodes.len() ==> (#[trigger] nodes[i]).attempt_count == 0 && nodes[i].result
            is None && nodes[i].status == (
        if nodes[i].deps@.len() == 0 {
            Status::Ready
        } else {
            Status::Pending
        })
}

/// Freshly resolved statuses are consistent and fully propagated.
#[verifier::rlimit(50)]
proof fn lemma_initial_statuses(nodes: Seq<ActionNode>)
    requires
        deps_in_range(nodes),
        initial_nodes(nodes),
    ensures
        consistent(nodes),
        settled(nodes),
{
    reveal(crate::graph::consistent);
    reveal(crate::graph::settled);
    assert forall|i: int|
        0 <= i < nodes.len() && is_waiting(#[trigger] nodes[i].status) implies nodes[i].status
        == waiting_eval(nodes, i) by {
        reveal(crate::graph::waiting_eval);
        if nodes[i].deps@.len() == 0 {
            assert(!dep_failed_or_skipped(nodes, i));
            assert(deps_succeeded(nodes, i));
        } else {
            let d0 = nodes[i].deps@[0] as int;
            assert(!is_dead(nodes[d0].status));
            assert(nodes[d0].status != Status::Succeeded);
            assert forall|k0: int|
                0 <= k0 < nodes[i].deps@.len() implies !is_dead(
                nodes[#[trigger] nodes[i].deps@[k0] as int].status,
            ) by {}
            assert(!dep_failed_or_skipped(nodes, i));
            assert(!deps_succeeded(nodes, i));
        }
    }
}

/// Resolve the dependency names of step `i` to step indices.
fn resolve_deps(steps: &Vec<Step>, i: usize) -> (r: Result<Vec<usize>, MeshError>)
    requires
        i < steps@.len(),
    ensures
        match r {
            Ok(idx) => idx@.len() == steps@[i as int].deps@.len() && forall|k: int|
                0 <= k < idx@.len() ==> (#[trigger] idx@[k]) < steps@.len() && steps@[idx@[k] as int].id@
                    == steps@[i as int].deps@[k]@,
            Err(e) => e == MeshError::MalformedPlan && exists|k: int|
                0 <= k < steps@[i as int].deps@.len() && !step_has_id(
                    steps@,
                    (#[trigger] steps@[i as int].deps@[k])@,
                ),
        },
{
    let step_deps = &steps[i].deps;
    let mut idx: Vec<usize> = Vec::new();
    let mut k: usize = 0;
    while k < step_deps.len()
        invariant
            i < steps@.len(),
            k <= step_deps@.len(),
            step_deps@ == steps@[i as int].deps@,
            idx@.len() == k,
            forall|k0: int|
                0 <= k0 < k ==> (#[trigger] idx@[k0]) < steps@.len() && steps@[idx@[k0] as int].id@
                    == steps@[i as int].deps@[k0]@,
        decreases step_deps@.len() - k,
    {
        match find_step(steps, &step_deps[k]) {
            Some(j) => {
                idx.push(j);
            },
            None => {
                return Err(MeshError::MalformedPlan);
            },
        }
        k += 1;
    }
    Ok(idx)
}

/// Validate a step list and resolve it into fresh nodes. Fails with
/// `MalformedPlan` exactly when the list is not structurally valid.
fn resolve_steps(steps: &Vec<Step>) -> (r: Result<Vec<ActionNode>, MeshError>)
    ensures
        r is Ok <==> steps_well_formed(steps@),
        r is Err ==> r == Err::<Vec<ActionNode>, MeshError>(MeshError::MalformedPlan),
        r matches Ok(nodes) ==> resolves(steps@, nodes@) && deps_in_range(nodes@) && initial_nodes(
            nodes@,
        ),
{
    let n = steps.len();
    let mut nodes: Vec<ActionNode> = Vec::new();
    let mut i: usize = 0;
    while i < n
        invariant
            n == steps@.len(),
            i <= n,
            nodes@.len() == i,
            forall|a: int, b: int|
                #![trigger steps@[a].id@, steps@[b].id@]
                0 <= a < i && 0 <= b < i && a != b ==> steps@[a].id@ != steps@[b].id@,
            forall|a: int| 0 <= a < i ==> (#[trigger] steps@[a].action@).len() > 0,
            forall|a: int, k: int|
                0 <= a < i && 0 <= k < steps@[a].deps@.len() ==> step_has_id(
                    steps@,
                    (#[trigger] steps@[a].deps@[k])@,
                ),
            forall|a: int|
                0 <= a < i ==> (#[trigger] nodes@[a]).id@ == steps@[a].id@ && nodes@[a].action@
                    == steps@[a].action@ && nodes@[a].deps@.len() == steps@[a].deps@.len()
                    && nodes@[a].attempt_count == 0 && nodes@[a].result is None && nodes@[a].status
                    == (
            if steps@[a].deps@.len() == 0 {
                Status::Ready
            } else {
                Status::Pending
            }),
            forall|a: int, k: int|
                0 <= a < i && 0 <= k < steps@[a].deps@.len() ==> (#[trigger] nodes@[a].deps@[k]) < n
                    && steps@[nodes@[a].deps@[k] as int].id@ == steps@[a].deps@[k]@,
        decreases n - i,
    {
        match find_step(steps, &steps[i].id) {
            Some(j) => {
                if j != i {
                    assert(j < i && steps@[j as int].id@ == steps@[i as int].id@);
                    assert(!steps_well_formed(steps@));
                    return Err(MeshError::MalformedPlan);
                }
            },
            None => {
                assert(false);
            },
        }
        if steps[i].action.as_str().is_empty() {
            assert(!steps_well_formed(steps@));
            return Err(MeshError::MalformedPlan);
        }
        let idx = match resolve_deps(steps, i) {
            Ok(idx) => idx,
            Err(e) => {
                assert(!steps_well_formed(steps@));
                return Err(e);
            },
        };
        assert forall|k: int| 0 <= k < steps@[i as int].deps@.len() implies step_has_id(
            steps@,
            (#[trigger] steps@[i as int].deps@[k])@,
        ) by {
            assert(steps@[idx@[k] as int].id@ == steps@[i as int].deps@[k]@);
        }
        let status = if idx.len() == 0 {
            Status::Ready
        } else {
            Status::Pending
        };
        let node = ActionNode {
            id: steps[i].id.clone(),
            action: steps[i].action.clone(),
            deps: idx,
            status,
            attempt_count: 0,
            result: None,
        };
        nodes.push(node);
        i += 1;
    }
    Ok(nodes)
}

} // verus!
