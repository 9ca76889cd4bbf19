use auramesh::agents::{Agent, Context, InfraAgent, PlannerAgent};
use auramesh::config::load_config;
use auramesh::engine::engine_step;
use auramesh::errors::MeshError;
use auramesh::graph::{ActionGraph, PlanStatus, Status, Step};
use auramesh::mesh::{mesh_error_of, mesh_step, MeshAction, MeshEvent, PeerConnState};
use auramesh::peers::{PeerTable, PlanSnapshot};
use auramesh::registry::AgentRegistry;

fn step(id: &str, action: &str, deps: &[&str]) -> Step {
    Step {
        id: id.to_owned(),
        action: action.to_owned(),
        deps: deps.iter().map(|d| (*d).to_owned()).collect(),
    }
}

fn diamond() -> Vec<Step> {
    vec![
        step("a", "start", &[]),
        step("b", "left", &["a"]),
        step("c", "right", &["a"]),
        step("d", "join", &["b", "c"]),
    ]
}

fn mark(g: &mut ActionGraph, id: &str, st: Status, result: Option<String>) {
    g.mark(&id.to_owned(), st, result).expect("transition accepted");
}

fn status_of(g: &ActionGraph, id: &str) -> Status {
    let i = g.find_node(&id.to_owned()).expect("node exists");
    g.nodes[i].status
}

#[test]
fn cycle_is_rejected_at_submission() {
    let steps = vec![step("a", "x", &["b"]), step("b", "y", &["a"])];
    let r = ActionGraph::from_steps("p".to_owned(), &steps);
    assert_eq!(r.err(), Some(MeshError::CycleDetected));
}

#[test]
fn self_cycle_is_rejected() {
    let steps = vec![step("a", "x", &["a"])];
    let r = ActionGraph::from_steps("p".to_owned(), &steps);
    assert_eq!(r.err(), Some(MeshError::CycleDetected));
}

#[test]
fn duplicate_id_is_malformed() {
    let steps = vec![step("a", "x", &[]), step("a", "y", &[])];
    let r = ActionGraph::from_steps("p".to_owned(), &steps);
    assert_eq!(r.err(), Some(MeshError::MalformedPlan));
}

#[test]
fn unknown_dependency_is_malformed() {
    let steps = vec![step("a", "x", &["ghost"])];
    let r = ActionGraph::from_steps("p".to_owned(), &steps);
    assert_eq!(r.err(), Some(MeshError::MalformedPlan));
}

#[test]
fn empty_action_is_malformed() {
    let steps = vec![step("a", "", &[])];
    let r = ActionGraph::from_steps("p".to_owned(), &steps);
    assert_eq!(r.err(), Some(MeshError::MalformedPlan));
}

#[test]
fn initial_readiness_follows_dependencies() {
    let g = ActionGraph::from_steps("p".to_owned(), &diamond()).expect("valid plan");
    assert_eq!(status_of(&g, "a"), Status::Ready);
    assert_eq!(status_of(&g, "b"), Status::Pending);
    assert_eq!(status_of(&g, "c"), Status::Pending);
    assert_eq!(status_of(&g, "d"), Status::Pending);
    assert_eq!(g.ready_nodes(), vec![0]);
}

#[test]
fn diamond_orders_execution() {
    let mut g = ActionGraph::from_steps("p".to_owned(), &diamond()).expect("valid plan");
    // b and c become Ready only once a has Succeeded.
    mark(&mut g, "a", Status::Running, None);
    assert_eq!(status_of(&g, "b"), Status::Pending);
    mark(&mut g, "a", Status::Succeeded, Some("ok".to_owned()));
    assert_eq!(status_of(&g, "b"), Status::Ready);
    assert_eq!(status_of(&g, "c"), Status::Ready);
    assert_eq!(status_of(&g, "d"), Status::Pending);
    // d becomes Ready only once both b and c are terminal.
    mark(&mut g, "b", Status::Running, None);
    mark(&mut g, "b", Status::Succeeded, Some("ok".to_owned()));
    assert_eq!(status_of(&g, "d"), Status::Pending);
    mark(&mut g, "c", Status::Running, None);
    mark(&mut g, "c", Status::Succeeded, Some("ok".to_owned()));
    assert_eq!(status_of(&g, "d"), Status::Ready);
    mark(&mut g, "d", Status::Running, None);
    mark(&mut g, "d", Status::Succeeded, Some("ok".to_owned()));
    assert_eq!(g.plan_status(), PlanStatus::Succeeded);
}

#[test]
fn failure_skips_dependents() {
    // Plan {a, b deps [a]}: a fails without retry, b is skipped, plan Failed.
    let steps = vec![step("a", "x", &[]), step("b", "y", &["a"])];
    let mut g = ActionGraph::from_steps("p".to_owned(), &steps).expect("valid plan");
    mark(&mut g, "a", Status::Running, None);
    mark(&mut g, "a", Status::Failed, None);
    assert_eq!(status_of(&g, "a"), Status::Failed);
    assert_eq!(status_of(&g, "b"), Status::Skipped);
    assert_eq!(g.plan_status(), PlanStatus::Failed);
}

#[test]
fn sibling_branches_survive_a_failure() {
    // Plan {a, b deps [a], c}: a and c succeed, b's capability is missing so
    // the driver fails it; no dependents of b exist, so nothing cascades.
    let steps = vec![step("a", "x", &[]), step("b", "missing", &["a"]), step("c", "z", &[])];
    let mut g = ActionGraph::from_steps("p".to_owned(), &steps).expect("valid plan");
    mark(&mut g, "a", Status::Running, None);
    mark(&mut g, "a", Status::Succeeded, Some("ok".to_owned()));
    mark(&mut g, "c", Status::Running, None);
    mark(&mut g, "c", Status::Succeeded, Some("ok".to_owned()));
    mark(&mut g, "b", Status::Running, None);
    mark(&mut g, "b", Status::Failed, None);
    assert_eq!(status_of(&g, "a"), Status::Succeeded);
    assert_eq!(status_of(&g, "c"), Status::Succeeded);
    assert_eq!(status_of(&g, "b"), Status::Failed);
    assert_eq!(g.plan_status(), PlanStatus::Failed);
}

#[test]
fn invalid_transitions_are_refused() {
    let steps = vec![step("a", "x", &[])];
    let mut g = ActionGraph::from_steps("p".to_owned(), &steps).expect("valid plan");
    let r = g.mark(&"a".to_owned(), Status::Succeeded, None);
    assert_eq!(r, Err(MeshError::InvalidTransition));
    let r = g.mark(&"ghost".to_owned(), Status::Running, None);
    assert_eq!(r, Err(MeshError::InvalidTransition));
    assert_eq!(status_of(&g, "a"), Status::Ready);
}

#[test]
fn dispatch_counts_attempts() {
    let steps = vec![step("a", "x", &[])];
    let mut g = ActionGraph::from_steps("p".to_owned(), &steps).expect("valid plan");
    mark(&mut g, "a", Status::Running, None);
    assert_eq!(g.nodes[0].attempt_count, 1);
    assert_eq!(g.nodes[0].result, None);
    mark(&mut g, "a", Status::Succeeded, Some("out".to_owned()));
    assert_eq!(g.nodes[0].result, Some("out".to_owned()));
}

#[test]
fn cancel_skips_waiting_nodes() {
    let mut g = ActionGraph::from_steps("p".to_owned(), &diamond()).expect("valid plan");
    mark(&mut g, "a", Status::Running, None);
    g.cancel();
    assert_eq!(status_of(&g, "a"), Status::Running);
    assert_eq!(status_of(&g, "b"), Status::Skipped);
    assert_eq!(status_of(&g, "d"), Status::Skipped);
    mark(&mut g, "a", Status::Succeeded, None);
    assert_eq!(g.plan_status(), PlanStatus::Cancelled);
}

#[test]
fn skip_propagates_against_submission_order() {
    // The dependents are listed before their dependencies, so a verdict has
    // to travel backwards through the submission order.
    let steps = vec![step("c", "z", &["b"]), step("b", "y", &["a"]), step("a", "x", &[])];
    let mut g = ActionGraph::from_steps("p".to_owned(), &steps).expect("valid plan");
    mark(&mut g, "a", Status::Running, None);
    mark(&mut g, "a", Status::Failed, None);
    assert_eq!(status_of(&g, "a"), Status::Failed);
    assert_eq!(status_of(&g, "b"), Status::Skipped);
    assert_eq!(status_of(&g, "c"), Status::Skipped);
    assert_eq!(g.plan_status(), PlanStatus::Failed);
}

#[test]
fn readiness_propagates_against_submission_order() {
    let steps = vec![step("c", "z", &["b"]), step("b", "y", &["a"]), step("a", "x", &[])];
    let mut g = ActionGraph::from_steps("p".to_owned(), &steps).expect("valid plan");
    assert_eq!(status_of(&g, "a"), Status::Ready);
    mark(&mut g, "a", Status::Running, None);
    mark(&mut g, "a", Status::Succeeded, Some("ok".to_owned()));
    assert_eq!(status_of(&g, "b"), Status::Ready);
    mark(&mut g, "b", Status::Running, None);
    mark(&mut g, "b", Status::Succeeded, Some("ok".to_owned()));
    assert_eq!(status_of(&g, "c"), Status::Ready);
    mark(&mut g, "c", Status::Running, None);
    mark(&mut g, "c", Status::Succeeded, Some("ok".to_owned()));
    assert_eq!(g.plan_status(), PlanStatus::Succeeded);
}

fn capability_failure(retryable: bool) -> Result<String, MeshError> {
    Err(MeshError::CapabilityFailure { retryable, reason: "boom".to_owned() })
}

#[test]
fn retryable_failure_returns_node_to_ready() {
    let steps = vec![step("a", "x", &[])];
    let mut g = ActionGraph::from_steps("p".to_owned(), &steps).expect("valid plan");
    mark(&mut g, "a", Status::Running, None);
    engine_step(&mut g, &"a".to_owned(), &capability_failure(true), 1).expect("step accepted");
    assert_eq!(status_of(&g, "a"), Status::Ready);
    assert_eq!(g.nodes[0].attempt_count, 1);
    mark(&mut g, "a", Status::Running, None);
    assert_eq!(g.nodes[0].attempt_count, 2);
    engine_step(&mut g, &"a".to_owned(), &capability_failure(true), 1).expect("step accepted");
    // Two attempts exhaust max_retries == 1: no further retry.
    assert_eq!(status_of(&g, "a"), Status::Failed);
    assert_eq!(g.plan_status(), PlanStatus::Failed);
}

#[test]
fn non_retryable_failure_skips_dependents() {
    let steps = vec![step("a", "x", &[]), step("b", "y", &["a"])];
    let mut g = ActionGraph::from_steps("p".to_owned(), &steps).expect("valid plan");
    mark(&mut g, "a", Status::Running, None);
    engine_step(&mut g, &"a".to_owned(), &capability_failure(false), 5).expect("step accepted");
    assert_eq!(status_of(&g, "a"), Status::Failed);
    assert_eq!(g.nodes[0].attempt_count, 1);
    assert_eq!(status_of(&g, "b"), Status::Skipped);
    assert_eq!(g.plan_status(), PlanStatus::Failed);
}

#[test]
fn success_outcome_records_the_result() {
    let steps = vec![step("a", "x", &[])];
    let mut g = ActionGraph::from_steps("p".to_owned(), &steps).expect("valid plan");
    mark(&mut g, "a", Status::Running, None);
    engine_step(&mut g, &"a".to_owned(), &Ok("out".to_owned()), 0).expect("step accepted");
    assert_eq!(status_of(&g, "a"), Status::Succeeded);
    assert_eq!(g.nodes[0].result, Some("out".to_owned()));
    let r = engine_step(&mut g, &"a".to_owned(), &Ok("again".to_owned()), 0);
    assert_eq!(r, Err(MeshError::InvalidTransition));
}

#[test]
fn registry_binds_each_name_once() {
    let mut reg = AgentRegistry::new();
    assert!(reg.register(&"Planner".to_owned()).is_ok());
    assert_eq!(reg.register(&"Planner".to_owned()), Err(MeshError::DuplicateCapability));
    assert!(reg.register(&"Infra".to_owned()).is_ok());
    assert_eq!(reg.resolve(&"Planner".to_owned()), Ok(0));
    assert_eq!(reg.resolve(&"Infra".to_owned()), Ok(1));
    assert_eq!(reg.resolve(&"ghost".to_owned()), Err(MeshError::UnknownCapability));
}

#[test]
fn unknown_capability_fails_the_node_without_cascade() {
    // Plan {a, b deps [a], c}: a and c resolve and succeed, b's action is
    // bound to no capability; b fails fatally, nothing depends on b.
    let steps = vec![step("a", "x", &[]), step("b", "missing", &["a"]), step("c", "z", &[])];
    let mut g = ActionGraph::from_steps("p".to_owned(), &steps).expect("valid plan");
    let mut reg = AgentRegistry::new();
    reg.register(&"x".to_owned()).expect("bound");
    reg.register(&"z".to_owned()).expect("bound");
    while let Some(i) = g.next_ready() {
        let id = g.nodes[i].id.clone();
        let action = g.nodes[i].action.clone();
        mark(&mut g, &id, Status::Running, None);
        let outcome = match reg.resolve(&action) {
            Ok(_) => Ok("done".to_owned()),
            Err(e) => Err(e),
        };
        engine_step(&mut g, &id, &outcome, 3).expect("step accepted");
    }
    assert_eq!(status_of(&g, "a"), Status::Succeeded);
    assert_eq!(status_of(&g, "c"), Status::Succeeded);
    assert_eq!(status_of(&g, "b"), Status::Failed);
    assert_eq!(g.plan_status(), PlanStatus::Failed);
}

#[test]
fn session_lifecycle_follows_the_states() {
    let (s, a) = mesh_step(PeerConnState::Discovered, &MeshEvent::Found);
    assert_eq!((s, a), (PeerConnState::Handshaking, MeshAction::StartHandshake));
    let (s, a) = mesh_step(s, &MeshEvent::HandshakeOk);
    assert_eq!((s, a), (PeerConnState::Connected, MeshAction::Nothing));
    let (s, a) = mesh_step(s, &MeshEvent::TimedOut);
    assert_eq!((s, a), (PeerConnState::Disconnected, MeshAction::DropConnection));
    let (s, a) = mesh_step(s, &MeshEvent::Found);
    assert_eq!((s, a), (PeerConnState::Handshaking, MeshAction::StartHandshake));
    let (s, a) = mesh_step(s, &MeshEvent::HandshakeFailed);
    assert_eq!((s, a), (PeerConnState::Disconnected, MeshAction::DropConnection));
    // An event that does not apply changes nothing.
    let (s, a) = mesh_step(s, &MeshEvent::Tick);
    assert_eq!((s, a), (PeerConnState::Disconnected, MeshAction::Nothing));
}

#[test]
fn session_errors_stay_on_the_observability_channel() {
    assert_eq!(mesh_error_of(&MeshEvent::HandshakeFailed), Some(MeshError::MeshHandshakeFailed));
    assert_eq!(mesh_error_of(&MeshEvent::TimedOut), Some(MeshError::PeerTimeout));
    assert_eq!(mesh_error_of(&MeshEvent::Tick), None);
    assert_eq!(mesh_error_of(&MeshEvent::Found), None);
}

#[test]
fn gossip_after_connection_exchanges_disjoint_plans() {
    // Two peers own disjoint plans; their sessions connect, and on the first
    // gossip tick each broadcasts its owned snapshot and merges the other's.
    let mut t1 = PeerTable::new(vec!["p1".to_owned()]);
    let mut t2 = PeerTable::new(vec!["p2".to_owned()]);
    let s1 = snap("p1", 1, &[("a", Status::Succeeded)]);
    let s2 = snap("p2", 1, &[("b", Status::Running)]);
    let mut st1 = PeerConnState::Discovered;
    let mut st2 = PeerConnState::Discovered;
    for ev in [MeshEvent::Found, MeshEvent::HandshakeOk] {
        let (n1, _) = mesh_step(st1, &ev);
        let (n2, _) = mesh_step(st2, &ev);
        st1 = n1;
        st2 = n2;
    }
    // One tick: each side is told to broadcast.
    let (st1, a1) = mesh_step(st1, &MeshEvent::Tick);
    let (st2, a2) = mesh_step(st2, &MeshEvent::Tick);
    assert_eq!(a1, MeshAction::BroadcastOwnedSnapshots);
    assert_eq!(a2, MeshAction::BroadcastOwnedSnapshots);
    // Each delivered frame is merged by the receiver.
    let f1 = MeshEvent::Frame { plan_id: "p1".to_owned(), version: 1, snapshot: s1.clone() };
    let (_, a) = mesh_step(st2, &f1);
    assert_eq!(a, MeshAction::MergeFrame);
    t2.merge(&"p1".to_owned(), &s1, 1);
    let f2 = MeshEvent::Frame { plan_id: "p2".to_owned(), version: 1, snapshot: s2.clone() };
    let (_, a) = mesh_step(st1, &f2);
    assert_eq!(a, MeshAction::MergeFrame);
    t1.merge(&"p2".to_owned(), &s2, 1);
    assert_eq!(t1.plans.len(), 1);
    assert_eq!(t1.plans[0].plan_id, "p2");
    assert_eq!(t1.plans[0].version, 1);
    assert_eq!(t2.plans[0].plan_id, "p1");
    assert_eq!(t2.plans[0].version, 1);
}

#[test]
fn stale_peers_are_evicted() {
    let mut t = PeerTable::new(vec![]);
    t.record_peer(&"old".to_owned(), &"10.0.0.2:1".to_owned(), 100);
    t.record_peer(&"live".to_owned(), &"10.0.0.3:1".to_owned(), 200);
    t.evict_stale(250, 100);
    assert_eq!(t.peers.len(), 1);
    assert_eq!(t.peers[0].peer_id, "live");
}

#[test]
fn agents_answer_under_their_registered_names() {
    let planner = PlannerAgent::new();
    assert_eq!(planner.name(), "Planner");
    let infra = InfraAgent::new();
    assert_eq!(infra.provider_name(), "Infra");
    let ctx = Context {
        plan_id: "p".to_owned(),
        node_id: "n".to_owned(),
        upstream: vec![("a".to_owned(), "out".to_owned())],
    };
    let direct = planner.plan("scale the database").expect("plans");
    let via_execute = planner.execute("scale the database", &ctx).expect("plans");
    assert_eq!(direct, via_execute);
}

fn snap(pid: &str, version: u64, ids: &[(&str, Status)]) -> PlanSnapshot {
    PlanSnapshot {
        plan_id: pid.to_owned(),
        version,
        statuses: ids.iter().map(|(i, s)| ((*i).to_owned(), *s)).collect(),
    }
}

#[test]
fn merge_is_idempotent_on_the_table() {
    let mut t = PeerTable::new(vec![]);
    let s = snap("p1", 3, &[("a", Status::Succeeded)]);
    t.merge(&"p1".to_owned(), &s, 3);
    let after_once = t.plans.clone();
    t.merge(&"p1".to_owned(), &s, 3);
    assert_eq!(t.plans, after_once);
}

#[test]
fn merge_ignores_stale_versions() {
    let mut t = PeerTable::new(vec![]);
    t.merge(&"p1".to_owned(), &snap("p1", 3, &[("a", Status::Running)]), 3);
    let before = t.plans.clone();
    t.merge(&"p1".to_owned(), &snap("p1", 2, &[("a", Status::Succeeded)]), 2);
    assert_eq!(t.plans, before);
    t.merge(&"p1".to_owned(), &snap("p1", 4, &[("a", Status::Succeeded)]), 4);
    assert_eq!(t.plans[0].version, 4);
    assert_eq!(t.plans[0].statuses[0].1, Status::Succeeded);
}

#[test]
fn merge_never_touches_owned_plans() {
    let mut t = PeerTable::new(vec!["mine".to_owned()]);
    t.merge(&"mine".to_owned(), &snap("mine", 9, &[("a", Status::Failed)]), 9);
    assert!(t.plans.is_empty());
}

#[test]
fn gossip_exchanges_disjoint_plans() {
    // Two peers own disjoint plans; after one exchange each table holds the
    // other's snapshot under the sent version.
    let mut t1 = PeerTable::new(vec!["p1".to_owned()]);
    let mut t2 = PeerTable::new(vec!["p2".to_owned()]);
    let s1 = snap("p1", 1, &[("a", Status::Succeeded)]);
    let s2 = snap("p2", 1, &[("b", Status::Running)]);
    t2.merge(&"p1".to_owned(), &s1, 1);
    t1.merge(&"p2".to_owned(), &s2, 1);
    assert_eq!(t1.plans.len(), 1);
    assert_eq!(t1.plans[0].plan_id, "p2");
    assert_eq!(t1.plans[0].version, 1);
    assert_eq!(t2.plans[0].plan_id, "p1");
    assert_eq!(t2.plans[0].version, 1);
}

#[test]
fn record_peer_updates_liveness() {
    let mut t = PeerTable::new(vec![]);
    t.record_peer(&"peer-1".to_owned(), &"10.0.0.2:4001".to_owned(), 100);
    t.record_peer(&"peer-1".to_owned(), &"10.0.0.3:4001".to_owned(), 200);
    assert_eq!(t.peers.len(), 1);
    assert_eq!(t.peers[0].last_seen, 200);
    assert_eq!(t.peers[0].last_address, "10.0.0.3:4001");
}

#[test]
fn planner_compiles_scale_database_intent() {
    let planner = PlannerAgent::new();
    let out = planner.plan("please scale the database now").expect("plans");
    assert!(out.contains("scale_db"));
    assert!(out.contains("check_db_load"));
    let steps: Vec<Step> = parse_plan(&out);
    let g = ActionGraph::from_steps("scale-database".to_owned(), &steps).expect("valid plan");
    assert_eq!(g.nodes.len(), 2);
    assert_eq!(g.nodes[1].deps, vec![0]);
}

#[test]
fn planner_falls_back_to_default_check() {
    let planner = PlannerAgent::new();
    let out = planner.plan("restart the frobnicator").expect("plans");
    assert!(out.contains("default_check"));
    assert!(!out.contains("scale_db"));
}

#[test]
fn config_defaults_are_offline_first() {
    let c = load_config("config.json").expect("config loads");
    assert!(c.offline_mode);
    assert_eq!(c.data_dir, "./data");
    assert!(c.mcp_endpoints.is_empty());
}

// A minimal reader for the plan wire format used by the tests: enough for
// the planner's own output.
fn parse_plan(text: &str) -> Vec<Step> {
    let v: serde_json::Value = serde_json::from_str(text).expect("valid json");
    v["steps"]
        .as_array()
        .expect("steps array")
        .iter()
        .map(|s| Step {
            id: s["id"].as_str().expect("id").to_owned(),
            action: s["action"].as_str().expect("action").to_owned(),
            deps: s["deps"]
                .as_array()
                .expect("deps")
                .iter()
                .map(|d| d.as_str().expect("dep").to_owned())
                .collect(),
        })
        .collect()
}
