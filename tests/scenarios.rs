use nexum::completion::FailOutcome;
use nexum::dispatch::{LeasedTask, PollResult};
use nexum::ir::{Compatibility, NodeDef, NodeKind, Route, WorkflowIr};
use nexum::store::{Engine, EventBody, ExecStatus, Payload, TaskStatus};

const NOW: i64 = 1_700_000_000;

fn node(id: &str, kind: NodeKind, deps: &[&str]) -> NodeDef {
    NodeDef {
        id: id.to_string(),
        kind,
        dependencies: deps.iter().map(|d| d.to_string()).collect(),
        routes: Vec::new(),
        delay_seconds: 0,
    }
}

fn register(eng: &mut Engine, w: &str, h: &str, nodes: Vec<NodeDef>) -> Compatibility {
    let text = format!("{}-{}-{}", w, h, nodes.len());
    eng.register_workflow(w, h, &text, WorkflowIr { nodes, nodes_given: true }, NOW).ok().expect("registered")
}

fn lease(eng: &mut Engine, h: &str, now: i64) -> LeasedTask {
    match eng.poll_task("worker-1", h, now).ok().expect("poll") {
        PollResult::Leased(t) => t,
        PollResult::Empty => panic!("no task"),
        PollResult::TimerFired => panic!("timer"),
    }
}

fn status_json(eng: &Engine, e: &str) -> (ExecStatus, serde_json::Value) {
    let (st, text) = eng.get_status(e).ok().expect("status");
    (st, serde_json::from_str(&text).expect("status json"))
}

fn completions(eng: &Engine, e: &str) -> Vec<(u64, String, String)> {
    let mut out = Vec::new();
    for ev in eng.events.iter() {
        if ev.execution_id == e {
            if let EventBody::NodeCompleted { node_id, output } = &ev.body {
                let text = match output {
                    Payload::Inline(t) => t.clone(),
                    Payload::Offloaded { blob_id, .. } => format!("blob:{}", blob_id),
                };
                out.push((ev.sequence_id, node_id.clone(), text));
            }
        }
    }
    out
}

#[test]
fn linear_three_nodes() {
    let mut eng = Engine::new(".nexum/blobs");
    register(&mut eng, "lin", "v1", vec![
        node("A", NodeKind::Compute, &[]),
        node("B", NodeKind::Compute, &["A"]),
        node("C", NodeKind::Compute, &["B"]),
    ]);
    let e = eng.start_execution("lin", "v1", "{\"x\":1}", NOW).ok().expect("start");
    let outputs = ["{\"a\":1}", "{\"b\":2}", "{\"c\":3}"];
    let mut seen = Vec::new();
    for out in outputs.iter() {
        let t = lease(&mut eng, "v1", NOW);
        seen.push(t.node_id.clone());
        let input: serde_json::Value = serde_json::from_str(&t.input_json).unwrap();
        assert_eq!(input["input"]["x"], 1);
        assert!(eng.complete_task(&t.task_id, out, NOW).is_ok());
    }
    assert_eq!(seen, vec!["A", "B", "C"]);
    assert!(matches!(eng.poll_task("worker-1", "v1", NOW), Ok(PollResult::Empty)));
    let (st, nodes) = status_json(&eng, &e);
    assert_eq!(st, ExecStatus::Completed);
    let expected: serde_json::Value = serde_json::from_str("{\"A\":{\"a\":1},\"B\":{\"b\":2},\"C\":{\"c\":3}}").unwrap();
    assert_eq!(nodes, expected);
    let evs: Vec<u64> = eng.events.iter().filter(|ev| ev.execution_id == e).map(|ev| ev.sequence_id).collect();
    assert_eq!(evs, vec![1, 2, 3]);
    assert!(eng.events.iter().all(|ev| matches!(ev.body, EventBody::NodeCompleted { .. })));
}

#[test]
fn dependency_outputs_reach_worker() {
    let mut eng = Engine::new(".nexum/blobs");
    register(&mut eng, "lin", "v1", vec![
        node("A", NodeKind::Compute, &[]),
        node("B", NodeKind::Compute, &["A"]),
    ]);
    eng.start_execution("lin", "v1", "{\"x\":1}", NOW).ok().unwrap();
    let a = lease(&mut eng, "v1", NOW);
    eng.complete_task(&a.task_id, "{ \"a\" : 1 }", NOW).ok().unwrap();
    let b = lease(&mut eng, "v1", NOW);
    assert_eq!(b.input_json, "{\"input\":{\"x\":1},\"deps\":{\"A\":{\"a\":1}}}");
    assert_eq!(b.idempotency_key, format!("{}:B:v1", b.execution_id));
}

#[test]
fn router_takes_one_branch() {
    let mut eng = Engine::new(".nexum/blobs");
    let mut r = node("R", NodeKind::Router, &[]);
    r.routes = vec![
        Route { condition: "true".to_string(), target: "X".to_string() },
        Route { condition: "true".to_string(), target: "Y".to_string() },
    ];
    register(&mut eng, "route", "v1", vec![r, node("X", NodeKind::Compute, &["R"]), node("Y", NodeKind::Compute, &["R"])]);
    let e = eng.start_execution("route", "v1", "{}", NOW).ok().unwrap();
    let t = lease(&mut eng, "v1", NOW);
    assert_eq!(t.node_id, "R");
    eng.complete_task(&t.task_id, "{\"routed_to\":\"X\"}", NOW).ok().unwrap();
    assert!(eng.tasks.iter().any(|t| t.node_id == "X"));
    assert!(!eng.tasks.iter().any(|t| t.node_id == "Y"));
    let x = lease(&mut eng, "v1", NOW);
    assert_eq!(x.node_id, "X");
    eng.complete_task(&x.task_id, "{\"ok\":true}", NOW).ok().unwrap();
    assert!(!eng.tasks.iter().any(|t| t.node_id == "Y"));
    let (st, _) = status_json(&eng, &e);
    assert_eq!(st, ExecStatus::Completed);
}

#[test]
fn map_of_three() {
    let mut eng = Engine::new(".nexum/blobs");
    register(&mut eng, "fan", "v1", vec![node("M", NodeKind::Fanout, &[])]);
    let e = eng.start_execution("fan", "v1", "{}", NOW).ok().unwrap();
    let m = lease(&mut eng, "v1", NOW);
    assert_eq!(m.node_type, NodeKind::Fanout);
    eng.complete_task(&m.task_id, "[10,20,30]", NOW).ok().unwrap();
    let mut subs = Vec::new();
    for _ in 0..3 {
        let t = lease(&mut eng, "v1", NOW);
        assert_eq!(t.node_id, "M");
        assert!(t.is_map_subtask);
        assert_eq!(t.map_total, 3);
        subs.push(t);
    }
    subs.sort_by_key(|t| t.map_index);
    assert_eq!(subs.iter().map(|t| t.map_item_json.clone()).collect::<Vec<_>>(), vec!["10", "20", "30"]);
    let results = ["{\"r\":100}", "{\"r\":400}", "{\"r\":900}"];
    for i in [2usize, 0, 1] {
        eng.complete_task(&subs[i].task_id, results[i], NOW).ok().unwrap();
    }
    let done: Vec<_> = completions(&eng, &e).into_iter().filter(|c| c.1 == "M").collect();
    assert_eq!(done.len(), 1);
    assert_eq!(done[0].2, "[{\"r\":100},{\"r\":400},{\"r\":900}]");
    let (st, _) = status_json(&eng, &e);
    assert_eq!(st, ExecStatus::Completed);
}

#[test]
fn retry_then_success() {
    let mut eng = Engine::new(".nexum/blobs");
    register(&mut eng, "retry", "v1", vec![node("E", NodeKind::Effect, &[])]);
    let e = eng.start_execution("retry", "v1", "{}", NOW).ok().unwrap();
    let mut now = NOW;
    let mut counts = Vec::new();
    let mut delays = Vec::new();
    for _ in 0..3 {
        let t = lease(&mut eng, "v1", now);
        let x = eng.tasks.iter().position(|q| q.task_id == t.task_id).unwrap();
        counts.push(eng.tasks[x].retry_count);
        match eng.fail_task(&t.task_id, "boom", now).ok().unwrap() {
            FailOutcome::Retried { delay_seconds, .. } => {
                delays.push(delay_seconds);
                assert!(matches!(eng.poll_task("worker-1", "v1", now + delay_seconds - 1), Ok(PollResult::Empty)));
                now += delay_seconds;
            }
            other => panic!("unexpected {:?}", other),
        }
    }
    assert_eq!(counts, vec![0, 1, 2]);
    assert_eq!(delays, vec![1, 2, 4]);
    let t = lease(&mut eng, "v1", now);
    eng.complete_task(&t.task_id, "{\"ok\":1}", now).ok().unwrap();
    assert!(matches!(eng.events.last().unwrap().body, EventBody::NodeCompleted { .. }));
    assert!(eng.metrics.tasks_retried >= 3);
    assert_eq!(status_json(&eng, &e).0, ExecStatus::Completed);
}

#[test]
fn retry_exhaustion() {
    let mut eng = Engine::new(".nexum/blobs");
    register(&mut eng, "retry", "v1", vec![node("E", NodeKind::Effect, &[])]);
    let e = eng.start_execution("retry", "v1", "{}", NOW).ok().unwrap();
    let mut now = NOW;
    let mut last = None;
    for _ in 0..4 {
        let t = lease(&mut eng, "v1", now);
        last = eng.fail_task(&t.task_id, "boom", now).ok();
        now += 60;
    }
    assert_eq!(last, Some(FailOutcome::Failed));
    assert_eq!(eng.tasks[0].status, TaskStatus::Failed);
    assert_eq!(eng.get_status(&e).ok().unwrap().0, ExecStatus::Failed);
    match &eng.events.last().unwrap().body {
        EventBody::NodeFailed { node_id, error, final_retry } => {
            assert_eq!(node_id, "E");
            assert_eq!(error, "boom");
            assert_eq!(*final_retry, Some(3));
        }
        _ => panic!("expected NodeFailed"),
    }
}

#[test]
fn sub_workflow_couples_once() {
    let mut eng = Engine::new(".nexum/blobs");
    register(&mut eng, "C", "child-v1", vec![node("K", NodeKind::Compute, &[])]);
    register(&mut eng, "P", "parent-v1", vec![node("N", NodeKind::Subworkflow, &[]), node("Z", NodeKind::Compute, &["N"])]);
    let p = eng.start_execution("P", "parent-v1", "{}", NOW).ok().unwrap();
    let n = lease(&mut eng, "parent-v1", NOW);
    assert_eq!(n.node_id, "N");
    eng.complete_task(&n.task_id, "{\"subWorkflowId\":\"C\",\"childInput\":{\"k\":1}}", NOW).ok().unwrap();
    let child = eng.executions.iter().find(|x| x.workflow_id == "C").expect("child");
    let link = child.parent.as_ref().expect("parent link");
    assert_eq!(link.execution_id, p);
    assert_eq!(link.node_id, "N");
    assert_eq!(child.input_json, "{\"k\":1}");
    let c = child.execution_id.clone();
    let k = lease(&mut eng, "child-v1", NOW);
    let input: serde_json::Value = serde_json::from_str(&k.input_json).unwrap();
    assert_eq!(input["input"]["k"], 1);
    eng.complete_task(&k.task_id, "{\"done\":true}", NOW).ok().unwrap();
    assert_eq!(eng.get_status(&c).ok().unwrap().0, ExecStatus::Completed);
    let coupled: Vec<_> = completions(&eng, &p).into_iter().filter(|x| x.1 == "N").collect();
    assert_eq!(coupled.len(), 1);
    assert_eq!(coupled[0].2, "{\"done\":true}");
    let x = eng.tasks.iter().position(|t| t.task_id == n.task_id).unwrap();
    assert_eq!(eng.tasks[x].status, TaskStatus::Done);
    eng.check_execution_complete(&c, "C", "child-v1", NOW).ok().unwrap();
    assert_eq!(completions(&eng, &p).into_iter().filter(|x| x.1 == "N").count(), 1);
    let z = lease(&mut eng, "parent-v1", NOW);
    assert_eq!(z.node_id, "Z");
    eng.complete_task(&z.task_id, "{}", NOW).ok().unwrap();
    assert_eq!(eng.get_status(&p).ok().unwrap().0, ExecStatus::Completed);
}

#[test]
fn timer_fires_after_delay() {
    let mut eng = Engine::new(".nexum/blobs");
    let mut t = node("T", NodeKind::Timer, &[]);
    t.delay_seconds = 30;
    register(&mut eng, "tm", "v1", vec![t, node("D", NodeKind::Compute, &["T"])]);
    let e = eng.start_execution("tm", "v1", "{}", NOW).ok().unwrap();
    assert!(matches!(eng.poll_task("w", "v1", NOW + 29), Ok(PollResult::Empty)));
    assert!(matches!(eng.poll_task("w", "v1", NOW + 30), Ok(PollResult::TimerFired)));
    let c = completions(&eng, &e);
    assert_eq!(c[0].1, "T");
    assert_eq!(c[0].2, "{\"delay_seconds\":30,\"waited_until\":\"2023-11-14T22:13:50+00:00\"}");
    let d = lease(&mut eng, "v1", NOW + 30);
    assert_eq!(d.node_id, "D");
}

#[test]
fn approval_flow() {
    let mut eng = Engine::new(".nexum/blobs");
    register(&mut eng, "ap", "v1", vec![node("H", NodeKind::HumanApproval, &[]), node("G", NodeKind::Compute, &["H"])]);
    let e = eng.start_execution("ap", "v1", "{}", NOW).ok().unwrap();
    assert!(eng.approve_task(&e, "H", "ann", "fine", NOW).is_err());
    let h = lease(&mut eng, "v1", NOW);
    assert_eq!(h.node_type, NodeKind::HumanApproval);
    let pending = eng.get_pending_approvals();
    assert_eq!(pending.len(), 1);
    assert_eq!(pending[0].workflow_id, "ap");
    assert_eq!(eng.reclaim_expired_leases(NOW + 1000), 0);
    eng.approve_task(&e, "H", "ann", "fine", NOW).ok().unwrap();
    let c = completions(&eng, &e);
    assert_eq!(c[0].2, "{\"approved\":true,\"approver\":\"ann\",\"comment\":\"fine\"}");
    assert_eq!(lease(&mut eng, "v1", NOW).node_id, "G");
}

#[test]
fn rejection_fails_execution() {
    let mut eng = Engine::new(".nexum/blobs");
    register(&mut eng, "ap", "v1", vec![node("H", NodeKind::HumanApproval, &[])]);
    let e = eng.start_execution("ap", "v1", "{}", NOW).ok().unwrap();
    lease(&mut eng, "v1", NOW);
    eng.reject_task(&e, "H", "bob", "no budget").ok().unwrap();
    assert_eq!(eng.get_status(&e).ok().unwrap().0, ExecStatus::Failed);
    match &eng.events.last().unwrap().body {
        EventBody::NodeFailed { error, final_retry, .. } => {
            assert_eq!(error, "Rejected by bob: no budget");
            assert_eq!(*final_retry, None);
        }
        _ => panic!("expected NodeFailed"),
    }
}

#[test]
fn cancel_stops_everything() {
    let mut eng = Engine::new(".nexum/blobs");
    register(&mut eng, "cx", "v1", vec![node("A", NodeKind::Compute, &[]), node("B", NodeKind::Compute, &[])]);
    let e = eng.start_execution("cx", "v1", "{}", NOW).ok().unwrap();
    let a = lease(&mut eng, "v1", NOW);
    eng.cancel_execution(&e).ok().unwrap();
    assert!(eng.tasks.iter().all(|t| t.status == TaskStatus::Cancelled));
    assert_eq!(eng.get_status(&e).ok().unwrap().0, ExecStatus::Cancelled);
    assert!(matches!(eng.events.last().unwrap().body, EventBody::ExecutionCancelled));
    assert!(eng.complete_task(&a.task_id, "{}", NOW).is_ok());
    assert!(eng.tasks.iter().all(|t| t.status == TaskStatus::Cancelled));
    assert!(eng.cancel_execution("exec-missing").is_err());
}

#[test]
fn expired_lease_is_reclaimed() {
    let mut eng = Engine::new(".nexum/blobs");
    register(&mut eng, "rc", "v1", vec![node("A", NodeKind::Compute, &[])]);
    eng.start_execution("rc", "v1", "{}", NOW).ok().unwrap();
    lease(&mut eng, "v1", NOW);
    assert_eq!(eng.reclaim_expired_leases(NOW + 60), 0);
    assert_eq!(eng.reclaim_expired_leases(NOW + 61), 1);
    assert_eq!(eng.tasks[0].status, TaskStatus::Ready);
    assert_eq!(eng.tasks[0].retry_count, 1);
    assert!(eng.tasks[0].locked_by.is_none());
}

#[test]
fn large_output_is_offloaded_and_resolved() {
    let mut eng = Engine::new(".nexum/blobs");
    register(&mut eng, "big", "v1", vec![node("A", NodeKind::Compute, &[]), node("B", NodeKind::Compute, &["A"])]);
    let e = eng.start_execution("big", "v1", "{}", NOW).ok().unwrap();
    let a = lease(&mut eng, "v1", NOW);
    let big = format!("{{\"data\":\"{}\"}}", "x".repeat(110_000));
    eng.complete_task(&a.task_id, &big, NOW).ok().unwrap();
    match &eng.events[0].body {
        EventBody::NodeCompleted { output: Payload::Offloaded { blob_id, size, path }, .. } => {
            assert_eq!(blob_id, &format!("{}-A", e));
            assert_eq!(*size as usize, big.len());
            assert_eq!(path, &format!(".nexum/blobs/{}-A.json", e));
        }
        _ => panic!("expected a claim check"),
    }
    let b = lease(&mut eng, "v1", NOW);
    let input: serde_json::Value = serde_json::from_str(&b.input_json).unwrap();
    assert_eq!(input["deps"]["A"]["data"].as_str().unwrap().len(), 110_000);
}

#[test]
fn compatibility_on_registration() {
    let mut eng = Engine::new(".nexum/blobs");
    let base = || vec![node("A", NodeKind::Compute, &[]), node("B", NodeKind::Compute, &["A"])];
    assert_eq!(register(&mut eng, "wf", "v1", base()), Compatibility::New);
    let text = "wf-v1-2";
    assert_eq!(eng.register_workflow("wf", "v1b", text, WorkflowIr { nodes: base(), nodes_given: true }, NOW).ok(), Some(Compatibility::Identical));
    let mut more = base();
    more.push(node("C", NodeKind::Compute, &["B"]));
    assert_eq!(register(&mut eng, "wf", "v2", more), Compatibility::Safe);
    assert_eq!(register(&mut eng, "wf", "v3", vec![node("A", NodeKind::Compute, &[])]), Compatibility::Breaking);
    let versions = eng.list_workflow_versions("wf");
    assert_eq!(versions.len(), 4);
    assert_eq!(versions[0].version_hash, "v3");
    let dup = vec![node("A", NodeKind::Compute, &[]), node("A", NodeKind::Effect, &[])];
    assert!(eng.register_workflow("wf", "v4", "dup", WorkflowIr { nodes: dup, nodes_given: true }, NOW).is_err());
}

#[test]
fn listing_filters_and_limits() {
    let mut eng = Engine::new(".nexum/blobs");
    register(&mut eng, "a", "v1", vec![node("A", NodeKind::Compute, &[])]);
    register(&mut eng, "b", "v2", vec![node("B", NodeKind::Compute, &[])]);
    let first = eng.start_execution("a", "v1", "{}", NOW).ok().unwrap();
    let second = eng.start_execution("a", "v1", "{}", NOW + 1).ok().unwrap();
    eng.start_execution("b", "v2", "{}", NOW + 2).ok().unwrap();
    let rows = eng.list_executions("a", "", 0);
    assert_eq!(rows.iter().map(|r| r.execution_id.clone()).collect::<Vec<_>>(), vec![second.clone(), first]);
    assert_eq!(eng.list_executions("", "", 1).len(), 1);
    assert_eq!(eng.list_executions("", "RUNNING", 10).len(), 3);
    assert_eq!(eng.list_executions("", "COMPLETED", 10).len(), 0);
    assert_eq!(eng.list_workflow_versions("a")[0].active_executions, 2);
}

#[test]
fn unknown_ids_are_not_found() {
    let mut eng = Engine::new(".nexum/blobs");
    assert!(matches!(eng.complete_task("task-x", "{}", NOW), Err(nexum::store::EngineError::NotFound(_))));
    assert!(matches!(eng.fail_task("task-x", "e", NOW), Err(nexum::store::EngineError::NotFound(_))));
    assert!(matches!(eng.get_status("exec-x"), Err(nexum::store::EngineError::NotFound(_))));
    assert!(matches!(eng.start_execution("nope", "v", "{}", NOW), Err(nexum::store::EngineError::NotFound(_))));
}

#[test]
fn map_output_must_be_array() {
    let mut eng = Engine::new(".nexum/blobs");
    register(&mut eng, "fan", "v1", vec![node("M", NodeKind::Fanout, &[])]);
    eng.start_execution("fan", "v1", "{}", NOW).ok().unwrap();
    let m = lease(&mut eng, "v1", NOW);
    assert!(matches!(eng.complete_task(&m.task_id, "{\"a\":1}", NOW), Err(nexum::store::EngineError::InvalidArgument(_))));
}

#[test]
fn repeated_scheduling_keeps_one_task_per_node() {
    let mut eng = Engine::new(".nexum/blobs");
    register(&mut eng, "p", "v1", vec![node("A", NodeKind::Compute, &[]), node("B", NodeKind::Compute, &[])]);
    let e = eng.start_execution("p", "v1", "{}", NOW).ok().unwrap();
    for _ in 0..5 {
        eng.schedule_ready_nodes(&e, "p", "v1", NOW).ok().unwrap();
    }
    assert_eq!(eng.tasks.len(), 2);
    assert!(matches!(eng.schedule_ready_nodes(&e, "p", "v9", NOW), Err(nexum::store::EngineError::NotFound(_))));
}

#[test]
fn nodes_wait_for_their_dependencies() {
    let mut eng = Engine::new(".nexum/blobs");
    register(&mut eng, "d", "v1", vec![node("A", NodeKind::Compute, &[]), node("B", NodeKind::Compute, &["A"])]);
    eng.start_execution("d", "v1", "{}", NOW).ok().unwrap();
    assert_eq!(eng.tasks.len(), 1);
    assert_eq!(eng.tasks[0].node_id, "A");
    let a = lease(&mut eng, "v1", NOW);
    assert!(matches!(eng.poll_task("w", "v1", NOW), Ok(PollResult::Empty)));
    eng.complete_task(&a.task_id, "{}", NOW).ok().unwrap();
    assert_eq!(eng.tasks.len(), 2);
    assert_eq!(eng.tasks[1].node_id, "B");
}

#[test]
fn task_of_missing_execution_is_internal_error() {
    let mut eng = Engine::new(".nexum/blobs");
    register(&mut eng, "d", "v1", vec![node("A", NodeKind::Compute, &[])]);
    let e = eng.start_execution("d", "v1", "{}", NOW).ok().unwrap();
    let a = lease(&mut eng, "v1", NOW);
    eng.executions.retain(|x| x.execution_id != e);
    assert!(matches!(eng.complete_task(&a.task_id, "{}", NOW), Err(nexum::store::EngineError::Internal(_))));
}

#[test]
fn failure_report_retries_whatever_the_status() {
    let mut eng = Engine::new(".nexum/blobs");
    register(&mut eng, "cx", "v1", vec![node("A", NodeKind::Compute, &[])]);
    let e = eng.start_execution("cx", "v1", "{}", NOW).ok().unwrap();
    let a = lease(&mut eng, "v1", NOW);
    eng.cancel_execution(&e).ok().unwrap();
    let out = eng.fail_task(&a.task_id, "late", NOW).ok().unwrap();
    assert_eq!(out, FailOutcome::Retried { retry_count: 1, delay_seconds: 1 });
    assert_eq!(eng.tasks[0].status, TaskStatus::Ready);
    assert_eq!(eng.tasks[0].scheduled_at, NOW + 1);
}

#[test]
fn inline_pointer_is_followed_for_workers() {
    let mut eng = Engine::new(".nexum/blobs");
    register(&mut eng, "ptr", "v1", vec![
        node("A", NodeKind::Compute, &[]),
        node("B", NodeKind::Compute, &["A"]),
        node("C", NodeKind::Compute, &["B"]),
    ]);
    let e = eng.start_execution("ptr", "v1", "{}", NOW).ok().unwrap();
    let a = lease(&mut eng, "v1", NOW);
    let big = format!("{{\"data\":\"{}\"}}", "y".repeat(120_000));
    eng.complete_task(&a.task_id, &big, NOW).ok().unwrap();
    let b = lease(&mut eng, "v1", NOW);
    let pointer = format!("{{\"__nexum_claim_check__\":true,\"blob_id\":\"{}-A\",\"path\":\"p\",\"size\":1}}", e);
    let wrapped = serde_json::to_string(&pointer).unwrap();
    eng.complete_task(&b.task_id, &wrapped, NOW).ok().unwrap();
    let c = lease(&mut eng, "v1", NOW);
    let input: serde_json::Value = serde_json::from_str(&c.input_json).unwrap();
    assert_eq!(input["deps"]["B"]["data"].as_str().unwrap().len(), 120_000);
}

#[test]
fn task_ids_carry_their_row() {
    let mut eng = Engine::new(".nexum/blobs");
    register(&mut eng, "ids", "v1", vec![node("A", NodeKind::Compute, &[]), node("B", NodeKind::Compute, &[])]);
    eng.start_execution("ids", "v1", "{}", NOW).ok().unwrap();
    assert_eq!(eng.tasks.len(), 2);
    assert!(eng.tasks[0].task_id.starts_with("task-0-"));
    assert!(eng.tasks[1].task_id.starts_with("task-1-"));
    assert_ne!(eng.tasks[0].task_id, eng.tasks[1].task_id);
}
