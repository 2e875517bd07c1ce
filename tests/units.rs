use nexum::condition::{json_equals, parse_condition, CompareOp, JsonLeaf};
use nexum::config::is_postgres;
use nexum::ir::{analyze_compatibility, Compatibility, NodeDef, NodeKind, WorkflowIr};
use nexum::metrics::Metrics;
use nexum::text::{decimal, find, strip_exec};

fn node(id: &str, kind: NodeKind, deps: &[&str]) -> NodeDef {
    NodeDef { id: id.to_string(), kind, dependencies: deps.iter().map(|d| d.to_string()).collect(), routes: Vec::new(), delay_seconds: 0 }
}

#[test]
fn parse_condition_probes_operators_in_order() {
    assert_eq!(parse_condition("$.a.b >= 3"), Some(("$.a.b".to_string(), ">=".to_string(), "3".to_string())));
    assert_eq!(parse_condition("status == \"ok\""), Some(("status".to_string(), "==".to_string(), "ok".to_string())));
    assert_eq!(parse_condition("x != 1"), Some(("x".to_string(), "!=".to_string(), "1".to_string())));
    assert_eq!(parse_condition("x < 2"), Some(("x".to_string(), "<".to_string(), "2".to_string())));
    assert_eq!(parse_condition("true"), None);
}

#[test]
fn compare_op_symbols() {
    assert_eq!(CompareOp::from_symbol(">="), Some(CompareOp::Ge));
    assert_eq!(CompareOp::from_symbol("<"), Some(CompareOp::Lt));
    assert_eq!(CompareOp::from_symbol("=>"), None);
}

#[test]
fn json_equality_is_type_aware() {
    assert!(json_equals(&JsonLeaf::Bool(true), "true"));
    assert!(!json_equals(&JsonLeaf::Bool(true), "false"));
    assert!(json_equals(&JsonLeaf::Number("42".to_string()), "42"));
    assert!(json_equals(&JsonLeaf::Text("ok".to_string()), "ok"));
    assert!(json_equals(&JsonLeaf::Null, "null"));
    assert!(!json_equals(&JsonLeaf::Null, ""));
}

#[test]
fn postgres_urls() {
    assert!(is_postgres("postgres://u@h/db"));
    assert!(is_postgres("postgresql://u@h/db"));
    assert!(!is_postgres("sqlite://.nexum/local.db?mode=rwc"));
}

#[test]
fn text_helpers() {
    assert_eq!(decimal(0), "0");
    assert_eq!(decimal(102400), "102400");
    assert_eq!(find("a>=b", ">="), Some(1));
    assert_eq!(find("ab", "c"), None);
    assert_eq!(strip_exec("  x y \n", false), "x y");
    assert_eq!(strip_exec("\"\"q\"", true), "q");
}

#[test]
fn metrics_exposition() {
    let mut m = Metrics::new();
    m.tasks_retried = 3;
    let text = m.prometheus_text();
    assert!(text.starts_with("# HELP nexum_executions_started_total Total workflow executions started\n# TYPE nexum_executions_started_total counter\nnexum_executions_started_total 0\n"));
    assert!(text.ends_with("nexum_tasks_retried_total 3\n"));
    assert_eq!(text.lines().count(), 18);
}

#[test]
fn compatibility_shapes() {
    let old = WorkflowIr { nodes: vec![node("A", NodeKind::Compute, &[]), node("B", NodeKind::Compute, &["A"])], nodes_given: true };
    let same = WorkflowIr { nodes: vec![node("B", NodeKind::Compute, &["A"]), node("A", NodeKind::Compute, &[])], nodes_given: true };
    assert_eq!(analyze_compatibility(&old, &same), Compatibility::Identical);
    let wider = WorkflowIr { nodes: vec![node("A", NodeKind::Compute, &[]), node("B", NodeKind::Compute, &["A"]), node("C", NodeKind::Compute, &[])], nodes_given: true };
    assert_eq!(analyze_compatibility(&old, &wider), Compatibility::Safe);
    let retyped = WorkflowIr { nodes: vec![node("A", NodeKind::Effect, &[]), node("B", NodeKind::Compute, &["A"])], nodes_given: true };
    assert_eq!(analyze_compatibility(&old, &retyped), Compatibility::Breaking);
    let rewired = WorkflowIr { nodes: vec![node("A", NodeKind::Compute, &[]), node("B", NodeKind::Compute, &[])], nodes_given: true };
    assert_eq!(analyze_compatibility(&old, &rewired), Compatibility::Breaking);
    assert_eq!(Compatibility::Safe.name(), "SAFE");
    assert_eq!(Compatibility::Identical.message(), "No changes detected.");
}

#[test]
fn node_kind_names() {
    assert_eq!(NodeKind::from_name("MAP"), NodeKind::Fanout);
    assert_eq!(NodeKind::from_name("HUMAN_APPROVAL"), NodeKind::HumanApproval);
    assert_eq!(NodeKind::from_name("whatever"), NodeKind::Compute);
    assert_eq!(NodeKind::MapSubtask.name(), "MAP_SUBTASK");
}

#[test]
fn document_without_nodes_is_breaking() {
    let old = WorkflowIr { nodes: vec![node("A", NodeKind::Compute, &[])], nodes_given: true };
    let bare = WorkflowIr { nodes: Vec::new(), nodes_given: false };
    assert_eq!(analyze_compatibility(&old, &bare), Compatibility::Breaking);
    assert_eq!(analyze_compatibility(&bare, &old), Compatibility::Breaking);
}
