//! Properties of the engine that hold across operations, stated over the
//! same specifications as the operations' contracts.

use vstd::prelude::*;
use crate::coordinator::{fan_in_items, item_text};
use crate::engine::{due_to_complete, enqueued_ready, exec_of, ready_in};
use crate::ir::{Compatibility, NodeDef, NodeKind, WorkflowIr, breaks, registration_class, deps_view};
use crate::json::routed_to_of;
use crate::scheduler::{first_output, is_satisfied, is_skipped, router_skips};
use crate::store::{Engine, ExecStatus, MapResult, Task, completions_of, live, seq_ids};

verus! {

/// In every reachable store the events of each execution carry the
/// sequence ids 1, 2, 3, ... in log order: dense, from 1, no duplicates.
pub proof fn lemma_event_monotonicity(eng: Engine, e: Seq<char>)
    requires
        eng.wf(),
    ensures
        forall|k: int| 0 <= k < seq_ids(eng.events@, e).len() ==> seq_ids(eng.events@, e)[k] == k + 1,
        forall|a: int, b: int| 0 <= a < b < seq_ids(eng.events@, e).len() ==> seq_ids(eng.events@, e)[a] != seq_ids(eng.events@, e)[b],
{
    assert forall|k: int| 0 <= k < seq_ids(eng.events@, e).len() implies seq_ids(eng.events@, e)[k] == k + 1 by {}
}

/// In every reachable store, no two tasks of the same node of the same
/// execution are READY or RUNNING at once.
pub proof fn lemma_one_live_task(eng: Engine, i: int, j: int)
    requires
        eng.wf(),
        0 <= i < eng.tasks@.len(),
        0 <= j < eng.tasks@.len(),
        i != j,
        eng.tasks@[i].execution_id@ == eng.tasks@[j].execution_id@,
        eng.tasks@[i].node_id@ == eng.tasks@[j].node_id@,
    ensures
        !(live(eng.tasks@[i]) && live(eng.tasks@[j])),
{
}

/// In every reachable store no two tasks share an id.
pub proof fn lemma_task_ids_unique(eng: Engine, i: int, j: int)
    requires
        eng.wf(),
        0 <= i < eng.tasks@.len(),
        0 <= j < eng.tasks@.len(),
        i != j,
    ensures
        eng.tasks@[i].task_id@ != eng.tasks@[j].task_id@,
{
    crate::store::lemma_task_ids_distinct(eng.tasks@);
}

/// A task that scheduling enqueues is for a node of the graph each of whose
/// dependencies is, at that moment, completed or skipped by a router.
pub proof fn lemma_dependency_safety(eng: Engine, e: Seq<char>, ir: Seq<NodeDef>, h: Seq<char>, now: i64, t: Task)
    requires
        enqueued_ready(eng, e, ir, h, now, t),
    ensures
        exists|i: int| 0 <= i < ir.len() && ir[i].id@ == t.node_id@ && forall|d: int|
            0 <= d < deps_view(ir[i]).len() ==> is_satisfied(ir, completions_of(eng.events@, e), #[trigger] deps_view(ir[i])[d]),
{
    let i = choose|i: int| #[trigger] ready_in(eng, e, ir, i) && crate::engine::fresh_task(t, e, ir[i].id@, h, ir[i].kind, crate::engine::start_time(ir[i], now));
    assert(ir[i].id@ == t.node_id@);
}

/// Once a ROUTER of the graph has completed with `routed_to` naming one
/// target, no other of its route targets is ready to be enqueued, in any
/// later state.
pub proof fn lemma_router_exclusivity(eng: Engine, e: Seq<char>, ir: Seq<NodeDef>, r: int, k: int, i: int)
    requires
        0 <= r < ir.len(),
        ir[r].kind == NodeKind::Router,
        first_output(completions_of(eng.events@, e), ir[r].id@) is Some,
        0 <= k < ir[r].routes@.len(),
        ir[r].routes@[k].target@ != routed_to_of(first_output(completions_of(eng.events@, e), ir[r].id@).unwrap()),
        0 <= i < ir.len(),
        ir[i].id@ == ir[r].routes@[k].target@,
    ensures
        !ready_in(eng, e, ir, i),
{
    let p = completions_of(eng.events@, e);
    assert(router_skips(ir[r], p, ir[i].id@));
    assert(is_skipped(ir, p, ir[i].id@));
}

/// The output a MAP node completes with holds one element per item, the
/// result of item `i` at position `i`.
pub proof fn lemma_fan_in_order(ms: Seq<MapResult>, e: Seq<char>, m: Seq<char>, total: nat)
    ensures
        fan_in_items(ms, e, m, total).len() == total,
        forall|i: int| 0 <= i < total ==> #[trigger] fan_in_items(ms, e, m, total)[i] == item_text(ms, e, m, i as u64),
    decreases total,
{
    if total > 0 {
        lemma_fan_in_order(ms, e, m, (total - 1) as nat);
    }
}

/// A child execution couples with its parent at most once: once the
/// completion check has made it COMPLETED it is no longer due, so later
/// checks change nothing.
pub proof fn lemma_coupling_once(eng: Engine, e: Seq<char>, w: Seq<char>, h: Seq<char>)
    requires
        exec_of(eng.executions@, e).status == ExecStatus::Completed,
    ensures
        !due_to_complete(eng, e, w, h),
{
}

/// The four shapes of registration get the four classes: no earlier
/// version is NEW; the same text is IDENTICAL; a document without nodes, a
/// removed node, or one with other dependencies or another kind, is
/// BREAKING; otherwise more nodes is SAFE.
pub proof fn lemma_compatibility_classes(prev: Option<(Seq<char>, WorkflowIr)>, text: Seq<char>, ir: WorkflowIr)
    ensures
        prev is None ==> registration_class(prev, text, ir) == Compatibility::New,
        prev matches Some(p) && p.0 == text ==> registration_class(prev, text, ir) == Compatibility::Identical,
        prev matches Some(p) && p.0 != text && !(p.1.nodes_given && ir.nodes_given) ==> registration_class(prev, text, ir)
            == Compatibility::Breaking,
        prev matches Some(p) && p.0 != text && breaks(p.1.nodes@, ir.nodes@) ==> registration_class(prev, text, ir)
            == Compatibility::Breaking,
        prev matches Some(p) && p.0 != text && p.1.nodes_given && ir.nodes_given && !breaks(p.1.nodes@, ir.nodes@)
            && ir.nodes@.len() > p.1.nodes@.len() ==> registration_class(prev, text, ir) == Compatibility::Safe,
{
}

} // verus!
