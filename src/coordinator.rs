//! Completion of a task by its worker, by node kind: plain nodes and
//! routers, MAP fan-out and fan-in, and the start of a sub-workflow.

use vstd::prelude::*;
use vstd::string::*;
use crate::completion::{has_task_id, task_index};
use crate::engine::{has_execution, make_task, ready_in, version_nodes};
use crate::ir::{NodeDef, NodeKind, find_node, has_node, ids_unique};
use crate::dispatch::node_named;
use crate::scheduler::{is_satisfied, deps_satisfied, all_satisfied};
use crate::engine::{registered, untouched_for, enqueued_ready, exec_of, advanced, lemma_advanced};
use crate::store::{completions_of, seq_ids};
use crate::json::routed_to_of;
use crate::json::{array_items, array_items_of, normalize_json, json_normal, routed_to, subworkflow_request, subworkflow_request_of, fresh_uuid};
use crate::metrics::{bump_exec};
use crate::offload::{resolved, lemma_claim_check_round_trip};
use crate::scheduler::{ready_nodes, eligible, progress};
use crate::store::{Engine, EngineError, Event, EventBody, ExecStatus, Execution, MapItem, MapResult, ParentLink, Task, TaskStatus, has_task, has_version, lemma_same_keys};
use crate::text::{decimal, decimal_text, literal_eq, texts};

verus! {

/// Whether the log holds, after position `from`, a completion of node `n`
/// of execution `e` whose output resolves to `text` against blobs `bs`.
pub open spec fn completion_resolving(evs: Seq<Event>, bs: Seq<crate::store::Blob>, from: int, e: Seq<char>, n: Seq<char>, text: Seq<char>) -> bool {
    exists|k: int| from <= k < evs.len() && evs[k].execution_id@ == e && match evs[k].body {
        EventBody::NodeCompleted { node_id, output } => node_id@ == n && resolved(bs, output) == text,
        _ => false,
    }
}

/// The node id of the sub-task for item `i` of MAP node `m`.
pub open spec fn subtask_id(m: Seq<char>, i: nat) -> Seq<char> {
    m + "__"@ + decimal_text(i)
}

/// Whether row `r` stages item `i` of MAP node `m` of execution `e`.
pub open spec fn stages(r: MapResult, e: Seq<char>, m: Seq<char>, i: u64) -> bool {
    r.execution_id@ == e && r.map_node_id@ == m && r.item_index == i
}

/// The number of staged results of MAP node `m` of execution `e`.
pub open spec fn staged_count(ms: Seq<MapResult>, e: Seq<char>, m: Seq<char>) -> nat
    decreases ms.len(),
{
    if ms.len() == 0 {
        0
    } else {
        staged_count(ms.drop_last(), e, m) + if ms.last().execution_id@ == e && ms.last().map_node_id@ == m { 1nat } else { 0nat }
    }
}

/// The staged result of item `i`, in compact JSON; `null` if none.
pub open spec fn item_text(ms: Seq<MapResult>, e: Seq<char>, m: Seq<char>, i: u64) -> Seq<char> {
    if exists|j: int| 0 <= j < ms.len() && stages(ms[j], e, m, i) {
        json_normal(ms[choose|j: int| 0 <= j < ms.len() && stages(ms[j], e, m, i)].result_json@)
    } else {
        "null"@
    }
}

/// The staged results of items `0 .. k`, in index order.
pub open spec fn fan_in_items(ms: Seq<MapResult>, e: Seq<char>, m: Seq<char>, k: nat) -> Seq<Seq<char>>
    decreases k,
{
    if k == 0 {
        Seq::empty()
    } else {
        fan_in_items(ms, e, m, (k - 1) as nat).push(item_text(ms, e, m, (k - 1) as u64))
    }
}

/// Texts separated by commas.
pub open spec fn joined(items: Seq<Seq<char>>) -> Seq<char>
    decreases items.len(),
{
    if items.len() == 0 {
        Seq::empty()
    } else if items.len() == 1 {
        items[0]
    } else {
        joined(items.drop_last()) + ","@ + items.last()
    }
}

/// The output of a MAP node: the JSON array of its items' results in
/// index order, `total` long.
pub open spec fn fan_in_text(ms: Seq<MapResult>, e: Seq<char>, m: Seq<char>, total: u64) -> Seq<char> {
    "["@ + joined(fan_in_items(ms, e, m, total as nat)) + "]"@
}

/// What fanning out MAP task `x` with `items` does: the task is DONE,
/// each item has its sub-task, and every added row is such a sub-task.
pub open spec fn fanned_out(before: Engine, after: Engine, x: int, items: Seq<Seq<char>>) -> bool {
    let t = before.tasks@[x];
    &&& after.events == before.events
    &&& after.executions == before.executions
    &&& after.tasks@.len() >= before.tasks@.len()
    &&& after.tasks@[x].status == TaskStatus::Done
    &&& forall|i: int| 0 <= i < items.len() ==> has_task(after.tasks@, t.execution_id@, #[trigger] subtask_id(t.node_id@, i as nat))
    &&& forall|k: int| before.tasks@.len() <= k < after.tasks@.len() ==> {
        let nt = #[trigger] after.tasks@[k];
        &&& nt.node_type == NodeKind::MapSubtask
        &&& nt.status == TaskStatus::Ready
        &&& nt.execution_id@ == t.execution_id@
        &&& nt.map_item matches Some(mi) && mi.parent_node_id@ == t.node_id@ && mi.total == items.len()
            && mi.index < items.len() && nt.node_id@ == subtask_id(t.node_id@, mi.index as nat)
            && mi.item_json@ == items[mi.index as int]
    }
}

/// What starting a child of workflow `cw` on input `cin` for SUBWORKFLOW
/// task `x` does: NotFound, with nothing changed, when `cw` has no
/// version; on success a RUNNING child linked to the task's node.
pub open spec fn child_started(before: Engine, after: Engine, x: int, cw: Seq<char>, cin: Seq<char>, r: Result<(), EngineError>) -> bool {
    &&& (forall|v: int| 0 <= v < before.versions@.len() ==> before.versions@[v].workflow_id@ != cw) ==>
        (r matches Err(EngineError::NotFound(_))) && after == before
    &&& (r matches Err(EngineError::Internal(_))) ==> after == before
    &&& after.events == before.events
    &&& (exists|v: int| 0 <= v < before.versions@.len() && before.versions@[v].workflow_id@ == cw)
        && has_execution(before.executions@, before.tasks@[x].execution_id@) ==> !(r matches Err(EngineError::NotFound(_)))
    &&& r is Ok ==> {
        let t = before.tasks@[x];
        let c = after.executions@.last();
        &&& after.executions@.len() == before.executions@.len() + 1
        &&& c.workflow_id@ == cw
        &&& c.input_json@ == cin
        &&& c.status == ExecStatus::Running
        &&& c.parent matches Some(link) && link.execution_id@ == t.execution_id@ && link.node_id@ == t.node_id@
        &&& after.tasks@[x].sub_execution_id matches Some(s) && s@ == c.execution_id@
        &&& after.tasks@[x].status == before.tasks@[x].status
        &&& latest_is(before.versions@, cw, c.version_hash@)
        &&& forall|k: int| before.tasks@.len() <= k < after.tasks@.len() ==> (#[trigger] after.tasks@[k]).execution_id@ == c.execution_id@
        &&& crate::engine::scheduled_all(after, c.execution_id@, version_nodes(before.versions@, cw, c.version_hash@))
    }
}

/// Whether `hh` is the latest registered version of workflow `w`.
pub open spec fn latest_is(vs: Seq<crate::store::WorkflowVersion>, w: Seq<char>, hh: Seq<char>) -> bool {
    exists|v: int| 0 <= v < vs.len() && vs[v].workflow_id@ == w && vs[v].version_hash@ == hh
        && forall|q: int| v < q < vs.len() ==> vs[q].workflow_id@ != w
}

/// Whether task `t` was added for node `n` of execution `e` and was ready then.
pub open spec fn routed_ready(eng: Engine, e: Seq<char>, ir: Seq<NodeDef>, n: Seq<char>, t: Task) -> bool {
    exists|i: int| #[trigger] ready_in(eng, e, ir, i) && ir[i].id@ == n && t.execution_id@ == e && t.node_id@ == n
}

/// Whether task `t` is for a node of `ir` that was neither done nor
/// skipped and whose dependencies were all done or skipped, by the
/// completions `comp`.
pub open spec fn node_enqueued(comp: Seq<(Seq<char>, Seq<char>)>, ir: Seq<NodeDef>, t: Task) -> bool {
    exists|i: int| 0 <= i < ir.len() && ir[i].id@ == t.node_id@ && !is_satisfied(ir, comp, ir[i].id@)
        && #[trigger] deps_satisfied(ir, comp, i)
}

/// Whether node `n` of `ir` is, by the completions after the call, neither
/// done nor skipped, has its dependencies done or skipped, and had no task
/// before the call.
pub open spec fn target_ready(before: Engine, after: Engine, e: Seq<char>, ir: Seq<NodeDef>, n: Seq<char>) -> bool {
    exists|i: int| 0 <= i < ir.len() && ir[i].id@ == n && !is_satisfied(ir, completions_of(after.events@, e), n)
        && #[trigger] deps_satisfied(ir, completions_of(after.events@, e), i) && !has_task(before.tasks@, e, n)
}

/// The kind of node `n` of `ir`; COMPUTE when there is no such node.
pub open spec fn kind_in(ir: Seq<NodeDef>, n: Seq<char>) -> NodeKind {
    if has_node(ir, n) { node_named(ir, n).kind } else { NodeKind::Compute }
}

/// What completing a plain or ROUTER task `x` with `output` does: its
/// output is logged and it is DONE once its execution exists; it succeeds
/// when versions are registered; the tasks it adds to its execution are
/// for ready nodes, and only for the chosen target after a ROUTER.
pub open spec fn finished(before: Engine, after: Engine, x: int, output: Seq<char>, r: Result<(), EngineError>) -> bool {
    let t = before.tasks@[x];
    let ex = exec_of(before.executions@, t.execution_id@);
    let ir = version_nodes(before.versions@, ex.workflow_id@, t.version_hash@);
    &&& !has_execution(before.executions@, t.execution_id@) ==> (r matches Err(EngineError::Internal(_)))
    &&& has_execution(before.executions@, t.execution_id@) ==> {
        &&& completion_resolving(after.events@, after.blobs@, before.events@.len() as int,
            t.execution_id@, t.node_id@, output)
        &&& after.tasks@[x].status == TaskStatus::Done
        &&& registered(before) && has_version(before.versions@, ex.workflow_id@, t.version_hash@) ==> r is Ok
        &&& forall|k: int| before.tasks@.len() <= k < after.tasks@.len()
            && (#[trigger] after.tasks@[k]).execution_id@ == t.execution_id@ ==> {
            &&& node_enqueued(completions_of(after.events@, t.execution_id@), ir, after.tasks@[k])
            &&& kind_in(ir, t.node_id@) == NodeKind::Router ==> after.tasks@[k].node_id@ == routed_to_of(output)
        }
        &&& r is Ok && kind_in(ir, t.node_id@) != NodeKind::Router ==> advanced(before, after, t.execution_id@, ex.workflow_id@, t.version_hash@)
        &&& r is Ok ==> crate::engine::completion_checked(before, after, t.execution_id@, ex.workflow_id@, t.version_hash@)
        &&& seq_ids(after.events@, t.execution_id@).len() == seq_ids(before.events@, t.execution_id@).len() + 1
        &&& completions_of(after.events@, t.execution_id@).len() == completions_of(before.events@, t.execution_id@).len() + 1
        &&& completions_of(after.events@, t.execution_id@).drop_last() == completions_of(before.events@, t.execution_id@)
        &&& completions_of(after.events@, t.execution_id@).last().0 == t.node_id@
        &&& r is Ok && kind_in(ir, t.node_id@) == NodeKind::Router && routed_to_of(output).len() > 0
            && target_ready(before, after, t.execution_id@, ir, routed_to_of(output)) ==> has_task(after.tasks@, t.execution_id@, routed_to_of(output))
    }
}

/// What completing MAP sub-task `x` with `output` does: the task is DONE
/// and its result staged; the last result of the MAP node logs the node's
/// completion with the results in index order.
pub open spec fn fanned_in(before: Engine, after: Engine, x: int, output: Seq<char>, r: Result<(), EngineError>) -> bool {
    let t = before.tasks@[x];
    let e = t.execution_id@;
    let ex = exec_of(before.executions@, e);
    &&& after.tasks@[x].status == TaskStatus::Done
    &&& t.map_item is None ==> r is Ok
    &&& t.map_item is Some ==> {
        let mi = t.map_item.unwrap();
        let m = mi.parent_node_id@;
        &&& exists|j: int| 0 <= j < after.map_results@.len() && stages(after.map_results@[j], e, m, mi.index)
            && after.map_results@[j].result_json@ == output
        &&& staged_count(after.map_results@, e, m) != mi.total ==> after.events == before.events && r is Ok
        &&& staged_count(after.map_results@, e, m) == mi.total ==> completion_resolving(after.events@, after.blobs@,
            before.events@.len() as int, e, m, fan_in_text(after.map_results@, e, m, mi.total))
        &&& staged_count(after.map_results@, e, m) == mi.total && has_execution(before.executions@, e) && registered(before)
            && has_version(before.versions@, ex.workflow_id@, t.version_hash@) ==> r is Ok
        &&& staged_count(after.map_results@, e, m) == mi.total && r is Ok ==> advanced(before, after, e, ex.workflow_id@, t.version_hash@)
        &&& staged_count(after.map_results@, e, m) == mi.total ==> {
            &&& seq_ids(after.events@, e).len() == seq_ids(before.events@, e).len() + 1
            &&& completions_of(after.events@, e).len() == completions_of(before.events@, e).len() + 1
            &&& completions_of(after.events@, e).drop_last() == completions_of(before.events@, e)
            &&& completions_of(after.events@, e).last().0 == m
        }
    }
}

impl Engine {
    /// Enqueues node `target` of execution `e`, and nothing else, if it is
    /// ready: the only branch a ROUTER takes.
    pub fn enqueue_routed(&mut self, e: &str, w: &str, h: &str, target: &str, now: i64) -> (r: Result<(), EngineError>)
        requires
            old(self).wf(),
        ensures
            final(self).wf(),
            crate::engine::same_but_tasks(*final(self), *old(self)),
            r is Err <==> !has_version(old(self).versions@, w@, h@),
            r is Err ==> final(self).tasks == old(self).tasks,
            final(self).tasks@.len() <= old(self).tasks@.len() + 1,
            final(self).tasks@.len() >= old(self).tasks@.len(),
            final(self).tasks@.subrange(0, old(self).tasks@.len() as int) == old(self).tasks@,
            forall|k: int| old(self).tasks@.len() <= k < final(self).tasks@.len() ==>
                routed_ready(*old(self), e@, version_nodes(old(self).versions@, w@, h@), target@, #[trigger] final(self).tasks@[k]),
            r is Ok && (exists|i: int| #[trigger] ready_in(*old(self), e@, version_nodes(old(self).versions@, w@, h@), i)
                && version_nodes(old(self).versions@, w@, h@)[i].id@ == target@) ==> has_task(final(self).tasks@, e@, target@),
    {
        let v = match self.find_version(w, h) {
            Some(v) => v,
            None => {
                return Err(EngineError::NotFound(String::from_str("Workflow not registered")));
            },
        };
        let ghost ir = version_nodes(self.versions@, w@, h@);
        proof {
            let v2 = choose|v2: int| 0 <= v2 < self.versions@.len() && self.versions@[v2].workflow_id@ == w@ && self.versions@[v2].version_hash@ == h@;
            assert(v2 == v as int);
        }
        let j = match find_node(&self.versions[v].ir.nodes, target) {
            Some(j) => j,
            None => {
                assert(self.tasks@.subrange(0, self.tasks@.len() as int) =~= self.tasks@);
                proof {
                    if exists|i: int| #[trigger] ready_in(*self, e@, ir, i) && ir[i].id@ == target@ {
                        let i = choose|i: int| #[trigger] ready_in(*self, e@, ir, i) && ir[i].id@ == target@;
                        assert(has_node(ir, target@));
                    }
                }
                return Ok(());
            },
        };
        let p = self.completions(e);
        let scheduled = self.scheduled_nodes(e);
        let ready = ready_nodes(&self.versions[v].ir.nodes, &p, &scheduled);
        let mut a: usize = 0;
        let mut found = false;
        while a < ready.len()
            invariant
                0 <= a <= ready@.len(),
                found ==> ready@.contains(j),
                !found ==> forall|b: int| 0 <= b < a ==> ready@[b] != j,
            decreases ready@.len() - a,
        {
            if ready[a] == j {
                found = true;
            }
            a = a + 1;
        }
        if !found {
            proof {
                assert(self.tasks@.subrange(0, self.tasks@.len() as int) =~= self.tasks@);
                assert(ids_unique(ir));
                if exists|i: int| #[trigger] ready_in(*self, e@, ir, i) && ir[i].id@ == target@ {
                    let i = choose|i: int| #[trigger] ready_in(*self, e@, ir, i) && ir[i].id@ == target@;
                    assert(i == j as int);
                    assert(eligible(ir, progress(p@), texts(scheduled@), i));
                    assert(ready@.contains(j));
                }
            }
            return Ok(());
        }
        let node = &self.versions[v].ir.nodes[j];
        let at = if node.kind == NodeKind::Timer { crate::engine::add_seconds(now, node.delay_seconds) } else { now };
        let t = make_task(self.tasks.len(), e, target, h, node.kind, at);
        let ghost start = *self;
        let ghost tg = t;
        proof {
            let b = choose|b: int| 0 <= b < ready@.len() && ready@[b] == j;
            assert(eligible(ir, progress(p@), texts(scheduled@), j as int));
            assert(ready_in(start, e@, ir, j as int));
        }
        self.tasks.push(t);
        proof {
            crate::store::lemma_tag_push(start.tasks@, tg);
            let last = start.tasks@.len() as int;
            assert(self.tasks@ == start.tasks@.push(tg));
            assert forall|x: int, y: int|
                0 <= x < self.tasks@.len() && 0 <= y < self.tasks@.len() && x != y implies !(self.tasks@[x].execution_id@
                    == self.tasks@[y].execution_id@ && self.tasks@[x].node_id@ == self.tasks@[y].node_id@) by {
                if x == last || y == last {
                    let other = if x == last { y } else { x };
                    assert(self.tasks@[other] == start.tasks@[other]);
                    if start.tasks@[other].execution_id@ == e@ && start.tasks@[other].node_id@ == target@ {
                        assert(has_task(start.tasks@, e@, ir[j as int].id@));
                    }
                } else {
                    assert(self.tasks@[x] == start.tasks@[x]);
                    assert(self.tasks@[y] == start.tasks@[y]);
                }
            }
            assert(self.tasks@.subrange(0, last) =~= start.tasks@);
            assert(routed_ready(start, e@, ir, target@, self.tasks@[last]));
            assert(self.tasks@[last].execution_id@ == e@ && self.tasks@[last].node_id@ == target@);
        }
        Ok(())
    }

    /// Completes task `x`, of a node that is neither MAP, MAP sub-task nor a
    /// SUBWORKFLOW being started: the task is DONE, the output (offloaded
    /// if large) is logged, and the execution advances. A ROUTER enqueues
    /// only the node its output names in `routed_to`.
    pub fn finish_node(&mut self, x: usize, output_json: &str, now: i64) -> (r: Result<(), EngineError>)
        requires
            old(self).wf(),
            x < old(self).tasks@.len(),
        ensures
            final(self).wf(),
            final(self).tasks@.len() >= old(self).tasks@.len(),
            finished(*old(self), *final(self), x as int, output_json@, r),
    {
        let ghost start = *self;
        self.tasks[x].status = TaskStatus::Done;
        self.metrics.tasks_completed = bump_exec(self.metrics.tasks_completed);
        proof { lemma_same_keys(start.tasks@, self.tasks@); }
        let e = self.tasks[x].execution_id.clone();
        let n = self.tasks[x].node_id.clone();
        let h = self.tasks[x].version_hash.clone();
        let xe = match self.find_execution(e.as_str()) {
            Some(xe) => xe,
            None => {
                return Err(EngineError::Internal(String::from_str("Execution not found")));
            },
        };
        let w = self.executions[xe].workflow_id.clone();
        let ghost before_store = *self;
        let stored = self.store_payload(e.as_str(), n.as_str(), output_json);
        proof {
            lemma_claim_check_round_trip(before_store, *self, e@, n@, output_json, stored);
        }
        let ghost n0 = self.events@.len();
        let ghost st = stored;
        let ghost pre_app = *self;
        self.append_event(e.as_str(), EventBody::NodeCompleted { node_id: n.clone(), output: stored });
        proof {
            assert(self.events@[n0 as int] == self.events@.last());
            assert(completion_resolving(self.events@, self.blobs@, n0 as int, e@, n@, output_json@));
            assert(self.events@ == pre_app.events@.push(self.events@.last()));
            crate::store::lemma_seq_ids_push(pre_app.events@, self.events@.last(), e@);
            assert(completions_of(self.events@, e@).drop_last() =~= completions_of(start.events@, e@));
        }
        let ghost ir = version_nodes(self.versions@, w@, h@);
        let kind = match self.find_version(w.as_str(), h.as_str()) {
            Some(v) => {
                proof {
                    let v2 = choose|v2: int| 0 <= v2 < self.versions@.len() && self.versions@[v2].workflow_id@ == w@
                        && self.versions@[v2].version_hash@ == h@;
                    assert(v2 == v as int);
                    assert(ids_unique(ir));
                }
                match find_node(&self.versions[v].ir.nodes, n.as_str()) {
                    Some(j) => {
                        proof {
                            let j2 = choose|j2: int| 0 <= j2 < ir.len() && ir[j2].id@ == n@;
                            assert(j2 == j as int);
                        }
                        self.versions[v].ir.nodes[j].kind
                    },
                    None => NodeKind::Compute,
                }
            },
            None => NodeKind::Compute,
        };
        let ghost mid = *self;
        let ghost target_text = routed_to_of(output_json@);
        let er = if kind == NodeKind::Router {
            let target = routed_to(output_json);
            if target.unicode_len() > 0 {
                self.enqueue_routed(e.as_str(), w.as_str(), h.as_str(), target.as_str(), now)
            } else {
                assert(self.tasks@.subrange(0, self.tasks@.len() as int) =~= self.tasks@);
                Ok(())
            }
        } else {
            self.schedule_ready_nodes(e.as_str(), w.as_str(), h.as_str(), now)
        };
        let ghost mid2 = *self;
        proof {
            assert(mid2.events == mid.events);
            assert(mid2.executions == mid.executions);
            assert forall|k: int| mid.tasks@.len() <= k < mid2.tasks@.len() implies {
                &&& node_enqueued(completions_of(mid.events@, e@), ir, #[trigger] mid2.tasks@[k])
                &&& mid2.tasks@[k].execution_id@ == e@
                &&& (kind_in(ir, n@) == NodeKind::Router ==> mid2.tasks@[k].node_id@ == target_text)
            } by {
                if kind == NodeKind::Router {
                    assert(crate::coordinator::routed_ready(mid, e@, ir, target_text, mid2.tasks@[k]));
                    let i = choose|i: int| #[trigger] ready_in(mid, e@, ir, i) && ir[i].id@ == target_text
                        && mid2.tasks@[k].execution_id@ == e@ && mid2.tasks@[k].node_id@ == target_text;
                    assert(deps_satisfied(ir, completions_of(mid.events@, e@), i));
                } else {
                    assert(enqueued_ready(mid, e@, ir, h@, now, mid2.tasks@[k]));
                    let i = choose|i: int| #[trigger] ready_in(mid, e@, ir, i) && crate::engine::fresh_task(mid2.tasks@[k], e@,
                        ir[i].id@, h@, ir[i].kind, crate::engine::start_time(ir[i], now));
                    assert(deps_satisfied(ir, completions_of(mid.events@, e@), i));
                    if has_node(ir, n@) {
                        let j2 = choose|j2: int| 0 <= j2 < ir.len() && ir[j2].id@ == n@;
                    }
                }
            }
            assert(mid2.tasks@[x as int].status == TaskStatus::Done) by {
                assert(mid2.tasks@.subrange(0, mid.tasks@.len() as int)[x as int] == mid2.tasks@[x as int]);
            }
        }
        let cr = match er {
            Ok(()) => self.check_execution_complete(e.as_str(), w.as_str(), h.as_str(), now),
            Err(err) => Err(err),
        };
        proof {
            assert(mid2.blobs == mid.blobs);
            let k = choose|k: int| n0 <= k < mid.events@.len() && mid.events@[k].execution_id@ == e@ && match mid.events@[k].body {
                EventBody::NodeCompleted { node_id, output } => node_id@ == n@ && resolved(mid.blobs@, output) == output_json@,
                _ => false,
            };
            assert(self.events@.subrange(0, mid2.events@.len() as int)[k] == self.events@[k]);
            assert(completion_resolving(self.events@, self.blobs@, start.events@.len() as int, e@, n@, output_json@));
            let y = choose|y: int| 0 <= y < start.executions@.len() && start.executions@[y].execution_id@ == e@;
            assert(y == xe as int);
            if cr is Ok {
                if all_satisfied(ir, completions_of(self.events@, e@)) && has_execution(start.executions@, e@)
                    && exec_of(start.executions@, e@).status == ExecStatus::Running {
                    assert(crate::engine::due_to_complete(mid2, e@, w@, h@));
                }
            }
            if cr is Ok && kind_in(ir, n@) == NodeKind::Router && target_text.len() > 0
                && target_ready(start, *self, e@, ir, target_text) {
                if has_node(ir, n@) {
                    let j2 = choose|j2: int| 0 <= j2 < ir.len() && ir[j2].id@ == n@;
                }
                assert(kind == NodeKind::Router);
                let i = choose|i: int| 0 <= i < ir.len() && ir[i].id@ == target_text && !is_satisfied(ir, completions_of(self.events@, e@), target_text)
                    && #[trigger] deps_satisfied(ir, completions_of(self.events@, e@), i) && !has_task(start.tasks@, e@, target_text);
                assert(!has_task(mid.tasks@, e@, target_text)) by {
                    if has_task(mid.tasks@, e@, target_text) {
                        let q = choose|q: int| 0 <= q < mid.tasks@.len() && mid.tasks@[q].execution_id@ == e@ && mid.tasks@[q].node_id@ == target_text;
                        assert(start.tasks@[q].execution_id@ == mid.tasks@[q].execution_id@);
                    }
                }
                assert(ready_in(mid, e@, ir, i));
                assert(has_task(mid2.tasks@, e@, target_text));
                let q = choose|q: int| 0 <= q < mid2.tasks@.len() && mid2.tasks@[q].execution_id@ == e@ && mid2.tasks@[q].node_id@ == target_text;
                assert(self.tasks@[q] == mid2.tasks@[q]);
            }
            if cr is Ok && kind_in(ir, n@) != NodeKind::Router {
                if has_node(ir, n@) {
                    let j2 = choose|j2: int| 0 <= j2 < ir.len() && ir[j2].id@ == n@;
                }
                lemma_advanced(start, mid2, *self, e@, w@, h@);
            }
            assert forall|k: int| start.tasks@.len() <= k < self.tasks@.len()
                && (#[trigger] self.tasks@[k]).execution_id@ == e@ implies {
                &&& node_enqueued(completions_of(self.events@, e@), ir, self.tasks@[k])
                &&& kind_in(ir, n@) == NodeKind::Router ==> self.tasks@[k].node_id@ == routed_to_of(output_json@)
            } by {
                assert(k < mid2.tasks@.len());
                assert(self.tasks@[k] == mid2.tasks@[k]);
            }
        }
        cr
    }

    /// The position of the staged result of item `i` of MAP node `m`.
    fn find_staged(&self, e: &str, m: &str, i: u64) -> (r: Option<usize>)
        ensures
            r matches Some(j) ==> j < self.map_results@.len() && stages(self.map_results@[j as int], e@, m@, i),
            r is None ==> forall|j: int| 0 <= j < self.map_results@.len() ==> !stages(self.map_results@[j], e@, m@, i),
    {
        let mut j: usize = 0;
        while j < self.map_results.len()
            invariant
                0 <= j <= self.map_results@.len(),
                forall|q: int| 0 <= q < j ==> !stages(self.map_results@[q], e@, m@, i),
            decreases self.map_results@.len() - j,
        {
            let row = &self.map_results[j];
            if row.item_index == i && literal_eq(row.execution_id.as_str(), e) && literal_eq(row.map_node_id.as_str(), m) {
                return Some(j);
            }
            j = j + 1;
        }
        None
    }

    /// The number of staged results of MAP node `m` of execution `e`.
    fn count_staged(&self, e: &str, m: &str) -> (r: usize)
        ensures
            r == staged_count(self.map_results@, e@, m@),
    {
        let mut k: usize = 0;
        let mut count: usize = 0;
        assert(self.map_results@.subrange(0, 0) =~= Seq::<MapResult>::empty());
        while k < self.map_results.len()
            invariant
                0 <= k <= self.map_results@.len(),
                count == staged_count(self.map_results@.subrange(0, k as int), e@, m@),
                count <= k,
            decreases self.map_results@.len() - k,
        {
            proof {
                let s1 = self.map_results@.subrange(0, k + 1);
                assert(s1.drop_last() =~= self.map_results@.subrange(0, k as int));
            }
            if literal_eq(self.map_results[k].execution_id.as_str(), e) && literal_eq(self.map_results[k].map_node_id.as_str(), m) {
                count = count + 1;
            }
            k = k + 1;
        }
        assert(self.map_results@.subrange(0, k as int) =~= self.map_results@);
        count
    }

    /// The JSON array of the staged results of items `0 .. total`.
    pub fn gather_results(&self, e: &str, m: &str, total: u64) -> (r: String)
        requires
            crate::store::map_results_unique(self.map_results@),
        ensures
            r@ == fan_in_text(self.map_results@, e@, m@, total),
    {
        let mut body = String::new();
        let mut i: u64 = 0;
        while i < total
            invariant
                crate::store::map_results_unique(self.map_results@),
                0 <= i <= total,
                body@ == joined(fan_in_items(self.map_results@, e@, m@, i as nat)),
            decreases total - i,
        {
            let item = match self.find_staged(e, m, i) {
                Some(j) => {
                    proof {
                        let j2 = choose|j2: int| 0 <= j2 < self.map_results@.len() && stages(self.map_results@[j2], e@, m@, i);
                        assert(j2 == j as int);
                    }
                    normalize_json(self.map_results[j].result_json.as_str())
                },
                None => {
                    proof { reveal_strlit("null"); }
                    String::from_str("null")
                },
            };
            proof {
                let items = fan_in_items(self.map_results@, e@, m@, (i + 1) as nat);
                assert(items.drop_last() =~= fan_in_items(self.map_results@, e@, m@, i as nat));
                assert(items.last() == item@);
            }
            if i > 0 {
                body.append(",");
            }
            body.append(item.as_str());
            i = i + 1;
        }
        let mut s = String::from_str("[");
        s.append(body.as_str());
        s.append("]");
        s
    }

    /// Stages `output_json` as the result of item `i` of MAP node `m`,
    /// replacing an earlier one.
    fn stage_result(&mut self, e: &str, m: &str, i: u64, output_json: &str)
        requires
            old(self).wf(),
        ensures
            final(self).wf(),
            final(self).executions == old(self).executions,
            final(self).events == old(self).events,
            final(self).tasks == old(self).tasks,
            final(self).versions == old(self).versions,
            final(self).blobs == old(self).blobs,
            final(self).metrics == old(self).metrics,
            final(self).blob_root == old(self).blob_root,
            exists|j: int| 0 <= j < final(self).map_results@.len() && stages(final(self).map_results@[j], e@, m@, i)
                && final(self).map_results@[j].result_json@ == output_json@,
    {
        match self.find_staged(e, m, i) {
            Some(j) => {
                let ghost before = self.map_results@;
                self.map_results[j].result_json = String::from_str(output_json);
                proof {
                    assert forall|a: int, b: int| 0 <= a < self.map_results@.len() && 0 <= b < self.map_results@.len() && a != b
                        implies !(self.map_results@[a].execution_id@ == self.map_results@[b].execution_id@
                        && self.map_results@[a].map_node_id@ == self.map_results@[b].map_node_id@
                        && self.map_results@[a].item_index == self.map_results@[b].item_index) by {
                        assert(self.map_results@[a].execution_id@ == before[a].execution_id@);
                        assert(self.map_results@[b].execution_id@ == before[b].execution_id@);
                    }
                    assert(stages(self.map_results@[j as int], e@, m@, i));
                }
            },
            None => {
                let ghost before = self.map_results@;
                self.map_results.push(MapResult {
                    execution_id: String::from_str(e),
                    map_node_id: String::from_str(m),
                    item_index: i,
                    result_json: String::from_str(output_json),
                });
                proof {
                    let last = before.len() as int;
                    assert forall|a: int, b: int| 0 <= a < self.map_results@.len() && 0 <= b < self.map_results@.len() && a != b
                        implies !(self.map_results@[a].execution_id@ == self.map_results@[b].execution_id@
                        && self.map_results@[a].map_node_id@ == self.map_results@[b].map_node_id@
                        && self.map_results@[a].item_index == self.map_results@[b].item_index) by {
                        if a != last {
                            assert(self.map_results@[a] == before[a]);
                        }
                        if b != last {
                            assert(self.map_results@[b] == before[b]);
                        }
                    }
                    assert(stages(self.map_results@[last], e@, m@, i));
                }
            },
        }
    }

    /// Completes a MAP sub-task: stages its result, and when every item of
    /// the MAP node has one, logs the MAP node's completion with the array
    /// of results in index order and advances the execution.
    pub fn fan_in(&mut self, x: usize, output_json: &str, now: i64) -> (r: Result<(), EngineError>)
        requires
            old(self).wf(),
            x < old(self).tasks@.len(),
        ensures
            final(self).wf(),
            final(self).tasks@.len() >= old(self).tasks@.len(),
            fanned_in(*old(self), *final(self), x as int, output_json@, r),
    {
        let ghost start = *self;
        self.tasks[x].status = TaskStatus::Done;
        self.metrics.tasks_completed = bump_exec(self.metrics.tasks_completed);
        proof { lemma_same_keys(start.tasks@, self.tasks@); }
        let e = self.tasks[x].execution_id.clone();
        let h = self.tasks[x].version_hash.clone();
        let (m, idx, total) = match &self.tasks[x].map_item {
            Some(mi) => (mi.parent_node_id.clone(), mi.index, mi.total),
            None => {
                return Ok(());
            },
        };
        self.stage_result(e.as_str(), m.as_str(), idx, output_json);
        let count = self.count_staged(e.as_str(), m.as_str());
        if count as u64 != total {
            return Ok(());
        }
        let text = self.gather_results(e.as_str(), m.as_str(), total);
        let ghost before_store = *self;
        let ts = text.as_str();
        let stored = self.store_payload(e.as_str(), m.as_str(), ts);
        proof {
            lemma_claim_check_round_trip(before_store, *self, e@, m@, ts, stored);
        }
        let ghost n0 = self.events@.len();
        let ghost pre_app = *self;
        self.append_event(e.as_str(), EventBody::NodeCompleted { node_id: m.clone(), output: stored });
        proof {
            assert(self.events@ == pre_app.events@.push(self.events@.last()));
            crate::store::lemma_seq_ids_push(pre_app.events@, self.events@.last(), e@);
            assert(completions_of(self.events@, e@).drop_last() =~= completions_of(start.events@, e@));
            assert(self.events@[n0 as int] == self.events@.last());
            assert(completion_resolving(self.events@, self.blobs@, n0 as int, e@, m@, text@));
        }
        let xe = match self.find_execution(e.as_str()) {
            Some(xe) => xe,
            None => {
                return Err(EngineError::Internal(String::from_str("Execution not found")));
            },
        };
        let w = self.executions[xe].workflow_id.clone();
        proof {
            let y = choose|y: int| 0 <= y < start.executions@.len() && start.executions@[y].execution_id@ == e@;
            assert(y == xe as int);
        }
        let ghost mid = *self;
        let sr = self.schedule_ready_nodes(e.as_str(), w.as_str(), h.as_str(), now);
        let ghost mid2 = *self;
        proof {
            assert(mid2.tasks@.subrange(0, mid.tasks@.len() as int)[x as int] == mid2.tasks@[x as int]);
        }
        let cr = match sr {
            Ok(()) => self.check_execution_complete(e.as_str(), w.as_str(), h.as_str(), now),
            Err(err) => Err(err),
        };
        proof {
            assert(mid2.events == mid.events);
            let k = choose|k: int| n0 <= k < mid.events@.len() && mid.events@[k].execution_id@ == e@ && match mid.events@[k].body {
                EventBody::NodeCompleted { node_id, output } => node_id@ == m@ && resolved(mid.blobs@, output) == text@,
                _ => false,
            };
            assert(self.events@.subrange(0, mid2.events@.len() as int)[k] == self.events@[k]);
            if cr is Ok {
                lemma_advanced(start, mid2, *self, e@, w@, h@);
            }
        }
        cr
    }

    /// Completes a MAP coordinator: its output must be a JSON array;
    /// its items are fanned out.
    pub fn fan_out(&mut self, x: usize, output_json: &str, now: i64) -> (r: Result<(), EngineError>)
        requires
            old(self).wf(),
            x < old(self).tasks@.len(),
        ensures
            final(self).wf(),
            array_items_of(output_json@) is None <==> r is Err,
            r is Err ==> (r matches Err(EngineError::InvalidArgument(_))) && *final(self) == *old(self),
            r is Ok ==> fanned_out(*old(self), *final(self), x as int, array_items_of(output_json@).unwrap()),
    {
        match array_items(output_json) {
            Some(items) => {
                self.fan_out_items(x, &items, now);
                Ok(())
            },
            None => Err(EngineError::InvalidArgument(String::from_str("MAP items not a JSON array"))),
        }
    }

    /// Fans out the items of MAP task `x`: one READY sub-task
    /// `<node>__<i>` per item, unless already there, and the MAP task is
    /// DONE. The MAP node itself completes at fan-in.
    pub fn fan_out_items(&mut self, x: usize, items: &Vec<String>, now: i64)
        requires
            old(self).wf(),
            x < old(self).tasks@.len(),
        ensures
            final(self).wf(),
            fanned_out(*old(self), *final(self), x as int, texts(items@)),
    {
        let ghost start = *self;
        self.tasks[x].status = TaskStatus::Done;
        self.metrics.tasks_completed = bump_exec(self.metrics.tasks_completed);
        proof { lemma_same_keys(start.tasks@, self.tasks@); }
        let e = self.tasks[x].execution_id.clone();
        let n = self.tasks[x].node_id.clone();
        let h = self.tasks[x].version_hash.clone();
        let total = items.len() as u64;
        let ghost marked = self.tasks@;
        let mut i: usize = 0;
        while i < items.len()
            invariant
                self.wf(),
                self.events == start.events,
                self.executions == start.executions,
                total == items@.len(),
                e@ == start.tasks@[x as int].execution_id@,
                n@ == start.tasks@[x as int].node_id@,
                x < start.tasks@.len(),
                0 <= i <= items@.len(),
                self.tasks@.len() >= start.tasks@.len(),
                self.tasks@[x as int].status == TaskStatus::Done,
                self.tasks@.subrange(0, start.tasks@.len() as int) == marked,
                forall|q: int| 0 <= q < i ==> has_task(self.tasks@, e@, #[trigger] subtask_id(n@, q as nat)),
                forall|k: int| start.tasks@.len() <= k < self.tasks@.len() ==> {
                    let nt = #[trigger] self.tasks@[k];
                    &&& nt.node_type == NodeKind::MapSubtask
                    &&& nt.status == TaskStatus::Ready
                    &&& nt.execution_id@ == e@
                    &&& nt.map_item matches Some(mi) && mi.parent_node_id@ == n@ && mi.total == total
                        && mi.index < total && nt.node_id@ == subtask_id(n@, mi.index as nat)
                        && mi.item_json@ == texts(items@)[mi.index as int]
                },
            decreases items@.len() - i,
        {
            let mut sub = n.clone();
            sub.append("__");
            let d = decimal(i as u64);
            sub.append(d.as_str());
            match self.find_node_task(e.as_str(), sub.as_str()) {
                Some(_) => {},
                None => {
                    let mut t = make_task(self.tasks.len(), e.as_str(), sub.as_str(), h.as_str(), NodeKind::MapSubtask, now);
                    t.map_item = Some(MapItem { item_json: items[i].clone(), index: i as u64, total, parent_node_id: n.clone() });
                    let ghost before = self.tasks@;
                    let ghost tg = t;
                    self.tasks.push(t);
                    proof {
            crate::store::lemma_tag_push(before, tg);
                        let last = before.len() as int;
                        assert(self.tasks@ == before.push(tg));
                        assert forall|a: int, b: int|
                            0 <= a < self.tasks@.len() && 0 <= b < self.tasks@.len() && a != b implies !(self.tasks@[a].execution_id@
                                == self.tasks@[b].execution_id@ && self.tasks@[a].node_id@ == self.tasks@[b].node_id@) by {
                            if a == last || b == last {
                                let other = if a == last { b } else { a };
                                assert(self.tasks@[other] == before[other]);
                            } else {
                                assert(self.tasks@[a] == before[a]);
                                assert(self.tasks@[b] == before[b]);
                            }
                        }
                        assert forall|q: int| 0 <= q < start.tasks@.len() implies self.tasks@[q] == marked[q] by {
                            assert(before.subrange(0, start.tasks@.len() as int)[q] == before[q]);
                        }
                        assert(self.tasks@.subrange(0, start.tasks@.len() as int) =~= marked);
                        assert forall|q: int| 0 <= q < i implies has_task(self.tasks@, e@, #[trigger] subtask_id(n@, q as nat)) by {
                            let k = choose|k: int| 0 <= k < before.len() && before[k].execution_id@ == e@ && before[k].node_id@ == subtask_id(n@, q as nat);
                            assert(self.tasks@[k] == before[k]);
                        }
                        assert(texts(items@)[i as int] == items@[i as int]@);
                        assert forall|k: int| start.tasks@.len() <= k < self.tasks@.len() implies {
                            let nt = #[trigger] self.tasks@[k];
                            &&& nt.node_type == NodeKind::MapSubtask
                            &&& nt.status == TaskStatus::Ready
                            &&& nt.execution_id@ == e@
                            &&& nt.map_item matches Some(mi) && mi.parent_node_id@ == n@ && mi.total == total
                                && mi.index < total && nt.node_id@ == subtask_id(n@, mi.index as nat)
                                && mi.item_json@ == texts(items@)[mi.index as int]
                        } by {
                            if k < last {
                                assert(self.tasks@[k] == before[k]);
                            }
                        }
                        assert(self.tasks@[last].node_id@ == subtask_id(n@, i as nat));
                    }
                },
            }
            i = i + 1;
        }
        proof {
            assert(self.tasks@[x as int].status == TaskStatus::Done);
        }
    }

    /// First completion of a SUBWORKFLOW task: its output names the child
    /// workflow and the child's input.
    pub fn start_child(&mut self, x: usize, output_json: &str, now: i64) -> (r: Result<(), EngineError>)
        requires
            old(self).wf(),
            x < old(self).tasks@.len(),
        ensures
            final(self).wf(),
            final(self).tasks@.len() >= old(self).tasks@.len(),
            final(self).events == old(self).events,
            subworkflow_request_of(output_json@) is None ==> (r matches Err(EngineError::InvalidArgument(_))) && *final(self) == *old(self),
            subworkflow_request_of(output_json@) matches Some(req) ==> child_started(*old(self), *final(self), x as int, req.0, req.1, r),
    {
        match subworkflow_request(output_json) {
            Some((cw, cin)) => self.start_child_with(x, cw.as_str(), cin.as_str(), now),
            None => Err(EngineError::InvalidArgument(String::from_str("Invalid SUBWORKFLOW output"))),
        }
    }

    /// Records a RUNNING child execution of version `ch` of workflow `cw`
    /// on input `cin`, linked to the node of SUBWORKFLOW task `x`, and
    /// links the task to it. Fails, changing nothing, when the id is taken
    /// or the task's execution is missing.
    fn spawn_child(&mut self, x: usize, id: &str, cw: &str, ch: &str, cin: &str, now: i64) -> (r: Result<String, EngineError>)
        requires
            old(self).wf(),
            x < old(self).tasks@.len(),
        ensures
            final(self).wf(),
            final(self).events == old(self).events,
            final(self).versions == old(self).versions,
            r is Err ==> (r matches Err(EngineError::Internal(_))) && *final(self) == *old(self),
            has_execution(old(self).executions@, old(self).tasks@[x as int].execution_id@) && !has_execution(old(self).executions@, id@)
                ==> r is Ok,
            has_execution(old(self).executions@, id@) ==> r is Err,
            r matches Ok(child) ==> child@ == id@,
            r matches Ok(child) ==> {
                let t = old(self).tasks@[x as int];
                let c = final(self).executions@.last();
                &&& final(self).executions@.len() == old(self).executions@.len() + 1
                &&& c.execution_id@ == child@
                &&& !has_execution(old(self).executions@, child@)
                &&& c.workflow_id@ == cw@
                &&& c.version_hash@ == ch@
                &&& c.input_json@ == cin@
                &&& c.status == ExecStatus::Running
                &&& c.parent matches Some(link) && link.execution_id@ == t.execution_id@ && link.node_id@ == t.node_id@
                &&& final(self).tasks@.len() == old(self).tasks@.len()
                &&& final(self).tasks@[x as int].sub_execution_id matches Some(s) && s@ == child@
                &&& final(self).tasks@[x as int].status == t.status
            },
    {
        let child = String::from_str(id);
        if self.find_execution(child.as_str()).is_some() {
            return Err(EngineError::Internal(String::from_str("Execution id already in use")));
        }
        let e = self.tasks[x].execution_id.clone();
        let n = self.tasks[x].node_id.clone();
        let xe = match self.find_execution(e.as_str()) {
            Some(xe) => xe,
            None => {
                return Err(EngineError::Internal(String::from_str("Execution not found")));
            },
        };
        let ghost start = *self;
        self.executions.push(Execution {
            execution_id: child.clone(),
            workflow_id: String::from_str(cw),
            version_hash: String::from_str(ch),
            status: ExecStatus::Running,
            input_json: String::from_str(cin),
            parent: Some(ParentLink { execution_id: e, node_id: n }),
            created_at: now,
        });
        proof {
            let last = start.executions@.len() as int;
            reveal(crate::store::parents_earlier);
            assert forall|i: int, j: int|
                0 <= i < self.executions@.len() && 0 <= j < self.executions@.len() && i != j implies
                self.executions@[i].execution_id@ != self.executions@[j].execution_id@ by {
                if i != last {
                    assert(self.executions@[i] == start.executions@[i]);
                }
                if j != last {
                    assert(self.executions@[j] == start.executions@[j]);
                }
            }
            assert forall|i: int| 0 <= i < self.executions@.len() && (#[trigger] self.executions@[i].parent) is Some implies exists|j: int|
                0 <= j < i && self.executions@[j].execution_id@ == self.executions@[i].parent.unwrap().execution_id@ by {
                if i < last {
                    assert(self.executions@[i] == start.executions@[i]);
                    let j = choose|j: int| 0 <= j < i && start.executions@[j].execution_id@ == start.executions@[i].parent.unwrap().execution_id@;
                    assert(self.executions@[j] == start.executions@[j]);
                } else {
                    assert(self.executions@[xe as int] == start.executions@[xe as int]);
                }
            }
        }
        self.metrics.executions_started = bump_exec(self.metrics.executions_started);
        let ghost before_link = self.tasks@;
        self.tasks[x].sub_execution_id = Some(child.clone());
        self.tasks[x].sub_workflow_id = Some(String::from_str(cw));
        self.tasks[x].sub_input_json = Some(String::from_str(cin));
        proof { lemma_same_keys(before_link, self.tasks@); }
        Ok(child)
    }

    /// Starts a child execution of the latest version of workflow `cw` on
    /// input `cin`, linked to the node of SUBWORKFLOW task `x`, under a
    /// freshly drawn id; the task stays RUNNING until the child completes.
    pub fn start_child_with(&mut self, x: usize, cw: &str, cin: &str, now: i64) -> (r: Result<(), EngineError>)
        requires
            old(self).wf(),
            x < old(self).tasks@.len(),
        ensures
            final(self).wf(),
            final(self).tasks@.len() >= old(self).tasks@.len(),
            final(self).events == old(self).events,
            child_started(*old(self), *final(self), x as int, cw@, cin@, r),
    {
        let mut id = String::from_str("exec-");
        let u = fresh_uuid();
        id.append(u.as_str());
        self.start_child_as(x, id.as_str(), cw, cin, now)
    }

    /// Starts child execution `id` of the latest version of workflow `cw`
    /// on input `cin`, linked to the node of SUBWORKFLOW task `x`; refused,
    /// changing nothing, when the id is taken.
    #[verifier::rlimit(30)]
    pub fn start_child_as(&mut self, x: usize, id: &str, cw: &str, cin: &str, now: i64) -> (r: Result<(), EngineError>)
        requires
            old(self).wf(),
            x < old(self).tasks@.len(),
        ensures
            final(self).wf(),
            final(self).tasks@.len() >= old(self).tasks@.len(),
            final(self).events == old(self).events,
            child_started(*old(self), *final(self), x as int, cw@, cin@, r),
            has_execution(old(self).executions@, id@) ==> (r matches Err(_)) && *final(self) == *old(self),
            !has_execution(old(self).executions@, id@) && has_execution(old(self).executions@, old(self).tasks@[x as int].execution_id@)
                && (exists|v: int| 0 <= v < old(self).versions@.len() && old(self).versions@[v].workflow_id@ == cw@) ==> r is Ok,
            r is Ok ==> final(self).executions@.last().execution_id@ == id@,
    {
        let v = match self.latest_version(cw) {
            Some(v) => v,
            None => {
                return Err(EngineError::NotFound(String::from_str("Child workflow not registered")));
            },
        };
        let ch = self.versions[v].version_hash.clone();
        let ghost start = *self;
        proof {
            assert(latest_is(start.versions@, cw@, ch@));
            assert(has_version(self.versions@, cw@, ch@));
        }
        let child = self.spawn_child(x, id, cw, ch.as_str(), cin, now)?;
        let ghost linked = *self;
        match self.schedule_ready_nodes(child.as_str(), cw, ch.as_str(), now) {
            Ok(()) => {},
            Err(err) => {
                return Err(err);
            },
        }
        proof {
            assert(self.tasks@.subrange(0, linked.tasks@.len() as int)[x as int] == self.tasks@[x as int]);
            assert(linked.tasks@.len() == start.tasks@.len());
            assert forall|k: int| start.tasks@.len() <= k < self.tasks@.len() implies (#[trigger] self.tasks@[k]).execution_id@ == child@ by {
                assert(crate::engine::enqueued_ready(linked, child@, version_nodes(linked.versions@, cw@, ch@), ch@, now, self.tasks@[k]));
            }
            assert(self.executions == linked.executions);
            assert(self.executions@.last() == linked.executions@.last());
        }
        Ok(())
    }

    /// A worker reports that task `task_id` succeeded with `output_json`.
    /// A task that is no longer RUNNING (cancelled, reclaimed and redone,
    /// already done) is left alone and the call still succeeds.
    pub fn complete_task(&mut self, task_id: &str, output_json: &str, now: i64) -> (r: Result<(), EngineError>)
        requires
            old(self).wf(),
        ensures
            final(self).wf(),
            r matches Err(EngineError::NotFound(_)) <== !has_task_id(old(self).tasks@, task_id@),
            !has_task_id(old(self).tasks@, task_id@) ==> *final(self) == *old(self),
            forall|x: int| #[trigger] task_index(old(self).tasks@, task_id@, x) ==> {
                let t = old(self).tasks@[x];
                &&& t.status != TaskStatus::Running ==> (r matches Ok(())) && *final(self) == *old(self)
                &&& t.status == TaskStatus::Running && t.node_type == NodeKind::Fanout ==>
                    (r is Err <==> array_items_of(output_json@) is None)
                &&& t.status == TaskStatus::Running && t.node_type == NodeKind::Fanout && r is Err ==>
                    (r matches Err(EngineError::InvalidArgument(_))) && *final(self) == *old(self)
                &&& t.status == TaskStatus::Running && t.node_type == NodeKind::Fanout && r is Ok ==>
                    fanned_out(*old(self), *final(self), x, array_items_of(output_json@).unwrap())
                &&& t.status == TaskStatus::Running && t.node_type == NodeKind::Subworkflow && t.sub_execution_id is None ==> {
                    &&& subworkflow_request_of(output_json@) is None ==> (r matches Err(EngineError::InvalidArgument(_)))
                        && *final(self) == *old(self)
                    &&& subworkflow_request_of(output_json@) is Some ==> child_started(*old(self), *final(self), x,
                        subworkflow_request_of(output_json@).unwrap().0, subworkflow_request_of(output_json@).unwrap().1, r)
                }
                &&& t.status == TaskStatus::Running && t.node_type == NodeKind::MapSubtask ==>
                    fanned_in(*old(self), *final(self), x, output_json@, r)
                &&& t.status == TaskStatus::Running && t.node_type != NodeKind::Fanout && t.node_type != NodeKind::MapSubtask
                    && !(t.node_type == NodeKind::Subworkflow && t.sub_execution_id is None) ==>
                    finished(*old(self), *final(self), x, output_json@, r)
            },
    {
        let x = match self.first_task(task_id) {
            Some(x) => x,
            None => {
                return Err(EngineError::NotFound(String::from_str("Task not found")));
            },
        };
        proof {
            assert forall|y: int| #[trigger] task_index(self.tasks@, task_id@, y) implies y == x as int by {
                if y < x {
                    assert(self.tasks@[y].task_id@ != task_id@);
                }
                if y > x {
                    assert(self.tasks@[x as int].task_id@ != task_id@);
                }
            }
        }
        if self.tasks[x].status != TaskStatus::Running {
            return Ok(());
        }
        let kind = self.tasks[x].node_type;
        if kind == NodeKind::Subworkflow && self.tasks[x].sub_execution_id.is_none() {
            return self.start_child(x, output_json, now);
        }
        if kind == NodeKind::Fanout {
            return self.fan_out(x, output_json, now);
        }
        if kind == NodeKind::MapSubtask {
            return self.fan_in(x, output_json, now);
        }
        self.finish_node(x, output_json, now)
    }
}

} // verus!
