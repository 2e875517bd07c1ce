//! The engine's operations: scheduling, completion detection with parent
//! coupling, leasing, completion and failure of tasks, approvals,
//! cancellation and lease reclamation.

use vstd::prelude::*;
use vstd::string::*;
use crate::ir::{NodeDef, NodeKind, ids_unique};
use crate::scheduler::{ready_nodes, eligible, is_satisfied, deps_satisfied, progress};
use crate::store::{Engine, EngineError, Event, EventBody, ExecStatus, Execution, Task, TaskStatus, ApprovalStatus, WorkflowVersion, has_task, has_version, completions_of, final_output_text, rendered, seq_ids};
use crate::scheduler::{all_done, all_satisfied};
use crate::metrics::{bump, bump_exec};
use crate::text::{texts, lemma_texts_push};

verus! {

/// `a + b`, held within the range of `i64`.
pub open spec fn add_clamped(a: i64, b: i64) -> i64 {
    if a + b > i64::MAX {
        i64::MAX
    } else if a + b < i64::MIN {
        i64::MIN
    } else {
        (a + b) as i64
    }
}

pub fn add_seconds(a: i64, b: i64) -> (r: i64)
    ensures
        r == add_clamped(a, b),
{
    if b > 0 && a > i64::MAX - b {
        i64::MAX
    } else if b < 0 && a < i64::MIN - b {
        i64::MIN
    } else {
        a + b
    }
}

/// When a newly enqueued task for node `n` may first be leased.
pub open spec fn start_time(n: NodeDef, now: i64) -> i64 {
    if n.kind == NodeKind::Timer {
        add_clamped(now, n.delay_seconds)
    } else {
        now
    }
}

/// The graph of version `h` of workflow `w`.
pub open spec fn version_nodes(vs: Seq<WorkflowVersion>, w: Seq<char>, h: Seq<char>) -> Seq<NodeDef> {
    let v = choose|v: int| 0 <= v < vs.len() && vs[v].workflow_id@ == w && vs[v].version_hash@ == h;
    vs[v].ir.nodes@
}

/// Whether node `i` of graph `ir` may be enqueued for execution `e`: not
/// done, not skipped by a router, no task yet, all dependencies done or
/// skipped.
pub open spec fn ready_in(eng: Engine, e: Seq<char>, ir: Seq<NodeDef>, i: int) -> bool {
    &&& 0 <= i < ir.len()
    &&& !is_satisfied(ir, completions_of(eng.events@, e), ir[i].id@)
    &&& !has_task(eng.tasks@, e, ir[i].id@)
    &&& deps_satisfied(ir, completions_of(eng.events@, e), i)
}

/// Whether every node of `ir` that is neither done nor skipped for `e` and
/// whose dependencies are satisfied has a task: nothing is left to enqueue.
pub open spec fn scheduled_all(eng: Engine, e: Seq<char>, ir: Seq<NodeDef>) -> bool {
    forall|i: int| 0 <= i < ir.len() && !is_satisfied(ir, completions_of(eng.events@, e), ir[i].id@)
        && #[trigger] deps_satisfied(ir, completions_of(eng.events@, e), i) ==> has_task(eng.tasks@, e, ir[i].id@)
}

/// What advancing execution `e` of version `h` of workflow `w` achieves:
/// nothing ready is left unqueued, and if every node is done or skipped a
/// RUNNING execution is now COMPLETED.
pub open spec fn advanced(before: Engine, after: Engine, e: Seq<char>, w: Seq<char>, h: Seq<char>) -> bool {
    &&& scheduled_all(after, e, version_nodes(before.versions@, w, h))
    &&& completion_checked(before, after, e, w, h)
}

/// Whether completion detection ran for `e`: if every node is done or
/// skipped, a RUNNING execution is now COMPLETED.
pub open spec fn completion_checked(before: Engine, after: Engine, e: Seq<char>, w: Seq<char>, h: Seq<char>) -> bool {
    let ir = version_nodes(before.versions@, w, h);
    all_satisfied(ir, completions_of(after.events@, e)) && has_execution(before.executions@, e)
        && exec_of(before.executions@, e).status == ExecStatus::Running ==> exec_of(after.executions@, e).status == ExecStatus::Completed
}

/// Nothing is left unqueued for `c` after steps that leave its tasks and
/// its completions alone.
pub proof fn lemma_scheduled_kept(a: Engine, b: Engine, c: Seq<char>, ir: Seq<NodeDef>)
    requires
        scheduled_all(a, c, ir),
        untouched_for(a.tasks@, b.tasks@, c),
        completions_of(b.events@, c) == completions_of(a.events@, c),
    ensures
        scheduled_all(b, c, ir),
{
    assert forall|i: int| 0 <= i < ir.len() && !is_satisfied(ir, completions_of(b.events@, c), ir[i].id@)
        && #[trigger] deps_satisfied(ir, completions_of(b.events@, c), i) implies has_task(b.tasks@, c, ir[i].id@) by {
        assert(has_task(a.tasks@, c, ir[i].id@));
        let q = choose|q: int| 0 <= q < a.tasks@.len() && a.tasks@[q].execution_id@ == c && a.tasks@[q].node_id@ == ir[i].id@;
        assert(b.tasks@[q] == a.tasks@[q]);
    }
}

/// Advancement of `c` survives steps that leave its tasks, its log and
/// its completion alone.
pub proof fn lemma_advanced_kept(start: Engine, a: Engine, b: Engine, c: Seq<char>, w: Seq<char>, h: Seq<char>)
    requires
        advanced(start, a, c, w, h),
        untouched_for(a.tasks@, b.tasks@, c),
        completions_of(b.events@, c) == completions_of(a.events@, c),
        crate::store::executions_unique(a.executions@),
        same_links(a.executions@, b.executions@),
        same_links(start.executions@, a.executions@),
        crate::store::executions_unique(start.executions@),
        forall|i: int| 0 <= i < a.executions@.len() && a.executions@[i].status == ExecStatus::Completed
            ==> #[trigger] b.executions@[i].status == ExecStatus::Completed,
    ensures
        advanced(start, b, c, w, h),
{
    let ir = version_nodes(start.versions@, w, h);
    assert forall|i: int| 0 <= i < ir.len() && !is_satisfied(ir, completions_of(b.events@, c), ir[i].id@)
        && #[trigger] deps_satisfied(ir, completions_of(b.events@, c), i) implies has_task(b.tasks@, c, ir[i].id@) by {
        assert(has_task(a.tasks@, c, ir[i].id@));
        let q = choose|q: int| 0 <= q < a.tasks@.len() && a.tasks@[q].execution_id@ == c && a.tasks@[q].node_id@ == ir[i].id@;
        assert(b.tasks@[q] == a.tasks@[q]);
    }
    if all_satisfied(ir, completions_of(b.events@, c)) && has_execution(start.executions@, c)
        && exec_of(start.executions@, c).status == ExecStatus::Running {
        lemma_pos_stable(start.executions@, a.executions@, c);
        lemma_pos_stable(a.executions@, b.executions@, c);
    }
}

/// Scheduling then completion detection on `e` advances it.
pub proof fn lemma_advanced(before: Engine, mid: Engine, after: Engine, e: Seq<char>, w: Seq<char>, h: Seq<char>)
    requires
        has_version(before.versions@, w, h),
        mid.versions == before.versions,
        mid.executions == before.executions,
        scheduled_all(mid, e, version_nodes(before.versions@, w, h)),
        untouched_for(mid.tasks@, after.tasks@, e),
        completions_of(after.events@, e) == completions_of(mid.events@, e),
        due_to_complete(mid, e, w, h) ==> exec_of(after.executions@, e).status == ExecStatus::Completed,
    ensures
        advanced(before, after, e, w, h),
{
    let ir = version_nodes(before.versions@, w, h);
    assert forall|i: int| 0 <= i < ir.len() && !is_satisfied(ir, completions_of(after.events@, e), ir[i].id@)
        && #[trigger] deps_satisfied(ir, completions_of(after.events@, e), i) implies has_task(after.tasks@, e, ir[i].id@) by {
        assert(has_task(mid.tasks@, e, ir[i].id@));
        let q = choose|q: int| 0 <= q < mid.tasks@.len() && mid.tasks@[q].execution_id@ == e && mid.tasks@[q].node_id@ == ir[i].id@;
        assert(after.tasks@[q] == mid.tasks@[q]);
    }
}

/// The idempotency key of a task.
pub open spec fn task_key(e: Seq<char>, n: Seq<char>, h: Seq<char>) -> Seq<char> {
    e + ":"@ + n + ":"@ + h
}

/// A new task row: READY, unleased, no retries, no kind-specific part.
pub open spec fn fresh_task(t: Task, e: Seq<char>, n: Seq<char>, h: Seq<char>, kind: NodeKind, at: i64) -> bool {
    &&& t.execution_id@ == e
    &&& t.node_id@ == n
    &&& t.version_hash@ == h
    &&& t.idempotency_key@ == task_key(e, n, h)
    &&& t.status == TaskStatus::Ready
    &&& t.locked_by is None
    &&& t.locked_at is None
    &&& t.retry_count == 0
    &&& t.scheduled_at == at
    &&& t.node_type == kind
    &&& t.map_item is None
    &&& t.sub_execution_id is None
    &&& t.approval_status == ApprovalStatus::Unset
}

/// Whether `t` is the new task of some node of `ir` that was ready for `e`.
pub open spec fn enqueued_ready(eng: Engine, e: Seq<char>, ir: Seq<NodeDef>, h: Seq<char>, now: i64, t: Task) -> bool {
    exists|i: int| #[trigger] ready_in(eng, e, ir, i) && fresh_task(t, e, ir[i].id@, h, ir[i].kind, start_time(ir[i], now))
}

/// The tables other than the task queue are as they were.
pub open spec fn same_but_tasks(a: Engine, b: Engine) -> bool {
    &&& a.executions == b.executions
    &&& a.events == b.events
    &&& a.map_results == b.map_results
    &&& a.versions == b.versions
    &&& a.blobs == b.blobs
    &&& a.metrics == b.metrics
    &&& a.blob_root == b.blob_root
}

/// Builds a new READY task row for row `row` of the queue; its id begins
/// with the row number, then a random uuid.
pub fn make_task(row: usize, e: &str, n: &str, h: &str, kind: NodeKind, at: i64) -> (t: Task)
    ensures
        fresh_task(t, e@, n@, h@, kind, at),
        crate::text::has_prefix(t.task_id@, crate::store::id_tag(row as nat)),
{
    let id = crate::json::fresh_uuid();
    let mut task_id = String::from_str("task-");
    let d = crate::text::decimal(row as u64);
    task_id.append(d.as_str());
    task_id.append("-");
    let ghost tag = task_id@;
    task_id.append(id.as_str());
    proof {
        assert(tag == crate::store::id_tag(row as nat));
        assert(task_id@.subrange(0, tag.len() as int) =~= tag);
    }
    let mut key = String::from_str(e);
    key.append(":");
    key.append(n);
    key.append(":");
    key.append(h);
    Task {
        task_id,
        execution_id: String::from_str(e),
        node_id: String::from_str(n),
        version_hash: String::from_str(h),
        idempotency_key: key,
        status: TaskStatus::Ready,
        locked_by: None,
        locked_at: None,
        retry_count: 0,
        scheduled_at: at,
        node_type: kind,
        map_item: None,
        sub_execution_id: None,
        sub_workflow_id: None,
        sub_input_json: None,
        approval_status: ApprovalStatus::Unset,
        approver: None,
        approval_comment: None,
    }
}

impl Engine {
    /// Enqueues every node of execution `e` that has become ready, under
    /// version `h` of workflow `w`. TIMER tasks wait their delay.
    pub fn schedule_ready_nodes(&mut self, e: &str, w: &str, h: &str, now: i64) -> (r: Result<(), EngineError>)
        requires
            old(self).wf(),
        ensures
            final(self).wf(),
            same_but_tasks(*final(self), *old(self)),
            r is Err <==> !has_version(old(self).versions@, w@, h@),
            r is Err ==> final(self).tasks == old(self).tasks && r matches Err(EngineError::NotFound(_)),
            r is Ok ==> {
                let ir = version_nodes(old(self).versions@, w@, h@);
                &&& final(self).tasks@.len() >= old(self).tasks@.len()
                &&& final(self).tasks@.subrange(0, old(self).tasks@.len() as int) == old(self).tasks@
                &&& forall|k: int| old(self).tasks@.len() <= k < final(self).tasks@.len() ==>
                    enqueued_ready(*old(self), e@, ir, h@, now, #[trigger] final(self).tasks@[k])
                &&& forall|i: int| #[trigger] ready_in(*old(self), e@, ir, i) ==> exists|k: int|
                    old(self).tasks@.len() <= k < final(self).tasks@.len()
                        && final(self).tasks@[k].execution_id@ == e@ && final(self).tasks@[k].node_id@ == ir[i].id@
                &&& scheduled_all(*final(self), e@, ir)
                &&& forall|k: int, q: int| old(self).tasks@.len() <= k < final(self).tasks@.len() && 0 <= q < old(self).tasks@.len()
                    ==> #[trigger] final(self).tasks@[k].task_id@ != #[trigger] old(self).tasks@[q].task_id@
            },
    {
        let v = match self.find_version(w, h) {
            Some(v) => v,
            None => {
                return Err(EngineError::NotFound(String::from_str("Workflow not registered")));
            },
        };
        let ghost ir = version_nodes(self.versions@, w@, h@);
        proof {
            let v2 = choose|v2: int| 0 <= v2 < self.versions@.len() && self.versions@[v2].workflow_id@ == w@ && self.versions@[v2].version_hash@ == h@;
            assert(v2 == v as int);
        }
        let p = self.completions(e);
        let scheduled = self.scheduled_nodes(e);
        let ready = ready_nodes(&self.versions[v].ir.nodes, &p, &scheduled);
        let nlen = self.versions[v].ir.nodes.len();
        let ghost start = *self;
        let mut a: usize = 0;
        while a < ready.len()
            invariant
                self.wf(),
                same_but_tasks(*self, start),
                v < self.versions@.len(),
                ir == self.versions@[v as int].ir.nodes@,
                ids_unique(ir),
                ir.len() == nlen,
                progress(p@) == completions_of(start.events@, e@),
                forall|t: Seq<char>| texts(scheduled@).contains(t) <==> has_task(start.tasks@, e@, t),
                forall|b: int| 0 <= b < ready@.len() ==> eligible(ir, progress(p@), texts(scheduled@), ready@[b] as int),
                forall|i: int| eligible(ir, progress(p@), texts(scheduled@), i) ==> ready@.contains(i as usize),
                forall|b1: int, b2: int| 0 <= b1 < b2 < ready@.len() ==> ready@[b1] < ready@[b2],
                0 <= a <= ready@.len(),
                self.tasks@.len() == start.tasks@.len() + a,
                self.tasks@.subrange(0, start.tasks@.len() as int) == start.tasks@,
                forall|b: int| 0 <= b < a ==> fresh_task(
                    #[trigger] self.tasks@[start.tasks@.len() + b], e@, ir[ready@[b] as int].id@, h@,
                    ir[ready@[b] as int].kind, start_time(ir[ready@[b] as int], now)),
            decreases ready@.len() - a,
        {
            let i = ready[a];
            let node = &self.versions[v].ir.nodes[i];
            let at = if node.kind == NodeKind::Timer { add_seconds(now, node.delay_seconds) } else { now };
            let t = make_task(self.tasks.len(), e, node.id.as_str(), h, node.kind, at);
            let ghost before = self.tasks@;
            let ghost tg = t;
            self.tasks.push(t);
            proof {
            crate::store::lemma_tag_push(before, tg);
                let n0 = start.tasks@.len() as int;
                assert(self.tasks@ == before.push(tg));
                assert(eligible(ir, progress(p@), texts(scheduled@), i as int));
                assert(!has_task(start.tasks@, e@, ir[i as int].id@));
                assert forall|x: int, y: int|
                    0 <= x < self.tasks@.len() && 0 <= y < self.tasks@.len() && x != y implies !(self.tasks@[x].execution_id@
                        == self.tasks@[y].execution_id@ && self.tasks@[x].node_id@ == self.tasks@[y].node_id@) by {
                    let last = before.len() as int;
                    if x == last || y == last {
                        let other = if x == last { y } else { x };
                        assert(self.tasks@[last] == tg);
                        assert(self.tasks@[other] == before[other]);
                        if other < n0 {
                            assert(before.subrange(0, n0)[other] == before[other]);
                            assert(before[other] == start.tasks@[other]);
                            if before[other].execution_id@ == e@ && before[other].node_id@ == ir[i as int].id@ {
                                assert(has_task(start.tasks@, e@, ir[i as int].id@));
                            }
                        } else {
                            let b = other - n0;
                            assert(0 <= b < a);
                            assert(fresh_task(before[n0 + b], e@, ir[ready@[b] as int].id@, h@,
                                ir[ready@[b] as int].kind, start_time(ir[ready@[b] as int], now)));
                            assert(ready@[b] < ready@[a as int]);
                            assert(ir[ready@[b] as int].id@ != ir[i as int].id@);
                        }
                    } else {
                        assert(self.tasks@[x] == before[x]);
                        assert(self.tasks@[y] == before[y]);
                    }
                }
                assert(self.tasks@.subrange(0, n0) =~= start.tasks@) by {
                    assert forall|q: int| 0 <= q < n0 implies self.tasks@[q] == start.tasks@[q] by {
                        assert(before.subrange(0, n0)[q] == before[q]);
                    }
                }
                assert forall|b: int| 0 <= b < a + 1 implies fresh_task(
                    #[trigger] self.tasks@[start.tasks@.len() + b], e@, ir[ready@[b] as int].id@, h@,
                    ir[ready@[b] as int].kind, start_time(ir[ready@[b] as int], now)) by {
                    if b < a {
                        assert(self.tasks@[n0 + b] == before[n0 + b]);
                    } else {
                        assert(self.tasks@[n0 + b] == tg);
                    }
                }
            }
            a = a + 1;
        }
        proof {
            let n0 = start.tasks@.len();
            assert forall|k: int| n0 <= k < self.tasks@.len() implies
                enqueued_ready(start, e@, ir, h@, now, #[trigger] self.tasks@[k]) by {
                let b = k - n0;
                let i = ready@[b] as int;
                assert(eligible(ir, progress(p@), texts(scheduled@), i));
                assert(self.tasks@[n0 + b] == self.tasks@[k]);
                assert(ready_in(start, e@, ir, i));
            }
            assert forall|i: int| 0 <= i < ir.len() && !is_satisfied(ir, completions_of(self.events@, e@), ir[i].id@)
                && #[trigger] deps_satisfied(ir, completions_of(self.events@, e@), i) implies has_task(self.tasks@, e@, ir[i].id@) by {
                if has_task(start.tasks@, e@, ir[i].id@) {
                    let q = choose|q: int| 0 <= q < start.tasks@.len() && start.tasks@[q].execution_id@ == e@ && start.tasks@[q].node_id@ == ir[i].id@;
                    assert(self.tasks@.subrange(0, n0 as int)[q] == self.tasks@[q]);
                } else {
                    assert(ready_in(start, e@, ir, i));
                    assert(eligible(ir, progress(p@), texts(scheduled@), i));
                    assert(ready@.contains(i as usize));
                    let b = choose|b: int| 0 <= b < ready@.len() && ready@[b] == i as usize;
                    assert(ready@[b] as int == i);
                    assert(fresh_task(self.tasks@[start.tasks@.len() + b], e@, ir[ready@[b] as int].id@, h@,
                        ir[ready@[b] as int].kind, start_time(ir[ready@[b] as int], now)));
                }
            }
            assert forall|i: int| #[trigger] ready_in(start, e@, ir, i) implies exists|k: int|
                n0 <= k < self.tasks@.len() && self.tasks@[k].execution_id@ == e@ && self.tasks@[k].node_id@ == ir[i].id@ by {
                assert(eligible(ir, progress(p@), texts(scheduled@), i));
                assert(ready@.contains(i as usize));
                let b = choose|b: int| 0 <= b < ready@.len() && ready@[b] == i as usize;
                assert(ready@[b] as int == i);
                assert(fresh_task(self.tasks@[start.tasks@.len() + b], e@, ir[ready@[b] as int].id@, h@,
                    ir[ready@[b] as int].kind, start_time(ir[ready@[b] as int], now)));
                assert(self.tasks@[n0 + b].node_id@ == ir[i].id@);
            }
        }
        proof {
            crate::store::lemma_task_ids_distinct(self.tasks@);
            assert forall|k: int, q: int| start.tasks@.len() <= k < self.tasks@.len() && 0 <= q < start.tasks@.len()
                implies #[trigger] self.tasks@[k].task_id@ != #[trigger] start.tasks@[q].task_id@ by {
                assert(self.tasks@.subrange(0, start.tasks@.len() as int)[q] == self.tasks@[q]);
            }
        }
        Ok(())
    }

    /// The nodes of execution `e` that have a task row.
    pub fn scheduled_nodes(&self, e: &str) -> (r: Vec<String>)
        ensures
            forall|t: Seq<char>| texts(r@).contains(t) <==> has_task(self.tasks@, e@, t),
    {
        let mut r: Vec<String> = Vec::new();
        let mut k: usize = 0;
        while k < self.tasks.len()
            invariant
                0 <= k <= self.tasks@.len(),
                forall|t: Seq<char>| texts(r@).contains(t) <==> exists|q: int|
                    0 <= q < k && self.tasks@[q].execution_id@ == e@ && self.tasks@[q].node_id@ == t,
            decreases self.tasks@.len() - k,
        {
            if crate::text::literal_eq(self.tasks[k].execution_id.as_str(), e) {
                let ghost before = r@;
                let x = self.tasks[k].node_id.clone();
                r.push(x);
                proof {
                    assert forall|t: Seq<char>| texts(r@).contains(t) <==> exists|q: int|
                        0 <= q < k + 1 && self.tasks@[q].execution_id@ == e@ && self.tasks@[q].node_id@ == t by {
                        lemma_texts_push(before, x, t);
                        if exists|q: int| 0 <= q < k + 1 && self.tasks@[q].execution_id@ == e@ && self.tasks@[q].node_id@ == t {
                            let q = choose|q: int| 0 <= q < k + 1 && self.tasks@[q].execution_id@ == e@ && self.tasks@[q].node_id@ == t;
                            if q < k {
                                assert(texts(before).contains(t));
                            }
                        }
                    }
                }
            }
            k = k + 1;
        }
        r
    }
}

/// The execution with id `e`.
pub open spec fn exec_of(xs: Seq<Execution>, e: Seq<char>) -> Execution {
    xs[exec_pos(xs, e)]
}

/// The position of the execution with id `e`.
pub open spec fn exec_pos(xs: Seq<Execution>, e: Seq<char>) -> int {
    choose|x: int| 0 <= x < xs.len() && xs[x].execution_id@ == e
}

/// The tasks of execution `e` are as they were, and none were added.
pub open spec fn untouched_for(a: Seq<Task>, b: Seq<Task>, e: Seq<char>) -> bool {
    &&& b.len() >= a.len()
    &&& forall|k: int| 0 <= k < a.len() && a[k].execution_id@ == e ==> #[trigger] b[k] == a[k]
    &&& forall|k: int| a.len() <= k < b.len() ==> (#[trigger] b[k]).execution_id@ != e
}

/// A parent execution comes before its child.
pub proof fn lemma_parent_earlier(xs: Seq<Execution>, c: Seq<char>)
    requires
        crate::store::executions_unique(xs),
        crate::store::parents_earlier(xs),
        has_execution(xs, c),
        exec_of(xs, c).parent is Some,
    ensures
        has_execution(xs, exec_of(xs, c).parent.unwrap().execution_id@),
        exec_pos(xs, exec_of(xs, c).parent.unwrap().execution_id@) < exec_pos(xs, c),
        0 <= exec_pos(xs, c) < xs.len(),
{
    reveal(crate::store::parents_earlier);
    let i = exec_pos(xs, c);
    let pid = xs[i].parent.unwrap().execution_id@;
    assert(xs[i].parent is Some);
    let j = choose|j: int| 0 <= j < i && xs[j].execution_id@ == pid;
    assert(has_execution(xs, pid));
    let q = exec_pos(xs, pid);
    assert(q == j);
}

/// Positions survive updates that keep ids.
pub proof fn lemma_pos_stable(a: Seq<Execution>, b: Seq<Execution>, id: Seq<char>)
    requires
        crate::store::executions_unique(a),
        same_links(a, b),
        has_execution(a, id),
    ensures
        has_execution(b, id),
        exec_pos(b, id) == exec_pos(a, id),
        0 <= exec_pos(a, id) < a.len(),
{
    let i = exec_pos(a, id);
    assert(b[i].execution_id@ == id);
    let j = exec_pos(b, id);
    assert(a[j].execution_id@ == b[j].execution_id@);
}

pub open spec fn has_execution(xs: Seq<Execution>, e: Seq<char>) -> bool {
    exists|x: int| 0 <= x < xs.len() && xs[x].execution_id@ == e
}

/// Whether execution `e` of version `h` of workflow `w` is RUNNING and has
/// every node done or skipped: it is due to complete.
pub open spec fn due_to_complete(eng: Engine, e: Seq<char>, w: Seq<char>, h: Seq<char>) -> bool {
    &&& has_version(eng.versions@, w, h)
    &&& all_satisfied(version_nodes(eng.versions@, w, h), completions_of(eng.events@, e))
    &&& has_execution(eng.executions@, e)
    &&& exec_of(eng.executions@, e).status == ExecStatus::Running
}

/// Whether the RUNNING task of node `n` of execution `e`, if there was
/// one, is now DONE.
pub open spec fn parent_task_done(before: Engine, after: Engine, e: Seq<char>, n: Seq<char>) -> bool {
    forall|y: int| 0 <= y < before.tasks@.len() && before.tasks@[y].execution_id@ == e && before.tasks@[y].node_id@ == n
        && before.tasks@[y].status == TaskStatus::Running ==> #[trigger] after.tasks@[y].status == TaskStatus::Done
}

/// Whether the version of every execution is in the catalogue.
pub open spec fn registered(eng: Engine) -> bool {
    forall|x: int| 0 <= x < eng.executions@.len() ==> has_version(eng.versions@,
        (#[trigger] eng.executions@[x]).workflow_id@, eng.executions@[x].version_hash@)
}

/// Executions keep their ids, workflows, versions and parents.
pub open spec fn same_links(a: Seq<Execution>, b: Seq<Execution>) -> bool {
    &&& b.len() == a.len()
    &&& forall|i: int| 0 <= i < a.len() ==> (#[trigger] b[i]).execution_id@ == a[i].execution_id@
        && b[i].workflow_id@ == a[i].workflow_id@ && b[i].version_hash@ == a[i].version_hash@ && b[i].parent == a[i].parent
}

/// The parent execution of `e`.
pub open spec fn parent_of(eng: Engine, e: Seq<char>) -> Seq<char> {
    exec_of(eng.executions@, e).parent.unwrap().execution_id@
}

/// Whether execution `e` is due to complete and is the child of a
/// SUBWORKFLOW node, so that completing it completes that node.
pub open spec fn couples(eng: Engine, e: Seq<char>, w: Seq<char>, h: Seq<char>) -> bool {
    &&& due_to_complete(eng, e, w, h)
    &&& exec_of(eng.executions@, e).parent is Some
    &&& parent_of(eng, e).len() > 0
}

/// Only tasks of execution `pid` changed or were added.
pub open spec fn touches_only(a: Seq<Task>, b: Seq<Task>, pid: Seq<char>) -> bool {
    &&& b.len() >= a.len()
    &&& forall|k: int| 0 <= k < a.len() && #[trigger] b[k] != a[k] ==> a[k].execution_id@ == pid
    &&& forall|k: int| 0 <= k < a.len() ==> (#[trigger] b[k]).execution_id@ == a[k].execution_id@
    &&& forall|k: int| a.len() <= k < b.len() ==> (#[trigger] b[k]).execution_id@ == pid
}

/// Whether the log holds, after position `from`, a completion of node `n`
/// of execution `e` with output text `out`.
pub open spec fn completion_after(evs: Seq<Event>, from: int, e: Seq<char>, n: Seq<char>, out: Seq<char>) -> bool {
    exists|k: int| from <= k < evs.len() && evs[k].execution_id@ == e && match evs[k].body {
        EventBody::NodeCompleted { node_id, output } => node_id@ == n && rendered(output) == out,
        _ => false,
    }
}

impl Engine {
    /// One step of completion detection for execution `e`: if it is due to
    /// complete it becomes COMPLETED, and if it is the child of a
    /// SUBWORKFLOW node its final output completes that node in the parent,
    /// the parent's task becomes DONE and the parent is scheduled. Returns
    /// the parent to examine next.
    pub fn complete_step(&mut self, e: &str, w: &str, h: &str, now: i64) -> (r: Result<Option<(String, String, String)>, EngineError>)
        requires
            old(self).wf(),
        ensures
            final(self).wf(),
            final(self).blobs == old(self).blobs,
            final(self).map_results == old(self).map_results,
            final(self).versions == old(self).versions,
            final(self).tasks@.len() >= old(self).tasks@.len(),
            final(self).events@.len() >= old(self).events@.len(),
            final(self).events@.subrange(0, old(self).events@.len() as int) == old(self).events@,
            same_links(old(self).executions@, final(self).executions@),
            forall|i: int| 0 <= i < old(self).executions@.len() && old(self).executions@[i].status == ExecStatus::Completed
                ==> #[trigger] final(self).executions@[i].status == ExecStatus::Completed,
            forall|i: int| 0 <= i < old(self).executions@.len() && old(self).executions@[i].execution_id@ != e@
                ==> #[trigger] final(self).executions@[i].status == old(self).executions@[i].status,
            !has_version(old(self).versions@, w@, h@) ==> (r matches Err(EngineError::NotFound(_))) && *final(self) == *old(self),
            has_version(old(self).versions@, w@, h@) && registered(*old(self)) ==> r is Ok,
            has_version(old(self).versions@, w@, h@) && !due_to_complete(*old(self), e@, w@, h@) ==> (r matches Ok(None)) && *final(self) == *old(self),
            due_to_complete(*old(self), e@, w@, h@) ==> exec_of(final(self).executions@, e@).status == ExecStatus::Completed
                && final(self).metrics.executions_completed == bump(old(self).metrics.executions_completed),
            due_to_complete(*old(self), e@, w@, h@) && !couples(*old(self), e@, w@, h@) ==> (r matches Ok(None))
                && final(self).tasks == old(self).tasks && final(self).events == old(self).events,
            forall|y: int| 0 <= y < old(self).tasks@.len() && old(self).tasks@[y].status == TaskStatus::Done
                ==> #[trigger] final(self).tasks@[y].status == TaskStatus::Done,
            couples(*old(self), e@, w@, h@) ==> {
                let pid = parent_of(*old(self), e@);
                let pn = exec_of(old(self).executions@, e@).parent.unwrap().node_id@;
                &&& completion_after(final(self).events@, old(self).events@.len() as int, pid, pn, final_output_text(old(self).events@, e@))
                &&& parent_task_done(*old(self), *final(self), pid, pn)
                &&& touches_only(old(self).tasks@, final(self).tasks@, pid)
                &&& forall|c: Seq<char>| c != pid ==> #[trigger] completions_of(final(self).events@, c) == completions_of(old(self).events@, c)
                &&& forall|c: Seq<char>| c != pid ==> #[trigger] seq_ids(final(self).events@, c) == seq_ids(old(self).events@, c)
                &&& seq_ids(final(self).events@, pid).len() == seq_ids(old(self).events@, pid).len() + 1
                &&& completions_of(final(self).events@, pid) == completions_of(old(self).events@, pid).push(
                    (pn, final_output_text(old(self).events@, e@)))
            },
            couples(*old(self), e@, w@, h@) ==> !(r matches Ok(None)),
            r matches Ok(Some(t)) ==> couples(*old(self), e@, w@, h@) && t.0@ == parent_of(*old(self), e@)
                && has_execution(old(self).executions@, t.0@) && exec_of(old(self).executions@, t.0@).workflow_id@ == t.1@
                && exec_of(old(self).executions@, t.0@).version_hash@ == t.2@
                && scheduled_all(*final(self), t.0@, version_nodes(final(self).versions@, t.1@, t.2@)),
    {
        let v = match self.find_version(w, h) {
            Some(v) => v,
            None => {
                return Err(EngineError::NotFound(String::from_str("Workflow not registered")));
            },
        };
        proof {
            let v2 = choose|v2: int| 0 <= v2 < self.versions@.len() && self.versions@[v2].workflow_id@ == w@ && self.versions@[v2].version_hash@ == h@;
            assert(v2 == v as int);
        }
        let p = self.completions(e);
        if !all_done(&self.versions[v].ir.nodes, &p) {
            return Ok(None);
        }
        let x = match self.find_execution(e) {
            Some(x) => x,
            None => {
                return Ok(None);
            },
        };
        proof {
            let x2 = choose|x2: int| 0 <= x2 < self.executions@.len() && self.executions@[x2].execution_id@ == e@;
            assert(x2 == x as int);
        }
        if self.executions[x].status != ExecStatus::Running {
            return Ok(None);
        }
        let ghost start = *self;
        self.executions[x].status = ExecStatus::Completed;
        self.metrics.executions_completed = bump_exec(self.metrics.executions_completed);
        proof {
            crate::store::lemma_same_links(start.executions@, self.executions@);
            let x2 = choose|x2: int| 0 <= x2 < self.executions@.len() && self.executions@[x2].execution_id@ == e@;
            assert(x2 == x as int);
        }
        let (pe, pn) = match &self.executions[x].parent {
            None => {
                return Ok(None);
            },
            Some(link) => (link.execution_id.clone(), link.node_id.clone()),
        };
        if pe.unicode_len() == 0 {
            return Ok(None);
        }
        let out = self.final_output(e);
        let ghost out_text = rendered(out);
        let ghost n0 = self.events@.len();
        self.append_event(pe.as_str(), EventBody::NodeCompleted { node_id: pn.clone(), output: out });
        proof {
            assert(self.events@[n0 as int] == self.events@.last());
            assert(completion_after(self.events@, n0 as int, pe@, pn@, out_text));
            assert(self.events@.subrange(0, n0 as int) == start.events@);
            assert(self.events@ == start.events@.push(self.events@.last()));
            assert forall|c: Seq<char>| c != pe@ implies #[trigger] completions_of(self.events@, c) == completions_of(start.events@, c) by {
                crate::store::lemma_seq_ids_push(start.events@, self.events@.last(), c);
            }
            assert forall|c: Seq<char>| c != pe@ implies #[trigger] seq_ids(self.events@, c) == seq_ids(start.events@, c) by {
                crate::store::lemma_seq_ids_push(start.events@, self.events@.last(), c);
            }
            crate::store::lemma_seq_ids_push(start.events@, self.events@.last(), pe@);
        }
        let ghost before_mark = *self;
        match self.find_node_task(pe.as_str(), pn.as_str()) {
            Some(y) => {
                proof {
                    assert forall|y2: int| 0 <= y2 < self.tasks@.len() && self.tasks@[y2].execution_id@ == pe@
                        && self.tasks@[y2].node_id@ == pn@ implies y2 == y as int by {}
                }
                if self.tasks[y].status == TaskStatus::Running {
                    let ghost before = self.tasks@;
                    self.tasks[y].status = TaskStatus::Done;
                    proof {
                        crate::store::lemma_same_keys(before, self.tasks@);
                    }
                }
            },
            None => {},
        }
        proof {
            reveal(crate::store::parents_earlier);
            assert(self.executions@[x as int].parent is Some);
            assert(start.executions@[x as int].parent == self.executions@[x as int].parent);
            let j = choose|j: int| 0 <= j < x && start.executions@[j].execution_id@ == start.executions@[x as int].parent.unwrap().execution_id@;
            assert(self.executions@[j].execution_id@ == pe@);
        }
        let px = match self.find_execution(pe.as_str()) {
            Some(px) => px,
            None => {
                return Err(EngineError::Internal(String::from_str("Parent execution not found")));
            },
        };
        let pw = self.executions[px].workflow_id.clone();
        let ph = self.executions[px].version_hash.clone();
        proof {
            assert(parent_task_done(start, *self, pe@, pn@));
            let y2 = choose|y2: int| 0 <= y2 < self.executions@.len() && self.executions@[y2].execution_id@ == pe@;
            assert(y2 == px as int);
            assert(self.executions@[px as int].workflow_id@ == start.executions@[px as int].workflow_id@);
            let y3 = choose|y3: int| 0 <= y3 < start.executions@.len() && start.executions@[y3].execution_id@ == pe@;
            assert(start.executions@[px as int].execution_id@ == pe@);
            assert(y3 == px as int);
            assert(touches_only(start.tasks@, self.tasks@, pe@));
            if registered(start) {
                assert(has_version(start.versions@, start.executions@[px as int].workflow_id@, start.executions@[px as int].version_hash@));
            }
        }
        let ghost mid = *self;
        let sr = self.schedule_ready_nodes(pe.as_str(), pw.as_str(), ph.as_str(), now);
        proof {
            assert(self.events == mid.events);
            assert forall|y: int| 0 <= y < mid.tasks@.len() implies #[trigger] self.tasks@[y] == mid.tasks@[y] by {
                assert(self.tasks@.subrange(0, mid.tasks@.len() as int)[y] == self.tasks@[y]);
            }
            if sr is Ok {
                assert forall|k: int| mid.tasks@.len() <= k < self.tasks@.len() implies self.tasks@[k].execution_id@ == pe@ by {
                    assert(enqueued_ready(mid, pe@, version_nodes(mid.versions@, pw@, ph@), ph@, now, self.tasks@[k]));
                }
            }
            assert(touches_only(start.tasks@, self.tasks@, pe@));
        }
        match sr {
            Ok(()) => Ok(Some((pe, pw, ph))),
            Err(err) => Err(err),
        }
    }

    /// Completion detection for execution `e`, walking up the chain of
    /// parent executions iteratively while each one completes in turn.
    pub fn check_execution_complete(&mut self, e: &str, w: &str, h: &str, now: i64) -> (r: Result<(), EngineError>)
        requires
            old(self).wf(),
        ensures
            final(self).wf(),
            final(self).blobs == old(self).blobs,
            final(self).map_results == old(self).map_results,
            final(self).versions == old(self).versions,
            final(self).tasks@.len() >= old(self).tasks@.len(),
            final(self).events@.len() >= old(self).events@.len(),
            final(self).events@.subrange(0, old(self).events@.len() as int) == old(self).events@,
            same_links(old(self).executions@, final(self).executions@),
            forall|y: int| 0 <= y < old(self).tasks@.len() && old(self).tasks@[y].status == TaskStatus::Done
                ==> #[trigger] final(self).tasks@[y].status == TaskStatus::Done,
            untouched_for(old(self).tasks@, final(self).tasks@, e@),
            completions_of(final(self).events@, e@) == completions_of(old(self).events@, e@),
            seq_ids(final(self).events@, e@) == seq_ids(old(self).events@, e@),
            !has_version(old(self).versions@, w@, h@) ==> (r matches Err(EngineError::NotFound(_))) && *final(self) == *old(self),
            has_version(old(self).versions@, w@, h@) && registered(*old(self)) ==> r is Ok,
            has_version(old(self).versions@, w@, h@) && !due_to_complete(*old(self), e@, w@, h@) ==> (r matches Ok(())) && *final(self) == *old(self),
            due_to_complete(*old(self), e@, w@, h@) ==> exec_of(final(self).executions@, e@).status == ExecStatus::Completed,
            due_to_complete(*old(self), e@, w@, h@) && !couples(*old(self), e@, w@, h@) ==> (r matches Ok(()))
                && final(self).tasks == old(self).tasks && final(self).events == old(self).events,
            couples(*old(self), e@, w@, h@) ==> {
                let pid = parent_of(*old(self), e@);
                let pn = exec_of(old(self).executions@, e@).parent.unwrap().node_id@;
                &&& completion_after(final(self).events@, old(self).events@.len() as int, pid, pn, final_output_text(old(self).events@, e@))
                &&& parent_task_done(*old(self), *final(self), pid, pn)
                &&& seq_ids(final(self).events@, pid).len() == seq_ids(old(self).events@, pid).len() + 1
                &&& completions_of(final(self).events@, pid) == completions_of(old(self).events@, pid).push(
                    (pn, final_output_text(old(self).events@, e@)))
                &&& r is Ok ==> advanced(*old(self), *final(self), pid, exec_of(old(self).executions@, pid).workflow_id@,
                    exec_of(old(self).executions@, pid).version_hash@)
            },
    {
        let ghost start = *self;
        let first = self.complete_step(e, w, h, now);
        let ghost after_first = *self;
        proof {
            if couples(start, e@, w@, h@) {
                lemma_parent_earlier(start.executions@, e@);
                let pid = parent_of(start, e@);
                assert(pid != e@);
                assert(completions_of(after_first.events@, e@) == completions_of(start.events@, e@));
                assert forall|k: int| 0 <= k < start.tasks@.len() && start.tasks@[k].execution_id@ == e@ implies
                    #[trigger] after_first.tasks@[k] == start.tasks@[k] by {}
            }
        }
        let mut next = match first {
            Err(err) => {
                return Err(err);
            },
            Ok(None) => {
                return Ok(());
            },
            Ok(Some(t)) => Some(t),
        };
        let mut result: Result<(), EngineError> = Ok(());
        let mut steps: usize = 0;
        let limit = self.executions.len();
        let ghost pid = parent_of(start, e@);
        let ghost pwg = exec_of(start.executions@, pid).workflow_id@;
        let ghost phg = exec_of(start.executions@, pid).version_hash@;
        let ghost mut checked: bool = false;
        proof {
            lemma_parent_earlier(start.executions@, e@);
            lemma_pos_stable(start.executions@, self.executions@, e@);
            lemma_pos_stable(start.executions@, self.executions@, pid);
            let pp = exec_pos(start.executions@, pid);
            assert(start.executions@[pp].execution_id@ == pid);
            assert(self.executions@[pp].status == start.executions@[pp].status);
            assert(exec_pos(start.executions@, pid) < exec_pos(start.executions@, e@));
        }
        while steps < limit
            invariant
                self.wf(),
                self.blobs == start.blobs,
                self.map_results == start.map_results,
                self.versions == start.versions,
                same_links(start.executions@, self.executions@),
                has_execution(start.executions@, e@),
                crate::store::executions_unique(start.executions@),
                self.tasks@.len() >= after_first.tasks@.len(),
                limit >= 1,
                pid == parent_of(start, e@),
                has_execution(start.executions@, pid),
                exec_pos(start.executions@, pid) < exec_pos(start.executions@, e@),
                seq_ids(self.events@, e@) == seq_ids(start.events@, e@),
                seq_ids(self.events@, pid) == seq_ids(after_first.events@, pid),
                completions_of(self.events@, pid) == completions_of(after_first.events@, pid),
                untouched_for(after_first.tasks@, self.tasks@, pid),
                scheduled_all(after_first, pid, version_nodes(start.versions@, pwg, phg)),
                exec_of(after_first.executions@, pid).status == exec_of(start.executions@, pid).status,
                same_links(start.executions@, after_first.executions@),
                next matches Some(t) ==> exec_pos(self.executions@, t.0@) <= exec_pos(start.executions@, pid),
                !checked ==> steps == 0 && *self == after_first && (next matches Some(t) && t.0@ == pid && t.1@ == pwg && t.2@ == phg),
                checked && result is Ok ==> advanced(start, *self, pid, pwg, phg),
                registered(start) ==> registered(*self),
                result is Err ==> !registered(start),
                next matches Some(t) ==> has_execution(self.executions@, t.0@) && exec_of(self.executions@, t.0@).workflow_id@ == t.1@
                    && exec_of(self.executions@, t.0@).version_hash@ == t.2@
                    && exec_pos(self.executions@, t.0@) < exec_pos(start.executions@, e@),
                untouched_for(start.tasks@, self.tasks@, e@),
                completions_of(self.events@, e@) == completions_of(start.events@, e@),
                forall|y: int| 0 <= y < after_first.tasks@.len() && after_first.tasks@[y].status == TaskStatus::Done
                    ==> #[trigger] self.tasks@[y].status == TaskStatus::Done,
                forall|y: int| 0 <= y < start.tasks@.len() && start.tasks@[y].status == TaskStatus::Done
                    ==> #[trigger] after_first.tasks@[y].status == TaskStatus::Done,
                has_version(start.versions@, w@, h@),
                due_to_complete(start, e@, w@, h@),
                couples(start, e@, w@, h@),
                self.executions@.len() == limit,
                self.executions@.len() == after_first.executions@.len(),
                forall|i: int| 0 <= i < limit ==> #[trigger] self.executions@[i].execution_id@
                    == after_first.executions@[i].execution_id@ && (after_first.executions@[i].status == ExecStatus::Completed
                    ==> self.executions@[i].status == ExecStatus::Completed),
                self.events@.len() >= after_first.events@.len(),
                self.events@.subrange(0, after_first.events@.len() as int) == after_first.events@,
            ensures
                checked,
            decreases limit - steps,
        {
            match next {
                None => {
                    proof {
                        assert(checked);
                    }
                    break;
                },
                Some((pe, pw, ph)) => {
                    let ghost before = *self;
                    proof {
                        lemma_pos_stable(start.executions@, before.executions@, e@);
                    }
                    let step = self.complete_step(pe.as_str(), pw.as_str(), ph.as_str(), now);
                    proof {
                        assert(self.events@.subrange(0, after_first.events@.len() as int) =~= after_first.events@) by {
                            assert forall|q: int| 0 <= q < after_first.events@.len() implies self.events@[q] == after_first.events@[q] by {
                                assert(self.events@.subrange(0, before.events@.len() as int)[q] == self.events@[q]);
                                assert(before.events@.subrange(0, after_first.events@.len() as int)[q] == before.events@[q]);
                            }
                        }
                        assert(same_links(start.executions@, self.executions@));
                        assert forall|y: int| 0 <= y < after_first.tasks@.len() && after_first.tasks@[y].status == TaskStatus::Done
                            implies #[trigger] self.tasks@[y].status == TaskStatus::Done by {
                            assert(before.tasks@[y].status == TaskStatus::Done);
                        }
                        lemma_pos_stable(before.executions@, self.executions@, pe@);
                        lemma_pos_stable(start.executions@, self.executions@, e@);
                        lemma_pos_stable(start.executions@, before.executions@, pid);
                        lemma_pos_stable(start.executions@, self.executions@, pid);
                        lemma_pos_stable(start.executions@, before.executions@, pe@);
                        if couples(before, pe@, pw@, ph@) {
                            lemma_parent_earlier(before.executions@, pe@);
                            let q = parent_of(before, pe@);
                            assert(q != pid);
                            assert(q != e@);
                            assert(seq_ids(self.events@, pid) == seq_ids(before.events@, pid));
                            assert(completions_of(self.events@, pid) == completions_of(before.events@, pid));
                            assert(seq_ids(self.events@, e@) == seq_ids(before.events@, e@));
                            assert forall|k: int| 0 <= k < after_first.tasks@.len() && after_first.tasks@[k].execution_id@ == pid implies
                                #[trigger] self.tasks@[k] == after_first.tasks@[k] by {
                                assert(before.tasks@[k] == after_first.tasks@[k]);
                            }
                            assert forall|k: int| after_first.tasks@.len() <= k < self.tasks@.len() implies
                                (#[trigger] self.tasks@[k]).execution_id@ != pid by {
                                if k < before.tasks@.len() {
                                    assert(before.tasks@[k].execution_id@ != pid);
                                }
                            }
                        }
                        if !checked {
                            assert(before == after_first);
                            if step is Ok {
                                lemma_scheduled_kept(after_first, *self, pid, version_nodes(start.versions@, pwg, phg));
                                let ir = version_nodes(start.versions@, pwg, phg);
                                if all_satisfied(ir, completions_of(self.events@, pid)) && has_execution(start.executions@, pid)
                                    && exec_of(start.executions@, pid).status == ExecStatus::Running {
                                    lemma_pos_stable(start.executions@, after_first.executions@, pid);
                                    assert(has_execution(after_first.executions@, pid));
                                    assert(due_to_complete(after_first, pid, pwg, phg));
                                }
                                assert(advanced(start, *self, pid, pwg, phg));
                            }
                        } else if result is Ok && step is Ok {
                            lemma_advanced_kept(start, before, *self, pid, pwg, phg);
                        }
                        if couples(before, pe@, pw@, ph@) {
                            lemma_parent_earlier(before.executions@, pe@);
                            let pid = parent_of(before, pe@);
                            assert(pid != e@);
                            assert(completions_of(self.events@, e@) == completions_of(before.events@, e@));
                            lemma_pos_stable(before.executions@, self.executions@, pid);
                            lemma_pos_stable(start.executions@, self.executions@, e@);
                            assert forall|k: int| 0 <= k < start.tasks@.len() && start.tasks@[k].execution_id@ == e@ implies
                                #[trigger] self.tasks@[k] == start.tasks@[k] by {
                                assert(before.tasks@[k] == start.tasks@[k]);
                            }
                            assert forall|k: int| start.tasks@.len() <= k < self.tasks@.len() implies
                                (#[trigger] self.tasks@[k]).execution_id@ != e@ by {
                                if k < before.tasks@.len() {
                                    assert(before.tasks@[k].execution_id@ != e@);
                                }
                            }
                        }
                        if registered(start) {
                            assert(registered(before));
                            assert(has_version(before.versions@, pw@, ph@)) by {
                                let q = exec_pos(before.executions@, pe@);
                                assert(has_version(before.versions@, before.executions@[q].workflow_id@, before.executions@[q].version_hash@));
                            }
                            assert(registered(*self)) by {
                                assert forall|x: int| 0 <= x < self.executions@.len() implies has_version(self.versions@,
                                    (#[trigger] self.executions@[x]).workflow_id@, self.executions@[x].version_hash@) by {
                                    assert(before.executions@[x].workflow_id@ == self.executions@[x].workflow_id@);
                                }
                            }
                        }
                    }
                    proof {
                        checked = true;
                    }
                    match step {
                        Ok(n) => {
                            proof {
                                if n is Some {
                                    let t = n.unwrap();
                                    lemma_parent_earlier(before.executions@, pe@);
                                    lemma_pos_stable(before.executions@, self.executions@, t.0@);
                                    lemma_pos_stable(start.executions@, self.executions@, e@);
                                    lemma_pos_stable(start.executions@, before.executions@, e@);
                                }
                            }
                            next = n;
                        },
                        Err(err) => {
                            result = Err(err);
                            break;
                        },
                    }
                },
            }
            steps = steps + 1;
        }
        proof {
            if !checked {
                assert(steps == 0);
            }
            let x = choose|x: int| 0 <= x < after_first.executions@.len() && after_first.executions@[x].execution_id@ == e@;
            assert(self.executions@[x].execution_id@ == e@);
            let y = choose|y: int| 0 <= y < self.executions@.len() && self.executions@[y].execution_id@ == e@;
            assert(y == x);
            assert forall|q: int| 0 <= q < start.events@.len() implies self.events@[q] == start.events@[q] by {
                assert(self.events@.subrange(0, after_first.events@.len() as int)[q] == self.events@[q]);
                assert(after_first.events@.subrange(0, start.events@.len() as int)[q] == after_first.events@[q]);
            }
            assert(self.events@.subrange(0, start.events@.len() as int) =~= start.events@);
            let le = parent_of(start, e@);
            let ln = exec_of(start.executions@, e@).parent.unwrap().node_id@;
            let out = final_output_text(start.events@, e@);
            let k = choose|k: int| start.events@.len() <= k < after_first.events@.len() && after_first.events@[k].execution_id@ == le
                && match after_first.events@[k].body {
                    EventBody::NodeCompleted { node_id, output } => node_id@ == ln && rendered(output) == out,
                    _ => false,
                };
            assert(self.events@.subrange(0, after_first.events@.len() as int)[k] == self.events@[k]);
            assert(completion_after(self.events@, start.events@.len() as int, le, ln, out));
            assert(checked);
            assert forall|y: int| 0 <= y < start.tasks@.len() && start.tasks@[y].execution_id@ == le && start.tasks@[y].node_id@ == ln
                && start.tasks@[y].status == TaskStatus::Running implies #[trigger] self.tasks@[y].status == TaskStatus::Done by {
                assert(after_first.tasks@[y].status == TaskStatus::Done);
            }
        }
        result
    }
}

} // verus!
