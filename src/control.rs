//! Registration of workflow versions, starting and cancelling executions,
//! lease reclamation, and the query surface.

use vstd::prelude::*;
use vstd::string::*;
use crate::engine::{exec_of, has_execution};
use crate::ir::{Compatibility, NodeDef, WorkflowIr, classify_registration, ids_unique, registration_class};
use crate::metrics::{bump, bump_exec};
use crate::store::{Engine, EngineError, EventBody, completions_of, ExecStatus, Execution, Task, TaskStatus, ApprovalStatus, WorkflowVersion,
    has_version, lemma_same_keys, live};
use crate::text::{literal_eq, same_text};

verus! {

/// Seconds after which a silent lease may be taken back.
pub const TASK_TIMEOUT_SECS: i64 = 60;

/// The text and graph of the latest version of workflow `w`, if any.
pub open spec fn latest_of(vs: Seq<WorkflowVersion>, w: Seq<char>) -> Option<(Seq<char>, WorkflowIr)> {
    if exists|v: int| 0 <= v < vs.len() && vs[v].workflow_id@ == w {
        let v = choose|v: int| 0 <= v < vs.len() && vs[v].workflow_id@ == w
            && forall|q: int| v < q < vs.len() ==> vs[q].workflow_id@ != w;
        Some((vs[v].ir_json@, vs[v].ir))
    } else {
        None
    }
}

/// The catalogue gained one row at its end: version `h` of workflow `w`
/// with its text, graph, tag and time.
pub open spec fn stored_row(before: Seq<WorkflowVersion>, after: Seq<WorkflowVersion>, w: Seq<char>, h: Seq<char>,
    text: Seq<char>, ir: WorkflowIr, c: Compatibility, now: i64) -> bool {
    &&& after.len() == before.len() + 1
    &&& after.drop_last() == before
    &&& after.last().workflow_id@ == w
    &&& after.last().version_hash@ == h
    &&& after.last().ir_json@ == text
    &&& after.last().ir == ir
    &&& after.last().compatibility == c
    &&& after.last().registered_at == now
}

/// What starting an execution of version `h` of workflow `w` on `input`
/// does, whatever id it was given.
pub open spec fn execution_started(before: Engine, after: Engine, w: Seq<char>, h: Seq<char>, input: Seq<char>,
    r: Result<String, EngineError>) -> bool {
    &&& !has_version(before.versions@, w, h) ==> (r matches Err(_))
    &&& (r matches Err(EngineError::Internal(_))) ==> after == before
    &&& (r matches Err(EngineError::NotFound(_))) ==> {
        let x = after.executions@.last();
        &&& !has_version(before.versions@, w, h)
        &&& after.executions@.len() == before.executions@.len() + 1
        &&& x.workflow_id@ == w && x.version_hash@ == h && x.input_json@ == input
        &&& x.status == ExecStatus::Running && x.parent is None
        &&& after.tasks == before.tasks
    }
    &&& has_version(before.versions@, w, h) ==> r is Ok || (r matches Err(EngineError::Internal(_)))
    &&& r matches Ok(id) ==> {
        &&& after.tasks@.subrange(0, before.tasks@.len() as int) == before.tasks@
        &&& forall|k: int| before.tasks@.len() <= k < after.tasks@.len() ==> (#[trigger] after.tasks@[k]).execution_id@ == id@
        &&& crate::engine::scheduled_all(after, id@, crate::engine::version_nodes(before.versions@, w, h))
    }
    &&& r matches Ok(id) ==> {
        let x = exec_of(after.executions@, id@);
        &&& !has_execution(before.executions@, id@)
        &&& has_execution(after.executions@, id@)
        &&& x.workflow_id@ == w
        &&& x.version_hash@ == h
        &&& x.input_json@ == input
        &&& x.status == ExecStatus::Running
        &&& x.parent is None
    }
    &&& r is Ok ==> after.metrics.executions_started == bump(before.metrics.executions_started)
}

/// Whether a lease may be taken back at `now`: RUNNING, leased more than
/// the timeout ago, not awaiting an approval and not waiting on a child
/// execution.
pub open spec fn reclaimable(t: Task, now: i64) -> bool {
    &&& t.status == TaskStatus::Running
    &&& t.locked_at matches Some(at) && at + TASK_TIMEOUT_SECS < now
    &&& t.approval_status != ApprovalStatus::Pending
    &&& t.sub_execution_id is None
}

/// Whether distinct nodes have distinct ids.
fn ids_distinct(nodes: &Vec<NodeDef>) -> (r: bool)
    ensures
        r == ids_unique(nodes@),
{
    let mut i: usize = 0;
    while i < nodes.len()
        invariant
            0 <= i <= nodes@.len(),
            forall|a: int, b: int| 0 <= a < i && 0 <= b < nodes@.len() && a != b ==> nodes@[a].id@ != nodes@[b].id@,
        decreases nodes@.len() - i,
    {
        let mut j: usize = 0;
        while j < nodes.len()
            invariant
                0 <= i < nodes@.len(),
                0 <= j <= nodes@.len(),
                forall|a: int, b: int| 0 <= a < i && 0 <= b < nodes@.len() && a != b ==> nodes@[a].id@ != nodes@[b].id@,
                forall|b: int| 0 <= b < j && b != i ==> nodes@[i as int].id@ != nodes@[b].id@,
            decreases nodes@.len() - j,
        {
            if j != i && same_text(&nodes[i].id, &nodes[j].id) {
                return false;
            }
            j = j + 1;
        }
        i = i + 1;
    }
    true
}

/// A row of an execution listing.
pub struct ExecutionSummary {
    pub execution_id: String,
    pub workflow_id: String,
    pub version_hash: String,
    pub status: ExecStatus,
    pub created_at: i64,
}

/// A row of a version listing.
pub struct VersionInfo {
    pub workflow_id: String,
    pub version_hash: String,
    pub compatibility: Compatibility,
    pub registered_at: i64,
    pub active_executions: u64,
}

/// A HUMAN_APPROVAL node awaiting a decision.
pub struct PendingApproval {
    pub execution_id: String,
    pub node_id: String,
    pub workflow_id: String,
    pub started_at: i64,
}

impl Engine {
    /// Classifies graph `ir`, written as `text`, against the latest
    /// registered version of workflow `w`.
    fn classify_against_latest(&self, w: &str, text: &String, ir: &WorkflowIr) -> (c: Compatibility)
        requires
            ir.wf(),
        ensures
            c == registration_class(latest_of(self.versions@, w@), text@, *ir),
    {
        match self.latest_version(w) {
            Some(v) => {
                proof {
                    let vs = self.versions@;
                    let v2 = choose|v2: int| 0 <= v2 < vs.len() && vs[v2].workflow_id@ == w@
                        && forall|q: int| v2 < q < vs.len() ==> vs[q].workflow_id@ != w@;
                    if v2 < v {
                        assert(vs[v as int].workflow_id@ == w@);
                    }
                    if v2 > v {
                        assert(vs[v2].workflow_id@ == w@);
                    }
                    assert(v2 == v as int);
                }
                classify_registration(Some((&self.versions[v].ir_json, &self.versions[v].ir)), text, ir)
            },
            None => classify_registration(None, text, ir),
        }
    }

    /// Adds version `h` of workflow `w` to the catalogue unless present.
    fn insert_version(&mut self, w: &str, h: &str, text: String, ir: WorkflowIr, c: Compatibility, now: i64)
        requires
            old(self).wf(),
            ir.wf(),
        ensures
            final(self).wf(),
            has_version(final(self).versions@, w@, h@),
            has_version(old(self).versions@, w@, h@) ==> final(self).versions == old(self).versions,
            !has_version(old(self).versions@, w@, h@) ==> stored_row(old(self).versions@, final(self).versions@, w@, h@, text@, ir, c, now),
            final(self).executions == old(self).executions,
            final(self).events == old(self).events,
            final(self).tasks == old(self).tasks,
    {
        if self.find_version(w, h).is_none() {
            let ghost before = self.versions@;
            self.versions.push(WorkflowVersion {
                workflow_id: String::from_str(w),
                version_hash: String::from_str(h),
                ir_json: text,
                ir,
                compatibility: c,
                registered_at: now,
            });
            proof {
                let last = before.len() as int;
                assert forall|a: int, b: int| 0 <= a < self.versions@.len() && 0 <= b < self.versions@.len() && a != b
                    implies !(self.versions@[a].workflow_id@ == self.versions@[b].workflow_id@
                    && self.versions@[a].version_hash@ == self.versions@[b].version_hash@) by {
                    if a != last {
                        assert(self.versions@[a] == before[a]);
                    }
                    if b != last {
                        assert(self.versions@[b] == before[b]);
                    }
                }
                assert forall|v: int| 0 <= v < self.versions@.len() implies (#[trigger] self.versions@[v]).ir.wf() by {
                    if v != last {
                        assert(self.versions@[v] == before[v]);
                    }
                }
                assert(self.versions@[last].workflow_id@ == w@);
                assert(self.versions@.drop_last() =~= before);
            }
        }
    }

    /// Registers version `h` of workflow `w` with graph `ir` (written as
    /// `ir_json`) and classifies it against the latest earlier version. A
    /// version already registered is kept as it was.
    pub fn register_workflow(&mut self, w: &str, h: &str, ir_json: &str, ir: WorkflowIr, now: i64) -> (r: Result<Compatibility, EngineError>)
        requires
            old(self).wf(),
        ensures
            final(self).wf(),
            !ids_unique(ir.nodes@) <==> r is Err,
            r is Err ==> (r matches Err(EngineError::InvalidArgument(_))) && *final(self) == *old(self),
            r matches Ok(c) ==> c == registration_class(latest_of(old(self).versions@, w@), ir_json@, ir),
            r is Ok ==> has_version(final(self).versions@, w@, h@),
            r is Ok && has_version(old(self).versions@, w@, h@) ==> final(self).versions == old(self).versions,
            !has_version(old(self).versions@, w@, h@) ==> (r matches Ok(c) ==> stored_row(old(self).versions@, final(self).versions@,
                w@, h@, ir_json@, ir, c, now)),
            final(self).executions == old(self).executions,
            final(self).events == old(self).events,
            final(self).tasks == old(self).tasks,
    {
        if !ids_distinct(&ir.nodes) {
            return Err(EngineError::InvalidArgument(String::from_str("Invalid IR: duplicate node ids")));
        }
        let text = String::from_str(ir_json);
        let c = self.classify_against_latest(w, &text, &ir);
        self.insert_version(w, h, text, ir, c, now);
        Ok(c)
    }

    /// Starts an execution of version `h` of workflow `w` on `input_json`
    /// and enqueues its root nodes. The execution is recorded even when the
    /// version is unknown, in which case scheduling reports NotFound.
    pub fn start_execution(&mut self, w: &str, h: &str, input_json: &str, now: i64) -> (r: Result<String, EngineError>)
        requires
            old(self).wf(),
        ensures
            final(self).wf(),
            final(self).events == old(self).events,
            execution_started(*old(self), *final(self), w@, h@, input_json@, r),
    {
        let mut id = String::from_str("exec-");
        let u = crate::json::fresh_uuid();
        id.append(u.as_str());
        self.start_execution_as(id.as_str(), w, h, input_json, now)
    }

    /// Starts execution `id` of version `h` of workflow `w` on
    /// `input_json`; refused, changing nothing, when the id is taken.
    pub fn start_execution_as(&mut self, id: &str, w: &str, h: &str, input_json: &str, now: i64) -> (r: Result<String, EngineError>)
        requires
            old(self).wf(),
        ensures
            final(self).wf(),
            final(self).events == old(self).events,
            execution_started(*old(self), *final(self), w@, h@, input_json@, r),
            has_execution(old(self).executions@, id@) ==> (r matches Err(EngineError::Internal(_))) && *final(self) == *old(self),
            !has_execution(old(self).executions@, id@) && has_version(old(self).versions@, w@, h@) ==> r is Ok,
            r matches Ok(x) ==> x@ == id@,
    {
        let id = String::from_str(id);
        if self.find_execution(id.as_str()).is_some() {
            return Err(EngineError::Internal(String::from_str("Execution id already in use")));
        }
        let ghost start = *self;
        self.executions.push(Execution {
            execution_id: id.clone(),
            workflow_id: String::from_str(w),
            version_hash: String::from_str(h),
            status: ExecStatus::Running,
            input_json: String::from_str(input_json),
            parent: None,
            created_at: now,
        });
        self.metrics.executions_started = bump_exec(self.metrics.executions_started);
        proof {
            let last = start.executions@.len() as int;
            reveal(crate::store::parents_earlier);
            assert forall|i: int, j: int|
                0 <= i < self.executions@.len() && 0 <= j < self.executions@.len() && i != j implies
                self.executions@[i].execution_id@ != self.executions@[j].execution_id@ by {
                if i != last {
                    assert(self.executions@[i] == start.executions@[i]);
                }
                if j != last {
                    assert(self.executions@[j] == start.executions@[j]);
                }
            }
            assert forall|i: int| 0 <= i < self.executions@.len() && (#[trigger] self.executions@[i].parent) is Some implies exists|j: int|
                0 <= j < i && self.executions@[j].execution_id@ == self.executions@[i].parent.unwrap().execution_id@ by {
                assert(self.executions@[i] == start.executions@[i]);
                let j = choose|j: int| 0 <= j < i && start.executions@[j].execution_id@ == start.executions@[i].parent.unwrap().execution_id@;
                assert(self.executions@[j] == start.executions@[j]);
            }
            assert(self.executions@[last].execution_id@ == id@);
            let y = choose|y: int| 0 <= y < self.executions@.len() && self.executions@[y].execution_id@ == id@;
            assert(y == last);
        }
        let ghost mid = *self;
        let sr = self.schedule_ready_nodes(id.as_str(), w, h, now);
        proof {
            if sr is Ok {
                assert forall|k: int| mid.tasks@.len() <= k < self.tasks@.len() implies (#[trigger] self.tasks@[k]).execution_id@ == id@ by {
                    assert(crate::engine::enqueued_ready(mid, id@, crate::engine::version_nodes(mid.versions@, w@, h@), h@, now, self.tasks@[k]));
                }
            }
        }
        match sr {
            Ok(()) => Ok(id),
            Err(err) => Err(err),
        }
    }

    /// Cancels execution `e`: its READY and RUNNING tasks are CANCELLED,
    /// the execution is CANCELLED and `ExecutionCancelled` is logged.
    pub fn cancel_execution(&mut self, e: &str) -> (r: Result<(), EngineError>)
        requires
            old(self).wf(),
        ensures
            final(self).wf(),
            !has_execution(old(self).executions@, e@) ==> (r matches Err(EngineError::NotFound(_))) && *final(self) == *old(self),
            final(self).tasks@.len() == old(self).tasks@.len(),
            has_execution(old(self).executions@, e@) ==> r is Ok,
            final(self).executions@.len() == old(self).executions@.len(),
            forall|i: int| 0 <= i < old(self).executions@.len() && old(self).executions@[i].execution_id@ != e@
                ==> #[trigger] final(self).executions@[i] == old(self).executions@[i],
            has_execution(old(self).executions@, e@) ==> forall|k: int| 0 <= k < old(self).tasks@.len() ==> {
                let t = old(self).tasks@[k];
                let nt = #[trigger] final(self).tasks@[k];
                &&& (t.execution_id@ == e@ && live(t)) ==> nt.status == TaskStatus::Cancelled
                &&& !(t.execution_id@ == e@ && live(t)) ==> nt == t
            },
            has_execution(old(self).executions@, e@) ==> exec_of(final(self).executions@, e@).status == ExecStatus::Cancelled,
            r is Ok ==> final(self).events@.len() == old(self).events@.len() + 1 && final(self).events@.last().execution_id@ == e@
                && final(self).events@.last().body is ExecutionCancelled,
    {
        let xe = match self.find_execution(e) {
            Some(xe) => xe,
            None => {
                return Err(EngineError::NotFound(String::from_str("Execution not found")));
            },
        };
        let ghost start = *self;
        let mut k: usize = 0;
        while k < self.tasks.len()
            invariant
                self.wf(),
                self.executions == start.executions,
                self.events == start.events,
                self.tasks@.len() == start.tasks@.len(),
                0 <= k <= self.tasks@.len(),
                forall|q: int| 0 <= q < start.tasks@.len() ==> #[trigger] self.tasks@[q].execution_id@ == start.tasks@[q].execution_id@
                    && self.tasks@[q].node_id@ == start.tasks@[q].node_id@,
                forall|q: int| 0 <= q < k ==> {
                    let t = start.tasks@[q];
                    let nt = #[trigger] self.tasks@[q];
                    &&& (t.execution_id@ == e@ && live(t)) ==> nt.status == TaskStatus::Cancelled
                    &&& !(t.execution_id@ == e@ && live(t)) ==> nt == t
                },
                forall|q: int| k <= q < start.tasks@.len() ==> self.tasks@[q] == start.tasks@[q],
            decreases self.tasks@.len() - k,
        {
            let st = self.tasks[k].status;
            if (st == TaskStatus::Ready || st == TaskStatus::Running) && literal_eq(self.tasks[k].execution_id.as_str(), e) {
                let ghost before = self.tasks@;
                self.tasks[k].status = TaskStatus::Cancelled;
                proof { lemma_same_keys(before, self.tasks@); }
            }
            k = k + 1;
        }
        self.set_exec_status(e, ExecStatus::Cancelled);
        self.append_event(e, EventBody::ExecutionCancelled);
        Ok(())
    }

    /// Takes back every lease that has gone silent past the timeout: such
    /// a task is READY again, unleased, with one more retry. Tasks awaiting
    /// an approval or a child execution are left RUNNING. Returns how many
    /// were taken back.
    pub fn reclaim_expired_leases(&mut self, now: i64) -> (count: usize)
        requires
            old(self).wf(),
        ensures
            final(self).wf(),
            crate::engine::same_but_tasks(*final(self), *old(self)),
            final(self).tasks@.len() == old(self).tasks@.len(),
            forall|k: int| 0 <= k < old(self).tasks@.len() ==> {
                let t = old(self).tasks@[k];
                let nt = #[trigger] final(self).tasks@[k];
                &&& reclaimable(t, now) ==> nt.status == TaskStatus::Ready && nt.locked_by is None && nt.locked_at is None
                    && nt.retry_count == bump(t.retry_count) && nt.execution_id == t.execution_id && nt.node_id == t.node_id
                    && nt.task_id == t.task_id
                &&& !reclaimable(t, now) ==> nt == t
            },
    {
        let ghost start = *self;
        let mut count: usize = 0;
        let mut k: usize = 0;
        while k < self.tasks.len()
            invariant
                self.wf(),
                crate::engine::same_but_tasks(*self, start),
                self.tasks@.len() == start.tasks@.len(),
                0 <= k <= self.tasks@.len(),
                count <= k,
                forall|q: int| 0 <= q < start.tasks@.len() ==> #[trigger] self.tasks@[q].execution_id@ == start.tasks@[q].execution_id@
                    && self.tasks@[q].node_id@ == start.tasks@[q].node_id@,
                forall|q: int| 0 <= q < k ==> {
                    let t = start.tasks@[q];
                    let nt = #[trigger] self.tasks@[q];
                    &&& reclaimable(t, now) ==> nt.status == TaskStatus::Ready && nt.locked_by is None && nt.locked_at is None
                        && nt.retry_count == bump(t.retry_count) && nt.execution_id == t.execution_id && nt.node_id == t.node_id
                        && nt.task_id == t.task_id
                    &&& !reclaimable(t, now) ==> nt == t
                },
                forall|q: int| k <= q < start.tasks@.len() ==> self.tasks@[q] == start.tasks@[q],
            decreases self.tasks@.len() - k,
        {
            let t = &self.tasks[k];
            let expired = match t.locked_at {
                Some(at) => now > i64::MIN + TASK_TIMEOUT_SECS && at < now - TASK_TIMEOUT_SECS,
                None => false,
            };
            if t.status == TaskStatus::Running && expired && t.approval_status != ApprovalStatus::Pending && t.sub_execution_id.is_none() {
                let ghost before = self.tasks@;
                let r = bump_exec(self.tasks[k].retry_count);
                self.tasks[k].status = TaskStatus::Ready;
                self.tasks[k].locked_by = None;
                self.tasks[k].locked_at = None;
                self.tasks[k].retry_count = r;
                proof { lemma_same_keys(before, self.tasks@); }
                count = count + 1;
            }
            k = k + 1;
        }
        count
    }

    /// The status of execution `e` and a JSON object from each completed
    /// node to its output (as stored, in compact JSON), in log order; a
    /// node completed twice appears twice and the later output wins.
    pub fn get_status(&self, e: &str) -> (r: Result<(ExecStatus, String), EngineError>)
        requires
            self.wf(),
        ensures
            !has_execution(self.executions@, e@) <==> r is Err,
            r is Err ==> r matches Err(EngineError::NotFound(_)),
            r matches Ok(p) ==> p.0 == exec_of(self.executions@, e@).status
                && p.1@ == "{"@ + crate::dispatch::members_text(status_members(completions_of(self.events@, e@))) + "}"@,
    {
        let x = match self.find_execution(e) {
            Some(x) => x,
            None => {
                return Err(EngineError::NotFound(String::from_str("Execution not found")));
            },
        };
        proof {
            let y = choose|y: int| 0 <= y < self.executions@.len() && self.executions@[y].execution_id@ == e@;
            assert(y == x as int);
        }
        let p = self.completions(e);
        let mut body = String::new();
        let mut i: usize = 0;
        let ghost cs = completions_of(self.events@, e@);
        while i < p.len()
            invariant
                crate::scheduler::progress(p@) == cs,
                0 <= i <= p@.len(),
                body@ == crate::dispatch::members_text(status_members(cs.subrange(0, i as int))),
            decreases p@.len() - i,
        {
            let key = crate::json::quote_json(p[i].node_id.as_str());
            let value = crate::json::normalize_json(p[i].output.as_str());
            proof {
                let s1 = cs.subrange(0, i + 1);
                assert(s1.drop_last() =~= cs.subrange(0, i as int));
                assert(status_members(s1).drop_last() =~= status_members(cs.subrange(0, i as int)));
                assert(status_members(s1).len() == i + 1);
            }
            if i > 0 {
                body.append(",");
            }
            body.append(key.as_str());
            body.append(":");
            body.append(value.as_str());
            i = i + 1;
        }
        assert(cs.subrange(0, i as int) =~= cs);
        let mut out = String::from_str("{");
        out.append(body.as_str());
        out.append("}");
        Ok((self.executions[x].status, out))
    }

    /// Executions, newest first, of workflow `workflow_id` and with status
    /// `status` (an empty filter matches all), at most `limit` of them (20
    /// when `limit` is not positive).
    pub fn list_executions(&self, workflow_id: &str, status: &str, limit: i64) -> (r: Vec<ExecutionSummary>)
        ensures
            ({
                let picked = listing(self.executions@, workflow_id@, status@, self.executions@.len() as int,
                    if limit > 0 { limit as nat } else { 20 });
                &&& r@.len() == picked.len()
                &&& forall|a: int| 0 <= a < r@.len() ==> summarizes(#[trigger] r@[a], self.executions@[picked[a]])
            }),
    {
        let lim: u64 = if limit > 0 { limit as u64 } else { 20 };
        let ghost glim: nat = if limit > 0 { limit as nat } else { 20 };
        let ghost n = self.executions@.len() as int;
        let mut r: Vec<ExecutionSummary> = Vec::new();
        let ghost mut picked: Seq<int> = Seq::empty();
        let mut x: usize = self.executions.len();
        let any_wf = workflow_id.unicode_len() == 0;
        let any_status = status.unicode_len() == 0;
        assert(listing(self.executions@, workflow_id@, status@, n, glim) =~= picked + listing(self.executions@, workflow_id@, status@, x as int, glim));
        while x > 0 && (r.len() as u64) < lim
            invariant
                0 <= x <= self.executions@.len(),
                n == self.executions@.len(),
                lim == glim,
                r@.len() <= lim,
                r@.len() == picked.len(),
                any_wf == (workflow_id@.len() == 0),
                any_status == (status@.len() == 0),
                listing(self.executions@, workflow_id@, status@, n, glim)
                    == picked + listing(self.executions@, workflow_id@, status@, x as int, (glim - picked.len()) as nat),
                forall|a: int| 0 <= a < r@.len() ==> summarizes(#[trigger] r@[a], self.executions@[picked[a]]),
            decreases x,
        {
            let ex = &self.executions[x - 1];
            let wf_ok = any_wf || literal_eq(ex.workflow_id.as_str(), workflow_id);
            let st_ok = any_status || literal_eq(ex.status.name(), status);
            if wf_ok && st_ok {
                let ghost before = r@;
                r.push(ExecutionSummary {
                    execution_id: ex.execution_id.clone(),
                    workflow_id: ex.workflow_id.clone(),
                    version_hash: ex.version_hash.clone(),
                    status: ex.status,
                    created_at: ex.created_at,
                });
                proof {
                    let rest = listing(self.executions@, workflow_id@, status@, x as int, (glim - picked.len()) as nat);
                    assert(rest == seq![x - 1] + listing(self.executions@, workflow_id@, status@, x - 1, (glim - picked.len() - 1) as nat));
                    let old_picked = picked;
                    picked = picked.push(x - 1);
                    assert(old_picked + rest =~= picked + listing(self.executions@, workflow_id@, status@, x - 1, (glim - picked.len()) as nat));
                    assert forall|a: int| 0 <= a < r@.len() implies summarizes(#[trigger] r@[a], self.executions@[picked[a]]) by {
                        if a < before.len() {
                            assert(r@[a] == before[a]);
                        }
                    }
                }
            }
            x = x - 1;
        }
        proof {
            let rest = listing(self.executions@, workflow_id@, status@, x as int, (glim - picked.len()) as nat);
            assert(rest =~= Seq::<int>::empty());
            assert(picked + rest =~= picked);
        }
        r
    }

    /// The versions of workflow `w`, newest first, each with the number of
    /// RUNNING executions of its version hash.
    pub fn list_workflow_versions(&self, w: &str) -> (r: Vec<VersionInfo>)
        ensures
            ({
                let rows = version_rows(self.versions@, w@, self.versions@.len() as int);
                &&& r@.len() == rows.len()
                &&& forall|a: int| 0 <= a < r@.len() ==> shows_version(#[trigger] r@[a], self.versions@[rows[a]])
                    && r@[a].active_executions == running_count(self.executions@, r@[a].version_hash@)
            }),
    {
        let mut r: Vec<VersionInfo> = Vec::new();
        let ghost n = self.versions@.len() as int;
        let ghost mut rows: Seq<int> = Seq::empty();
        let mut v: usize = self.versions.len();
        assert(version_rows(self.versions@, w@, n) =~= rows + version_rows(self.versions@, w@, v as int));
        while v > 0
            invariant
                0 <= v <= self.versions@.len(),
                n == self.versions@.len(),
                r@.len() == rows.len(),
                version_rows(self.versions@, w@, n) == rows + version_rows(self.versions@, w@, v as int),
                forall|a: int| 0 <= a < r@.len() ==> shows_version(#[trigger] r@[a], self.versions@[rows[a]])
                    && r@[a].active_executions == running_count(self.executions@, r@[a].version_hash@),
            decreases v,
        {
            let ver = &self.versions[v - 1];
            if literal_eq(ver.workflow_id.as_str(), w) {
                let active = self.running_of(ver.version_hash.as_str());
                let ghost before = r@;
                r.push(VersionInfo {
                    workflow_id: ver.workflow_id.clone(),
                    version_hash: ver.version_hash.clone(),
                    compatibility: ver.compatibility,
                    registered_at: ver.registered_at,
                    active_executions: active,
                });
                proof {
                    let rest = version_rows(self.versions@, w@, v as int);
                    assert(rest == seq![v - 1] + version_rows(self.versions@, w@, v - 1));
                    let old_rows = rows;
                    rows = rows.push(v - 1);
                    assert(old_rows + rest =~= rows + version_rows(self.versions@, w@, v - 1));
                    assert forall|a: int| 0 <= a < r@.len() implies shows_version(#[trigger] r@[a], self.versions@[rows[a]])
                        && r@[a].active_executions == running_count(self.executions@, r@[a].version_hash@) by {
                        if a < before.len() {
                            assert(r@[a] == before[a]);
                        }
                    }
                }
            }
            v = v - 1;
        }
        proof {
            assert(rows + version_rows(self.versions@, w@, 0) =~= rows);
        }
        r
    }

    /// The number of RUNNING executions of version hash `h`.
    fn running_of(&self, h: &str) -> (r: u64)
        ensures
            r == running_count(self.executions@, h@),
    {
        let mut k: usize = 0;
        let mut count: u64 = 0;
        assert(self.executions@.subrange(0, 0) =~= Seq::<Execution>::empty());
        while k < self.executions.len()
            invariant
                0 <= k <= self.executions@.len(),
                count == running_count(self.executions@.subrange(0, k as int), h@),
                count <= k,
            decreases self.executions@.len() - k,
        {
            proof {
                let s1 = self.executions@.subrange(0, k + 1);
                assert(s1.drop_last() =~= self.executions@.subrange(0, k as int));
            }
            if self.executions[k].status == ExecStatus::Running && literal_eq(self.executions[k].version_hash.as_str(), h) {
                count = count + 1;
            }
            k = k + 1;
        }
        assert(self.executions@.subrange(0, k as int) =~= self.executions@);
        count
    }

    /// The HUMAN_APPROVAL tasks awaiting a decision, in queue order, with
    /// their execution's workflow.
    pub fn get_pending_approvals(&self) -> (r: Vec<PendingApproval>)
        requires
            self.wf(),
        ensures
            ({
                let rows = pending_rows(self.tasks@, self.executions@, self.tasks@.len() as int);
                &&& r@.len() == rows.len()
                &&& forall|a: int| 0 <= a < r@.len() ==> shows_pending(#[trigger] r@[a], self.tasks@[rows[a]])
                    && r@[a].workflow_id@ == exec_of(self.executions@, self.tasks@[rows[a]].execution_id@).workflow_id@
            }),
    {
        let mut r: Vec<PendingApproval> = Vec::new();
        let mut k: usize = 0;
        while k < self.tasks.len()
            invariant
                self.wf(),
                0 <= k <= self.tasks@.len(),
                ({
                    let rows = pending_rows(self.tasks@, self.executions@, k as int);
                    &&& r@.len() == rows.len()
                    &&& forall|a: int| 0 <= a < r@.len() ==> shows_pending(#[trigger] r@[a], self.tasks@[rows[a]])
                        && r@[a].workflow_id@ == exec_of(self.executions@, self.tasks@[rows[a]].execution_id@).workflow_id@
                }),
            decreases self.tasks@.len() - k,
        {
            let t = &self.tasks[k];
            if t.status == TaskStatus::Running && t.approval_status == ApprovalStatus::Pending {
                match self.find_execution(t.execution_id.as_str()) {
                    Some(x) => {
                        proof {
                            let y = choose|y: int| 0 <= y < self.executions@.len() && self.executions@[y].execution_id@ == t.execution_id@;
                            assert(y == x as int);
                        }
                        let ghost before = r@;
                        r.push(PendingApproval {
                            execution_id: t.execution_id.clone(),
                            node_id: t.node_id.clone(),
                            workflow_id: self.executions[x].workflow_id.clone(),
                            started_at: t.scheduled_at,
                        });
                        proof {
                            let rows = pending_rows(self.tasks@, self.executions@, k + 1);
                            assert(rows == pending_rows(self.tasks@, self.executions@, k as int).push(k as int));
                            assert forall|a: int| 0 <= a < r@.len() implies shows_pending(#[trigger] r@[a], self.tasks@[rows[a]])
                                && r@[a].workflow_id@ == exec_of(self.executions@, self.tasks@[rows[a]].execution_id@).workflow_id@ by {
                                if a < before.len() {
                                    assert(r@[a] == before[a]);
                                }
                            }
                        }
                    },
                    None => {},
                }
            }
            k = k + 1;
        }
        r
    }
}

/// The positions, among the first `k` tasks, of those awaiting a decision
/// whose execution exists.
pub open spec fn pending_rows(ts: Seq<Task>, xs: Seq<Execution>, k: int) -> Seq<int>
    decreases k,
{
    if k <= 0 || k > ts.len() {
        Seq::empty()
    } else {
        let rest = pending_rows(ts, xs, k - 1);
        let t = ts[k - 1];
        if t.status == TaskStatus::Running && t.approval_status == ApprovalStatus::Pending && has_execution(xs, t.execution_id@) {
            rest.push(k - 1)
        } else {
            rest
        }
    }
}

/// The members of a status object: each completion's node and its output
/// in compact JSON.
pub open spec fn status_members(cs: Seq<(Seq<char>, Seq<char>)>) -> Seq<(Seq<char>, Seq<char>)> {
    cs.map_values(|c: (Seq<char>, Seq<char>)| (c.0, crate::json::json_normal(c.1)))
}

/// Whether a row shows task `t` as awaiting a decision.
pub open spec fn shows_pending(r: PendingApproval, t: Task) -> bool {
    &&& t.status == TaskStatus::Running
    &&& t.approval_status == ApprovalStatus::Pending
    &&& r.execution_id@ == t.execution_id@
    &&& r.node_id@ == t.node_id@
    &&& r.started_at == t.scheduled_at
}

/// Whether execution `x` passes a listing's filters.
pub open spec fn listed(x: Execution, w: Seq<char>, s: Seq<char>) -> bool {
    (w.len() == 0 || x.workflow_id@ == w) && (s.len() == 0 || crate::store::exec_status_name(x.status) == s)
}

/// The positions of the executions a listing shows: from position `x`
/// down, those that pass the filters, at most `lim` of them.
pub open spec fn listing(xs: Seq<Execution>, w: Seq<char>, s: Seq<char>, x: int, lim: nat) -> Seq<int>
    decreases x,
{
    if x <= 0 || lim == 0 || x > xs.len() {
        Seq::empty()
    } else if listed(xs[x - 1], w, s) {
        seq![x - 1] + listing(xs, w, s, x - 1, (lim - 1) as nat)
    } else {
        listing(xs, w, s, x - 1, lim)
    }
}

/// Whether a listing row shows execution `x`.
pub open spec fn summarizes(r: ExecutionSummary, x: Execution) -> bool {
    r.execution_id@ == x.execution_id@ && r.workflow_id@ == x.workflow_id@ && r.version_hash@ == x.version_hash@
        && r.status == x.status && r.created_at == x.created_at
}

/// The positions of the catalogue rows of workflow `w`, from position `x`
/// down.
pub open spec fn version_rows(vs: Seq<WorkflowVersion>, w: Seq<char>, x: int) -> Seq<int>
    decreases x,
{
    if x <= 0 || x > vs.len() {
        Seq::empty()
    } else if vs[x - 1].workflow_id@ == w {
        seq![x - 1] + version_rows(vs, w, x - 1)
    } else {
        version_rows(vs, w, x - 1)
    }
}

/// Whether a listing row shows catalogue row `v`.
pub open spec fn shows_version(r: VersionInfo, v: WorkflowVersion) -> bool {
    r.workflow_id@ == v.workflow_id@ && r.version_hash@ == v.version_hash@ && r.compatibility == v.compatibility
        && r.registered_at == v.registered_at
}

/// The number of RUNNING executions of version hash `h`.
pub open spec fn running_count(xs: Seq<Execution>, h: Seq<char>) -> nat
    decreases xs.len(),
{
    if xs.len() == 0 {
        0
    } else {
        running_count(xs.drop_last(), h) + if xs.last().status == ExecStatus::Running && xs.last().version_hash@ == h { 1nat } else { 0nat }
    }
}

/// A lease taken at `at` and silent since is, once the reclaimer runs at
/// any time more than the timeout later, either still RUNNING because it
/// awaits an approval or a child execution, or READY again with its retry
/// count one higher.
pub proof fn lemma_lease_reclamation(before: Engine, after: Engine, now: i64, k: int, at: i64)
    requires
        before.wf(),
        0 <= k < before.tasks@.len(),
        before.tasks@[k].status == TaskStatus::Running,
        before.tasks@[k].locked_at == Some(at),
        at + TASK_TIMEOUT_SECS < now,
        after.tasks@.len() == before.tasks@.len(),
        forall|q: int| 0 <= q < before.tasks@.len() ==> {
            let t = before.tasks@[q];
            let nt = #[trigger] after.tasks@[q];
            &&& reclaimable(t, now) ==> nt.status == TaskStatus::Ready && nt.locked_by is None && nt.locked_at is None
                && nt.retry_count == bump(t.retry_count) && nt.execution_id == t.execution_id && nt.node_id == t.node_id
                && nt.task_id == t.task_id
            &&& !reclaimable(t, now) ==> nt == t
        },
    ensures
        ({
            let t = before.tasks@[k];
            let nt = after.tasks@[k];
            (nt.status == TaskStatus::Running && (t.approval_status == ApprovalStatus::Pending || t.sub_execution_id is Some))
                || (nt.status == TaskStatus::Ready && nt.retry_count == bump(t.retry_count))
        }),
{
    let nt = after.tasks@[k];
}

} // verus!