//! Outcomes reported by workers and approvers: retries with backoff,
//! terminal failure, approval and rejection.

use vstd::prelude::*;
use vstd::string::*;
use crate::engine::{add_clamped, add_seconds, exec_of, has_execution, completion_after};
use crate::metrics::{bump, bump_exec};
use crate::store::{Engine, has_version, EngineError, EventBody, ExecStatus, Payload, Task, TaskStatus, ApprovalStatus, lemma_same_keys, rendered};
use crate::text::literal_eq;
use crate::json::{quote_json, quoted};

verus! {

/// Retries a task gets before a failure is final.
pub const MAX_RETRIES: u64 = 3;

/// Seconds before retry number `r + 1`: `2^r`, at most 30.
pub open spec fn backoff(r: u64) -> i64 {
    if r == 0 { 1 }
    else if r == 1 { 2 }
    else if r == 2 { 4 }
    else if r == 3 { 8 }
    else if r == 4 { 16 }
    else { 30 }
}

pub fn backoff_seconds(r: u64) -> (d: i64)
    ensures
        d == backoff(r),
{
    if r == 0 { 1 }
    else if r == 1 { 2 }
    else if r == 2 { 4 }
    else if r == 3 { 8 }
    else if r == 4 { 16 }
    else { 30 }
}

/// What a reported failure led to.
#[derive(PartialEq, Eq, Structural, Clone, Copy, Debug)]
pub enum FailOutcome {
    /// Back to READY after `delay_seconds`; `retry_count` is the new count.
    Retried { retry_count: u64, delay_seconds: i64 },
    /// Retries exhausted: the task and its execution failed.
    Failed,
}

/// Whether a HUMAN_APPROVAL task of node `n` of execution `e` awaits a
/// decision.
pub open spec fn awaiting_approval(ts: Seq<Task>, e: Seq<char>, n: Seq<char>) -> bool {
    exists|x: int| 0 <= x < ts.len() && ts[x].execution_id@ == e && ts[x].node_id@ == n
        && ts[x].status == TaskStatus::Running && ts[x].approval_status == ApprovalStatus::Pending
}

/// The output recorded for an approval.
pub open spec fn approval_output(approver: Seq<char>, comment: Seq<char>) -> Seq<char> {
    "{\"approved\":true,\"approver\":"@ + quoted(approver) + ",\"comment\":"@ + quoted(comment) + "}"@
}

/// Whether task `t` was approved by `approver` with `comment` and is done.
pub open spec fn approved_as(t: Task, approver: Seq<char>, comment: Seq<char>) -> bool {
    &&& t.status == TaskStatus::Done
    &&& t.approval_status == ApprovalStatus::Approved
    &&& t.approver matches Some(a) && a@ == approver
    &&& t.approval_comment matches Some(c) && c@ == comment
}

/// Whether task `t` was rejected by `approver` and has failed.
pub open spec fn rejected_by(t: Task, approver: Seq<char>) -> bool {
    &&& t.status == TaskStatus::Failed
    &&& t.approval_status == ApprovalStatus::Rejected
    &&& t.approver matches Some(a) && a@ == approver
}

/// The error recorded for a rejection.
pub open spec fn rejection_error(approver: Seq<char>, reason: Seq<char>) -> Seq<char> {
    "Rejected by "@ + approver + ": "@ + reason
}

/// Whether some task has id `id`.
pub open spec fn has_task_id(ts: Seq<Task>, id: Seq<char>) -> bool {
    exists|x: int| 0 <= x < ts.len() && ts[x].task_id@ == id
}

/// The first task with id `id`.
pub open spec fn task_index(ts: Seq<Task>, id: Seq<char>, x: int) -> bool {
    &&& 0 <= x < ts.len()
    &&& ts[x].task_id@ == id
    &&& forall|y: int| 0 <= y < x ==> ts[y].task_id@ != id
}

impl Engine {
    /// The first task with id `id`.
    pub(crate) fn first_task(&self, id: &str) -> (r: Option<usize>)
        ensures
            r matches Some(x) ==> task_index(self.tasks@, id@, x as int),
            r is None ==> !has_task_id(self.tasks@, id@),
    {
        let mut x: usize = 0;
        while x < self.tasks.len()
            invariant
                0 <= x <= self.tasks@.len(),
                forall|q: int| 0 <= q < x ==> self.tasks@[q].task_id@ != id@,
            decreases self.tasks@.len() - x,
        {
            if literal_eq(self.tasks[x].task_id.as_str(), id) {
                return Some(x);
            }
            x = x + 1;
        }
        None
    }

    /// Sets the status of execution `e`, if it exists.
    pub(crate) fn set_exec_status(&mut self, e: &str, st: ExecStatus) -> (found: bool)
        requires
            old(self).wf(),
        ensures
            final(self).wf(),
            final(self).events == old(self).events,
            final(self).tasks == old(self).tasks,
            final(self).versions == old(self).versions,
            final(self).map_results == old(self).map_results,
            final(self).blobs == old(self).blobs,
            final(self).metrics == old(self).metrics,
            final(self).executions@.len() == old(self).executions@.len(),
            found == has_execution(old(self).executions@, e@),
            found ==> exec_of(final(self).executions@, e@).status == st,
            forall|i: int| 0 <= i < old(self).executions@.len() ==> #[trigger] final(self).executions@[i].execution_id@
                == old(self).executions@[i].execution_id@,
            forall|i: int| 0 <= i < old(self).executions@.len() && old(self).executions@[i].execution_id@ != e@
                ==> final(self).executions@[i] == old(self).executions@[i],
    {
        match self.find_execution(e) {
            Some(x) => {
                let ghost before = self.executions@;
                self.executions[x].status = st;
                proof {
                    crate::store::lemma_same_links(before, self.executions@);
                    let y = choose|y: int| 0 <= y < self.executions@.len() && self.executions@[y].execution_id@ == e@;
                    assert(y == x as int);
                    assert forall|i: int| 0 <= i < before.len() && before[i].execution_id@ != e@ implies
                        self.executions@[i] == before[i] by {
                        assert(i != x as int);
                    }
                }
                true
            },
            None => false,
        }
    }

    /// A worker reports that task `task_id` failed. Below the retry limit
    /// the task goes back to READY after an exponential backoff; at the
    /// limit it fails, a `NodeFailed` event is logged and its execution
    /// fails. Siblings are not cancelled.
    pub fn fail_task(&mut self, task_id: &str, error_message: &str, now: i64) -> (r: Result<FailOutcome, EngineError>)
        requires
            old(self).wf(),
        ensures
            final(self).wf(),
            r matches Err(EngineError::NotFound(_)) <==> !has_task_id(old(self).tasks@, task_id@),
            !has_task_id(old(self).tasks@, task_id@) ==> *final(self) == *old(self),
            forall|x: int| #[trigger] task_index(old(self).tasks@, task_id@, x) ==> {
                let t = old(self).tasks@[x];
                let nt = final(self).tasks@[x];
                &&& t.retry_count < MAX_RETRIES ==> {
                    &&& r == Ok::<FailOutcome, EngineError>(FailOutcome::Retried { retry_count: (t.retry_count + 1) as u64, delay_seconds: backoff(t.retry_count) })
                    &&& nt.status == TaskStatus::Ready
                    &&& nt.locked_by is None
                    &&& nt.locked_at is None
                    &&& nt.retry_count == t.retry_count + 1
                    &&& nt.scheduled_at == add_clamped(now, backoff(t.retry_count))
                    &&& final(self).events == old(self).events
                    &&& final(self).executions == old(self).executions
                    &&& final(self).metrics.tasks_retried == bump(old(self).metrics.tasks_retried)
                    &&& final(self).tasks@.len() == old(self).tasks@.len()
                    &&& forall|y: int| 0 <= y < old(self).tasks@.len() && y != x ==> final(self).tasks@[y] == old(self).tasks@[y]
                }
                &&& t.retry_count >= MAX_RETRIES ==> {
                    &&& r == Ok::<FailOutcome, EngineError>(FailOutcome::Failed)
                    &&& nt.status == TaskStatus::Failed
                    &&& final(self).events@.len() == old(self).events@.len() + 1
                    &&& final(self).events@.last().execution_id@ == t.execution_id@
                    &&& final(self).events@.last().body matches EventBody::NodeFailed { node_id, error, final_retry }
                        && node_id@ == t.node_id@ && error@ == error_message@ && final_retry == Some(t.retry_count)
                    &&& has_execution(old(self).executions@, t.execution_id@) ==>
                        exec_of(final(self).executions@, t.execution_id@).status == ExecStatus::Failed
                    &&& final(self).tasks@.len() == old(self).tasks@.len()
                    &&& forall|y: int| 0 <= y < old(self).tasks@.len() && y != x ==> final(self).tasks@[y] == old(self).tasks@[y]
                }
            },
    {
        let x = match self.first_task(task_id) {
            Some(x) => x,
            None => {
                return Err(EngineError::NotFound(String::from_str("Task not found")));
            },
        };
        let ghost start = *self;
        let retry = self.tasks[x].retry_count;
        if retry < MAX_RETRIES {
            let delay = backoff_seconds(retry);
            self.tasks[x].status = TaskStatus::Ready;
            self.tasks[x].locked_by = None;
            self.tasks[x].locked_at = None;
            self.tasks[x].retry_count = retry + 1;
            self.tasks[x].scheduled_at = add_seconds(now, delay);
            self.metrics.tasks_retried = bump_exec(self.metrics.tasks_retried);
            proof { lemma_same_keys(start.tasks@, self.tasks@); }
            return Ok(FailOutcome::Retried { retry_count: retry + 1, delay_seconds: delay });
        }
        self.tasks[x].status = TaskStatus::Failed;
        proof { lemma_same_keys(start.tasks@, self.tasks@); }
        let e = self.tasks[x].execution_id.clone();
        let n = self.tasks[x].node_id.clone();
        self.append_event(e.as_str(), EventBody::NodeFailed {
            node_id: n,
            error: String::from_str(error_message),
            final_retry: Some(retry),
        });
        let ghost mid = *self;
        self.set_exec_status(e.as_str(), ExecStatus::Failed);
        self.metrics.tasks_failed = bump_exec(self.metrics.tasks_failed);
        self.metrics.executions_failed = bump_exec(self.metrics.executions_failed);
        Ok(FailOutcome::Failed)
    }

    /// The task of node `n` of execution `e` that awaits a decision.
    fn pending_approval(&self, e: &str, n: &str) -> (r: Option<usize>)
        requires
            self.wf(),
        ensures
            r matches Some(x) ==> x < self.tasks@.len() && self.tasks@[x as int].execution_id@ == e@
                && self.tasks@[x as int].node_id@ == n@ && self.tasks@[x as int].status == TaskStatus::Running
                && self.tasks@[x as int].approval_status == ApprovalStatus::Pending,
            r is None <==> !awaiting_approval(self.tasks@, e@, n@),
    {
        match self.find_node_task(e, n) {
            Some(x) => {
                if self.tasks[x].status == TaskStatus::Running && self.tasks[x].approval_status == ApprovalStatus::Pending {
                    Some(x)
                } else {
                    proof {
                        if awaiting_approval(self.tasks@, e@, n@) {
                            let y = choose|y: int| 0 <= y < self.tasks@.len() && self.tasks@[y].execution_id@ == e@ && self.tasks@[y].node_id@ == n@
                                && self.tasks@[y].status == TaskStatus::Running && self.tasks@[y].approval_status == ApprovalStatus::Pending;
                            assert(y == x as int);
                        }
                    }
                    None
                }
            },
            None => None,
        }
    }

    /// Approves the pending HUMAN_APPROVAL node `n` of execution `e`: the
    /// node completes with `{approved: true, approver, comment}` and the
    /// execution advances.
    pub fn approve_task(&mut self, e: &str, n: &str, approver: &str, comment: &str, now: i64) -> (r: Result<(), EngineError>)
        requires
            old(self).wf(),
        ensures
            final(self).wf(),
            !awaiting_approval(old(self).tasks@, e@, n@) ==> (r matches Err(EngineError::NotFound(_))) && *final(self) == *old(self),
            r is Ok ==> awaiting_approval(old(self).tasks@, e@, n@),
            awaiting_approval(old(self).tasks@, e@, n@) ==> {
                &&& completion_after(final(self).events@, old(self).events@.len() as int, e@, n@, approval_output(approver@, comment@))
                &&& forall|x: int| 0 <= x < old(self).tasks@.len() && old(self).tasks@[x].execution_id@ == e@
                    && old(self).tasks@[x].node_id@ == n@ ==> approved_as(#[trigger] final(self).tasks@[x], approver@, comment@)
                &&& !has_execution(old(self).executions@, e@) ==> (r matches Err(EngineError::Internal(_)))
                &&& has_execution(old(self).executions@, e@) && crate::engine::registered(*old(self)) ==> r is Ok
            },
            r is Ok ==> crate::engine::advanced(*old(self), *final(self), e@, exec_of(old(self).executions@, e@).workflow_id@,
                exec_of(old(self).executions@, e@).version_hash@),
    {
        let x = match self.pending_approval(e, n) {
            Some(x) => x,
            None => {
                return Err(EngineError::NotFound(String::from_str("No pending approval task found")));
            },
        };
        let ghost start = *self;
        proof {
            assert forall|y: int| 0 <= y < start.tasks@.len() && start.tasks@[y].execution_id@ == e@
                && start.tasks@[y].node_id@ == n@ implies y == x as int by {}
        }
        self.tasks[x].approval_status = ApprovalStatus::Approved;
        self.tasks[x].approver = Some(String::from_str(approver));
        self.tasks[x].approval_comment = Some(String::from_str(comment));
        self.tasks[x].status = TaskStatus::Done;
        proof { lemma_same_keys(start.tasks@, self.tasks@); }
        let mut output = String::from_str("{\"approved\":true,\"approver\":");
        let q = quote_json(approver);
        output.append(q.as_str());
        output.append(",\"comment\":");
        let q = quote_json(comment);
        output.append(q.as_str());
        output.append("}");
        let ghost out_text = output@;
        let ghost n0 = self.events@.len();
        self.append_event(e, EventBody::NodeCompleted { node_id: String::from_str(n), output: Payload::Inline(output) });
        proof {
            assert(self.events@[n0 as int] == self.events@.last());
            assert(completion_after(self.events@, n0 as int, e@, n@, out_text));
        }
        let xe = match self.find_execution(e) {
            Some(xe) => xe,
            None => {
                return Err(EngineError::Internal(String::from_str("Execution not found")));
            },
        };
        let w = self.executions[xe].workflow_id.clone();
        let h = self.executions[xe].version_hash.clone();
        proof {
            let y = choose|y: int| 0 <= y < start.executions@.len() && start.executions@[y].execution_id@ == e@;
            assert(y == xe as int);
            if crate::engine::registered(start) {
                assert(has_version(start.versions@, start.executions@[xe as int].workflow_id@, start.executions@[xe as int].version_hash@));
            }
        }
        let ghost mid = *self;
        let sr = self.schedule_ready_nodes(e, w.as_str(), h.as_str(), now);
        let ghost mid2 = *self;
        proof {
            assert(mid2.tasks@.subrange(0, mid.tasks@.len() as int)[x as int] == mid2.tasks@[x as int]);
        }
        let cr = match sr {
            Ok(()) => self.check_execution_complete(e, w.as_str(), h.as_str(), now),
            Err(err) => Err(err),
        };
        proof {
            assert(mid2.events == mid.events);
            let k = choose|k: int| n0 <= k < mid.events@.len() && mid.events@[k].execution_id@ == e@ && match mid.events@[k].body {
                EventBody::NodeCompleted { node_id, output } => node_id@ == n@ && rendered(output) == out_text,
                _ => false,
            };
            assert(self.events@.subrange(0, mid2.events@.len() as int)[k] == self.events@[k]);
            assert(self.tasks@[x as int] == mid2.tasks@[x as int]);
            if cr is Ok {
                crate::engine::lemma_advanced(start, mid2, *self, e@, w@, h@);
            }
        }
        cr
    }

    /// Rejects the pending HUMAN_APPROVAL node `n` of execution `e`: the
    /// task fails, `NodeFailed` is logged and the execution fails.
    pub fn reject_task(&mut self, e: &str, n: &str, approver: &str, reason: &str) -> (r: Result<(), EngineError>)
        requires
            old(self).wf(),
        ensures
            final(self).wf(),
            !awaiting_approval(old(self).tasks@, e@, n@) ==> (r matches Err(EngineError::NotFound(_))) && *final(self) == *old(self),
            r is Ok <==> awaiting_approval(old(self).tasks@, e@, n@),
            r is Ok ==> {
                &&& forall|x: int| 0 <= x < old(self).tasks@.len() && old(self).tasks@[x].execution_id@ == e@
                    && old(self).tasks@[x].node_id@ == n@ ==> rejected_by(#[trigger] final(self).tasks@[x], approver@)
                &&& final(self).events@.len() == old(self).events@.len() + 1
                &&& final(self).events@.last().execution_id@ == e@
                &&& final(self).events@.last().body matches EventBody::NodeFailed { node_id, error, final_retry }
                    && node_id@ == n@ && error@ == rejection_error(approver@, reason@) && final_retry is None
                &&& has_execution(old(self).executions@, e@) ==> exec_of(final(self).executions@, e@).status == ExecStatus::Failed
                &&& final(self).tasks@.len() == old(self).tasks@.len()
                &&& forall|y: int| 0 <= y < old(self).tasks@.len() && !(old(self).tasks@[y].execution_id@ == e@
                    && old(self).tasks@[y].node_id@ == n@) ==> final(self).tasks@[y] == old(self).tasks@[y]
            },
    {
        let x = match self.pending_approval(e, n) {
            Some(x) => x,
            None => {
                return Err(EngineError::NotFound(String::from_str("No pending approval task found")));
            },
        };
        let ghost start = *self;
        proof {
            assert forall|y: int| 0 <= y < start.tasks@.len() && start.tasks@[y].execution_id@ == e@
                && start.tasks@[y].node_id@ == n@ implies y == x as int by {}
        }
        self.tasks[x].status = TaskStatus::Failed;
        self.tasks[x].approval_status = ApprovalStatus::Rejected;
        self.tasks[x].approver = Some(String::from_str(approver));
        proof { lemma_same_keys(start.tasks@, self.tasks@); }
        let mut error = String::from_str("Rejected by ");
        error.append(approver);
        error.append(": ");
        error.append(reason);
        self.append_event(e, EventBody::NodeFailed { node_id: String::from_str(n), error, final_retry: None });
        self.set_exec_status(e, ExecStatus::Failed);
        self.metrics.executions_failed = bump_exec(self.metrics.executions_failed);
        Ok(())
    }
}

} // verus!
