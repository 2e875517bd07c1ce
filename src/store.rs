//! The engine's relations: executions, the event log, the task queue, staged
//! map results, the version catalogue and the blob store, with the
//! invariants that every operation keeps.

use vstd::prelude::*;
use vstd::string::*;
use crate::ir::{NodeKind, WorkflowIr, Compatibility};
use crate::json::quoted;
use crate::metrics::Metrics;
use crate::scheduler::{Completion, progress};
use crate::text::{decimal_text, literal_eq};

verus! {

#[derive(PartialEq, Eq, Structural, Clone, Copy, Debug)]
pub enum ExecStatus {
    Running,
    Completed,
    Failed,
    Cancelled,
}

pub open spec fn exec_status_name(s: ExecStatus) -> Seq<char> {
    match s {
        ExecStatus::Running => "RUNNING"@,
        ExecStatus::Completed => "COMPLETED"@,
        ExecStatus::Failed => "FAILED"@,
        ExecStatus::Cancelled => "CANCELLED"@,
    }
}

impl ExecStatus {
    pub fn name(&self) -> (r: &'static str)
        ensures
            r@ == exec_status_name(*self),
    {
        match self {
            ExecStatus::Running => "RUNNING",
            ExecStatus::Completed => "COMPLETED",
            ExecStatus::Failed => "FAILED",
            ExecStatus::Cancelled => "CANCELLED",
        }
    }
}

/// The SUBWORKFLOW node of another execution that started this one.
pub struct ParentLink {
    pub execution_id: String,
    pub node_id: String,
}

pub struct Execution {
    pub execution_id: String,
    pub workflow_id: String,
    pub version_hash: String,
    pub status: ExecStatus,
    pub input_json: String,
    pub parent: Option<ParentLink>,
    pub created_at: i64,
}

/// A node output as stored: the JSON text itself, or a pointer to a blob
/// that holds it.
pub enum Payload {
    Inline(String),
    Offloaded { blob_id: String, size: u64, path: String },
}

/// The pointer object that stands for an offloaded output.
pub open spec fn pointer_text(blob_id: Seq<char>, size: u64, path: Seq<char>) -> Seq<char> {
    "{\"__nexum_claim_check__\":true,\"blob_id\":"@ + quoted(blob_id) + ",\"path\":"@ + quoted(path)
        + ",\"size\":"@ + decimal_text(size as nat) + "}"@
}

/// The JSON text that a stored output reads as in the event log.
pub open spec fn rendered(p: Payload) -> Seq<char> {
    match p {
        Payload::Inline(t) => t@,
        Payload::Offloaded { blob_id, size, path } => pointer_text(blob_id@, size, path@),
    }
}

pub enum EventBody {
    NodeCompleted { node_id: String, output: Payload },
    NodeFailed { node_id: String, error: String, final_retry: Option<u64> },
    ExecutionCancelled,
}

pub struct Event {
    pub event_id: String,
    pub execution_id: String,
    pub sequence_id: u64,
    pub body: EventBody,
}

#[derive(PartialEq, Eq, Structural, Clone, Copy, Debug)]
pub enum TaskStatus {
    Ready,
    Running,
    Done,
    Failed,
    Cancelled,
}

#[derive(PartialEq, Eq, Structural, Clone, Copy, Debug)]
pub enum ApprovalStatus {
    Unset,
    Pending,
    Approved,
    Rejected,
}

/// The per-item part of a MAP sub-task.
pub struct MapItem {
    pub item_json: String,
    pub index: u64,
    pub total: u64,
    pub parent_node_id: String,
}

pub struct Task {
    pub task_id: String,
    pub execution_id: String,
    pub node_id: String,
    pub version_hash: String,
    pub idempotency_key: String,
    pub status: TaskStatus,
    pub locked_by: Option<String>,
    pub locked_at: Option<i64>,
    pub retry_count: u64,
    pub scheduled_at: i64,
    pub node_type: NodeKind,
    pub map_item: Option<MapItem>,
    pub sub_execution_id: Option<String>,
    pub sub_workflow_id: Option<String>,
    pub sub_input_json: Option<String>,
    pub approval_status: ApprovalStatus,
    pub approver: Option<String>,
    pub approval_comment: Option<String>,
}

pub struct MapResult {
    pub execution_id: String,
    pub map_node_id: String,
    pub item_index: u64,
    pub result_json: String,
}

pub struct WorkflowVersion {
    pub workflow_id: String,
    pub version_hash: String,
    pub ir_json: String,
    pub ir: WorkflowIr,
    pub compatibility: Compatibility,
    pub registered_at: i64,
}

pub struct Blob {
    pub blob_id: String,
    pub content: String,
}

/// Whether a task for node `n` of execution `e` is in the queue.
pub open spec fn has_task(ts: Seq<Task>, e: Seq<char>, n: Seq<char>) -> bool {
    exists|k: int| 0 <= k < ts.len() && ts[k].execution_id@ == e && ts[k].node_id@ == n
}

/// At most one task row for each (execution, node).
pub open spec fn tasks_unique(ts: Seq<Task>) -> bool {
    forall|i: int, j: int|
        0 <= i < ts.len() && 0 <= j < ts.len() && i != j ==> !(ts[i].execution_id@
            == ts[j].execution_id@ && ts[i].node_id@ == ts[j].node_id@)
}

/// Whether a task is live: READY or RUNNING.
pub open spec fn live(t: Task) -> bool {
    t.status == TaskStatus::Ready || t.status == TaskStatus::Running
}

/// The sequence ids of the events of execution `e`, in log order.
pub open spec fn seq_ids(evs: Seq<Event>, e: Seq<char>) -> Seq<u64>
    decreases evs.len(),
{
    if evs.len() == 0 {
        Seq::empty()
    } else if evs.last().execution_id@ == e {
        seq_ids(evs.drop_last(), e).push(evs.last().sequence_id)
    } else {
        seq_ids(evs.drop_last(), e)
    }
}

/// Each execution's sequence ids are 1, 2, 3, ... in log order.
pub open spec fn dense(evs: Seq<Event>) -> bool {
    forall|e: Seq<char>, k: int| 0 <= k < #[trigger] seq_ids(evs, e).len() ==> #[trigger] seq_ids(evs, e)[k] == k + 1
}

/// The `NodeCompleted` events of execution `e`, in log order, as
/// (node id, output text) pairs.
pub open spec fn completions_of(evs: Seq<Event>, e: Seq<char>) -> Seq<(Seq<char>, Seq<char>)>
    decreases evs.len(),
{
    if evs.len() == 0 {
        Seq::empty()
    } else {
        let rest = completions_of(evs.drop_last(), e);
        let ev = evs.last();
        if ev.execution_id@ == e {
            match ev.body {
                EventBody::NodeCompleted { node_id, output } => rest.push((node_id@, rendered(output))),
                _ => rest,
            }
        } else {
            rest
        }
    }
}

pub proof fn lemma_seq_ids_push(evs: Seq<Event>, ev: Event, e: Seq<char>)
    ensures
        seq_ids(evs.push(ev), e) == if ev.execution_id@ == e {
            seq_ids(evs, e).push(ev.sequence_id)
        } else {
            seq_ids(evs, e)
        },
        completions_of(evs.push(ev), e) == if ev.execution_id@ == e {
            match ev.body {
                EventBody::NodeCompleted { node_id, output } => completions_of(evs, e).push((node_id@, rendered(output))),
                _ => completions_of(evs, e),
            }
        } else {
            completions_of(evs, e)
        },
{
    assert(evs.push(ev).drop_last() =~= evs);
}

/// Errors surfaced to callers.
pub enum EngineError {
    InvalidArgument(String),
    NotFound(String),
    Internal(String),
}

/// The whole store, with the counters.
pub struct Engine {
    pub executions: Vec<Execution>,
    pub events: Vec<Event>,
    pub tasks: Vec<Task>,
    pub map_results: Vec<MapResult>,
    pub versions: Vec<WorkflowVersion>,
    pub blobs: Vec<Blob>,
    pub metrics: Metrics,
    /// Directory named in the pointers of offloaded outputs.
    pub blob_root: String,
}

impl Engine {
    /// The store's invariants.
    pub open spec fn wf(&self) -> bool {
        &&& tasks_unique(self.tasks@)
        &&& dense(self.events@)
        &&& forall|v: int| 0 <= v < self.versions@.len() ==> (#[trigger] self.versions@[v]).ir.wf()
        &&& versions_unique(self.versions@)
        &&& executions_unique(self.executions@)
        &&& blobs_unique(self.blobs@)
        &&& map_results_unique(self.map_results@)
        &&& parents_earlier(self.executions@)
        &&& task_ids_tagged(self.tasks@)
    }

    /// An empty store.
    pub fn new(blob_root: &str) -> (r: Engine)
        ensures
            r.wf(),
            r.executions@.len() == 0,
            r.events@.len() == 0,
            r.tasks@.len() == 0,
            r.map_results@.len() == 0,
            r.versions@.len() == 0,
            r.blobs@.len() == 0,
            r.blob_root@ == blob_root@,
    {
        proof {
            reveal(parents_earlier);
            reveal(task_ids_tagged);
        }
        Engine {
            executions: Vec::new(),
            events: Vec::new(),
            tasks: Vec::new(),
            map_results: Vec::new(),
            versions: Vec::new(),
            blobs: Vec::new(),
            metrics: Metrics::new(),
            blob_root: String::from_str(blob_root),
        }
    }

    /// The position of execution `id`.
    pub fn find_execution(&self, id: &str) -> (r: Option<usize>)
        ensures
            r matches Some(x) ==> x < self.executions@.len() && self.executions@[x as int].execution_id@ == id@,
            r is None ==> forall|x: int| 0 <= x < self.executions@.len() ==> self.executions@[x].execution_id@ != id@,
    {
        let mut x: usize = 0;
        while x < self.executions.len()
            invariant
                0 <= x <= self.executions@.len(),
                forall|q: int| 0 <= q < x ==> self.executions@[q].execution_id@ != id@,
            decreases self.executions@.len() - x,
        {
            if literal_eq(self.executions[x].execution_id.as_str(), id) {
                return Some(x);
            }
            x = x + 1;
        }
        None
    }

    /// The position of the task for node `n` of execution `e`.
    pub fn find_node_task(&self, e: &str, n: &str) -> (r: Option<usize>)
        ensures
            r matches Some(x) ==> x < self.tasks@.len() && self.tasks@[x as int].execution_id@ == e@
                && self.tasks@[x as int].node_id@ == n@,
            r is None ==> !has_task(self.tasks@, e@, n@),
    {
        let mut x: usize = 0;
        while x < self.tasks.len()
            invariant
                0 <= x <= self.tasks@.len(),
                forall|q: int| 0 <= q < x ==> !(self.tasks@[q].execution_id@ == e@ && self.tasks@[q].node_id@ == n@),
            decreases self.tasks@.len() - x,
        {
            if literal_eq(self.tasks[x].execution_id.as_str(), e) && literal_eq(self.tasks[x].node_id.as_str(), n) {
                return Some(x);
            }
            x = x + 1;
        }
        None
    }

    /// The position of version `h` of workflow `w`.
    pub fn find_version(&self, w: &str, h: &str) -> (r: Option<usize>)
        ensures
            r matches Some(v) ==> v < self.versions@.len() && self.versions@[v as int].workflow_id@ == w@
                && self.versions@[v as int].version_hash@ == h@,
            r is None ==> !has_version(self.versions@, w@, h@),
    {
        let mut v: usize = 0;
        while v < self.versions.len()
            invariant
                0 <= v <= self.versions@.len(),
                forall|q: int| 0 <= q < v ==> !(self.versions@[q].workflow_id@ == w@ && self.versions@[q].version_hash@ == h@),
            decreases self.versions@.len() - v,
        {
            if literal_eq(self.versions[v].workflow_id.as_str(), w) && literal_eq(self.versions[v].version_hash.as_str(), h) {
                return Some(v);
            }
            v = v + 1;
        }
        None
    }

    /// The position of the latest registered version of workflow `w`.
    pub fn latest_version(&self, w: &str) -> (r: Option<usize>)
        ensures
            r matches Some(v) ==> v < self.versions@.len() && self.versions@[v as int].workflow_id@ == w@
                && forall|q: int| v < q < self.versions@.len() ==> self.versions@[q].workflow_id@ != w@,
            r is None ==> forall|q: int| 0 <= q < self.versions@.len() ==> self.versions@[q].workflow_id@ != w@,
    {
        let mut v: usize = self.versions.len();
        while v > 0
            invariant
                0 <= v <= self.versions@.len(),
                forall|q: int| v <= q < self.versions@.len() ==> self.versions@[q].workflow_id@ != w@,
            decreases v,
        {
            if literal_eq(self.versions[v - 1].workflow_id.as_str(), w) {
                return Some(v - 1);
            }
            v = v - 1;
        }
        None
    }

    /// The number of events of execution `e`.
    pub fn event_count(&self, e: &str) -> (r: usize)
        ensures
            r == seq_ids(self.events@, e@).len(),
            r <= self.events@.len(),
    {
        let mut k: usize = 0;
        let mut count: usize = 0;
        assert(self.events@.subrange(0, 0) =~= Seq::<Event>::empty());
        while k < self.events.len()
            invariant
                0 <= k <= self.events@.len(),
                count == seq_ids(self.events@.subrange(0, k as int), e@).len(),
                count <= k,
            decreases self.events@.len() - k,
        {
            proof {
                assert(self.events@.subrange(0, k + 1) =~= self.events@.subrange(0, k as int).push(self.events@[k as int]));
                lemma_seq_ids_push(self.events@.subrange(0, k as int), self.events@[k as int], e@);
            }
            if literal_eq(self.events[k].execution_id.as_str(), e) {
                count = count + 1;
            }
            k = k + 1;
        }
        assert(self.events@.subrange(0, k as int) =~= self.events@);
        count
    }

    /// Appends an event to execution `e` with the next sequence id.
    pub fn append_event(&mut self, e: &str, body: EventBody) -> (s: u64)
        requires
            old(self).wf(),
        ensures
            final(self).wf(),
            final(self).executions == old(self).executions,
            final(self).tasks == old(self).tasks,
            final(self).map_results == old(self).map_results,
            final(self).versions == old(self).versions,
            final(self).blobs == old(self).blobs,
            final(self).metrics == old(self).metrics,
            final(self).blob_root == old(self).blob_root,
            s == seq_ids(old(self).events@, e@).len() + 1,
            final(self).events@.len() == old(self).events@.len() + 1,
            final(self).events@.drop_last() == old(self).events@,
            final(self).events@.last().execution_id@ == e@,
            final(self).events@.last().sequence_id == s,
            final(self).events@.last().body == body,
    {
        let count = self.event_count(e);
        let id = crate::json::fresh_uuid();
        let mut event_id = String::from_str("evt-");
        event_id.append(id.as_str());
        let ghost before = self.events@;
        let ghost bodyg = body;
        self.events.push(Event { event_id, execution_id: String::from_str(e), sequence_id: 0, body });
        let len = self.events.len();
        let seq: u64 = count as u64 + 1;
        self.events[len - 1].sequence_id = seq;
        proof {
            let ev = self.events@.last();
            assert(self.events@ =~= before.push(ev));
            assert(ev.execution_id@ == e@ && ev.body == bodyg && ev.sequence_id == seq);
            assert forall|e2: Seq<char>, k: int| 0 <= k < #[trigger] seq_ids(self.events@, e2).len() implies #[trigger] seq_ids(self.events@, e2)[k] == k + 1 by {
                lemma_seq_ids_push(before, ev, e2);
            }
        }
        seq
    }

    /// The stored output of the last completion of `e`, `null` if none.
    pub fn final_output(&self, e: &str) -> (r: Payload)
        ensures
            rendered(r) == final_output_text(self.events@, e@),
    {
        let mut k: usize = self.events.len();
        while k > 0
            invariant
                0 <= k <= self.events@.len(),
                forall|q: int| k <= q < self.events@.len() ==> !is_completion_of(self.events@[q], e@),
            decreases k,
        {
            let ev = &self.events[k - 1];
            if literal_eq(ev.execution_id.as_str(), e) {
                match &ev.body {
                    EventBody::NodeCompleted { node_id, output } => {
                        proof {
                            lemma_no_later_completions(self.events@, e@, k as int);
                            let s = self.events@.subrange(0, k as int);
                            assert(s.drop_last() =~= self.events@.subrange(0, k - 1));
                        }
                        return copy_payload(output);
                    },
                    _ => {},
                }
            }
            k = k - 1;
        }
        proof {
            lemma_no_later_completions(self.events@, e@, 0);
            assert(self.events@.subrange(0, 0) =~= Seq::<Event>::empty());
            reveal_strlit("null");
        }
        Payload::Inline(String::from_str("null"))
    }

    /// The completions of execution `e`, in log order.
    pub fn completions(&self, e: &str) -> (r: Vec<Completion>)
        ensures
            progress(r@) == completions_of(self.events@, e@),
    {
        let mut r: Vec<Completion> = Vec::new();
        let mut k: usize = 0;
        assert(self.events@.subrange(0, 0) =~= Seq::<Event>::empty());
        assert(progress(r@) =~= Seq::<(Seq<char>, Seq<char>)>::empty());
        while k < self.events.len()
            invariant
                0 <= k <= self.events@.len(),
                progress(r@) == completions_of(self.events@.subrange(0, k as int), e@),
            decreases self.events@.len() - k,
        {
            proof {
                assert(self.events@.subrange(0, k + 1) =~= self.events@.subrange(0, k as int).push(self.events@[k as int]));
                lemma_seq_ids_push(self.events@.subrange(0, k as int), self.events@[k as int], e@);
            }
            let ev = &self.events[k];
            if literal_eq(ev.execution_id.as_str(), e) {
                match &ev.body {
                    EventBody::NodeCompleted { node_id, output } => {
                        let ghost before = r@;
                        r.push(Completion { node_id: node_id.clone(), output: render(output) });
                        proof {
                            assert(progress(r@) =~= progress(before).push((node_id@, rendered(*output))));
                        }
                    },
                    _ => {},
                }
            }
            k = k + 1;
        }
        assert(self.events@.subrange(0, k as int) =~= self.events@);
        r
    }
}

/// The start of the id of the task in row `k`.
pub open spec fn id_tag(k: nat) -> Seq<char> {
    "task-"@ + decimal_text(k) + "-"@
}

/// Each task's id begins with the number of its row, so ids are distinct.
#[verifier::opaque]
pub open spec fn task_ids_tagged(ts: Seq<Task>) -> bool {
    forall|k: int| 0 <= k < ts.len() ==> crate::text::has_prefix(#[trigger] ts[k].task_id@, id_tag(k as nat))
}

/// Two tags that begin the same text are the same tag.
pub proof fn lemma_tag_unique(s: Seq<char>, i: nat, j: nat)
    requires
        crate::text::has_prefix(s, id_tag(i)),
        crate::text::has_prefix(s, id_tag(j)),
    ensures
        i == j,
{
    reveal_strlit("task-");
    reveal_strlit("-");
    let di = decimal_text(i);
    let dj = decimal_text(j);
    crate::text::lemma_decimal_digits(i);
    crate::text::lemma_decimal_digits(j);
    let ti = id_tag(i);
    let tj = id_tag(j);
    assert(ti.len() == 5 + di.len() + 1);
    assert(tj.len() == 5 + dj.len() + 1);
    assert forall|q: int| 0 <= q < ti.len() implies s[q] == ti[q] by {
        assert(s.subrange(0, ti.len() as int)[q] == s[q]);
    }
    assert forall|q: int| 0 <= q < tj.len() implies s[q] == tj[q] by {
        assert(s.subrange(0, tj.len() as int)[q] == s[q]);
    }
    if di.len() < dj.len() {
        assert(ti[(5 + di.len()) as int] == '-');
        assert(tj[(5 + di.len()) as int] == dj[di.len() as int]);
        assert(s[(5 + di.len()) as int] == ti[(5 + di.len()) as int]);
        assert(false);
    } else if dj.len() < di.len() {
        assert(tj[(5 + dj.len()) as int] == '-');
        assert(ti[(5 + dj.len()) as int] == di[dj.len() as int]);
        assert(s[(5 + dj.len()) as int] == tj[(5 + dj.len()) as int]);
        assert(false);
    } else {
        assert forall|q: int| 0 <= q < di.len() implies di[q] == dj[q] by {
            assert(ti[5 + q] == di[q]);
            assert(tj[5 + q] == dj[q]);
        }
        assert(di =~= dj);
        crate::text::lemma_decimal_injective(i, j);
    }
}

/// In a store whose ids are tagged, no two tasks share an id.
pub proof fn lemma_task_ids_distinct(ts: Seq<Task>)
    requires
        task_ids_tagged(ts),
    ensures
        forall|i: int, j: int| 0 <= i < ts.len() && 0 <= j < ts.len() && i != j ==> ts[i].task_id@ != ts[j].task_id@,
{
    reveal(task_ids_tagged);
    assert forall|i: int, j: int| 0 <= i < ts.len() && 0 <= j < ts.len() && i != j implies ts[i].task_id@ != ts[j].task_id@ by {
        if ts[i].task_id@ == ts[j].task_id@ {
            assert(crate::text::has_prefix(ts[i].task_id@, id_tag(i as nat)));
            assert(crate::text::has_prefix(ts[j].task_id@, id_tag(j as nat)));
            lemma_tag_unique(ts[i].task_id@, i as nat, j as nat);
        }
    }
}

/// Appending a task whose id carries the new row's tag keeps ids tagged.
pub proof fn lemma_tag_push(ts: Seq<Task>, t: Task)
    requires
        task_ids_tagged(ts),
        crate::text::has_prefix(t.task_id@, id_tag(ts.len())),
    ensures
        task_ids_tagged(ts.push(t)),
{
    reveal(task_ids_tagged);
    assert forall|k: int| 0 <= k < ts.push(t).len() implies crate::text::has_prefix(#[trigger] ts.push(t)[k].task_id@, id_tag(k as nat)) by {
        if k < ts.len() {
            assert(ts.push(t)[k] == ts[k]);
        }
    }
}

/// A child execution's parent is an execution recorded before it, so
/// chains of parents end.
#[verifier::opaque]
pub open spec fn parents_earlier(xs: Seq<Execution>) -> bool {
    forall|i: int| 0 <= i < xs.len() && (#[trigger] xs[i].parent) is Some ==> exists|j: int|
        0 <= j < i && xs[j].execution_id@ == xs[i].parent.unwrap().execution_id@
}

/// Updates that keep each execution's id and parent keep the invariants
/// on executions.
pub proof fn lemma_same_links(before: Seq<Execution>, after: Seq<Execution>)
    requires
        executions_unique(before),
        parents_earlier(before),
        after.len() == before.len(),
        forall|i: int| 0 <= i < before.len() ==> #[trigger] after[i].execution_id@ == before[i].execution_id@
            && after[i].parent == before[i].parent,
    ensures
        executions_unique(after),
        parents_earlier(after),
{
    reveal(parents_earlier);
    assert forall|i: int, j: int| 0 <= i < after.len() && 0 <= j < after.len() && i != j implies
        after[i].execution_id@ != after[j].execution_id@ by {
        assert(after[i].execution_id@ == before[i].execution_id@);
        assert(after[j].execution_id@ == before[j].execution_id@);
    }
    assert forall|i: int| 0 <= i < after.len() && (#[trigger] after[i].parent) is Some implies exists|j: int|
        0 <= j < i && after[j].execution_id@ == after[i].parent.unwrap().execution_id@ by {
        assert(after[i].execution_id@ == before[i].execution_id@);
        assert(after[i].parent == before[i].parent);
        assert(before[i].parent is Some);
        let j = choose|j: int| 0 <= j < i && before[j].execution_id@ == before[i].parent.unwrap().execution_id@;
        assert(after[j].execution_id@ == before[j].execution_id@);
    }
}

/// At most one staged result per (execution, MAP node, index).
pub open spec fn map_results_unique(ms: Seq<MapResult>) -> bool {
    forall|i: int, j: int|
        0 <= i < ms.len() && 0 <= j < ms.len() && i != j ==> !(ms[i].execution_id@ == ms[j].execution_id@
            && ms[i].map_node_id@ == ms[j].map_node_id@ && ms[i].item_index == ms[j].item_index)
}

/// Updates that keep each row's execution and node keep the queue's
/// uniqueness.
pub proof fn lemma_same_keys(before: Seq<Task>, after: Seq<Task>)
    requires
        tasks_unique(before),
        task_ids_tagged(before),
        after.len() == before.len(),
        forall|i: int| 0 <= i < before.len() ==> #[trigger] after[i].execution_id@ == before[i].execution_id@
            && after[i].node_id@ == before[i].node_id@ && after[i].task_id@ == before[i].task_id@,
    ensures
        tasks_unique(after),
        task_ids_tagged(after),
{
    reveal(task_ids_tagged);
    assert forall|k: int| 0 <= k < after.len() implies crate::text::has_prefix(#[trigger] after[k].task_id@, id_tag(k as nat)) by {
        assert(after[k].execution_id@ == before[k].execution_id@);
        assert(after[k].task_id@ == before[k].task_id@);
        assert(crate::text::has_prefix(before[k].task_id@, id_tag(k as nat)));
    }
    assert forall|i: int, j: int|
        0 <= i < after.len() && 0 <= j < after.len() && i != j implies !(after[i].execution_id@
            == after[j].execution_id@ && after[i].node_id@ == after[j].node_id@) by {
        assert(after[i].execution_id@ == before[i].execution_id@);
        assert(after[j].execution_id@ == before[j].execution_id@);
    }
}

/// Distinct blob ids.
pub open spec fn blobs_unique(bs: Seq<Blob>) -> bool {
    forall|i: int, j: int| 0 <= i < bs.len() && 0 <= j < bs.len() && i != j ==> bs[i].blob_id@ != bs[j].blob_id@
}

/// Distinct execution ids.
pub open spec fn executions_unique(xs: Seq<Execution>) -> bool {
    forall|i: int, j: int|
        0 <= i < xs.len() && 0 <= j < xs.len() && i != j ==> xs[i].execution_id@ != xs[j].execution_id@
}

/// Whether some node output of execution `e` is in the log.
pub open spec fn is_completion_of(ev: Event, e: Seq<char>) -> bool {
    ev.execution_id@ == e && ev.body is NodeCompleted
}

/// The output text of the last completion of `e`, or `null` if none.
pub open spec fn final_output_text(evs: Seq<Event>, e: Seq<char>) -> Seq<char> {
    let c = completions_of(evs, e);
    if c.len() > 0 { c.last().1 } else { "null"@ }
}

pub proof fn lemma_no_later_completions(evs: Seq<Event>, e: Seq<char>, k: int)
    requires
        0 <= k <= evs.len(),
        forall|q: int| k <= q < evs.len() ==> !is_completion_of(evs[q], e),
    ensures
        completions_of(evs.subrange(0, k), e) == completions_of(evs, e),
    decreases evs.len(),
{
    if evs.len() == k {
        assert(evs.subrange(0, k) =~= evs);
    } else {
        let d = evs.drop_last();
        assert(d.subrange(0, k) =~= evs.subrange(0, k));
        assert(!is_completion_of(evs[evs.len() - 1], e));
        lemma_no_later_completions(d, e, k);
    }
}

/// A copy of a stored output.
pub fn copy_payload(p: &Payload) -> (r: Payload)
    ensures
        rendered(r) == rendered(*p),
{
    match p {
        Payload::Inline(t) => Payload::Inline(t.clone()),
        Payload::Offloaded { blob_id, size, path } => Payload::Offloaded {
            blob_id: blob_id.clone(),
            size: *size,
            path: path.clone(),
        },
    }
}

/// At most one catalogue row for each (workflow, version).
pub open spec fn versions_unique(vs: Seq<WorkflowVersion>) -> bool {
    forall|i: int, j: int|
        0 <= i < vs.len() && 0 <= j < vs.len() && i != j ==> !(vs[i].workflow_id@ == vs[j].workflow_id@
            && vs[i].version_hash@ == vs[j].version_hash@)
}

/// Whether version `h` of workflow `w` is registered.
pub open spec fn has_version(vs: Seq<WorkflowVersion>, w: Seq<char>, h: Seq<char>) -> bool {
    exists|v: int| 0 <= v < vs.len() && vs[v].workflow_id@ == w && vs[v].version_hash@ == h
}

/// The JSON text of a stored output.
pub fn render(p: &Payload) -> (r: String)
    ensures
        r@ == rendered(*p),
{
    match p {
        Payload::Inline(t) => t.clone(),
        Payload::Offloaded { blob_id, size, path } => {
            let mut s = String::from_str("{\"__nexum_claim_check__\":true,\"blob_id\":");
            let q = crate::json::quote_json(blob_id.as_str());
            s.append(q.as_str());
            s.append(",\"path\":");
            let q = crate::json::quote_json(path.as_str());
            s.append(q.as_str());
            s.append(",\"size\":");
            let d = crate::text::decimal(*size);
            s.append(d.as_str());
            s.append("}");
            s
        },
    }
}

} // verus!
