//! Leasing tasks to workers, and the input handed to them.

use vstd::prelude::*;
use vstd::string::*;
use crate::ir::{NodeDef, NodeKind, deps_view, find_node, has_node, ids_unique};
use crate::json::{json_normal, normalize_json, quote_json, quoted, rfc3339, rfc3339_of};
use crate::offload::hydrated_value;
use crate::engine::{completion_after, version_nodes, exec_of, has_execution, registered};
use crate::store::{Engine, has_version, EngineError, Event, EventBody, Payload, Task, TaskStatus, ApprovalStatus, blobs_unique};
use crate::text::{decimal, decimal_text, literal_eq, texts};

verus! {

/// Whether task `t` may be leased by a poller of version `h` at time `now`.
pub open spec fn pollable(t: Task, h: Seq<char>, now: i64) -> bool {
    t.version_hash@ == h && t.status == TaskStatus::Ready && t.scheduled_at <= now
}

/// Whether task `x` is a pollable task that is due no later than any other.
pub open spec fn earliest(ts: Seq<Task>, h: Seq<char>, now: i64, x: int) -> bool {
    &&& 0 <= x < ts.len()
    &&& pollable(ts[x], h, now)
    &&& forall|y: int| 0 <= y < ts.len() && pollable(ts[y], h, now) ==> ts[x].scheduled_at <= ts[y].scheduled_at
}

/// The stored output of the first completion of node `n` of execution `e`.
pub open spec fn first_payload(evs: Seq<Event>, e: Seq<char>, n: Seq<char>) -> Option<Payload>
    decreases evs.len(),
{
    if evs.len() == 0 {
        None
    } else if evs[0].execution_id@ == e && evs[0].body is NodeCompleted && evs[0].body->NodeCompleted_node_id@ == n {
        Some(evs[0].body->NodeCompleted_output)
    } else {
        first_payload(evs.drop_first(), e, n)
    }
}

/// The dependency outputs handed to a worker: for each dependency that has
/// completed, its id and its output, claim check followed, in compact JSON.
pub open spec fn dep_entries(evs: Seq<Event>, bs: Seq<crate::store::Blob>, e: Seq<char>, deps: Seq<Seq<char>>) -> Seq<(Seq<char>, Seq<char>)>
    decreases deps.len(),
{
    if deps.len() == 0 {
        Seq::empty()
    } else {
        let rest = dep_entries(evs, bs, e, deps.drop_last());
        match first_payload(evs, e, deps.last()) {
            Some(p) => rest.push((deps.last(), json_normal(hydrated_value(bs, p)))),
            None => rest,
        }
    }
}

/// The members of a JSON object, separated by commas.
pub open spec fn members_text(es: Seq<(Seq<char>, Seq<char>)>) -> Seq<char>
    decreases es.len(),
{
    if es.len() == 0 {
        Seq::empty()
    } else if es.len() == 1 {
        quoted(es[0].0) + ":"@ + es[0].1
    } else {
        members_text(es.drop_last()) + ","@ + quoted(es.last().0) + ":"@ + es.last().1
    }
}

/// The input of a worker: the execution's input and its dependencies'
/// outputs.
pub open spec fn hydrated_text(input: Seq<char>, es: Seq<(Seq<char>, Seq<char>)>) -> Seq<char> {
    "{\"input\":"@ + json_normal(input) + ",\"deps\":{"@ + members_text(es) + "}}"@
}

/// The node of `ir` with id `n`.
pub open spec fn node_named(ir: Seq<NodeDef>, n: Seq<char>) -> NodeDef {
    ir[choose|j: int| 0 <= j < ir.len() && ir[j].id@ == n]
}

/// The dependencies of node `n` in version `h` of workflow `w`; none when
/// either is unknown.
pub open spec fn lease_deps(vs: Seq<crate::store::WorkflowVersion>, w: Seq<char>, h: Seq<char>, n: Seq<char>) -> Seq<Seq<char>> {
    if has_version(vs, w, h) && has_node(version_nodes(vs, w, h), n) {
        deps_view(node_named(version_nodes(vs, w, h), n))
    } else {
        Seq::empty()
    }
}

/// The delay of TIMER node `n` in version `h` of workflow `w`; zero when
/// either is unknown.
pub open spec fn lease_delay(vs: Seq<crate::store::WorkflowVersion>, w: Seq<char>, h: Seq<char>, n: Seq<char>) -> i64 {
    if has_version(vs, w, h) && has_node(version_nodes(vs, w, h), n) {
        node_named(version_nodes(vs, w, h), n).delay_seconds
    } else {
        0
    }
}

/// The node a task stands for: the MAP node for a per-item sub-task.
pub open spec fn logical_node(t: Task) -> Seq<char> {
    if t.node_type == NodeKind::MapSubtask && t.map_item is Some {
        t.map_item.unwrap().parent_node_id@
    } else {
        t.node_id@
    }
}

/// A task leased to a worker, with the input it runs on.
pub struct LeasedTask {
    pub task_id: String,
    pub execution_id: String,
    /// The node the worker runs: for a MAP sub-task, the MAP node.
    pub node_id: String,
    pub input_json: String,
    pub idempotency_key: String,
    pub node_type: NodeKind,
    pub map_item_json: String,
    pub is_map_subtask: bool,
    pub map_index: u64,
    pub map_total: u64,
    pub sub_execution_id: String,
    pub sub_workflow_id: String,
    pub sub_input_json: String,
}

/// What a poll hands back.
pub enum PollResult {
    /// No task is ready.
    Empty,
    /// A TIMER task came due and was completed by the engine itself.
    TimerFired,
    Leased(LeasedTask),
}

fn text_or_empty(t: &Option<String>) -> (r: String)
    ensures
        t matches Some(s) ==> r@ == s@,
        t is None ==> r@.len() == 0,
{
    match t {
        Some(s) => s.clone(),
        None => String::new(),
    }
}

/// Decimal notation of a signed number.
pub open spec fn signed_text(v: int) -> Seq<char> {
    if v < 0 { "-"@ + decimal_text((-v) as nat) } else { decimal_text(v as nat) }
}

pub fn signed_decimal(v: i64) -> (r: String)
    ensures
        r@ == signed_text(v as int),
{
    if v < 0 {
        let m: u64 = if v == i64::MIN { 9223372036854775808u64 } else { (-v) as u64 };
        let mut s = String::from_str("-");
        let d = decimal(m);
        s.append(d.as_str());
        s
    } else {
        decimal(v as u64)
    }
}

/// The output of a TIMER node that fired at `now`.
pub open spec fn timer_output(delay: i64, now: i64) -> Seq<char> {
    "{\"delay_seconds\":"@ + signed_text(delay as int) + ",\"waited_until\":"@ + match rfc3339_of(now as int) {
        Some(t) => quoted(t),
        None => "null"@,
    } + "}"@
}

pub fn timer_output_text(delay: i64, now: i64) -> (r: String)
    ensures
        r@ == timer_output(delay, now),
{
    let mut s = String::from_str("{\"delay_seconds\":");
    let d = signed_decimal(delay);
    s.append(d.as_str());
    s.append(",\"waited_until\":");
    match rfc3339(now) {
        Some(t) => {
            let q = quote_json(t.as_str());
            s.append(q.as_str());
        },
        None => {
            s.append("null");
        },
    }
    s.append("}");
    s
}

proof fn lemma_first_payload(evs: Seq<Event>, e: Seq<char>, n: Seq<char>, k: int)
    requires
        0 <= k <= evs.len(),
        forall|q: int| 0 <= q < k ==> !(evs[q].execution_id@ == e && evs[q].body is NodeCompleted
            && evs[q].body->NodeCompleted_node_id@ == n),
    ensures
        first_payload(evs, e, n) == first_payload(evs.subrange(k, evs.len() as int), e, n),
    decreases k,
{
    if k > 0 {
        assert(evs.drop_first().subrange(k - 1, evs.drop_first().len() as int) =~= evs.subrange(k, evs.len() as int));
        lemma_first_payload(evs.drop_first(), e, n, k - 1);
    } else {
        assert(evs.subrange(0, evs.len() as int) =~= evs);
    }
}

impl Engine {
    /// The position of an earliest pollable task.
    pub fn earliest_ready(&self, h: &str, now: i64) -> (r: Option<usize>)
        ensures
            r matches Some(x) ==> earliest(self.tasks@, h@, now, x as int),
            r is None ==> forall|y: int| 0 <= y < self.tasks@.len() ==> !pollable(self.tasks@[y], h@, now),
    {
        let mut best: Option<usize> = None;
        let mut y: usize = 0;
        while y < self.tasks.len()
            invariant
                0 <= y <= self.tasks@.len(),
                best matches Some(x) ==> x < y && pollable(self.tasks@[x as int], h@, now) && forall|q: int|
                    0 <= q < y && pollable(self.tasks@[q], h@, now) ==> self.tasks@[x as int].scheduled_at <= self.tasks@[q].scheduled_at,
                best is None ==> forall|q: int| 0 <= q < y ==> !pollable(self.tasks@[q], h@, now),
            decreases self.tasks@.len() - y,
        {
            let t = &self.tasks[y];
            if t.status == TaskStatus::Ready && t.scheduled_at <= now && literal_eq(t.version_hash.as_str(), h) {
                match best {
                    None => {
                        best = Some(y);
                    },
                    Some(x) => {
                        if t.scheduled_at < self.tasks[x].scheduled_at {
                            best = Some(y);
                        }
                    },
                }
            }
            y = y + 1;
        }
        best
    }

    /// The position of the first completion event of node `n` of `e`.
    pub fn first_completion_event(&self, e: &str, n: &str) -> (r: Option<usize>)
        ensures
            r matches Some(k) ==> k < self.events@.len() && self.events@[k as int].body is NodeCompleted
                && first_payload(self.events@, e@, n@) == Some(self.events@[k as int].body->NodeCompleted_output),
            r is None ==> first_payload(self.events@, e@, n@) is None,
    {
        let mut k: usize = 0;
        while k < self.events.len()
            invariant
                0 <= k <= self.events@.len(),
                forall|q: int| 0 <= q < k ==> !(self.events@[q].execution_id@ == e@ && self.events@[q].body is NodeCompleted
                    && self.events@[q].body->NodeCompleted_node_id@ == n@),
            decreases self.events@.len() - k,
        {
            let ev = &self.events[k];
            if literal_eq(ev.execution_id.as_str(), e) {
                match &ev.body {
                    EventBody::NodeCompleted { node_id, output } => {
                        if literal_eq(node_id.as_str(), n) {
                            proof { lemma_first_payload(self.events@, e@, n@, k as int); }
                            return Some(k);
                        }
                    },
                    _ => {},
                }
            }
            k = k + 1;
        }
        proof { lemma_first_payload(self.events@, e@, n@, k as int); }
        None
    }

    /// The worker input for a node of execution `e` whose dependencies are
    /// `deps`.
    pub fn hydrate(&self, e: &str, input_json: &str, deps: &Vec<String>) -> (r: String)
        requires
            blobs_unique(self.blobs@),
        ensures
            r@ == hydrated_text(input_json@, dep_entries(self.events@, self.blobs@, e@, texts(deps@))),
    {
        let mut body = String::from_str("");
        let mut count: usize = 0;
        let mut d: usize = 0;
        proof { reveal_strlit(""); }
        assert(texts(deps@).subrange(0, 0) =~= Seq::<Seq<char>>::empty());
        while d < deps.len()
            invariant
                blobs_unique(self.blobs@),
                0 <= d <= deps@.len(),
                count == dep_entries(self.events@, self.blobs@, e@, texts(deps@).subrange(0, d as int)).len(),
                count <= d,
                body@ == members_text(dep_entries(self.events@, self.blobs@, e@, texts(deps@).subrange(0, d as int))),
            decreases deps@.len() - d,
        {
            let ghost pre = texts(deps@).subrange(0, d as int);
            let ghost cur = texts(deps@).subrange(0, d + 1);
            proof {
                assert(cur.drop_last() =~= pre);
                assert(cur.last() == deps@[d as int]@);
            }
            match self.first_completion_event(e, deps[d].as_str()) {
                Some(k) => {
                    match &self.events[k].body {
                        EventBody::NodeCompleted { node_id, output } => {
                            let text = self.hydration_text(output);
                            let value = normalize_json(text.as_str());
                            let key = quote_json(deps[d].as_str());
                            if count > 0 {
                                body.append(",");
                            }
                            body.append(key.as_str());
                            body.append(":");
                            body.append(value.as_str());
                            count = count + 1;
                            proof {
                                let es = dep_entries(self.events@, self.blobs@, e@, cur);
                                assert(es == dep_entries(self.events@, self.blobs@, e@, pre).push((cur.last(), json_normal(hydrated_value(self.blobs@, *output)))));
                                assert(es.drop_last() =~= dep_entries(self.events@, self.blobs@, e@, pre));
                            }
                        },
                        _ => {},
                    }
                },
                None => {},
            }
            d = d + 1;
        }
        assert(texts(deps@).subrange(0, d as int) =~= texts(deps@));
        let mut s = String::from_str("{\"input\":");
        let input = normalize_json(input_json);
        s.append(input.as_str());
        s.append(",\"deps\":{");
        s.append(body.as_str());
        s.append("}}");
        s
    }

    /// Leases the earliest due READY task of version `h` to `worker`. A due
    /// TIMER is completed here and downstream nodes scheduled; a
    /// HUMAN_APPROVAL task is marked pending; any other task is returned
    /// with its input.
    pub fn poll_task(&mut self, worker: &str, h: &str, now: i64) -> (r: Result<PollResult, EngineError>)
        requires
            old(self).wf(),
        ensures
            final(self).wf(),
            (forall|y: int| 0 <= y < old(self).tasks@.len() ==> !pollable(old(self).tasks@[y], h@, now)) ==>
                (r matches Ok(PollResult::Empty)) && *final(self) == *old(self),
            (exists|y: int| 0 <= y < old(self).tasks@.len() && pollable(old(self).tasks@[y], h@, now)) ==>
                !(r matches Ok(PollResult::Empty)),
            (exists|y: int| 0 <= y < old(self).tasks@.len() && pollable(old(self).tasks@[y], h@, now))
                && (forall|y: int| 0 <= y < old(self).tasks@.len() && #[trigger] pollable(old(self).tasks@[y], h@, now) ==>
                    has_execution(old(self).executions@, old(self).tasks@[y].execution_id@)
                    && old(self).tasks@[y].node_type != NodeKind::Timer) ==> r matches Ok(PollResult::Leased(_)),
            (exists|y: int| 0 <= y < old(self).tasks@.len() && pollable(old(self).tasks@[y], h@, now)) && registered(*old(self))
                && (forall|y: int| 0 <= y < old(self).tasks@.len() && #[trigger] pollable(old(self).tasks@[y], h@, now) ==>
                    has_execution(old(self).executions@, old(self).tasks@[y].execution_id@)
                    && old(self).tasks@[y].node_type == NodeKind::Timer
                    && has_version(old(self).versions@, exec_of(old(self).executions@, old(self).tasks@[y].execution_id@).workflow_id@,
                        old(self).tasks@[y].version_hash@)) ==> r matches Ok(PollResult::TimerFired),
            r matches Ok(PollResult::Leased(l)) ==> exists|x: int| {
                let t = old(self).tasks@[x];
                let ex = crate::engine::exec_of(old(self).executions@, t.execution_id@);
                &&& #[trigger] earliest(old(self).tasks@, h@, now, x)
                &&& final(self).tasks@[x].status == TaskStatus::Running
                &&& final(self).tasks@[x].locked_by matches Some(wk) && wk@ == worker@
                &&& final(self).tasks@[x].locked_at == Some(now)
                &&& (t.node_type == NodeKind::HumanApproval ==> final(self).tasks@[x].approval_status == ApprovalStatus::Pending)
                &&& l.task_id@ == t.task_id@
                &&& l.execution_id@ == t.execution_id@
                &&& l.node_id@ == logical_node(t)
                &&& l.node_type == t.node_type
                &&& l.idempotency_key@ == t.idempotency_key@
                &&& l.is_map_subtask == (t.node_type == NodeKind::MapSubtask)
                &&& final(self).events == old(self).events
                &&& final(self).executions == old(self).executions
                &&& t.node_type != NodeKind::Timer
                &&& final(self).tasks@.len() == old(self).tasks@.len()
                &&& forall|y: int| 0 <= y < old(self).tasks@.len() && y != x ==> final(self).tasks@[y] == old(self).tasks@[y]
                &&& (t.map_item matches Some(mi) ==> l.map_item_json@ == mi.item_json@ && l.map_index == mi.index && l.map_total == mi.total)
                &&& (t.map_item is None ==> l.map_item_json@.len() == 0 && l.map_index == 0 && l.map_total == 0)
                &&& l.input_json@ == hydrated_text(ex.input_json@, dep_entries(old(self).events@, old(self).blobs@, t.execution_id@,
                    lease_deps(old(self).versions@, ex.workflow_id@, t.version_hash@, logical_node(t))))
            },
            r matches Ok(PollResult::TimerFired) ==> exists|x: int| {
                let t = old(self).tasks@[x];
                let ex = crate::engine::exec_of(old(self).executions@, t.execution_id@);
                &&& #[trigger] earliest(old(self).tasks@, h@, now, x)
                &&& t.node_type == NodeKind::Timer
                &&& final(self).tasks@[x].status == TaskStatus::Done
                &&& completion_after(final(self).events@, old(self).events@.len() as int, t.execution_id@, t.node_id@,
                    timer_output(lease_delay(old(self).versions@, ex.workflow_id@, t.version_hash@, t.node_id@), now))
                &&& crate::engine::advanced(*old(self), *final(self), t.execution_id@, ex.workflow_id@, t.version_hash@)
                &&& crate::store::seq_ids(final(self).events@, t.execution_id@).len() == crate::store::seq_ids(old(self).events@, t.execution_id@).len() + 1
                &&& crate::store::completions_of(final(self).events@, t.execution_id@).drop_last() == crate::store::completions_of(old(self).events@, t.execution_id@)
                &&& crate::store::completions_of(final(self).events@, t.execution_id@).len() == crate::store::completions_of(old(self).events@, t.execution_id@).len() + 1
                &&& crate::store::completions_of(final(self).events@, t.execution_id@).last().0 == t.node_id@
            },
    {
        let x = match self.earliest_ready(h, now) {
            Some(x) => x,
            None => {
                return Ok(PollResult::Empty);
            },
        };
        let ghost start = *self;
        self.tasks[x].status = TaskStatus::Running;
        self.tasks[x].locked_by = Some(String::from_str(worker));
        self.tasks[x].locked_at = Some(now);
        proof {
            crate::store::lemma_same_keys(start.tasks@, self.tasks@);
        }
        let e = self.tasks[x].execution_id.clone();
        let xe = match self.find_execution(e.as_str()) {
            Some(xe) => xe,
            None => {
                return Err(EngineError::Internal(String::from_str("Execution not found")));
            },
        };
        proof {
            let x2 = choose|x2: int| 0 <= x2 < self.executions@.len() && self.executions@[x2].execution_id@ == e@;
            assert(x2 == xe as int);
        }
        let w = self.executions[xe].workflow_id.clone();
        let th = self.tasks[x].version_hash.clone();
        let kind = self.tasks[x].node_type;
        let is_sub = kind == NodeKind::MapSubtask;
        let lookup = match (&self.tasks[x].map_item, is_sub) {
            (Some(m), true) => m.parent_node_id.clone(),
            _ => self.tasks[x].node_id.clone(),
        };
        let ghost ir = version_nodes(self.versions@, w@, th@);
        let node_at: Option<(usize, usize)> = match self.find_version(w.as_str(), th.as_str()) {
            Some(v) => {
                proof {
                    let v2 = choose|v2: int| 0 <= v2 < self.versions@.len() && self.versions@[v2].workflow_id@ == w@ && self.versions@[v2].version_hash@ == th@;
                    assert(v2 == v as int);
                }
                match find_node(&self.versions[v].ir.nodes, lookup.as_str()) {
                    Some(j) => {
                        proof {
                            assert(ids_unique(ir));
                            let j2 = choose|j2: int| 0 <= j2 < ir.len() && ir[j2].id@ == lookup@;
                            assert(j2 == j as int);
                        }
                        Some((v, j))
                    },
                    None => None,
                }
            },
            None => None,
        };
        if kind == NodeKind::Timer {
            let delay: i64 = match node_at {
                Some((v, j)) => self.versions[v].ir.nodes[j].delay_seconds,
                None => 0,
            };
            let n = self.tasks[x].node_id.clone();
            let output = timer_output_text(delay, now);
            let ghost before_done = self.tasks@;
            self.tasks[x].status = TaskStatus::Done;
            self.metrics.tasks_completed = crate::metrics::bump_exec(self.metrics.tasks_completed);
            proof {
                crate::store::lemma_same_keys(before_done, self.tasks@);
            }
            let ghost n0 = self.events@.len();
            let ghost out_text = output@;
            let ghost pre_app = *self;
            self.append_event(e.as_str(), EventBody::NodeCompleted { node_id: n.clone(), output: Payload::Inline(output) });
            proof {
                assert(self.events@[n0 as int] == self.events@.last());
                assert(completion_after(self.events@, n0 as int, e@, n@, out_text));
                assert(self.events@ == pre_app.events@.push(self.events@.last()));
                crate::store::lemma_seq_ids_push(pre_app.events@, self.events@.last(), e@);
                assert(crate::store::completions_of(self.events@, e@).drop_last() =~= crate::store::completions_of(start.events@, e@));
            }
            let ghost mid = *self;
            self.schedule_ready_nodes(e.as_str(), w.as_str(), th.as_str(), now)?;
            let ghost mid2 = *self;
            self.check_execution_complete(e.as_str(), w.as_str(), th.as_str(), now)?;
            proof {
                assert(mid2.events == mid.events);
                let k = choose|k: int| n0 <= k < mid.events@.len() && mid.events@[k].execution_id@ == e@ && match mid.events@[k].body {
                    EventBody::NodeCompleted { node_id, output } => node_id@ == n@ && rendered_eq(output, out_text),
                    _ => false,
                };
                assert(self.events@.subrange(0, mid2.events@.len() as int)[k] == self.events@[k]);
                assert(completion_after(self.events@, start.events@.len() as int, e@, n@, out_text));
                assert(mid.tasks@[x as int].status == TaskStatus::Done);
                assert(mid2.tasks@.subrange(0, mid.tasks@.len() as int)[x as int] == mid2.tasks@[x as int]);
                crate::engine::lemma_advanced(start, mid2, *self, e@, w@, th@);
            }
            return Ok(PollResult::TimerFired);
        }
        if kind == NodeKind::HumanApproval {
            let ghost before_ap = self.tasks@;
            self.tasks[x].approval_status = ApprovalStatus::Pending;
            proof {
                crate::store::lemma_same_keys(before_ap, self.tasks@);
            }
        }
        let empty: Vec<String> = Vec::new();
        let input = match node_at {
            Some((v, j)) => self.hydrate(e.as_str(), self.executions[xe].input_json.as_str(), &self.versions[v].ir.nodes[j].dependencies),
            None => {
                proof {
                    assert(texts(empty@) =~= Seq::<Seq<char>>::empty());
                }
                self.hydrate(e.as_str(), self.executions[xe].input_json.as_str(), &empty)
            },
        };
        let t = &self.tasks[x];
        let (map_item_json, map_index, map_total) = match &t.map_item {
            Some(m) => (m.item_json.clone(), m.index, m.total),
            None => (String::new(), 0, 0),
        };
        let leased = LeasedTask {
            task_id: t.task_id.clone(),
            execution_id: e,
            node_id: lookup,
            input_json: input,
            idempotency_key: t.idempotency_key.clone(),
            node_type: kind,
            map_item_json,
            is_map_subtask: is_sub,
            map_index,
            map_total,
            sub_execution_id: text_or_empty(&t.sub_execution_id),
            sub_workflow_id: text_or_empty(&t.sub_workflow_id),
            sub_input_json: text_or_empty(&t.sub_input_json),
        };
        Ok(PollResult::Leased(leased))
    }
}

/// Whether a stored output reads as `text`.
pub open spec fn rendered_eq(p: Payload, text: Seq<char>) -> bool {
    crate::store::rendered(p) == text
}

} // verus!
