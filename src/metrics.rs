//! The engine's counters and their text exposition.

use vstd::prelude::*;
use vstd::string::*;
use crate::text::{decimal, decimal_text};

verus! {

/// Six monotone counters kept by the engine.
pub struct Metrics {
    pub executions_started: u64,
    pub executions_completed: u64,
    pub executions_failed: u64,
    pub tasks_completed: u64,
    pub tasks_failed: u64,
    pub tasks_retried: u64,
}

/// One counter in the exposition format: help line, type line, value line.
pub open spec fn counter_block(name: Seq<char>, help: Seq<char>, value: u64) -> Seq<char> {
    "# HELP "@ + name + " "@ + help + "\n# TYPE "@ + name + " counter\n"@ + name + " "@
        + decimal_text(value as nat) + "\n"@
}

/// The full exposition of all six counters.
pub open spec fn metrics_text(m: Metrics) -> Seq<char> {
    counter_block("nexum_executions_started_total"@, "Total workflow executions started"@, m.executions_started)
        + counter_block("nexum_executions_completed_total"@, "Total workflow executions completed"@, m.executions_completed)
        + counter_block("nexum_executions_failed_total"@, "Total workflow executions failed"@, m.executions_failed)
        + counter_block("nexum_tasks_completed_total"@, "Total tasks completed"@, m.tasks_completed)
        + counter_block("nexum_tasks_failed_total"@, "Total tasks failed (including retries)"@, m.tasks_failed)
        + counter_block("nexum_tasks_retried_total"@, "Total task retries"@, m.tasks_retried)
}

/// One step up, held at the top of the range.
pub open spec fn bump(x: u64) -> u64 {
    if x < u64::MAX { (x + 1) as u64 } else { x }
}

pub fn bump_exec(x: u64) -> (r: u64)
    ensures
        r == bump(x),
{
    if x < u64::MAX { x + 1 } else { x }
}

fn counter_text(name: &str, help: &str, value: u64) -> (r: String)
    ensures
        r@ == counter_block(name@, help@, value),
{
    let mut s = String::from_str("# HELP ");
    s.append(name);
    s.append(" ");
    s.append(help);
    s.append("\n# TYPE ");
    s.append(name);
    s.append(" counter\n");
    s.append(name);
    s.append(" ");
    let v = decimal(value);
    s.append(v.as_str());
    s.append("\n");
    s
}

impl Metrics {
    /// All counters at zero.
    pub fn new() -> (r: Metrics)
        ensures
            r.executions_started == 0,
            r.executions_completed == 0,
            r.executions_failed == 0,
            r.tasks_completed == 0,
            r.tasks_failed == 0,
            r.tasks_retried == 0,
    {
        Metrics {
            executions_started: 0,
            executions_completed: 0,
            executions_failed: 0,
            tasks_completed: 0,
            tasks_failed: 0,
            tasks_retried: 0,
        }
    }

    /// The counters in the Prometheus text exposition format.
    pub fn prometheus_text(&self) -> (r: String)
        ensures
            r@ == metrics_text(*self),
    {
        let mut s = counter_text("nexum_executions_started_total", "Total workflow executions started", self.executions_started);
        let b = counter_text("nexum_executions_completed_total", "Total workflow executions completed", self.executions_completed);
        s.append(b.as_str());
        let b = counter_text("nexum_executions_failed_total", "Total workflow executions failed", self.executions_failed);
        s.append(b.as_str());
        let b = counter_text("nexum_tasks_completed_total", "Total tasks completed", self.tasks_completed);
        s.append(b.as_str());
        let b = counter_text("nexum_tasks_failed_total", "Total tasks failed (including retries)", self.tasks_failed);
        s.append(b.as_str());
        let b = counter_text("nexum_tasks_retried_total", "Total task retries", self.tasks_retried);
        s.append(b.as_str());
        proof {
            assert(s@ =~= metrics_text(*self));
        }
        s
    }
}

} // verus!
