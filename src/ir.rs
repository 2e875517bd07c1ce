//! The workflow graph that the engine runs, and the compatibility of one
//! version of a workflow with the next.

use vstd::prelude::*;
use vstd::string::*;
use crate::text::{literal_eq, same_text, same_texts, texts};

verus! {

/// The kinds of node (`Fanout` is the MAP kind). `MapSubtask` is never written in a graph: the engine
/// gives it to the per-item tasks of a MAP node.
#[derive(PartialEq, Eq, Structural, Clone, Copy, Debug)]
pub enum NodeKind {
    Compute,
    Effect,
    Reduce,
    Router,
    Fanout,
    Timer,
    HumanApproval,
    Subworkflow,
    MapSubtask,
}

pub open spec fn kind_name(k: NodeKind) -> Seq<char> {
    match k {
        NodeKind::Compute => "COMPUTE"@,
        NodeKind::Effect => "EFFECT"@,
        NodeKind::Reduce => "REDUCE"@,
        NodeKind::Router => "ROUTER"@,
        NodeKind::Fanout => "MAP"@,
        NodeKind::Timer => "TIMER"@,
        NodeKind::HumanApproval => "HUMAN_APPROVAL"@,
        NodeKind::Subworkflow => "SUBWORKFLOW"@,
        NodeKind::MapSubtask => "MAP_SUBTASK"@,
    }
}

/// The kind named `s`; a missing or unknown name reads as COMPUTE.
pub open spec fn kind_of_name(s: Seq<char>) -> NodeKind {
    if s == "EFFECT"@ { NodeKind::Effect }
    else if s == "REDUCE"@ { NodeKind::Reduce }
    else if s == "ROUTER"@ { NodeKind::Router }
    else if s == "MAP"@ { NodeKind::Fanout }
    else if s == "TIMER"@ { NodeKind::Timer }
    else if s == "HUMAN_APPROVAL"@ { NodeKind::HumanApproval }
    else if s == "SUBWORKFLOW"@ { NodeKind::Subworkflow }
    else if s == "MAP_SUBTASK"@ { NodeKind::MapSubtask }
    else { NodeKind::Compute }
}

impl NodeKind {
    /// The kind's name as written in a graph.
    pub fn name(&self) -> (r: &'static str)
        ensures
            r@ == kind_name(*self),
    {
        match self {
            NodeKind::Compute => "COMPUTE",
            NodeKind::Effect => "EFFECT",
            NodeKind::Reduce => "REDUCE",
            NodeKind::Router => "ROUTER",
            NodeKind::Fanout => "MAP",
            NodeKind::Timer => "TIMER",
            NodeKind::HumanApproval => "HUMAN_APPROVAL",
            NodeKind::Subworkflow => "SUBWORKFLOW",
            NodeKind::MapSubtask => "MAP_SUBTASK",
        }
    }

    /// The kind named `s`; unknown names read as COMPUTE.
    pub fn from_name(s: &str) -> (r: NodeKind)
        ensures
            r == kind_of_name(s@),
    {
        if literal_eq(s, "EFFECT") { NodeKind::Effect }
        else if literal_eq(s, "REDUCE") { NodeKind::Reduce }
        else if literal_eq(s, "ROUTER") { NodeKind::Router }
        else if literal_eq(s, "MAP") { NodeKind::Fanout }
        else if literal_eq(s, "TIMER") { NodeKind::Timer }
        else if literal_eq(s, "HUMAN_APPROVAL") { NodeKind::HumanApproval }
        else if literal_eq(s, "SUBWORKFLOW") { NodeKind::Subworkflow }
        else if literal_eq(s, "MAP_SUBTASK") { NodeKind::MapSubtask }
        else { NodeKind::Compute }
    }
}

/// One branch of a ROUTER node.
pub struct Route {
    pub condition: String,
    pub target: String,
}

/// A node of a workflow graph.
pub struct NodeDef {
    pub id: String,
    pub kind: NodeKind,
    /// Ids of the nodes that must be done before this one runs.
    pub dependencies: Vec<String>,
    /// Branches; read for ROUTER nodes only.
    pub routes: Vec<Route>,
    /// Delay before a TIMER node fires.
    pub delay_seconds: i64,
}

/// A workflow graph: its nodes, with distinct ids.
pub struct WorkflowIr {
    pub nodes: Vec<NodeDef>,
    /// Whether the document had a `nodes` object at all.
    pub nodes_given: bool,
}

pub open spec fn deps_view(n: NodeDef) -> Seq<Seq<char>> {
    texts(n.dependencies@)
}

pub open spec fn ids_unique(nodes: Seq<NodeDef>) -> bool {
    forall|i: int, j: int|
        0 <= i < nodes.len() && 0 <= j < nodes.len() && i != j ==> nodes[i].id@ != nodes[j].id@
}

impl WorkflowIr {
    pub open spec fn wf(&self) -> bool {
        ids_unique(self.nodes@)
    }
}

/// Whether some node of `nodes` has id `id`.
pub open spec fn has_node(nodes: Seq<NodeDef>, id: Seq<char>) -> bool {
    exists|j: int| 0 <= j < nodes.len() && nodes[j].id@ == id
}

/// The position of the node with id `id`, the first if several.
pub fn find_node(nodes: &Vec<NodeDef>, id: &str) -> (r: Option<usize>)
    ensures
        r matches Some(j) ==> j < nodes@.len() && nodes@[j as int].id@ == id@ && forall|k: int|
            0 <= k < j ==> nodes@[k].id@ != id@,
        r is None ==> !has_node(nodes@, id@),
{
    let mut j: usize = 0;
    while j < nodes.len()
        invariant
            0 <= j <= nodes@.len(),
            forall|k: int| 0 <= k < j ==> nodes@[k].id@ != id@,
        decreases nodes@.len() - j,
    {
        if literal_eq(nodes[j].id.as_str(), id) {
            return Some(j);
        }
        j = j + 1;
    }
    None
}

/// How a new version of a workflow relates to the version before it.
#[derive(PartialEq, Eq, Structural, Clone, Copy, Debug)]
pub enum Compatibility {
    New,
    Identical,
    Safe,
    Breaking,
}

pub open spec fn compatibility_name(c: Compatibility) -> Seq<char> {
    match c {
        Compatibility::New => "NEW"@,
        Compatibility::Identical => "IDENTICAL"@,
        Compatibility::Safe => "SAFE"@,
        Compatibility::Breaking => "BREAKING"@,
    }
}

pub open spec fn compatibility_note(c: Compatibility) -> Seq<char> {
    match c {
        Compatibility::Safe => "New nodes added. Old executions continue on previous version."@,
        Compatibility::Breaking => "Breaking change detected. Run parallel workers for in-flight executions."@,
        Compatibility::Identical => "No changes detected."@,
        Compatibility::New => "New workflow registered."@,
    }
}

impl Compatibility {
    /// The tag as stored and reported.
    pub fn name(&self) -> (r: &'static str)
        ensures
            r@ == compatibility_name(*self),
    {
        match self {
            Compatibility::New => "NEW",
            Compatibility::Identical => "IDENTICAL",
            Compatibility::Safe => "SAFE",
            Compatibility::Breaking => "BREAKING",
        }
    }

    /// The message reported with a registration.
    pub fn message(&self) -> (r: &'static str)
        ensures
            r@ == compatibility_note(*self),
    {
        match self {
            Compatibility::Safe => "New nodes added. Old executions continue on previous version.",
            Compatibility::Breaking => "Breaking change detected. Run parallel workers for in-flight executions.",
            Compatibility::Identical => "No changes detected.",
            Compatibility::New => "New workflow registered.",
        }
    }
}

/// Whether the new graph still has node `prev` with the same dependencies
/// and the same kind.
pub open spec fn kept(prev: NodeDef, next: Seq<NodeDef>) -> bool {
    exists|j: int|
        0 <= j < next.len() && next[j].id@ == prev.id@ && deps_view(next[j]) == deps_view(prev)
            && next[j].kind == prev.kind
}

/// Whether some node of the old graph is missing from the new one, or has
/// other dependencies or another kind there.
pub open spec fn breaks(prev: Seq<NodeDef>, next: Seq<NodeDef>) -> bool {
    exists|i: int| 0 <= i < prev.len() && !kept(prev[i], next)
}

/// The classification of two differing graphs.
pub open spec fn compatibility_of(prev: Seq<NodeDef>, next: Seq<NodeDef>) -> Compatibility {
    if breaks(prev, next) {
        Compatibility::Breaking
    } else if next.len() > prev.len() {
        Compatibility::Safe
    } else {
        Compatibility::Identical
    }
}

/// The classification of two graphs: BREAKING when either document had
/// no `nodes` object, else by their nodes.
pub open spec fn graphs_class(prev: WorkflowIr, next: WorkflowIr) -> Compatibility {
    if prev.nodes_given && next.nodes_given {
        compatibility_of(prev.nodes@, next.nodes@)
    } else {
        Compatibility::Breaking
    }
}

/// Compares the graph of a new version with that of the version before it.
pub fn analyze_compatibility(old_ir: &WorkflowIr, new_ir: &WorkflowIr) -> (r: Compatibility)
    requires
        new_ir.wf(),
    ensures
        r == graphs_class(*old_ir, *new_ir),
{
    if !old_ir.nodes_given || !new_ir.nodes_given {
        return Compatibility::Breaking;
    }
    let before = &old_ir.nodes;
    let after = &new_ir.nodes;
    let mut i: usize = 0;
    while i < before.len()
        invariant
            before@ == old_ir.nodes@,
            after@ == new_ir.nodes@,
            ids_unique(after@),
            0 <= i <= before@.len(),
            forall|q: int| 0 <= q < i ==> kept(#[trigger] before@[q], after@),
        decreases before@.len() - i,
    {
        let o = &before[i];
        match find_node(after, o.id.as_str()) {
            None => {
                assert(!kept(before@[i as int], after@));
                assert(breaks(before@, after@));
                return Compatibility::Breaking;
            },
            Some(j) => {
                let n = &after[j];
                if !same_texts(&o.dependencies, &n.dependencies) || o.kind != n.kind {
                    assert forall|k: int|
                        0 <= k < after@.len() && after@[k].id@ == o.id@ implies !(deps_view(after@[k])
                        == deps_view(*o) && after@[k].kind == o.kind) by {
                        assert(k == j);
                    }
                    assert(!kept(before@[i as int], after@));
                    assert(breaks(before@, after@));
                    return Compatibility::Breaking;
                }
                assert(kept(before@[i as int], after@));
            },
        }
        i = i + 1;
    }
    if after.len() > before.len() {
        Compatibility::Safe
    } else {
        Compatibility::Identical
    }
}

/// The classification of a registration against the latest earlier
/// version of the same workflow: NEW without one, IDENTICAL for the same
/// text, else the graphs decide.
pub open spec fn registration_class(prev: Option<(Seq<char>, WorkflowIr)>, text: Seq<char>, ir: WorkflowIr) -> Compatibility {
    match prev {
        None => Compatibility::New,
        Some(p) => if p.0 == text {
            Compatibility::Identical
        } else {
            graphs_class(p.1, ir)
        },
    }
}

/// Classifies a registration given the latest earlier version's text and
/// graph, if any.
pub fn classify_registration(
    prev: Option<(&String, &WorkflowIr)>,
    ir_text: &String,
    ir: &WorkflowIr,
) -> (r: Compatibility)
    requires
        ir.wf(),
    ensures
        r == registration_class(
            match prev {
                Some(p) => Some((p.0@, *p.1)),
                None => None,
            },
            ir_text@,
            *ir,
        ),
{
    match prev {
        None => Compatibility::New,
        Some(p) => if same_text(p.0, ir_text) {
            Compatibility::Identical
        } else {
            analyze_compatibility(p.1, ir)
        },
    }
}

} // verus!
