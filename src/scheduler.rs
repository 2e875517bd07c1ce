//! Which nodes of an execution are done, skipped by a router, or ready to
//! run. Pure functions of the graph and of the execution's completions.

use vstd::prelude::*;
use crate::ir::{NodeDef, NodeKind, deps_view};
use crate::json::{routed_to, routed_to_of};
use crate::text::{literal_eq, texts};

verus! {

/// A `NodeCompleted` event of an execution: the node and its stored output.
pub struct Completion {
    pub node_id: String,
    pub output: String,
}

/// The completions as (node id, output text) pairs.
pub open spec fn progress(p: Seq<Completion>) -> Seq<(Seq<char>, Seq<char>)> {
    p.map_values(|c: Completion| (c.node_id@, c.output@))
}

/// Whether node `n` has a completion.
pub open spec fn is_completed(p: Seq<(Seq<char>, Seq<char>)>, n: Seq<char>) -> bool {
    exists|k: int| 0 <= k < p.len() && p[k].0 == n
}

/// The output of the first completion of node `n`.
pub open spec fn first_output(p: Seq<(Seq<char>, Seq<char>)>, n: Seq<char>) -> Option<Seq<char>>
    decreases p.len(),
{
    if p.len() == 0 {
        None
    } else if p[0].0 == n {
        Some(p[0].1)
    } else {
        first_output(p.drop_first(), n)
    }
}

/// Whether router node `r`, once completed, skips `t`: `t` is one of its
/// route targets and not the one its output names in `routed_to`.
pub open spec fn router_skips(r: NodeDef, p: Seq<(Seq<char>, Seq<char>)>, t: Seq<char>) -> bool {
    &&& r.kind == NodeKind::Router
    &&& first_output(p, r.id@) is Some
    &&& t != routed_to_of(first_output(p, r.id@).unwrap())
    &&& exists|k: int| 0 <= k < r.routes@.len() && r.routes@[k].target@ == t
}

/// Whether some completed router of the graph skips `t`.
pub open spec fn is_skipped(ir: Seq<NodeDef>, p: Seq<(Seq<char>, Seq<char>)>, t: Seq<char>) -> bool {
    exists|i: int| 0 <= i < ir.len() && router_skips(ir[i], p, t)
}

/// Done, or skipped by a router: either way it unblocks what depends on it.
pub open spec fn is_satisfied(ir: Seq<NodeDef>, p: Seq<(Seq<char>, Seq<char>)>, n: Seq<char>) -> bool {
    is_completed(p, n) || is_skipped(ir, p, n)
}

/// Whether all dependencies of node `i` are satisfied.
pub open spec fn deps_satisfied(ir: Seq<NodeDef>, p: Seq<(Seq<char>, Seq<char>)>, i: int) -> bool {
    forall|d: int| 0 <= d < deps_view(ir[i]).len() ==> is_satisfied(ir, p, deps_view(ir[i])[d])
}

/// Whether node `i` may be enqueued: not done, not skipped, not already in
/// the queue, and all its dependencies satisfied.
pub open spec fn eligible(ir: Seq<NodeDef>, p: Seq<(Seq<char>, Seq<char>)>, scheduled: Seq<Seq<char>>, i: int) -> bool {
    &&& 0 <= i < ir.len()
    &&& !is_satisfied(ir, p, ir[i].id@)
    &&& !scheduled.contains(ir[i].id@)
    &&& deps_satisfied(ir, p, i)
}

/// Whether every node of the graph is done or skipped.
pub open spec fn all_satisfied(ir: Seq<NodeDef>, p: Seq<(Seq<char>, Seq<char>)>) -> bool {
    forall|i: int| 0 <= i < ir.len() ==> is_satisfied(ir, p, ir[i].id@)
}

/// Whether node `n` has a completion.
pub fn completed(p: &Vec<Completion>, n: &str) -> (r: bool)
    ensures
        r == is_completed(progress(p@), n@),
{
    let mut k: usize = 0;
    while k < p.len()
        invariant
            0 <= k <= p@.len(),
            forall|q: int| 0 <= q < k ==> p@[q].node_id@ != n@,
        decreases p@.len() - k,
    {
        if literal_eq(p[k].node_id.as_str(), n) {
            assert(progress(p@)[k as int].0 == n@);
            return true;
        }
        k = k + 1;
    }
    false
}

proof fn lemma_first_output(p: Seq<(Seq<char>, Seq<char>)>, n: Seq<char>, k: int)
    requires
        0 <= k <= p.len(),
        forall|q: int| 0 <= q < k ==> p[q].0 != n,
    ensures
        first_output(p, n) == first_output(p.subrange(k, p.len() as int), n),
    decreases k,
{
    if k > 0 {
        assert(p.drop_first().subrange(k - 1, p.drop_first().len() as int) =~= p.subrange(k, p.len() as int));
        lemma_first_output(p.drop_first(), n, k - 1);
    } else {
        assert(p.subrange(0, p.len() as int) =~= p);
    }
}

/// The position of the first completion of node `n`.
pub fn first_completion(p: &Vec<Completion>, n: &str) -> (r: Option<usize>)
    ensures
        r matches Some(k) ==> k < p@.len() && first_output(progress(p@), n@) == Some(p@[k as int].output@),
        r is None ==> first_output(progress(p@), n@) is None && !is_completed(progress(p@), n@),
{
    let mut k: usize = 0;
    assert(p@.subrange(0, p@.len() as int) =~= p@);
    while k < p.len()
        invariant
            0 <= k <= p@.len(),
            forall|q: int| 0 <= q < k ==> p@[q].node_id@ != n@,
        decreases p@.len() - k,
    {
        if literal_eq(p[k].node_id.as_str(), n) {
            proof { lemma_first_output(progress(p@), n@, k as int); }
            return Some(k);
        }
        k = k + 1;
    }
    proof {
        lemma_first_output(progress(p@), n@, k as int);
    }
    None
}

fn contains_text(v: &Vec<String>, t: &str) -> (r: bool)
    ensures
        r == texts(v@).contains(t@),
{
    let mut k: usize = 0;
    while k < v.len()
        invariant
            0 <= k <= v@.len(),
            forall|q: int| 0 <= q < k ==> v@[q]@ != t@,
        decreases v@.len() - k,
    {
        if literal_eq(v[k].as_str(), t) {
            assert(texts(v@)[k as int] == t@);
            return true;
        }
        k = k + 1;
    }
    assert(!texts(v@).contains(t@)) by {
        if texts(v@).contains(t@) {
            let q = choose|q: int| 0 <= q < texts(v@).len() && texts(v@)[q] == t@;
            assert(v@[q]@ == t@);
        }
    }
    false
}

/// The targets skipped by the completed routers of the graph.
pub fn skipped_nodes(ir: &Vec<NodeDef>, p: &Vec<Completion>) -> (r: Vec<String>)
    ensures
        forall|t: Seq<char>| texts(r@).contains(t) <==> is_skipped(ir@, progress(p@), t),
{
    let mut r: Vec<String> = Vec::new();
    let mut i: usize = 0;
    while i < ir.len()
        invariant
            0 <= i <= ir@.len(),
            forall|t: Seq<char>|
                texts(r@).contains(t) <==> exists|i2: int| 0 <= i2 < i && router_skips(ir@[i2], progress(p@), t),
        decreases ir@.len() - i,
    {
        let node = &ir[i];
        if node.kind == NodeKind::Router {
            match first_completion(p, node.id.as_str()) {
                Some(k) => {
                    let chosen = routed_to(p[k].output.as_str());
                    let mut j: usize = 0;
                    while j < node.routes.len()
                        invariant
                            0 <= i < ir@.len(),
                            *node == ir@[i as int],
                            node.kind == NodeKind::Router,
                            k < p@.len(),
                            first_output(progress(p@), node.id@) == Some(p@[k as int].output@),
                            chosen@ == routed_to_of(p@[k as int].output@),
                            0 <= j <= node.routes@.len(),
                            forall|t: Seq<char>|
                                texts(r@).contains(t) <==> (exists|i2: int| 0 <= i2 < i && router_skips(ir@[i2], progress(p@), t))
                                    || (t != chosen@ && exists|j2: int| 0 <= j2 < j && node.routes@[j2].target@ == t),
                        decreases node.routes@.len() - j,
                    {
                        let target = &node.routes[j].target;
                        let ghost before = r@;
                        let differs = !literal_eq(target.as_str(), chosen.as_str());
                        if differs {
                            r.push(target.clone());
                        }
                        proof {
                            assert forall|t: Seq<char>|
                                texts(r@).contains(t) <==> (texts(before).contains(t) || (differs && t == target@)) by {
                                if differs {
                                    assert(texts(r@) =~= texts(before).push(target@));
                                    if texts(r@).contains(t) {
                                        let q = choose|q: int| 0 <= q < texts(r@).len() && texts(r@)[q] == t;
                                        if q < texts(before).len() {
                                            assert(texts(before)[q] == t);
                                        }
                                    }
                                    if texts(before).contains(t) {
                                        let q = choose|q: int| 0 <= q < texts(before).len() && texts(before)[q] == t;
                                        assert(texts(r@)[q] == t);
                                    }
                                    if t == target@ {
                                        assert(texts(r@)[texts(before).len() as int] == t);
                                    }
                                }
                            }
                            assert forall|t: Seq<char>|
                                texts(r@).contains(t) <==> (exists|i2: int| 0 <= i2 < i && router_skips(ir@[i2], progress(p@), t))
                                    || (t != chosen@ && exists|j2: int| 0 <= j2 < j + 1 && node.routes@[j2].target@ == t) by {
                                assert(texts(before).contains(t) <==> (exists|i2: int| 0 <= i2 < i && router_skips(ir@[i2], progress(p@), t))
                                    || (t != chosen@ && exists|j2: int| 0 <= j2 < j && node.routes@[j2].target@ == t));
                                assert(differs == (target@ != chosen@));
                                assert(target@ == node.routes@[j as int].target@);
                                if exists|j2: int| 0 <= j2 < j + 1 && node.routes@[j2].target@ == t {
                                    let j2 = choose|j2: int| 0 <= j2 < j + 1 && node.routes@[j2].target@ == t;
                                    if j2 < j {
                                        assert(exists|j3: int| 0 <= j3 < j && node.routes@[j3].target@ == t);
                                    }
                                }
                                if texts(r@).contains(t) && !texts(before).contains(t) {
                                    assert(node.routes@[j as int].target@ == t);
                                }
                            }
                        }
                        j = j + 1;
                    }
                    proof {
                        assert forall|t: Seq<char>|
                            texts(r@).contains(t) <==> exists|i2: int| 0 <= i2 < i + 1 && router_skips(ir@[i2], progress(p@), t) by {
                            if router_skips(ir@[i as int], progress(p@), t) {
                                let k2 = choose|k2: int| 0 <= k2 < node.routes@.len() && node.routes@[k2].target@ == t;
                            }
                        }
                    }
                },
                None => {
                    assert forall|t: Seq<char>| !router_skips(ir@[i as int], progress(p@), t) by {}
                },
            }
        } else {
            assert forall|t: Seq<char>| !router_skips(ir@[i as int], progress(p@), t) by {}
        }
        i = i + 1;
    }
    r
}

fn satisfied_exec(ir: &Vec<NodeDef>, p: &Vec<Completion>, skipped: &Vec<String>, n: &str) -> (r: bool)
    requires
        forall|t: Seq<char>| texts(skipped@).contains(t) <==> is_skipped(ir@, progress(p@), t),
    ensures
        r == is_satisfied(ir@, progress(p@), n@),
{
    completed(p, n) || contains_text(skipped, n)
}

/// The positions, in graph order, of the nodes that may be enqueued now.
pub fn ready_nodes(ir: &Vec<NodeDef>, p: &Vec<Completion>, scheduled: &Vec<String>) -> (r: Vec<usize>)
    ensures
        forall|a: int| 0 <= a < r@.len() ==> eligible(ir@, progress(p@), texts(scheduled@), r@[a] as int),
        forall|i: int| eligible(ir@, progress(p@), texts(scheduled@), i) ==> r@.contains(i as usize),
        forall|a: int, b: int| 0 <= a < b < r@.len() ==> r@[a] < r@[b],
{
    let skipped = skipped_nodes(ir, p);
    let mut r: Vec<usize> = Vec::new();
    let mut i: usize = 0;
    while i < ir.len()
        invariant
            forall|t: Seq<char>| texts(skipped@).contains(t) <==> is_skipped(ir@, progress(p@), t),
            0 <= i <= ir@.len(),
            forall|a: int| 0 <= a < r@.len() ==> eligible(ir@, progress(p@), texts(scheduled@), r@[a] as int) && r@[a] < i,
            forall|k: int| 0 <= k < i && eligible(ir@, progress(p@), texts(scheduled@), k) ==> r@.contains(k as usize),
            forall|a: int, b: int| 0 <= a < b < r@.len() ==> r@[a] < r@[b],
        decreases ir@.len() - i,
    {
        let node = &ir[i];
        let mut ok = !satisfied_exec(ir, p, &skipped, node.id.as_str())
            && !contains_text(scheduled, node.id.as_str());
        let mut d: usize = 0;
        while ok && d < node.dependencies.len()
            invariant
                forall|t: Seq<char>| texts(skipped@).contains(t) <==> is_skipped(ir@, progress(p@), t),
                0 <= i < ir@.len(),
                *node == ir@[i as int],
                0 <= d <= node.dependencies@.len(),
                ok ==> forall|d2: int| 0 <= d2 < d ==> is_satisfied(ir@, progress(p@), deps_view(ir@[i as int])[d2]),
                ok ==> !is_satisfied(ir@, progress(p@), ir@[i as int].id@) && !texts(scheduled@).contains(ir@[i as int].id@),
                !ok ==> !eligible(ir@, progress(p@), texts(scheduled@), i as int),
            decreases node.dependencies@.len() - d,
        {
            proof {
                assert(deps_view(ir@[i as int])[d as int] == node.dependencies@[d as int]@);
            }
            if !satisfied_exec(ir, p, &skipped, node.dependencies[d].as_str()) {
                ok = false;
            }
            d = d + 1;
        }
        if ok {
            let ghost before = r@;
            r.push(i);
            proof {
                assert(r@[before.len() as int] == i);
                assert forall|k: int| 0 <= k < i + 1 && eligible(ir@, progress(p@), texts(scheduled@), k) implies r@.contains(k as usize) by {
                    if k < i {
                        let a = choose|a: int| 0 <= a < before.len() && before[a] == k as usize;
                        assert(r@[a] == k as usize);
                    } else {
                        assert(r@[before.len() as int] == k as usize);
                    }
                }
            }
        }
        i = i + 1;
    }
    r
}

/// Whether every node of the graph is done or skipped.
pub fn all_done(ir: &Vec<NodeDef>, p: &Vec<Completion>) -> (r: bool)
    ensures
        r == all_satisfied(ir@, progress(p@)),
{
    let skipped = skipped_nodes(ir, p);
    let mut i: usize = 0;
    while i < ir.len()
        invariant
            forall|t: Seq<char>| texts(skipped@).contains(t) <==> is_skipped(ir@, progress(p@), t),
            0 <= i <= ir@.len(),
            forall|k: int| 0 <= k < i ==> is_satisfied(ir@, progress(p@), ir@[k].id@),
        decreases ir@.len() - i,
    {
        if !satisfied_exec(ir, p, &skipped, ir[i].id.as_str()) {
            return false;
        }
        i = i + 1;
    }
    true
}

} // verus!
