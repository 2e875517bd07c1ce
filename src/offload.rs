//! Claim checks: outputs above a size threshold go to the blob store and a
//! pointer stands for them in the event log; reads follow the pointer back.

use vstd::prelude::*;
use vstd::string::*;
use crate::store::{Blob, Engine, Payload, blobs_unique};
use crate::text::literal_eq;
use crate::json::{claim_fields, claim_fields_of, string_value, string_value_of};

verus! {

/// Outputs of more bytes than this are offloaded.
pub const CLAIM_CHECK_THRESHOLD: usize = 102400;

/// The blob id of the output of node `n` of execution `e`.
pub open spec fn blob_key(e: Seq<char>, n: Seq<char>) -> Seq<char> {
    e + "-"@ + n
}

/// The content of blob `id`, if stored.
pub open spec fn blob_content(bs: Seq<Blob>, id: Seq<char>) -> Option<Seq<char>> {
    if exists|i: int| 0 <= i < bs.len() && bs[i].blob_id@ == id {
        Some(bs[choose|i: int| 0 <= i < bs.len() && bs[i].blob_id@ == id].content@)
    } else {
        None
    }
}

/// What a stored output reads as once its claim check, if any, is followed.
/// A pointer whose blob is missing reads as the pointer itself.
pub open spec fn resolved(bs: Seq<Blob>, p: Payload) -> Seq<char> {
    match p {
        Payload::Inline(t) => t@,
        Payload::Offloaded { blob_id, size, path } => match blob_content(bs, blob_id@) {
            Some(c) => c,
            None => crate::store::pointer_text(blob_id@, size, path@),
        },
    }
}

/// The blob that a JSON text points to when it is a claim-check pointer,
/// itself or as the content of a JSON string.
pub open spec fn pointer_target(text: Seq<char>) -> Option<Seq<char>> {
    match claim_fields_of(text) {
        Some((true, Some(id))) => Some(id),
        _ => match string_value_of(text) {
            Some(inner) => match claim_fields_of(inner) {
                Some((true, Some(id))) => Some(id),
                _ => None,
            },
            None => None,
        },
    }
}

/// What a worker is handed for a stored output: the claim check followed,
/// and a pointer that stands inline followed too when its blob is stored.
pub open spec fn hydrated_value(bs: Seq<Blob>, p: Payload) -> Seq<char> {
    match p {
        Payload::Inline(t) => match pointer_target(t@) {
            Some(id) => match blob_content(bs, id) {
                Some(c) => c,
                None => t@,
            },
            None => t@,
        },
        _ => resolved(bs, p),
    }
}

fn claim_target(text: &str) -> (r: Option<String>)
    ensures
        r matches Some(id) ==> claim_fields_of(text@) == Some((true, Some(id@))),
        r is None ==> !(claim_fields_of(text@) matches Some((true, Some(_)))),
{
    match claim_fields(text) {
        Some((true, Some(id))) => Some(id),
        _ => None,
    }
}

/// The blob a JSON text points to, if it is a claim-check pointer.
pub fn pointer_target_exec(text: &str) -> (r: Option<String>)
    ensures
        r matches Some(id) ==> pointer_target(text@) == Some(id@),
        r is None ==> pointer_target(text@) is None,
{
    match claim_target(text) {
        Some(id) => Some(id),
        None => match string_value(text) {
            Some(inner) => claim_target(inner.as_str()),
            None => None,
        },
    }
}

/// What storing `text` as the output of node `n` of execution `e` does:
/// small outputs stay inline and change nothing; large ones are written to
/// blob `e-n` and a pointer is kept.
pub open spec fn stored_as(before: Engine, after: Engine, e: Seq<char>, n: Seq<char>, text: &str, p: Payload) -> bool {
    &&& after.executions == before.executions
    &&& after.events == before.events
    &&& after.tasks == before.tasks
    &&& after.map_results == before.map_results
    &&& after.versions == before.versions
    &&& after.metrics == before.metrics
    &&& after.blob_root == before.blob_root
    &&& if text.len() <= CLAIM_CHECK_THRESHOLD {
        &&& after.blobs == before.blobs
        &&& p is Inline
        &&& p->Inline_0@ == text@
    } else {
        &&& p is Offloaded
        &&& p->Offloaded_blob_id@ == blob_key(e, n)
        &&& p->Offloaded_size == text.len() as u64
        &&& p->Offloaded_path@ == before.blob_root@ + "/"@ + blob_key(e, n) + ".json"@
        &&& blob_content(after.blobs@, blob_key(e, n)) == Some(text@)
        &&& forall|id: Seq<char>| id != blob_key(e, n) ==> blob_content(after.blobs@, id) == blob_content(before.blobs@, id)
    }
}

impl Engine {
    /// The position of blob `id`.
    fn find_blob(&self, id: &str) -> (r: Option<usize>)
        ensures
            r matches Some(i) ==> i < self.blobs@.len() && self.blobs@[i as int].blob_id@ == id@,
            r is None ==> forall|i: int| 0 <= i < self.blobs@.len() ==> self.blobs@[i].blob_id@ != id@,
    {
        let mut i: usize = 0;
        while i < self.blobs.len()
            invariant
                0 <= i <= self.blobs@.len(),
                forall|q: int| 0 <= q < i ==> self.blobs@[q].blob_id@ != id@,
            decreases self.blobs@.len() - i,
        {
            if literal_eq(self.blobs[i].blob_id.as_str(), id) {
                return Some(i);
            }
            i = i + 1;
        }
        None
    }

    /// Stores the output of node `n` of execution `e`, offloading it to the
    /// blob store when it exceeds the threshold.
    pub fn store_payload(&mut self, e: &str, n: &str, output_json: &str) -> (r: Payload)
        requires
            old(self).wf(),
        ensures
            final(self).wf(),
            stored_as(*old(self), *final(self), e@, n@, output_json, r),
    {
        let size = output_json.len();
        if size <= CLAIM_CHECK_THRESHOLD {
            return Payload::Inline(String::from_str(output_json));
        }
        let mut blob_id = String::from_str(e);
        blob_id.append("-");
        blob_id.append(n);
        let mut path = self.blob_root.clone();
        path.append("/");
        path.append(blob_id.as_str());
        path.append(".json");
        let ghost before = self.blobs@;
        match self.find_blob(blob_id.as_str()) {
            Some(i) => {
                self.blobs[i].content = String::from_str(output_json);
                proof {
                    assert forall|a: int, b: int| 0 <= a < self.blobs@.len() && 0 <= b < self.blobs@.len() && a != b
                        implies self.blobs@[a].blob_id@ != self.blobs@[b].blob_id@ by {
                        assert(self.blobs@[a].blob_id@ == before[a].blob_id@);
                        assert(self.blobs@[b].blob_id@ == before[b].blob_id@);
                    }
                    let k = choose|k: int| 0 <= k < self.blobs@.len() && self.blobs@[k].blob_id@ == blob_id@;
                    assert(k == i);
                    assert forall|id: Seq<char>| id != blob_id@ implies crate::offload::blob_content(self.blobs@, id)
                        == crate::offload::blob_content(before, id) by {
                        if exists|k2: int| 0 <= k2 < before.len() && before[k2].blob_id@ == id {
                            let k2 = choose|k2: int| 0 <= k2 < before.len() && before[k2].blob_id@ == id;
                            assert(self.blobs@[k2].blob_id@ == id);
                            let k3 = choose|k3: int| 0 <= k3 < self.blobs@.len() && self.blobs@[k3].blob_id@ == id;
                            assert(k3 != i);
                        }
                        if exists|k2: int| 0 <= k2 < self.blobs@.len() && self.blobs@[k2].blob_id@ == id {
                            let k2 = choose|k2: int| 0 <= k2 < self.blobs@.len() && self.blobs@[k2].blob_id@ == id;
                            assert(before[k2].blob_id@ == id);
                        }
                    }
                }
            },
            None => {
                self.blobs.push(Blob { blob_id: blob_id.clone(), content: String::from_str(output_json) });
                proof {
                    let last = before.len() as int;
                    assert forall|a: int, b: int| 0 <= a < self.blobs@.len() && 0 <= b < self.blobs@.len() && a != b
                        implies self.blobs@[a].blob_id@ != self.blobs@[b].blob_id@ by {
                        if a != last && b != last {
                            assert(self.blobs@[a] == before[a]);
                            assert(self.blobs@[b] == before[b]);
                        } else if a == last {
                            assert(self.blobs@[b] == before[b]);
                        } else {
                            assert(self.blobs@[a] == before[a]);
                        }
                    }
                    assert(self.blobs@[last].blob_id@ == blob_id@);
                    let k = choose|k: int| 0 <= k < self.blobs@.len() && self.blobs@[k].blob_id@ == blob_id@;
                    assert(k == last);
                    assert forall|id: Seq<char>| id != blob_id@ implies crate::offload::blob_content(self.blobs@, id)
                        == crate::offload::blob_content(before, id) by {
                        if exists|k2: int| 0 <= k2 < before.len() && before[k2].blob_id@ == id {
                            let k2 = choose|k2: int| 0 <= k2 < before.len() && before[k2].blob_id@ == id;
                            assert(self.blobs@[k2].blob_id@ == id);
                            let k3 = choose|k3: int| 0 <= k3 < self.blobs@.len() && self.blobs@[k3].blob_id@ == id;
                            assert(k3 != last);
                            assert(self.blobs@[k3] == before[k3]);
                        }
                        if exists|k2: int| 0 <= k2 < self.blobs@.len() && self.blobs@[k2].blob_id@ == id {
                            let k2 = choose|k2: int| 0 <= k2 < self.blobs@.len() && self.blobs@[k2].blob_id@ == id;
                            assert(k2 != last);
                            assert(before[k2].blob_id@ == id);
                        }
                    }
                }
            },
        }
        Payload::Offloaded { blob_id, size: size as u64, path }
    }

    /// The JSON text a worker is handed for a stored output.
    pub fn hydration_text(&self, p: &Payload) -> (r: String)
        requires
            blobs_unique(self.blobs@),
        ensures
            r@ == hydrated_value(self.blobs@, *p),
    {
        match p {
            Payload::Inline(t) => match pointer_target_exec(t.as_str()) {
                Some(id) => match self.find_blob(id.as_str()) {
                    Some(i) => {
                        proof {
                            let k = choose|k: int| 0 <= k < self.blobs@.len() && self.blobs@[k].blob_id@ == id@;
                            assert(k == i);
                        }
                        self.blobs[i].content.clone()
                    },
                    None => t.clone(),
                },
                None => t.clone(),
            },
            Payload::Offloaded { .. } => self.resolve_payload(p),
        }
    }

    /// The JSON text a stored output stands for, following a claim check.
    pub fn resolve_payload(&self, p: &Payload) -> (r: String)
        requires
            blobs_unique(self.blobs@),
        ensures
            r@ == resolved(self.blobs@, *p),
    {
        match p {
            Payload::Inline(t) => t.clone(),
            Payload::Offloaded { blob_id, size, path } => match self.find_blob(blob_id.as_str()) {
                Some(i) => {
                    proof {
                        let k = choose|k: int| 0 <= k < self.blobs@.len() && self.blobs@[k].blob_id@ == blob_id@;
                        assert(k == i);
                    }
                    self.blobs[i].content.clone()
                },
                None => crate::store::render(p),
            },
        }
    }
}

/// Offloading an output and then resolving what was stored gives back the
/// output, character for character, whatever its size.
pub proof fn lemma_claim_check_round_trip(
    before: Engine,
    after: Engine,
    e: Seq<char>,
    n: Seq<char>,
    text: &str,
    p: Payload,
)
    requires
        stored_as(before, after, e, n, text, p),
    ensures
        resolved(after.blobs@, p) == text@,
{
}

} // verus!
