//! The calls into serde_json, uuid and chrono that the engine makes. Each
//! result that is a function of the arguments is given a name; the engine's
//! contracts speak of those names.

use vstd::prelude::*;
use crate::text::texts;

verus! {

/// The `routed_to` string field of a JSON object text; empty when the text
/// is not JSON, not an object, or has no such string field.
pub uninterp spec fn routed_to_of(text: Seq<char>) -> Seq<char>;

/// The elements of a JSON array text, each in compact JSON; `None` when the
/// text is not a JSON array.
pub uninterp spec fn array_items_of(text: Seq<char>) -> Option<Seq<Seq<char>>>;

/// The `subWorkflowId` string (empty if absent) and the compact `childInput`
/// value (`null` if absent) of a JSON text; `None` when it is not JSON.
pub uninterp spec fn subworkflow_request_of(text: Seq<char>) -> Option<(Seq<char>, Seq<char>)>;

/// The compact form of a JSON text, or `null` when the text is not JSON.
pub uninterp spec fn json_normal(text: Seq<char>) -> Seq<char>;

/// A string written as a JSON string literal.
pub uninterp spec fn quoted(s: Seq<char>) -> Seq<char>;

/// The content of a JSON text that is a JSON string; `None` for any other
/// text.
pub uninterp spec fn string_value_of(text: Seq<char>) -> Option<Seq<char>>;

/// The claim-check fields of a JSON text: whether `__nexum_claim_check__`
/// is `true`, and the `blob_id` string if present; `None` when the text is
/// not JSON.
pub uninterp spec fn claim_fields_of(text: Seq<char>) -> Option<(bool, Option<Seq<char>>)>;

/// The RFC 3339 form of a UNIX time in seconds; `None` out of range.
pub uninterp spec fn rfc3339_of(secs: int) -> Option<Seq<char>>;

/// Relies on serde_json::from_str and Value::get / Value::as_str: reads the
/// `routed_to` field of a ROUTER's output.
#[verifier::external_body]
pub(crate) fn routed_to(text: &str) -> (r: String)
    ensures
        r@ == routed_to_of(text@),
{
    let v: serde_json::Value = serde_json::from_str(text).unwrap_or(serde_json::Value::Null);
    v.get("routed_to").and_then(|r| r.as_str()).unwrap_or("").to_string()
}

/// Relies on serde_json::from_str into `Vec<Value>` and Value's `Display`
/// (compact JSON): splits a MAP coordinator's output into its items.
#[verifier::external_body]
pub(crate) fn array_items(text: &str) -> (r: Option<Vec<String>>)
    ensures
        r matches Some(v) ==> array_items_of(text@) == Some(texts(v@)),
        r is None ==> array_items_of(text@) is None,
{
    let items: Vec<serde_json::Value> = serde_json::from_str(text).ok()?;
    let mut out = Vec::new();
    for item in items.iter() {
        out.push(item.to_string());
    }
    Some(out)
}

/// Relies on serde_json::from_str, Value's index by key and its `Display`:
/// reads the child workflow id and input from a SUBWORKFLOW output.
#[verifier::external_body]
pub(crate) fn subworkflow_request(text: &str) -> (r: Option<(String, String)>)
    ensures
        r matches Some(p) ==> subworkflow_request_of(text@) == Some((p.0@, p.1@)),
        r is None ==> subworkflow_request_of(text@) is None,
{
    let v: serde_json::Value = serde_json::from_str(text).ok()?;
    let id = v["subWorkflowId"].as_str().unwrap_or_default().to_string();
    Some((id, v["childInput"].to_string()))
}

/// Relies on serde_json::from_str and Value's `Display`: rewrites a JSON
/// text in compact form, `null` when it does not parse.
#[verifier::external_body]
pub(crate) fn normalize_json(text: &str) -> (r: String)
    ensures
        r@ == json_normal(text@),
{
    match serde_json::from_str::<serde_json::Value>(text) {
        Ok(v) => v.to_string(),
        Err(_) => "null".to_string(),
    }
}

/// Relies on serde_json::to_string of a `str`: a JSON string literal with
/// the escapes that JSON needs.
#[verifier::external_body]
pub(crate) fn quote_json(s: &str) -> (r: String)
    ensures
        r@ == quoted(s@),
{
    serde_json::to_string(s).unwrap_or_default()
}

/// Relies on serde_json::from_str into `Value`, telling the `String`
/// variant apart: the content of a JSON string literal.
#[verifier::external_body]
pub(crate) fn string_value(text: &str) -> (r: Option<String>)
    ensures
        r matches Some(v) ==> string_value_of(text@) == Some(v@),
        r is None ==> string_value_of(text@) is None,
{
    match serde_json::from_str::<serde_json::Value>(text) {
        Ok(serde_json::Value::String(s)) => Some(s),
        _ => None,
    }
}

/// Relies on serde_json::from_str and Value::get / as_bool / as_str: reads
/// the two fields of a claim-check pointer.
#[verifier::external_body]
pub(crate) fn claim_fields(text: &str) -> (r: Option<(bool, Option<String>)>)
    ensures
        r matches Some(p) ==> claim_fields_of(text@) == Some((p.0, match p.1 {
            Some(id) => Some(id@),
            None => None,
        })),
        r is None ==> claim_fields_of(text@) is None,
{
    let v: serde_json::Value = serde_json::from_str(text).ok()?;
    let flag = v.get("__nexum_claim_check__").and_then(|f| f.as_bool()).unwrap_or(false);
    let id = v.get("blob_id").and_then(|b| b.as_str()).map(|b| b.to_string());
    Some((flag, id))
}

/// Relies on uuid::Uuid::new_v4 and its hyphenated `Display`: a random id.
#[verifier::external_body]
pub(crate) fn fresh_uuid() -> (r: String)
{
    uuid::Uuid::new_v4().to_string()
}

/// Relies on chrono::DateTime::from_timestamp and DateTime::to_rfc3339.
#[verifier::external_body]
pub(crate) fn rfc3339(secs: i64) -> (r: Option<String>)
    ensures
        r matches Some(s) ==> rfc3339_of(secs as int) == Some(s@),
        r is None ==> rfc3339_of(secs as int) is None,
{
    chrono::DateTime::from_timestamp(secs, 0).map(|d| d.to_rfc3339())
}

} // verus!
