//! The JSON boundary: thin trusted views of serde_json, and the verified
//! decode-with-defaults step that turns a raw response body into plain
//! values the rest of the library can reason about.

use vstd::prelude::*;
use crate::numfmt::parse_u64;
use crate::record::OverdueRecord;

verus! {

#[verifier::external_type_specification]
#[verifier::external_body]
pub struct ExValue(serde_json::Value);

/// Whether a text is well-formed JSON as serde_json accepts it.
pub uninterp spec fn json_wf(s: Seq<char>) -> bool;

/// Whether the parsed body carries a top-level `errors` member.
pub uninterp spec fn has_errors_of(s: Seq<char>) -> bool;

/// Whether the parsed body carries a `data.bids` member that is an array.
pub uninterp spec fn has_bids_of(s: Seq<char>) -> bool;

/// How many elements that `data.bids` array has.
pub uninterp spec fn bids_count_of(s: Seq<char>) -> nat;

/// Relies on serde_json::from_str and Value::get: parsing succeeds exactly
/// for well-formed JSON, and the presence of a top-level `errors` member is
/// a function of the text alone.
#[verifier::external_body]
fn probe_has_errors(text: &str) -> (r: Option<bool>)
    ensures
        r is Some <==> json_wf(text@),
        r matches Some(b) ==> b == has_errors_of(text@),
{
    serde_json::from_str::<serde_json::Value>(text).ok().map(|v| v.get("errors").is_some())
}

/// Relies on serde_json::from_str, Value::get and Value::as_array: the
/// `data.bids` array of a well-formed body, a function of the text alone;
/// `None` when the text is not JSON or no such array is present.
#[verifier::external_body]
fn probe_bids(text: &str) -> (r: Option<Vec<serde_json::Value>>)
    ensures
        r is Some <==> (json_wf(text@) && has_bids_of(text@)),
        r matches Some(arr) ==> arr@.len() == bids_count_of(text@),
{
    match serde_json::from_str::<serde_json::Value>(text) {
        Ok(v) => v.get("data").and_then(|d| d.get("bids")).and_then(|b| b.as_array()).cloned(),
        Err(_) => None,
    }
}

/// Relies on serde_json::Value::get: the member of an object under a key,
/// when there is one.
#[verifier::external_body]
fn json_get<'a>(v: &'a serde_json::Value, key: &str) -> (r: Option<&'a serde_json::Value>) {
    v.get(key)
}

/// Relies on serde_json::Value::as_str: the content of a string value.
#[verifier::external_body]
fn json_as_str(v: &serde_json::Value) -> (r: Option<String>) {
    v.as_str().map(str::to_owned)
}

/// Relies on serde_json::Value::as_u64: the value of an unsigned number.
#[verifier::external_body]
fn json_as_u64(v: &serde_json::Value) -> (r: Option<u64>) {
    v.as_u64()
}

/// A response body reduced to the parts the cycle reads: whether it parsed,
/// whether a top-level `errors` member is present, and the `data.bids` array
/// if there is one.
pub enum BodyShape {
    Invalid,
    Object { has_errors: bool, bids: Option<Vec<OverdueRecord>> },
}

/// A string member of an object, when the key is present and holds a string.
fn get_str_field(v: &serde_json::Value, key: &str) -> Option<String> {
    match json_get(v, key) {
        Some(f) => json_as_str(f),
        None => None,
    }
}

/// The token decimals of a `lendingToken` object: a number, or a numeric
/// string, read as an unsigned value.
fn get_decimals(token: &serde_json::Value) -> Option<u64> {
    match json_get(token, "decimals") {
        Some(f) => match json_as_u64(f) {
            Some(n) => Some(n),
            None => match json_as_str(f) {
                Some(s) => parse_u64(s.as_str()),
                None => None,
            },
        },
        None => None,
    }
}

/// Decode one bid into a record, every missing or mistyped field absent.
pub fn decode_record(v: &serde_json::Value) -> OverdueRecord {
    let token = json_get(v, "lendingToken");
    let (symbol, decimals) = match token {
        Some(t) => (get_str_field(t, "symbol"), get_decimals(t)),
        None => (None, None),
    };
    OverdueRecord {
        bid_id: get_str_field(v, "bidId"),
        borrower_address: get_str_field(v, "borrowerAddress"),
        principal_raw: get_str_field(v, "principal"),
        token_symbol: symbol,
        token_decimals: decimals,
        next_due_date: get_str_field(v, "nextDueDate"),
        status: get_str_field(v, "status"),
    }
}

/// Reduce a raw response body to its shape: `Invalid` exactly for text that
/// is not JSON; otherwise the `errors` flag mirrors the body's top-level
/// `errors` member, and the bids are decoded, one record per element, exactly
/// when the body holds a `data.bids` array.
pub fn decode_body(text: &str) -> (shape: BodyShape)
    ensures
        (shape is Invalid) == !json_wf(text@),
        shape matches BodyShape::Object { has_errors, .. } ==> has_errors == has_errors_of(
            text@,
        ),
        shape matches BodyShape::Object { bids: Some(b), .. } ==> has_bids_of(text@) && b@.len()
            == bids_count_of(text@),
        shape matches BodyShape::Object { has_errors: _, bids: None } ==> !has_bids_of(text@),
{
    match probe_has_errors(text) {
        None => BodyShape::Invalid,
        Some(has_errors) => {
            let bids = match probe_bids(text) {
                Some(arr) => {
                    let mut records: Vec<OverdueRecord> = Vec::new();
                    let mut i: usize = 0;
                    while i < arr.len()
                        invariant
                            i <= arr@.len(),
                            records@.len() == i,
                        decreases arr@.len() - i,
                    {
                        records.push(decode_record(&arr[i]));
                        i = i + 1;
                    }
                    Some(records)
                },
                None => None,
            };
            BodyShape::Object { has_errors, bids }
        },
    }
}

} // verus!
