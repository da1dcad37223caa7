//! The overdue-loan record: one bid as returned by a query, every field
//! optional so that malformed input degrades to sentinel values instead of
//! failing.

use vstd::prelude::*;

verus! {

/// One bid returned by an overdue-loan query. Any field may be absent in
/// malformed input; absence never prevents formatting.
#[derive(Debug, Clone)]
pub struct OverdueRecord {
    pub bid_id: Option<String>,
    pub borrower_address: Option<String>,
    pub principal_raw: Option<String>,
    pub token_symbol: Option<String>,
    pub token_decimals: Option<u64>,
    pub next_due_date: Option<String>,
    pub status: Option<String>,
}

/// A textual field as it is formatted: its content, or the sentinel when it
/// is absent.
pub open spec fn text_or_unknown(o: Option<String>) -> Seq<char> {
    match o {
        Some(s) => s@,
        None => "unknown"@,
    }
}

/// The field a record's alert key is derived from: the bid id, with the
/// sentinel standing in for an absent one.
pub open spec fn key_source(r: OverdueRecord) -> Seq<char> {
    text_or_unknown(r.bid_id)
}

/// A textual field, or the sentinel for an absent one.
pub fn text_or(o: &Option<String>) -> (r: &str)
    ensures
        r@ == text_or_unknown(*o),
{
    match o {
        Some(s) => s.as_str(),
        None => "unknown",
    }
}

} // verus!
