//! One health-check cycle: build the query for the tick, classify what came
//! back, and decide which alerts to send and which keys to persist. All
//! decisions are pure; the surrounding application performs the sends.

use vstd::prelude::*;
use vstd::string::StringExecFns;
use crate::format::{alert_text, format_bid_alert};
use crate::jsonio::{bids_count_of, decode_body, has_bids_of, has_errors_of, json_wf, BodyShape};
use crate::keys::{key_of, make_bid_key};
use crate::ledger::AlertLedger;
use crate::numfmt::{i64_to_dec, int_dec_of};
use crate::record::{key_source, text_or, OverdueRecord};
use crate::timefmt::{eastern_of, format_eastern};

verus! {

/// How one dispatch ended: the request itself failed, the service answered
/// with a GraphQL `errors` member, or it answered with a list of bids.
pub enum Outcome {
    Transport(String),
    Application(String),
    Bids(Vec<OverdueRecord>),
}

/// What the surrounding application got from one dispatch: either the request
/// failed with some detail, or a response body arrived.
pub enum FetchResult {
    Failed(String),
    Body(String),
}

/// One alert to deliver: the deduplication key to persist and the message.
pub struct Alert {
    pub key: String,
    pub message: String,
}

/// The GraphQL query for one tick: bids due strictly within the last day,
/// accepted ones only, the first five.
pub open spec fn query_text(now: int) -> Seq<char> {
    "{ bids( where: { nextDueDate_lt: \""@ + int_dec_of(now) + "\", nextDueDate_gt: \""@
        + int_dec_of(now - 86400) + "\", status: \"Accepted\" } first: 5 ) { id bidId nextDueDate borrowerAddress status principal lendingToken { id symbol decimals } } }"@
}

/// Build the query text for a tick at `now` epoch seconds.
pub fn build_query(now: i64) -> (r: String)
    requires
        i64::MIN + 86400 <= now,
    ensures
        r@ == query_text(now as int),
{
    let mut q = "{ bids( where: { nextDueDate_lt: \"".to_owned();
    q.append(i64_to_dec(now).as_str());
    q.append("\", nextDueDate_gt: \"");
    q.append(i64_to_dec(now - 86400).as_str());
    q.append(
        "\", status: \"Accepted\" } first: 5 ) { id bidId nextDueDate borrowerAddress status principal lendingToken { id symbol decimals } } }",
    );
    proof {
        assert(q@ =~= query_text(now as int));
    }
    q
}

/// The warning sent when an endpoint fails, for transport and application
/// errors alike.
pub open spec fn warning_text(
    timestamp: Seq<char>,
    name: Seq<char>,
    url: Seq<char>,
    detail: Seq<char>,
) -> Seq<char> {
    "⚠️ GraphQL Endpoint Failed!\nTimestamp: "@ + timestamp + "\nEndpoint: "@ + name + " "@ + url
        + "\nError: "@ + detail
}

/// Format the endpoint-failure warning.
pub fn format_endpoint_warning(timestamp: &str, name: &str, url: &str, detail: &str) -> (r: String)
    ensures
        r@ == warning_text(timestamp@, name@, url@, detail@),
{
    let mut w = "⚠️ GraphQL Endpoint Failed!\nTimestamp: ".to_owned();
    w.append(timestamp);
    w.append("\nEndpoint: ");
    w.append(name);
    w.append(" ");
    w.append(url);
    w.append("\nError: ");
    w.append(detail);
    proof {
        assert(w@ =~= warning_text(timestamp@, name@, url@, detail@));
    }
    w
}

/// Classify what one dispatch produced. A failed request is a transport
/// error; a body whose top-level `errors` member is present is an application
/// error carrying the raw body; a body that is not JSON, or holds no
/// `data.bids` array, is an empty bid list — never an error; and a present
/// array yields one decoded record per element.
pub fn classify_outcome(fetch: FetchResult) -> (o: Outcome)
    ensures
        fetch matches FetchResult::Failed(e) ==> o == Outcome::Transport(e),
        fetch matches FetchResult::Body(b) ==> {
            &&& !json_wf(b@) ==> (o matches Outcome::Bids(v) && v@.len() == 0)
            &&& json_wf(b@) && has_errors_of(b@) ==> (o matches Outcome::Application(r) && r@
                == b@)
            &&& json_wf(b@) && !has_errors_of(b@) && has_bids_of(b@) ==> (o matches Outcome::Bids(
                v,
            ) && v@.len() == bids_count_of(b@))
            &&& json_wf(b@) && !has_errors_of(b@) && !has_bids_of(b@) ==> (o matches Outcome::Bids(
                v,
            ) && v@.len() == 0)
        },
{
    match fetch {
        FetchResult::Failed(detail) => Outcome::Transport(detail),
        FetchResult::Body(body) => {
            let shape = decode_body(body.as_str());
            outcome_for_shape(body, shape)
        },
    }
}

/// Interpret a decoded body shape: a present `errors` member is an
/// application error carrying the raw body; anything else is a bid list,
/// where a body that was no JSON, or held no `data.bids` array, reads as
/// zero bids rather than an error.
pub fn outcome_for_shape(body: String, shape: BodyShape) -> (o: Outcome)
    ensures
        shape matches BodyShape::Object { has_errors: true, .. } ==> (o matches
            Outcome::Application(r) && r@ == body@),
        shape matches BodyShape::Object { has_errors: false, bids: Some(b) } ==> o
            == Outcome::Bids(b),
        shape matches BodyShape::Object { has_errors: false, bids: None } ==> (o matches
            Outcome::Bids(v) && v@.len() == 0),
        shape is Invalid ==> (o matches Outcome::Bids(v) && v@.len() == 0),
{
    match shape {
        BodyShape::Invalid => Outcome::Bids(Vec::new()),
        BodyShape::Object { has_errors, bids } => {
            if has_errors {
                Outcome::Application(body)
            } else {
                match bids {
                    Some(records) => Outcome::Bids(records),
                    None => Outcome::Bids(Vec::new()),
                }
            }
        },
    }
}

/// The alerts a batch of bids produces against a set of already-alerted keys:
/// one per bid whose key is new, in the order the query returned them, each
/// key alerted at most once.
pub open spec fn planned_alerts(
    bids: Seq<OverdueRecord>,
    seen: Set<Seq<char>>,
    chain_id: int,
    timestamp: Seq<char>,
) -> Seq<(Seq<char>, Seq<char>)>
    decreases bids.len(),
{
    if bids.len() == 0 {
        Seq::empty()
    } else {
        let k = key_of(chain_id, key_source(bids[0]));
        if seen.contains(k) {
            planned_alerts(bids.skip(1), seen, chain_id, timestamp)
        } else {
            seq![(k, alert_text(bids[0], chain_id, timestamp))] + planned_alerts(
                bids.skip(1),
                seen.insert(k),
                chain_id,
                timestamp,
            )
        }
    }
}

/// Deduplication: a planned batch never alerts a key twice, and never alerts
/// a key that the ledger already holds — the same record a second time, in
/// the same batch or against the same ledger state, produces no second
/// notification.
pub proof fn lemma_plan_dedup(
    bids: Seq<OverdueRecord>,
    seen: Set<Seq<char>>,
    chain_id: int,
    timestamp: Seq<char>,
)
    ensures
        forall|i: int, j: int|
            0 <= i < j < planned_alerts(bids, seen, chain_id, timestamp).len() ==> (
            #[trigger] planned_alerts(bids, seen, chain_id, timestamp)[i]).0 != (
            #[trigger] planned_alerts(bids, seen, chain_id, timestamp)[j]).0,
        forall|i: int|
            0 <= i < planned_alerts(bids, seen, chain_id, timestamp).len() ==> !seen.contains(
                (#[trigger] planned_alerts(bids, seen, chain_id, timestamp)[i]).0,
            ),
    decreases bids.len(),
{
    if bids.len() > 0 {
        let k = key_of(chain_id, key_source(bids[0]));
        let plan = planned_alerts(bids, seen, chain_id, timestamp);
        if seen.contains(k) {
            lemma_plan_dedup(bids.skip(1), seen, chain_id, timestamp);
            let rest = planned_alerts(bids.skip(1), seen, chain_id, timestamp);
            assert(plan == rest);
            assert forall|i: int| 0 <= i < plan.len() implies !seen.contains(
                (#[trigger] plan[i]).0,
            ) by {
                assert(plan[i] == rest[i]);
            }
            assert forall|i: int, j: int| 0 <= i < j < plan.len() implies (
            #[trigger] plan[i]).0 != (#[trigger] plan[j]).0 by {
                assert(plan[i] == rest[i]);
                assert(plan[j] == rest[j]);
            }
        } else {
            lemma_plan_dedup(bids.skip(1), seen.insert(k), chain_id, timestamp);
            let rest = planned_alerts(bids.skip(1), seen.insert(k), chain_id, timestamp);
            assert forall|i: int| 0 <= i < plan.len() implies !seen.contains(
                (#[trigger] plan[i]).0,
            ) by {
                if i > 0 {
                    assert(plan[i] == rest[i - 1]);
                    assert(!seen.insert(k).contains(rest[i - 1].0));
                }
            }
            assert forall|i: int, j: int| 0 <= i < j < plan.len() implies (
            #[trigger] plan[i]).0 != (#[trigger] plan[j]).0 by {
                assert(plan[j] == rest[j - 1]);
                assert(!seen.insert(k).contains(rest[j - 1].0));
                if i > 0 {
                    assert(plan[i] == rest[i - 1]);
                }
            }
        }
    }
}

/// Decide the alerts for a batch of bids: walk them in order, skip every bid
/// whose key the ledger holds or an earlier bid in the batch already
/// produced, and format one message per remaining bid.
pub fn plan_alerts(
    bids: &Vec<OverdueRecord>,
    ledger: &AlertLedger,
    chain_id: i32,
    timestamp: &str,
) -> (alerts: Vec<Alert>)
    ensures
        alerts@.map_values(|a: Alert| (a.key@, a.message@)) == planned_alerts(
            bids@,
            ledger.seen_set(),
            chain_id as int,
            timestamp@,
        ),
{
    let mut alerts: Vec<Alert> = Vec::new();
    let mut batch = AlertLedger::new();
    let ghost base = ledger.seen_set();
    proof {
        assert(bids@.skip(0) =~= bids@);
        assert(base.union(batch.seen_set()) =~= base);
        assert(alerts@.map_values(|a: Alert| (a.key@, a.message@)) + planned_alerts(
            bids@,
            base,
            chain_id as int,
            timestamp@,
        ) =~= planned_alerts(bids@, base, chain_id as int, timestamp@));
    }
    let mut i: usize = 0;
    while i < bids.len()
        invariant
            i <= bids@.len(),
            base == ledger.seen_set(),
            forall|k: Seq<char>|
                #[trigger] batch.has(k) ==> base.union(batch.seen_set()).contains(k),
            planned_alerts(bids@, base, chain_id as int, timestamp@) == alerts@.map_values(
                |a: Alert| (a.key@, a.message@),
            ) + planned_alerts(
                bids@.skip(i as int),
                base.union(batch.seen_set()),
                chain_id as int,
                timestamp@,
            ),
        decreases bids@.len() - i,
    {
        let bid = &bids[i];
        let key = make_bid_key(chain_id, text_or(&bid.bid_id));
        let ghost cur = base.union(batch.seen_set());
        let ghost k = key_of(chain_id as int, key_source(bids@[i as int]));
        proof {
            assert(bids@.skip(i as int)[0] == bids@[i as int]);
            assert(bids@.skip(i as int).skip(1) =~= bids@.skip(i as int + 1));
            assert(key@ == k);
            assert(cur.contains(k) == (ledger.has(k) || batch.has(k)));
        }
        if !ledger.contains_key(&key) && !batch.contains_key(&key) {
            let message = format_bid_alert(bid, chain_id, timestamp);
            let ghost alerts_before = alerts@;
            alerts.push(Alert { key: key.clone(), message });
            batch.record_key(key);
            proof {
                assert(!cur.contains(k));
                assert(base.union(batch.seen_set()) =~= cur.insert(k));
                assert(alerts@.map_values(|a: Alert| (a.key@, a.message@)) =~= alerts_before
                    .map_values(|a: Alert| (a.key@, a.message@)) + seq![
                    (k, alert_text(bids@[i as int], chain_id as int, timestamp@)),
                ]);
            }
        } else {
            proof {
                assert(cur.contains(k));
            }
        }
        i = i + 1;
    }
    proof {
        assert(bids@.skip(bids@.len() as int) =~= Seq::<OverdueRecord>::empty());
    }
    alerts
}

/// Everything one tick asks the application to deliver: endpoint-failure
/// warnings, and new alerts whose keys are to be appended to the ledger
/// after a successful send.
pub struct TickOutput {
    pub warnings: Vec<String>,
    pub alerts: Vec<Alert>,
}

/// Decide what a finished dispatch means: a transport or application failure
/// produces exactly one warning; a bid list produces the deduplicated alerts,
/// all stamped with the tick's US Eastern time.
pub fn finish_tick(
    outcome: &Outcome,
    ledger: &AlertLedger,
    chain_id: i32,
    name: &str,
    url: &str,
    now: i64,
) -> (out: TickOutput)
    requires
        0 <= now <= 253402300799,
    ensures
        *outcome matches Outcome::Transport(d) ==> out.alerts@.len() == 0
            && out.warnings@.map_values(|w: String| w@) == seq![
            warning_text(eastern_of(now as int), name@, url@, d@),
        ],
        *outcome matches Outcome::Application(raw) ==> out.alerts@.len() == 0
            && out.warnings@.map_values(|w: String| w@) == seq![
            warning_text(eastern_of(now as int), name@, url@, raw@),
        ],
        *outcome matches Outcome::Bids(bids) ==> out.warnings@.len() == 0
            && out.alerts@.map_values(|a: Alert| (a.key@, a.message@)) == planned_alerts(
            bids@,
            ledger.seen_set(),
            chain_id as int,
            eastern_of(now as int),
        ),
{
    let timestamp = format_eastern(now);
    let mut warnings: Vec<String> = Vec::new();
    match outcome {
        Outcome::Transport(detail) => {
            warnings.push(
                format_endpoint_warning(timestamp.as_str(), name, url, detail.as_str()),
            );
            proof {
                assert(warnings@.map_values(|w: String| w@) =~= seq![
                    warning_text(eastern_of(now as int), name@, url@, outcome->Transport_0@),
                ]);
            }
            TickOutput { warnings, alerts: Vec::new() }
        },
        Outcome::Application(raw) => {
            warnings.push(format_endpoint_warning(timestamp.as_str(), name, url, raw.as_str()));
            proof {
                assert(warnings@.map_values(|w: String| w@) =~= seq![
                    warning_text(eastern_of(now as int), name@, url@, outcome->Application_0@),
                ]);
            }
            TickOutput { warnings, alerts: Vec::new() }
        },
        Outcome::Bids(bids) => {
            let alerts = plan_alerts(bids, ledger, chain_id, timestamp.as_str());
            TickOutput { warnings, alerts }
        },
    }
}

} // verus!
