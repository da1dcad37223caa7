use bid_watch::cycle::{build_query, classify_outcome, finish_tick, FetchResult, Outcome};
use bid_watch::keys::make_bid_key;
use bid_watch::ledger::AlertLedger;
use bid_watch::rotation::{advance_cursor, take_turn, MonitorConfig};

#[test]
fn bid_key_depends_on_chain_and_bid_alone() {
    assert_eq!(make_bid_key(1, "12345"), make_bid_key(1, "12345"));
    assert_ne!(make_bid_key(1, "12345"), make_bid_key(2, "12345"));
    assert_ne!(make_bid_key(1, "12345"), make_bid_key(1, "12346"));
    assert_eq!(make_bid_key(1, "12345"), "1:12345");
    assert_eq!(make_bid_key(-42, "x"), "-42:x");
}

#[test]
fn rotation_visits_every_endpoint_once() {
    let n = 3;
    let mut index = 0;
    let mut visited = Vec::new();
    for _ in 0..n {
        visited.push(index);
        index = advance_cursor(index, n);
    }
    assert_eq!(visited, vec![0, 1, 2]);
    assert_eq!(index, 0);
}

#[test]
fn rotation_with_zero_endpoints_is_a_no_op() {
    let mut cfg = MonitorConfig::default();
    let chosen = take_turn(&mut cfg, 0);
    assert!(chosen.is_none());
    assert_eq!(cfg.get_monitor_index(), 0);
}

#[test]
fn rotation_recovers_from_a_shrunken_list() {
    let mut cfg = MonitorConfig::default();
    cfg.set_monitor_index(7);
    let chosen = take_turn(&mut cfg, 2);
    assert_eq!(chosen, Some(0));
    assert_eq!(cfg.get_monitor_index(), 1);
}

#[test]
fn ledger_skips_blank_lines_and_trims() {
    let lines = vec![
        "1:12345".to_string(),
        "".to_string(),
        "   ".to_string(),
        "  2:99999\t".to_string(),
    ];
    let ledger = AlertLedger::from_lines(&lines);
    assert!(ledger.contains_key(&"1:12345".to_string()));
    assert!(ledger.contains_key(&"2:99999".to_string()));
    assert!(!ledger.contains_key(&"".to_string()));
    assert!(!ledger.contains_key(&"3:1".to_string()));
}

#[test]
fn ledger_trims_unicode_whitespace() {
    let lines = vec![
        "\u{A0}3:abc\u{2003}".to_string(),
        "\u{2028}\u{3000}".to_string(),
    ];
    let ledger = AlertLedger::from_lines(&lines);
    assert!(ledger.contains_key(&"3:abc".to_string()));
    assert!(!ledger.contains_key(&"".to_string()));
}

#[test]
fn transport_failure_is_classified() {
    let outcome = classify_outcome(FetchResult::Failed("connection refused".to_string()));
    match outcome {
        Outcome::Transport(detail) => assert_eq!(detail, "connection refused"),
        _ => panic!("expected a transport error"),
    }
}

#[test]
fn malformed_bodies_count_as_zero_bids() {
    for body in ["not json at all", "{}", "{\"data\":{}}", "{\"data\":{\"bids\":7}}"] {
        let outcome = classify_outcome(FetchResult::Body(body.to_string()));
        match outcome {
            Outcome::Bids(bids) => assert_eq!(bids.len(), 0),
            _ => panic!("expected an empty bid list for {body}"),
        }
    }
}

#[test]
fn errors_member_is_an_application_error() {
    let body = "{\"errors\":[{\"message\":\"boom\"}],\"data\":{\"bids\":[]}}";
    let outcome = classify_outcome(FetchResult::Body(body.to_string()));
    match outcome {
        Outcome::Application(raw) => assert!(raw.contains("boom")),
        _ => panic!("expected an application error"),
    }
}

#[test]
fn query_window_is_one_day() {
    let q = build_query(1704067200);
    assert!(q.contains("nextDueDate_lt: \"1704067200\""));
    assert!(q.contains("nextDueDate_gt: \"1703980800\""));
    assert!(q.contains("status: \"Accepted\""));
    assert!(q.contains("first: 5"));
}

#[test]
fn endpoint_failure_warning_mentions_everything() {
    let outcome = Outcome::Transport("timed out".to_string());
    let ledger = AlertLedger::new();
    let out = finish_tick(&outcome, &ledger, 1, "mainnet", "https://a.example", 1704067200);
    assert_eq!(out.alerts.len(), 0);
    assert_eq!(out.warnings.len(), 1);
    let w = &out.warnings[0];
    assert!(w.contains("⚠️ GraphQL Endpoint Failed!"));
    assert!(w.contains("Timestamp: 2023-12-31 19:00:00 EST"));
    assert!(w.contains("Endpoint: mainnet https://a.example"));
    assert!(w.contains("Error: timed out"));
}

fn one_bid_body() -> String {
    let mut b = String::from("{\"data\":{\"bids\":[{");
    b.push_str("\"bidId\":\"12345\",");
    b.push_str("\"borrowerAddress\":\"0xabc\",");
    b.push_str("\"principal\":\"1000000\",");
    b.push_str("\"lendingToken\":{\"symbol\":\"USDC\",\"decimals\":6},");
    b.push_str("\"nextDueDate\":\"1704067200\",");
    b.push_str("\"status\":\"Accepted\"}]}}");
    b
}

#[test]
fn two_endpoint_scenario_dedups_across_ticks() {
    let mut cfg = MonitorConfig::default();
    let mut store: Vec<String> = Vec::new();

    // Tick 1: endpoint 0 answers with one unseen bid.
    let chosen = take_turn(&mut cfg, 2);
    assert_eq!(chosen, Some(0));
    assert_eq!(cfg.get_monitor_index(), 1);
    let outcome = classify_outcome(FetchResult::Body(one_bid_body()));
    let ledger = AlertLedger::from_lines(&store);
    let out = finish_tick(&outcome, &ledger, 1, "a", "https://a", 1704067200);
    assert_eq!(out.warnings.len(), 0);
    assert_eq!(out.alerts.len(), 1);
    assert_eq!(out.alerts[0].key, "1:12345");
    assert!(out.alerts[0].message.contains("Timestamp: 2023-12-31 19:00:00 EST"));
    assert!(out.alerts[0].message.contains("Principal Amount: 1.00"));
    for alert in &out.alerts {
        store.push(alert.key.clone());
    }

    // Tick 2: endpoint 1 is queried regardless of tick 1's outcome.
    let chosen = take_turn(&mut cfg, 2);
    assert_eq!(chosen, Some(1));
    assert_eq!(cfg.get_monitor_index(), 0);

    // Tick 3: endpoint 0 again, same bid: deduplicated, cursor still moves.
    let chosen = take_turn(&mut cfg, 2);
    assert_eq!(chosen, Some(0));
    assert_eq!(cfg.get_monitor_index(), 1);
    let outcome = classify_outcome(FetchResult::Body(one_bid_body()));
    let ledger = AlertLedger::from_lines(&store);
    let out = finish_tick(&outcome, &ledger, 1, "a", "https://a", 1704070800);
    assert_eq!(out.warnings.len(), 0);
    assert_eq!(out.alerts.len(), 0);
}

#[test]
fn duplicate_bids_in_one_batch_alert_once() {
    let mut body = String::from("{\"data\":{\"bids\":[");
    body.push_str("{\"bidId\":\"7\",\"status\":\"Accepted\"},");
    body.push_str("{\"bidId\":\"7\",\"status\":\"Repaid\"},");
    body.push_str("{\"bidId\":\"8\"}");
    body.push_str("]}}");
    let outcome = classify_outcome(FetchResult::Body(body));
    let ledger = AlertLedger::new();
    let out = finish_tick(&outcome, &ledger, 5, "a", "https://a", 1704067200);
    assert_eq!(out.alerts.len(), 2);
    assert_eq!(out.alerts[0].key, "5:7");
    assert_eq!(out.alerts[1].key, "5:8");
}

#[test]
fn string_decimals_are_understood() {
    let mut body = String::from("{\"data\":{\"bids\":[{");
    body.push_str("\"bidId\":\"9\",\"principal\":\"250000\",");
    body.push_str("\"lendingToken\":{\"symbol\":\"USDT\",\"decimals\":\"6\"}}]}}");
    let outcome = classify_outcome(FetchResult::Body(body));
    let ledger = AlertLedger::new();
    let out = finish_tick(&outcome, &ledger, 1, "a", "https://a", 1704067200);
    assert_eq!(out.alerts.len(), 1);
    assert!(out.alerts[0].message.contains("Principal Amount: 0.25"));
}
