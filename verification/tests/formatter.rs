use bid_watch::format::{format_bid_alert, format_principal};
use bid_watch::record::OverdueRecord;

fn record(
    bid_id: &str,
    borrower: &str,
    principal: &str,
    symbol: &str,
    decimals: u64,
    due: &str,
    status: &str,
) -> OverdueRecord {
    OverdueRecord {
        bid_id: Some(bid_id.to_string()),
        borrower_address: Some(borrower.to_string()),
        principal_raw: Some(principal.to_string()),
        token_symbol: Some(symbol.to_string()),
        token_decimals: Some(decimals),
        next_due_date: Some(due.to_string()),
        status: Some(status.to_string()),
    }
}

#[test]
fn test_format_bid_alert_with_usdc() {
    let bid = record(
        "12345",
        "0xabc123def456",
        "1000000",
        "USDC",
        6,
        "1704067200",
        "Accepted",
    );

    let message = format_bid_alert(&bid, 1, "2024-01-01 12:00:00 EST");

    assert!(message.contains("🚨 Overdue Loan Alert!"));
    assert!(message.contains("Chain ID: 1"));
    assert!(message.contains("Bid ID: 12345"));
    assert!(message.contains("Borrower: 0xabc123def456"));
    assert!(message.contains("Principal Token: USDC"));
    assert!(message.contains("Principal Amount: 1.00"));
    assert!(message.contains("Status: Accepted"));
}

#[test]
fn test_format_bid_alert_with_18_decimals() {
    let bid = record(
        "99999",
        "0xdeadbeef",
        "5000000000000000000",
        "WETH",
        18,
        "1704153600",
        "Accepted",
    );

    let message = format_bid_alert(&bid, 137, "2024-01-02 12:00:00 EST");

    assert!(message.contains("Chain ID: 137"));
    assert!(message.contains("Principal Token: WETH"));
    assert!(message.contains("Principal Amount: 5.00"));
}

#[test]
fn test_format_bid_alert_with_missing_fields() {
    let bid = OverdueRecord {
        bid_id: None,
        borrower_address: None,
        principal_raw: None,
        token_symbol: None,
        token_decimals: None,
        next_due_date: None,
        status: None,
    };

    let message = format_bid_alert(&bid, 1, "2024-01-01 12:00:00 EST");

    assert!(message.contains("Bid ID: unknown"));
    assert!(message.contains("Borrower: unknown"));
    assert!(message.contains("Principal Token: unknown"));
    assert!(message.contains("Principal Amount: 0.00"));
}

#[test]
fn principal_scales_by_decimals() {
    assert_eq!(format_principal("1000000", 6), "1.00");
    assert_eq!(format_principal("5000000000000000000", 18), "5.00");
    assert_eq!(format_principal("1234567", 6), "1.23");
    assert_eq!(format_principal("150", 0), "150.00");
    assert_eq!(format_principal("15", 1), "1.50");
    assert_eq!(format_principal("15", 2), "0.15");
}

#[test]
fn principal_rounds_half_up_at_two_places() {
    assert_eq!(format_principal("125", 3), "0.13");
    assert_eq!(format_principal("124", 3), "0.12");
    assert_eq!(format_principal("999999", 4), "100.00");
    assert_eq!(format_principal("4", 3), "0.00");
    assert_eq!(format_principal("5", 3), "0.01");
}

#[test]
fn principal_handles_values_beyond_machine_words() {
    // 2^128 scaled by 10^18: exact decimal work, no word-size cliff.
    assert_eq!(
        format_principal("340282366920938463463374607431768211456", 18),
        "340282366920938463463.37"
    );
}

#[test]
fn principal_defaults_to_zero_on_bad_input() {
    assert_eq!(format_principal("", 6), "0.00");
    assert_eq!(format_principal("12a4", 2), "0.00");
    assert_eq!(format_principal("-5", 2), "0.00");
    assert_eq!(format_principal("0", 0), "0.00");
}

#[test]
fn formatted_alert_full_text() {
    let bid = record("7", "0xb0b", "250", "DAI", 1, "170000", "Accepted");
    let message = format_bid_alert(&bid, -3, "2024-02-02 02:02:02 EST");
    assert_eq!(
        message,
        "🚨 Overdue Loan Alert!\nTimestamp: 2024-02-02 02:02:02 EST\nChain ID: -3\nBid ID: 7\nBorrower: 0xb0b\nPrincipal Token: DAI\nPrincipal Amount: 25.00\nNext Due Date: 170000\nStatus: Accepted"
    );
}
