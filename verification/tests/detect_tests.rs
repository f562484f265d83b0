use fundbot::decimal::{parse_decimal, Decimal};
use fundbot::detect::{evaluate, RebalanceDetector};
use fundbot::model::{
    CashDirection, ComparisonLine, Holding, RebalanceTolerance, Snapshot,
};

fn holding(ticker: &str, name: &str, percentage: &str) -> Holding {
    Holding {
        ticker: ticker.to_string(),
        name: name.to_string(),
        usd_value: Decimal { units: 0 },
        token_amount: Decimal { units: 0 },
        percentage_of_fund: parse_decimal(percentage).unwrap(),
    }
}

fn snapshot(holdings: Vec<Holding>) -> Snapshot {
    Snapshot {
        holdings,
        net_asset_value: Decimal { units: 0 },
        captured_at: 1,
    }
}

fn tol(percentage: &str) -> RebalanceTolerance {
    RebalanceTolerance {
        percentage_points: parse_decimal(percentage).unwrap(),
    }
}

#[test]
fn first_poll_has_no_event_and_returns_the_baseline() {
    let current = snapshot(vec![holding("BTC", "Bitcoin", "100")]);
    let (event, baseline) = evaluate(None, current, &tol("10"));
    assert!(event.is_none());
    assert_eq!(baseline.holdings.len(), 1);
    assert_eq!(baseline.holdings[0].ticker, "BTC");
}

#[test]
fn drift_boundary_is_exclusive() {
    // tolerance 10.0, previous 50%: 60.0001% flags, exactly 60.0% does not
    let previous = snapshot(vec![holding("ETH", "Ethereum", "50")]);
    let flagged = snapshot(vec![holding("ETH", "Ethereum", "60.0001")]);
    let (event, _) = evaluate(Some(&previous), flagged, &tol("10"));
    let event = event.expect("drift past the tolerance must fire");
    assert!(event.crypto_moved);
    assert!(!event.cash_moved);

    let boundary = snapshot(vec![holding("ETH", "Ethereum", "60.0")]);
    let (event, _) = evaluate(Some(&previous), boundary, &tol("10"));
    assert!(event.is_none());

    let downward = snapshot(vec![holding("ETH", "Ethereum", "40.0")]);
    let (event, _) = evaluate(Some(&previous), downward, &tol("10"));
    assert!(event.is_none());

    let downward_past = snapshot(vec![holding("ETH", "Ethereum", "39.9999")]);
    let (event, _) = evaluate(Some(&previous), downward_past, &tol("10"));
    assert!(event.unwrap().crypto_moved);
}

#[test]
fn new_holding_always_flags_crypto() {
    let previous = snapshot(vec![holding("BTC", "Bitcoin", "99.5")]);
    let current = snapshot(vec![
        holding("BTC", "Bitcoin", "99.5"),
        holding("DOT", "Polkadot", "0.5"),
    ]);
    let (event, _) = evaluate(Some(&previous), current, &tol("10"));
    let event = event.expect("a new holding is always a crypto rebalance");
    assert!(event.crypto_moved);
    assert!(!event.cash_moved);
    match &event.lines[1] {
        ComparisonLine::NewHolding { ticker, percentage } => {
            assert_eq!(ticker, "DOT");
            assert_eq!(percentage.units, 5_000);
        }
        other => panic!("expected a new-holding line, got {:?}", other),
    }
}

#[test]
fn no_change_after_baseline_update_yields_none() {
    let mut detector = RebalanceDetector::new(tol("10"));
    let first = snapshot(vec![
        holding("BTC", "Bitcoin", "40"),
        holding("USD", "US Dollar", "60"),
    ]);
    // first observation initializes the baseline, no event
    assert!(detector.observe(first.clone()).is_none());
    // the same composition again: drift is zero everywhere
    assert!(detector.observe(first).is_none());
}

#[test]
fn end_to_end_cash_and_crypto_scenario() {
    // previous: BTC 40, ETH 30, USD 30; current: BTC 40, ETH 15, USD 45
    let previous = snapshot(vec![
        holding("BTC", "Bitcoin", "40"),
        holding("ETH", "Ethereum", "30"),
        holding("USD", "US Dollar", "30"),
    ]);
    let current = snapshot(vec![
        holding("BTC", "Bitcoin", "40"),
        holding("ETH", "Ethereum", "15"),
        holding("USD", "US Dollar", "45"),
    ]);
    let (event, baseline) = evaluate(Some(&previous), current, &tol("10"));
    let event = event.expect("both moves exceed the tolerance");
    // USD rose by 15 -> cash moved toward cash; ETH fell by 15 -> crypto moved
    assert!(event.cash_moved);
    assert!(event.crypto_moved);
    assert_eq!(event.cash_direction, Some(CashDirection::ToCash));
    // one comparison line per scanned holding, in snapshot order
    assert_eq!(event.lines.len(), 3);
    match &event.lines[0] {
        ComparisonLine::Matched { ticker, current, previous } => {
            assert_eq!(ticker, "BTC");
            assert_eq!(current.units, 400_000);
            assert_eq!(previous.units, 400_000);
        }
        other => panic!("expected a matched line, got {:?}", other),
    }
    match &event.lines[1] {
        ComparisonLine::Matched { ticker, current, previous } => {
            assert_eq!(ticker, "ETH");
            assert_eq!(current.units, 150_000);
            assert_eq!(previous.units, 300_000);
        }
        other => panic!("expected a matched line, got {:?}", other),
    }
    // the returned snapshot is the new baseline
    assert_eq!(baseline.holdings[2].percentage_of_fund.units, 450_000);
}

#[test]
fn cash_drift_downward_reports_move_to_crypto() {
    let previous = snapshot(vec![holding("USD", "US Dollar", "45")]);
    let current = snapshot(vec![holding("USD", "US Dollar", "20")]);
    let (event, _) = evaluate(Some(&previous), current, &tol("10"));
    let event = event.unwrap();
    assert!(event.cash_moved);
    assert!(!event.crypto_moved);
    assert_eq!(event.cash_direction, Some(CashDirection::ToCrypto));
}

#[test]
fn matching_is_by_name_not_ticker() {
    // same ticker, different name: no match, so it counts as new
    let previous = snapshot(vec![holding("XYZ", "Old Coin", "50")]);
    let current = snapshot(vec![holding("XYZ", "New Coin", "50")]);
    let (event, _) = evaluate(Some(&previous), current, &tol("10"));
    assert!(event.unwrap().crypto_moved);
}

#[test]
fn observe_always_advances_the_baseline() {
    let mut detector = RebalanceDetector::new(tol("10"));
    assert!(detector
        .observe(snapshot(vec![holding("BTC", "Bitcoin", "50")]))
        .is_none());
    // drift of 8 under tolerance 10: no event, but the baseline moves on
    assert!(detector
        .observe(snapshot(vec![holding("BTC", "Bitcoin", "58")]))
        .is_none());
    // another 8 from the new baseline: still no event
    assert!(detector
        .observe(snapshot(vec![holding("BTC", "Bitcoin", "66")]))
        .is_none());
    let prev = detector.previous.as_ref().unwrap();
    assert_eq!(prev.holdings[0].percentage_of_fund.units, 660_000);
}
