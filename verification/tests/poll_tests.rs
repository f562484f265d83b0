use fundbot::api::{FundPie, FundPieAsset};
use fundbot::decimal::parse_decimal;
use fundbot::model::RebalanceTolerance;
use fundbot::poll::{PollAction, PollEvent, PollLoop};

fn asset(ticker: &str, name: &str, percentage: &str) -> FundPieAsset {
    FundPieAsset {
        ticker: ticker.to_string(),
        name: name.to_string(),
        value: "100".to_string(),
        amount: "1".to_string(),
        price: "1".to_string(),
        percentage: percentage.to_string(),
    }
}

fn pie(assets: Vec<FundPieAsset>) -> FundPie {
    FundPie {
        status: "ok".to_string(),
        assets,
    }
}

fn new_loop() -> PollLoop {
    PollLoop::new(
        RebalanceTolerance {
            percentage_points: parse_decimal("10").unwrap(),
        },
        vec![111, 222],
        360,
        10,
    )
}

fn fetched(p: FundPie, nav: &str) -> PollEvent {
    PollEvent::Fetched {
        pie: p,
        net_asset_value: nav.to_string(),
    }
}

#[test]
fn fetch_failure_backs_off_and_keeps_state() {
    let mut lp = new_loop();
    let actions = lp.step(PollEvent::FetchFailed);
    assert_eq!(actions.len(), 1);
    assert!(matches!(actions[0], PollAction::Sleep { seconds: 10 }));
    assert!(lp.detector.previous.is_none());
    assert_eq!(lp.cycles, 0);
}

#[test]
fn malformed_payload_backs_off_and_keeps_state() {
    let mut lp = new_loop();
    let actions = lp.step(fetched(pie(vec![asset("BTC", "Bitcoin", "forty")]), "100"));
    assert!(matches!(actions[0], PollAction::Sleep { seconds: 10 }));
    assert!(lp.detector.previous.is_none());

    let actions = lp.step(fetched(pie(vec![asset("BTC", "Bitcoin", "40")]), "bad"));
    assert!(matches!(actions[0], PollAction::Sleep { seconds: 10 }));
    assert!(lp.detector.previous.is_none());
}

#[test]
fn first_good_poll_sets_baseline_without_event() {
    let mut lp = new_loop();
    let actions = lp.step(fetched(
        pie(vec![
            asset("BTC", "Bitcoin", "60"),
            asset("USD", "US Dollar", "40"),
        ]),
        "1000000",
    ));
    assert_eq!(actions.len(), 1);
    assert!(matches!(actions[0], PollAction::Sleep { seconds: 360 }));
    assert_eq!(lp.cycles, 1);
    let baseline = lp.detector.previous.as_ref().unwrap();
    assert_eq!(baseline.holdings.len(), 2);
    assert_eq!(baseline.captured_at, 1);
}

#[test]
fn material_change_plans_one_delivery_per_destination() {
    let mut lp = new_loop();
    lp.step(fetched(
        pie(vec![
            asset("BTC", "Bitcoin", "60"),
            asset("USD", "US Dollar", "40"),
        ]),
        "1000000",
    ));
    let actions = lp.step(fetched(
        pie(vec![
            asset("BTC", "Bitcoin", "40"),
            asset("USD", "US Dollar", "60"),
        ]),
        "1234567.89",
    ));
    // one delivery per destination, then the interval sleep
    assert_eq!(actions.len(), 3);
    let mut texts = Vec::new();
    for (idx, dest) in [111u64, 222u64].iter().enumerate() {
        match &actions[idx] {
            PollAction::Deliver { destination, text } => {
                assert_eq!(destination, dest);
                texts.push(text.clone());
            }
            other => panic!("expected a delivery, got {:?}", sleep_secs(other)),
        }
    }
    assert_eq!(texts[0], texts[1]);
    assert!(texts[0].starts_with("Fund rebalanced!\nFund Net Value: $1,234,567\n"));
    assert!(matches!(actions[2], PollAction::Sleep { seconds: 360 }));
}

fn sleep_secs(a: &PollAction) -> Option<u64> {
    match a {
        PollAction::Sleep { seconds } => Some(*seconds),
        PollAction::Deliver { .. } => None,
    }
}

#[test]
fn delivery_failure_affects_neither_baseline_nor_other_deliveries() {
    let mut lp = new_loop();
    lp.step(fetched(
        pie(vec![
            asset("BTC", "Bitcoin", "60"),
            asset("USD", "US Dollar", "40"),
        ]),
        "1000000",
    ));
    let actions = lp.step(fetched(
        pie(vec![
            asset("BTC", "Bitcoin", "40"),
            asset("USD", "US Dollar", "60"),
        ]),
        "1000000",
    ));
    // both deliveries were planned before any result comes back, so a
    // failure of the first cannot remove the second
    assert_eq!(actions.len(), 3);
    let cycles_before = lp.cycles;
    let baseline_before = lp
        .detector
        .previous
        .as_ref()
        .unwrap()
        .holdings[1]
        .percentage_of_fund
        .units;

    let after_failure = lp.step(PollEvent::DeliveryResult {
        destination: 111,
        delivered: false,
    });
    assert!(after_failure.is_empty());
    let after_success = lp.step(PollEvent::DeliveryResult {
        destination: 222,
        delivered: true,
    });
    assert!(after_success.is_empty());

    // the baseline-advancement decision is unchanged by delivery results
    assert_eq!(lp.cycles, cycles_before);
    let baseline_after = lp
        .detector
        .previous
        .as_ref()
        .unwrap()
        .holdings[1]
        .percentage_of_fund
        .units;
    assert_eq!(baseline_after, baseline_before);

    // and the next identical poll still compares against that baseline
    let actions = lp.step(fetched(
        pie(vec![
            asset("BTC", "Bitcoin", "40"),
            asset("USD", "US Dollar", "60"),
        ]),
        "1000000",
    ));
    assert_eq!(actions.len(), 1);
    assert!(matches!(actions[0], PollAction::Sleep { seconds: 360 }));
}

#[test]
fn duplicate_display_names_are_rejected_as_malformed() {
    let mut lp = new_loop();
    // two holdings share the display name, so name-keyed matching
    // cannot identify a holding: the cycle backs off
    let actions = lp.step(fetched(
        pie(vec![
            asset("BTC", "Bitcoin", "50"),
            asset("XBT", "Bitcoin", "50"),
        ]),
        "1000000",
    ));
    assert_eq!(actions.len(), 1);
    assert!(matches!(actions[0], PollAction::Sleep { seconds: 10 }));
    assert!(lp.detector.previous.is_none());
    assert_eq!(lp.cycles, 0);
}

#[test]
fn normalization_runs_inside_the_poll_step() {
    let mut lp = new_loop();
    lp.step(fetched(
        pie(vec![
            asset("BTC", "Bitcoin", "70"),
            asset("USD", "US Dollar", "10"),
            asset("BUSD", "Binance USD", "20"),
        ]),
        "1000000",
    ));
    let baseline = lp.detector.previous.as_ref().unwrap();
    // the BUSD line was collapsed into the USD cash line
    assert_eq!(baseline.holdings.len(), 2);
    assert_eq!(baseline.holdings[1].ticker, "USD");
    assert_eq!(baseline.holdings[1].percentage_of_fund.units, 300_000);
}
