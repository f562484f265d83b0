use fundbot::api::{FundPie, FundPieAsset};

fn asset(ticker: &str, name: &str, value: &str, percentage: &str) -> FundPieAsset {
    FundPieAsset {
        ticker: ticker.to_string(),
        name: name.to_string(),
        value: value.to_string(),
        amount: "1".to_string(),
        price: "1".to_string(),
        percentage: percentage.to_string(),
    }
}

#[test]
fn stablecoin_summary_merges_exact_sums() {
    let mut pie = FundPie {
        status: "ok".to_string(),
        assets: vec![
            asset("BTC", "Bitcoin", "4000", "40"),
            asset("USD", "US Dollar", "1050", "10.5"),
            asset("BUSD", "Binance USD", "2025", "20.25"),
            asset("BUSD-T", "Tether", "25", "0.25"),
            asset("ETH", "Ethereum", "2900", "29"),
        ],
    };
    pie.stablecoin_summary();
    // the stablecoin lines collapse into the one cash line
    assert_eq!(pie.assets.len(), 3);
    // the cash line holds the exact sums, with no rounding
    assert_eq!(pie.assets[1].ticker, "USD");
    assert_eq!(pie.assets[1].name, "US Dollar");
    assert_eq!(pie.assets[1].percentage, "31");
    assert_eq!(pie.assets[1].value, "3100");
    // non-stable lines are untouched, in order
    assert_eq!(pie.assets[0].percentage, "40");
    assert_eq!(pie.assets[2].percentage, "29");
    assert_eq!(pie.assets[2].name, "Ethereum");
}

#[test]
fn stablecoin_sum_keeps_fraction_digits_exactly() {
    let mut pie = FundPie {
        status: "ok".to_string(),
        assets: vec![
            asset("USD", "US Dollar", "1.0001", "10.0001"),
            asset("BUSD", "Binance USD", "2.0002", "20.0002"),
        ],
    };
    pie.stablecoin_summary();
    assert_eq!(pie.assets.len(), 1);
    assert_eq!(pie.assets[0].percentage, "30.0003");
    assert_eq!(pie.assets[0].value, "3.0003");
}

#[test]
fn synthetic_cash_line_created_when_missing() {
    // stablecoin lines but no "USD" row: the merge must create the
    // cash line rather than lose the sums
    let mut pie = FundPie {
        status: "ok".to_string(),
        assets: vec![
            asset("BTC", "Bitcoin", "6000", "60"),
            asset("BUSD", "Binance USD", "2500", "25"),
            asset("BUSD-T", "Tether", "1500", "15"),
        ],
    };
    pie.remove_small_assets();
    assert_eq!(pie.assets.len(), 2);
    assert_eq!(pie.assets[0].ticker, "BTC");
    // the created line stands where the first stablecoin line stood
    assert_eq!(pie.assets[1].ticker, "USD");
    assert_eq!(pie.assets[1].name, "USD");
    assert_eq!(pie.assets[1].percentage, "40");
    assert_eq!(pie.assets[1].value, "4000");
    assert_eq!(pie.assets[1].amount, "0");
}

#[test]
fn duplicate_usd_lines_collapse_into_one() {
    let mut pie = FundPie {
        status: "ok".to_string(),
        assets: vec![
            asset("USD", "US Dollar", "10", "10"),
            asset("USD", "Another Dollar", "20", "20"),
        ],
    };
    pie.remove_small_assets();
    assert_eq!(pie.assets.len(), 1);
    assert_eq!(pie.assets[0].ticker, "USD");
    assert_eq!(pie.assets[0].name, "US Dollar");
    assert_eq!(pie.assets[0].percentage, "30");
    assert_eq!(pie.assets[0].value, "30");
}

#[test]
fn materiality_filter_boundaries() {
    let mut pie = FundPie {
        status: "ok".to_string(),
        assets: vec![
            asset("AAA", "Almost One", "99", "0.99"),
            asset("BBB", "Just Above", "101", "1.01"),
            asset("CCC", "Exactly One", "100", "1"),
        ],
    };
    pie.remove_small_assets();
    // 0.99 is removed, 1.01 is retained, exactly 1 is removed
    assert_eq!(pie.assets.len(), 1);
    assert_eq!(pie.assets[0].ticker, "BBB");
}

#[test]
fn cash_line_is_exempt_from_the_materiality_filter() {
    let mut pie = FundPie {
        status: "ok".to_string(),
        assets: vec![
            asset("BTC", "Bitcoin", "9950", "99.5"),
            asset("USD", "US Dollar", "50", "0.5"),
        ],
    };
    pie.remove_small_assets();
    assert_eq!(pie.assets.len(), 2);
    assert_eq!(pie.assets[1].ticker, "USD");
    assert_eq!(pie.assets[1].percentage, "0.5");
}

#[test]
fn normalization_keeps_snapshot_order() {
    let mut pie = FundPie {
        status: "ok".to_string(),
        assets: vec![
            asset("ETH", "Ethereum", "30", "30"),
            asset("USD", "US Dollar", "30", "30"),
            asset("BTC", "Bitcoin", "40", "40"),
        ],
    };
    pie.remove_small_assets();
    let tickers: Vec<&str> = pie.assets.iter().map(|a| a.ticker.as_str()).collect();
    assert_eq!(tickers, vec!["ETH", "USD", "BTC"]);
}

#[test]
fn numbers_ok_accepts_good_and_rejects_bad_fields() {
    let good = FundPie {
        status: "ok".to_string(),
        assets: vec![asset("BTC", "Bitcoin", "4000", "40")],
    };
    assert!(good.numbers_ok());
    let bad = FundPie {
        status: "ok".to_string(),
        assets: vec![asset("BTC", "Bitcoin", "4000", "forty")],
    };
    assert!(!bad.numbers_ok());
}
