use fundbot::api::{normalize_fund_name, FundGeneral, FundNav};
use fundbot::commands::{find_fund_nav, nav_status, playing_to_secs};
use fundbot::decimal::DataError;
use fundbot::epoch::Epoch;

fn fund(name: &str, nav_per_token: &str) -> FundGeneral {
    FundGeneral {
        circulating_supply: "1000".to_string(),
        net_asset_value: "5000".to_string(),
        nav_per_token: nav_per_token.to_string(),
        name: name.to_string(),
        ticker: name.to_uppercase(),
    }
}

#[test]
fn normalize_fund_name_maps_every_alias() {
    for (alias, canonical) in [
        ("c20", "crypto20"),
        ("crypto20", "crypto20"),
        ("C20", "crypto20"),
        ("c10", "crypto10"),
        ("crypto10", "crypto10"),
        ("C10", "crypto10"),
        ("iba", "bitcoin-alpha"),
        ("bitcoin-alpha", "bitcoin-alpha"),
        ("IBA", "bitcoin-alpha"),
        ("ihf", "hyperion"),
        ("hyperion", "hyperion"),
        ("IHF", "hyperion"),
        ("iml", "margin-lending"),
        ("margin-lending", "margin-lending"),
        ("IML", "margin-lending"),
        ("igp", "gold-plus"),
        ("gold-plus", "gold-plus"),
        ("IGP", "gold-plus"),
        ("ems", "emerging-markets-solar"),
        ("emerging-markets-solar", "emerging-markets-solar"),
        ("EMS", "emerging-markets-solar"),
    ] {
        assert_eq!(normalize_fund_name(alias).unwrap(), canonical);
    }
}

#[test]
fn normalize_fund_name_rejects_unknown_names() {
    assert_eq!(normalize_fund_name("doge"), Err(DataError::UnknownFund));
    assert_eq!(normalize_fund_name(""), Err(DataError::UnknownFund));
    // the match is exact, not case-folded
    assert_eq!(normalize_fund_name("Crypto10"), Err(DataError::UnknownFund));
}

#[test]
fn net_asset_value_returns_the_field() {
    let nav = FundNav {
        status: "ok".to_string(),
        circulating_supply: "1".to_string(),
        net_asset_value: "123456.78".to_string(),
        nav_per_token: "1.23".to_string(),
        name: "crypto10".to_string(),
        ticker: "C10".to_string(),
        price: "1.23".to_string(),
        assets: vec![],
    };
    assert_eq!(nav.net_asset_value(), "123456.78");
}

#[test]
fn nav_status_last_match_wins() {
    let funds = vec![
        fund("crypto20", "9.99"),
        fund("crypto10", "1.11"),
        fund("crypto10", "2.22"),
    ];
    assert_eq!(nav_status(&funds), "2.22");
    assert_eq!(nav_status(&vec![fund("hyperion", "3.33")]), "not_found");
}

#[test]
fn find_fund_nav_first_match_wins() {
    let funds = vec![
        fund("crypto20", "9.99"),
        fund("crypto10", "1.11"),
        fund("crypto10", "2.22"),
    ];
    assert_eq!(find_fund_nav(&funds, "crypto10").unwrap(), "1.11");
    assert!(find_fund_nav(&funds, "gold-plus").is_none());
}

#[test]
fn playing_to_secs_parses_ranges() {
    assert_eq!(playing_to_secs("24h").unwrap(), 86_400);
    assert_eq!(playing_to_secs("1h").unwrap(), 3_600);
    assert_eq!(playing_to_secs("7d").unwrap(), 604_800);
    assert_eq!(playing_to_secs("1w").unwrap(), 604_800);
    assert_eq!(playing_to_secs("4W").unwrap(), 2_419_200);
    assert_eq!(playing_to_secs("52w").unwrap(), 31_449_600);
}

#[test]
fn playing_to_secs_rejects_bad_ranges() {
    assert_eq!(playing_to_secs(""), Err(DataError::MalformedNumber));
    assert_eq!(playing_to_secs("w"), Err(DataError::MalformedNumber));
    assert_eq!(playing_to_secs("12"), Err(DataError::MalformedNumber));
    assert_eq!(playing_to_secs("12x"), Err(DataError::MalformedNumber));
    assert_eq!(playing_to_secs("1.5h"), Err(DataError::MalformedNumber));
    assert_eq!(
        playing_to_secs("99999999999999999999h"),
        Err(DataError::NumberTooLarge)
    );
}

#[test]
fn cash_allocation_percent_reads_the_first_usd_line() {
    let pie = fundbot::api::FundPie {
        status: "ok".to_string(),
        assets: vec![
            fundbot::api::FundPieAsset {
                ticker: "BTC".to_string(),
                name: "Bitcoin".to_string(),
                value: "6000".to_string(),
                amount: "1".to_string(),
                price: "1".to_string(),
                percentage: "60".to_string(),
            },
            fundbot::api::FundPieAsset {
                ticker: "USD".to_string(),
                name: "US Dollar".to_string(),
                value: "4000".to_string(),
                amount: "0".to_string(),
                price: "1".to_string(),
                percentage: "40.25".to_string(),
            },
        ],
    };
    assert_eq!(pie.get_cash_allocation_percent().unwrap().units, 402_500);

    let no_cash = fundbot::api::FundPie {
        status: "ok".to_string(),
        assets: vec![],
    };
    assert!(no_cash.get_cash_allocation_percent().is_none());
}

#[test]
fn epoch_arithmetic() {
    assert_eq!(Epoch::weeks_ago(1_000_000_000, 1), 999_395_200);
    assert_eq!(Epoch::weeks_ago(1_000_000_000, 0), 1_000_000_000);
    assert_eq!(Epoch::days_ago(0), 0);
    let now = Epoch::now();
    // the clock reads after 2001 on any correctly set machine
    assert!(now > 1_000_000_000);
}
