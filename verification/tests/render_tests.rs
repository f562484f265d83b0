use fundbot::api::{FundPie, FundPieAsset};
use fundbot::commands::{
    activity_text, display_nav, movement_summary, nickname_text, perf_message, stats_message,
    trend_arrow,
};
use fundbot::decimal::Decimal;
use fundbot::model::{CashDirection, ComparisonLine, RebalanceEvent};
use fundbot::render::render_event;

fn matched(ticker: &str, current: u64, previous: u64) -> ComparisonLine {
    ComparisonLine::Matched {
        ticker: ticker.to_string(),
        current: Decimal { units: current },
        previous: Decimal { units: previous },
    }
}

#[test]
fn render_event_with_thousands_separators() {
    let event = RebalanceEvent {
        cash_moved: true,
        crypto_moved: true,
        cash_direction: Some(CashDirection::ToCash),
        lines: vec![
            matched("BTC", 400_000, 400_000),
            matched("ETH", 150_000, 300_000),
            matched("USD", 450_000, 300_000),
        ],
    };
    // 1234567.89 dollars: whole units with commas
    let nav = Decimal { units: 12_345_678_900 };
    let text = render_event(&event, &nav);
    assert_eq!(
        text,
        "Fund rebalanced!\n\
         Fund Net Value: $1,234,567\n\
         Value moved to Cash\n\
         BTC 40% (before 40%)\n\
         ETH 15% (before 30%)\n\
         USD 45% (before 30%)\n"
    );
}

#[test]
fn render_event_crypto_only_and_new_holding() {
    let event = RebalanceEvent {
        cash_moved: false,
        crypto_moved: true,
        cash_direction: None,
        lines: vec![ComparisonLine::NewHolding {
            ticker: "DOT".to_string(),
            percentage: Decimal { units: 5_000 },
        }],
    };
    let text = render_event(&event, &Decimal { units: 9_990_000 });
    assert_eq!(
        text,
        "Fund rebalanced!\n\
         Fund Net Value: $999\n\
         Crypto assets rebalanced\n\
         DOT new token in the fund (0.5%)\n"
    );
}

#[test]
fn render_event_move_to_crypto_direction() {
    let event = RebalanceEvent {
        cash_moved: true,
        crypto_moved: false,
        cash_direction: Some(CashDirection::ToCrypto),
        lines: vec![],
    };
    let text = render_event(&event, &Decimal { units: 0 });
    assert_eq!(
        text,
        "Fund rebalanced!\nFund Net Value: $0\nValue moved to Cryptocurrencies\n"
    );
}

#[test]
fn stats_message_lists_assets_with_whole_dollar_values() {
    let pie = FundPie {
        status: "ok".to_string(),
        assets: vec![
            FundPieAsset {
                ticker: "BTC".to_string(),
                name: "Bitcoin".to_string(),
                value: "1234567.89".to_string(),
                amount: "12".to_string(),
                price: "1".to_string(),
                percentage: "40".to_string(),
            },
            FundPieAsset {
                ticker: "USD".to_string(),
                name: "US Dollar".to_string(),
                value: "1000".to_string(),
                amount: "0".to_string(),
                price: "1".to_string(),
                percentage: "60".to_string(),
            },
        ],
    };
    let text = stats_message(&pie, &Decimal { units: 30_864_197_500 });
    assert_eq!(
        text,
        "**Fund Net Value**: $3,086,419\n\
         **BTC 40%** $1,234,567\n\
         **USD 60%** $1,000\n"
    );
}

#[test]
fn movement_summary_one_line_per_range() {
    let movements = vec![
        ("1".to_string(), "0.5".to_string()),
        ("12".to_string(), "-1.25".to_string()),
        ("24".to_string(), "3".to_string()),
    ];
    assert_eq!(
        movement_summary(&movements),
        "**1h** 0.5%\n**12h** -1.25%\n**24h** 3%\n"
    );
}

#[test]
fn perf_message_heading_and_lines() {
    let entries = vec![
        ("1h".to_string(), "0.5".to_string()),
        ("52w".to_string(), "120.7".to_string()),
    ];
    assert_eq!(
        perf_message("C10", &entries),
        "***C10 performance***\n**1h 0.5%**\n**52w 120.7%**\n"
    );
}

#[test]
fn nickname_and_activity_texts() {
    assert_eq!(trend_arrow("-2.5"), "v");
    assert_eq!(trend_arrow("2.5"), "^");
    assert_eq!(display_nav("1.23456"), "1.234");
    assert_eq!(display_nav("failed"), "failed");
    assert_eq!(nickname_text("C10", "1.23456", "2.5"), "C10 $1.234 ^");
    assert_eq!(nickname_text("C10", "failed", "-1"), "C10 $failed v");
    assert_eq!(activity_text("24h", "-1.2"), "24h -1.2%");
}
