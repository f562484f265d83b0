//! The detector's data model: holdings, snapshots, tolerance, events.

use vstd::prelude::*;

use crate::decimal::Decimal;

verus! {

/// One asset line of a fund snapshot, with exact numeric fields.
#[derive(Clone, Debug)]
pub struct Holding {
    pub ticker: String,
    pub name: String,
    pub usd_value: Decimal,
    pub token_amount: Decimal,
    pub percentage_of_fund: Decimal,
}

/// Mathematical image of a holding: texts as character sequences,
/// numbers as unit counts.
pub ghost struct HoldingV {
    pub ticker: Seq<char>,
    pub name: Seq<char>,
    pub usd_value: nat,
    pub token_amount: nat,
    pub percentage_of_fund: nat,
}

impl View for Holding {
    type V = HoldingV;

    open spec fn view(&self) -> HoldingV {
        HoldingV {
            ticker: self.ticker@,
            name: self.name@,
            usd_value: self.usd_value.units as nat,
            token_amount: self.token_amount.units as nat,
            percentage_of_fund: self.percentage_of_fund.units as nat,
        }
    }
}

pub open spec fn holding_views(holdings: Seq<Holding>) -> Seq<HoldingV> {
    Seq::new(holdings.len(), |i: int| holdings[i]@)
}

/// A point-in-time fund composition: ordered holdings plus the net
/// asset value, tagged with the poll cycle that captured it.
#[derive(Clone, Debug)]
pub struct Snapshot {
    pub holdings: Vec<Holding>,
    pub net_asset_value: Decimal,
    pub captured_at: u64,
}

impl Snapshot {
    /// The mathematical image of the holdings, in order.
    pub open spec fn holdings_view(&self) -> Seq<HoldingV> {
        holding_views(self.holdings@)
    }
}

/// The percentage-point drift threshold used for all comparisons.
#[derive(Clone, Copy, Debug)]
pub struct RebalanceTolerance {
    pub percentage_points: Decimal,
}

/// Where value moved when the cash line drifted.
#[derive(Clone, Copy, PartialEq, Eq, Structural, Debug)]
pub enum CashDirection {
    ToCash,
    ToCrypto,
}

/// One rendered comparison line of a detected event.
#[derive(Clone, Debug)]
pub enum ComparisonLine {
    /// The holding was present in both snapshots.
    Matched { ticker: String, current: Decimal, previous: Decimal },
    /// The holding entered the fund since the previous snapshot.
    NewHolding { ticker: String, percentage: Decimal },
}

/// Mathematical image of a comparison line.
pub ghost enum LineV {
    Matched { ticker: Seq<char>, current: nat, previous: nat },
    NewHolding { ticker: Seq<char>, percentage: nat },
}

impl View for ComparisonLine {
    type V = LineV;

    open spec fn view(&self) -> LineV {
        match self {
            ComparisonLine::Matched { ticker, current, previous } => LineV::Matched {
                ticker: ticker@,
                current: current.units as nat,
                previous: previous.units as nat,
            },
            ComparisonLine::NewHolding { ticker, percentage } => LineV::NewHolding {
                ticker: ticker@,
                percentage: percentage.units as nat,
            },
        }
    }
}

pub open spec fn line_views(lines: Seq<ComparisonLine>) -> Seq<LineV> {
    Seq::new(lines.len(), |i: int| lines[i]@)
}

/// A detected, tolerance-exceeding change in portfolio composition.
#[derive(Clone, Debug)]
pub struct RebalanceEvent {
    pub cash_moved: bool,
    pub crypto_moved: bool,
    pub cash_direction: Option<CashDirection>,
    pub lines: Vec<ComparisonLine>,
}

/// Mathematical image of a rebalance event.
pub ghost struct EventV {
    pub cash_moved: bool,
    pub crypto_moved: bool,
    pub cash_direction: Option<CashDirection>,
    pub lines: Seq<LineV>,
}

impl View for RebalanceEvent {
    type V = EventV;

    open spec fn view(&self) -> EventV {
        EventV {
            cash_moved: self.cash_moved,
            crypto_moved: self.crypto_moved,
            cash_direction: self.cash_direction,
            lines: line_views(self.lines@),
        }
    }
}

} // verus!
