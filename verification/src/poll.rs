//! The poll cycle as a pure state machine.
//!
//! One step consumes the outcome of the last outside operation (a
//! fetch or a delivery attempt) and returns the actions to perform
//! next. All decisions — back-off on failure, normalization, rebalance
//! detection, baseline advancement, fan-out to every destination — are
//! made here; performing HTTP calls and sleeps is the caller's job.
//!
//! The baseline advances on every successfully evaluated poll, whether
//! or not an event fired. A failed delivery never changes the state,
//! and every destination gets its own delivery action, so one failing
//! destination cannot affect the others.

use vstd::prelude::*;

use crate::api::{
    asset_views, cash_line, is_stable_ticker, kept_assets, lemma_first_usd_idx_chars,
    lemma_kept_assets_elements, lemma_merge_prefix_elements, merge_views, num_ok, pie_numbers_ok,
    sum_stable_perc, sum_stable_value, AssetV, FundPie,
};
use crate::decimal::{
    decimal_units, lemma_decimal_str_roundtrip, parse_decimal, Decimal,
};
use crate::detect::{detect, distinct_names, material, names_distinct, RebalanceDetector};
use crate::model::{
    holding_views, EventV, Holding, HoldingV, RebalanceTolerance, Snapshot,
};
use crate::render::{event_text, render_event};

verus! {

/// What the outside world reports back to the loop.
pub enum PollEvent {
    /// A poll succeeded: the fund's pie and its net asset value text.
    Fetched { pie: FundPie, net_asset_value: String },
    /// The poll failed (network error, bad status, bad payload).
    FetchFailed,
    /// One delivery attempt finished, successfully or not.
    DeliveryResult { destination: u64, delivered: bool },
}

/// What the loop asks the outside world to do next.
pub enum PollAction {
    /// Send `text` to the destination channel.
    Deliver { destination: u64, text: String },
    /// Wait this long before the next poll.
    Sleep { seconds: u64 },
}

/// The mathematical image of one normalized pie line as a holding.
pub open spec fn holding_of(a: AssetV) -> HoldingV {
    HoldingV {
        ticker: a.ticker,
        name: a.name,
        usd_value: decimal_units(a.value),
        token_amount: decimal_units(a.amount),
        percentage_of_fund: decimal_units(a.percentage),
    }
}

/// The holdings of a snapshot built from a raw pie: the pie after the
/// stablecoin merge and the materiality filter, each line parsed.
pub open spec fn normalized_holdings(s: Seq<AssetV>) -> Seq<HoldingV> {
    Seq::new(kept_assets(merge_views(s)).len(), |j: int| holding_of(kept_assets(merge_views(s))[j]))
}

/// The event a step reports: `None` before the first baseline and on
/// immaterial changes, the full comparison otherwise.
pub open spec fn fired(prev: Option<Snapshot>, cur: Seq<HoldingV>, tol: nat) -> Option<EventV> {
    match prev {
        None => None,
        Some(p) => {
            let ev = detect(holding_views(p.holdings@), cur, tol);
            if material(ev) {
                Some(ev)
            } else {
                None
            }
        },
    }
}

/// A fetched payload the loop can work with: every numeric field
/// parses, the merged sums fit, the normalized holdings carry pairwise
/// distinct display names — the detector's matching key — and the
/// cycle counter can still grow.
pub open spec fn fetch_ok(s: Seq<AssetV>, nav: Seq<char>, cycles: nat) -> bool {
    pie_numbers_ok(s) && num_ok(nav) && distinct_names(normalized_holdings(s)) && cycles
        < u64::MAX
}

/// The state driving one fund's poll/notify cycle.
pub struct PollLoop {
    pub detector: RebalanceDetector,
    pub destinations: Vec<u64>,
    pub interval_secs: u64,
    pub backoff_secs: u64,
    pub cycles: u64,
}

impl PollLoop {
    /// Well-formed: the detector's stored baseline, if any, has
    /// pairwise distinct display names. `new` establishes this and
    /// `step` preserves it.
    pub open spec fn wf(&self) -> bool {
        self.detector.wf()
    }

    /// A fresh loop with no baseline yet.
    pub fn new(
        tolerance: RebalanceTolerance,
        destinations: Vec<u64>,
        interval_secs: u64,
        backoff_secs: u64,
    ) -> (r: PollLoop)
        ensures
            r.wf(),
            r.detector.previous is None,
            r.detector.tolerance == tolerance,
            r.destinations == destinations,
            r.interval_secs == interval_secs,
            r.backoff_secs == backoff_secs,
            r.cycles == 0,
    {
        PollLoop {
            detector: RebalanceDetector::new(tolerance),
            destinations,
            interval_secs,
            backoff_secs,
            cycles: 0,
        }
    }

    /// Drive one step of the cycle.
    ///
    /// A failed fetch or a malformed payload — unparseable numerics,
    /// or normalized holdings whose display names collide — backs off
    /// and leaves the state untouched. A good payload is normalized,
    /// compared against the baseline, and always becomes the new
    /// baseline; on a material change one delivery is planned for
    /// every configured destination. A delivery result never changes
    /// the state: a failed destination affects neither the baseline
    /// nor the other deliveries.
    pub fn step(&mut self, event: PollEvent) -> (actions: Vec<PollAction>)
        requires
            old(self).wf(),
        ensures
            final (self).wf(),
            match event {
                PollEvent::FetchFailed => *final (self) == *old(self) && actions@ =~= seq![
                    PollAction::Sleep { seconds: old(self).backoff_secs },
                ],
                PollEvent::DeliveryResult { .. } => *final (self) == *old(self) && actions@.len()
                    == 0,
                PollEvent::Fetched { pie, net_asset_value } => {
                    let av = asset_views(pie.assets@);
                    let nav = net_asset_value@;
                    if !fetch_ok(av, nav, old(self).cycles as nat) {
                        *final (self) == *old(self) && actions@ =~= seq![
                            PollAction::Sleep { seconds: old(self).backoff_secs },
                        ]
                    } else {
                        let cur = normalized_holdings(av);
                        let tol = old(self).detector.tolerance.percentage_points.units as nat;
                        &&& final (self).detector.tolerance == old(self).detector.tolerance
                        &&& final (self).destinations == old(self).destinations
                        &&& final (self).interval_secs == old(self).interval_secs
                        &&& final (self).backoff_secs == old(self).backoff_secs
                        &&& final (self).cycles == old(self).cycles + 1
                        &&& final (self).detector.previous matches Some(s)
                            && holding_views(s.holdings@) == cur
                            && s.net_asset_value.units == decimal_units(nav)
                            && s.captured_at == old(self).cycles + 1
                        &&& match fired(old(self).detector.previous, cur, tol) {
                            None => actions@ =~= seq![
                                PollAction::Sleep { seconds: old(self).interval_secs },
                            ],
                            Some(ev) => {
                                &&& actions@.len() == old(self).destinations@.len() + 1
                                &&& forall|k: int|
                                    0 <= k < old(self).destinations@.len() ==> ((
                                    #[trigger] actions@[k]) matches PollAction::Deliver {
                                        destination,
                                        text,
                                    } && destination == old(self).destinations@[k] && text@
                                        == event_text(ev, decimal_units(nav)))
                                &&& actions@.last() == (PollAction::Sleep {
                                    seconds: old(self).interval_secs,
                                })
                            },
                        }
                    }
                },
            },
    {
        let mut actions: Vec<PollAction> = Vec::new();
        match event {
            PollEvent::FetchFailed => {
                actions.push(PollAction::Sleep { seconds: self.backoff_secs });
                actions
            },
            PollEvent::DeliveryResult { .. } => actions,
            PollEvent::Fetched { pie, net_asset_value } => {
                let ghost av = asset_views(pie.assets@);
                let nav_value = match parse_decimal(net_asset_value.as_str()) {
                    Ok(d) => Some(d),
                    Err(_) => None,
                };
                let good = pie.numbers_ok() && nav_value.is_some() && self.cycles < u64::MAX;
                if !good {
                    actions.push(PollAction::Sleep { seconds: self.backoff_secs });
                    return actions;
                }
                let nav_decimal = match nav_value {
                    Some(d) => d,
                    None => {
                        proof {
                            assert(false);
                        }
                        Decimal { units: 0 }
                    },
                };

                // Normalize the pie and parse it into exact holdings.
                let mut norm = pie;
                norm.remove_small_assets();
                let ghost kv = kept_assets(merge_views(av));
                proof {
                    assert(asset_views(norm.assets@) == kv);
                    assert forall|j: int| 0 <= j < kv.len() implies num_ok(
                        (#[trigger] kv[j]).percentage,
                    ) && num_ok(kv[j].value) && num_ok(kv[j].amount) by {
                        lemma_kept_assets_elements(merge_views(av), j);
                        let e = choose|e: int|
                            0 <= e < merge_views(av).len() && kv[j] == merge_views(av)[e];
                        lemma_merge_prefix_elements(av, av.len() as int, e);
                        if merge_views(av)[e] == cash_line(av) {
                            lemma_decimal_str_roundtrip(sum_stable_perc(av));
                            lemma_decimal_str_roundtrip(sum_stable_value(av));
                            lemma_decimal_str_roundtrip(0);
                            lemma_first_usd_idx_chars(av);
                        } else {
                            let i = choose|i: int|
                                0 <= i < av.len() && !is_stable_ticker(av[i].ticker)
                                    && merge_views(av)[e] == av[i];
                            assert(num_ok(av[i].percentage));
                        }
                    }
                }
                let n = norm.assets.len();
                let mut holdings: Vec<Holding> = Vec::new();
                let mut j: usize = 0;
                while j < n
                    invariant
                        j <= n,
                        n == norm.assets@.len(),
                        asset_views(norm.assets@) == kv,
                        forall|q: int|
                            0 <= q < kv.len() ==> num_ok((#[trigger] kv[q]).percentage) && num_ok(
                                kv[q].value,
                            ) && num_ok(kv[q].amount),
                        holdings@.len() == j,
                        forall|q: int| 0 <= q < j ==> (#[trigger] holdings@[q])@ == holding_of(
                            kv[q],
                        ),
                    decreases n - j,
                {
                    proof {
                        assert(kv[j as int] == norm.assets@[j as int]@);
                    }
                    let a = &norm.assets[j];
                    let percentage = match parse_decimal(a.percentage.as_str()) {
                        Ok(d) => d,
                        Err(_) => {
                            proof {
                                assert(false);
                            }
                            Decimal { units: 0 }
                        },
                    };
                    let value = match parse_decimal(a.value.as_str()) {
                        Ok(d) => d,
                        Err(_) => {
                            proof {
                                assert(false);
                            }
                            Decimal { units: 0 }
                        },
                    };
                    let amount = match parse_decimal(a.amount.as_str()) {
                        Ok(d) => d,
                        Err(_) => {
                            proof {
                                assert(false);
                            }
                            Decimal { units: 0 }
                        },
                    };
                    holdings.push(
                        Holding {
                            ticker: a.ticker.clone(),
                            name: a.name.clone(),
                            usd_value: value,
                            token_amount: amount,
                            percentage_of_fund: percentage,
                        },
                    );
                    j += 1;
                }
                proof {
                    assert(holding_views(holdings@) =~= normalized_holdings(av));
                    assert(holding_views(holdings@) == normalized_holdings(av));
                }
                if !names_distinct(&holdings) {
                    // colliding display names break the matching key
                    actions.push(PollAction::Sleep { seconds: self.backoff_secs });
                    return actions;
                }

                self.cycles = self.cycles + 1;
                let snapshot = Snapshot {
                    holdings,
                    net_asset_value: nav_decimal,
                    captured_at: self.cycles,
                };
                let event = self.detector.observe(snapshot);
                match event {
                    Some(ev) => {
                        let text = render_event(&ev, &nav_decimal);
                        let dn = self.destinations.len();
                        let mut k: usize = 0;
                        while k < dn
                            invariant
                                k <= dn,
                                dn == self.destinations@.len(),
                                actions@.len() == k,
                                forall|q: int|
                                    0 <= q < k ==> ((#[trigger] actions@[q]) matches
                                        PollAction::Deliver { destination, text: t } && destination
                                        == self.destinations@[q] && t@ == text@),
                            decreases dn - k,
                        {
                            actions.push(
                                PollAction::Deliver {
                                    destination: self.destinations[k],
                                    text: text.clone(),
                                },
                            );
                            k += 1;
                        }
                        actions.push(PollAction::Sleep { seconds: self.interval_secs });
                        actions
                    },
                    None => {
                        actions.push(PollAction::Sleep { seconds: self.interval_secs });
                        actions
                    },
                }
            },
        }
    }
}

} // verus!
