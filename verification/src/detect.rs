//! The rebalance detector.
//!
//! A new snapshot is compared against the previous one holding by
//! holding, keyed by asset name. A percentage drift beyond the
//! tolerance flags a cash move (for the synthetic `"USD"` line) or a
//! crypto move (for any other line); a holding with no name match in
//! the previous snapshot always flags a crypto move. Every scanned
//! holding contributes one comparison line, in snapshot order.

use vstd::prelude::*;

use crate::model::{
    holding_views, line_views, CashDirection, ComparisonLine, EventV, Holding, HoldingV, LineV,
    RebalanceEvent, RebalanceTolerance, Snapshot,
};
use crate::text::str_eq;

verus! {

/// Index of the first holding named `name`, or `-1` if none matches.
pub open spec fn find_prev_idx(s: Seq<HoldingV>, name: Seq<char>) -> int
    decreases s.len(),
{
    if s.len() == 0 {
        -1
    } else if s[0].name == name {
        0
    } else if find_prev_idx(s.drop_first(), name) == -1 {
        -1
    } else {
        1 + find_prev_idx(s.drop_first(), name)
    }
}

proof fn lemma_find_prev_idx_chars(s: Seq<HoldingV>, name: Seq<char>)
    ensures
        find_prev_idx(s, name) == -1 ==> forall|i: int|
            #![trigger s[i]]
            0 <= i < s.len() ==> s[i].name != name,
        find_prev_idx(s, name) != -1 ==> 0 <= find_prev_idx(s, name) < s.len() && s[find_prev_idx(
            s,
            name,
        )].name == name && (forall|i: int|
            #![trigger s[i]]
            0 <= i < find_prev_idx(s, name) ==> s[i].name != name),
    decreases s.len(),
{
    if s.len() == 0 {
    } else if s[0].name == name {
    } else {
        lemma_find_prev_idx_chars(s.drop_first(), name);
        let d = find_prev_idx(s, name);
        if d == -1 {
            assert forall|i: int| #![trigger s[i]] 0 <= i < s.len() implies s[i].name != name by {
                if i > 0 {
                    assert(s.drop_first()[i - 1] == s[i]);
                }
            }
        } else {
            assert(s.drop_first()[d - 1] == s[d]);
            assert forall|i: int| #![trigger s[i]] 0 <= i < d implies s[i].name != name by {
                if i > 0 {
                    assert(s.drop_first()[i - 1] == s[i]);
                }
            }
        }
    }
}

proof fn lemma_find_prev_idx_at(s: Seq<HoldingV>, name: Seq<char>, p: int)
    requires
        0 <= p < s.len(),
        s[p].name == name,
        forall|i: int| #![trigger s[i]] 0 <= i < p ==> s[i].name != name,
    ensures
        find_prev_idx(s, name) == p,
{
    lemma_find_prev_idx_chars(s, name);
    let d = find_prev_idx(s, name);
    if d == -1 {
    } else if d < p {
    } else if d > p {
    }
}

/// The allocation rose by strictly more than the tolerance.
pub open spec fn drift_increased(cur: nat, prev: nat, tol: nat) -> bool {
    cur > prev + tol
}

/// The allocation fell by strictly more than the tolerance.
pub open spec fn drift_decreased(cur: nat, prev: nat, tol: nat) -> bool {
    cur + tol < prev
}

pub open spec fn empty_event() -> EventV {
    EventV { cash_moved: false, crypto_moved: false, cash_direction: None, lines: Seq::empty() }
}

/// How one scanned holding updates the event under construction.
pub open spec fn detect_step(st: EventV, h: HoldingV, prev: Seq<HoldingV>, tol: nat) -> EventV {
    let d = find_prev_idx(prev, h.name);
    if d == -1 {
        EventV {
            crypto_moved: true,
            lines: st.lines + seq![
                LineV::NewHolding { ticker: h.ticker, percentage: h.percentage_of_fund },
            ],
            ..st
        }
    } else {
        let p = prev[d];
        let inc = drift_increased(h.percentage_of_fund, p.percentage_of_fund, tol);
        let dec = drift_decreased(h.percentage_of_fund, p.percentage_of_fund, tol);
        let is_cash = h.ticker == "USD"@;
        EventV {
            cash_moved: st.cash_moved || ((inc || dec) && is_cash),
            crypto_moved: st.crypto_moved || ((inc || dec) && !is_cash),
            cash_direction: if inc && is_cash {
                Some(CashDirection::ToCash)
            } else if dec && is_cash {
                Some(CashDirection::ToCrypto)
            } else {
                st.cash_direction
            },
            lines: st.lines + seq![
                LineV::Matched {
                    ticker: h.ticker,
                    current: h.percentage_of_fund,
                    previous: p.percentage_of_fund,
                },
            ],
        }
    }
}

/// The full comparison of `cur` against `prev`: a left-to-right scan
/// of `cur`, one step per holding.
pub open spec fn detect(prev: Seq<HoldingV>, cur: Seq<HoldingV>, tol: nat) -> EventV
    decreases cur.len(),
{
    if cur.len() == 0 {
        empty_event()
    } else {
        detect_step(detect(prev, cur.drop_last(), tol), cur.last(), prev, tol)
    }
}

/// Whether a comparison amounts to a material change worth reporting.
pub open spec fn material(ev: EventV) -> bool {
    ev.cash_moved || ev.crypto_moved
}

fn find_previous_holding(prev: &Vec<Holding>, name: &str) -> (r: Option<usize>)
    ensures
        match r {
            Some(j) => 0 <= j < prev@.len() && find_prev_idx(holding_views(prev@), name@) == j,
            None => find_prev_idx(holding_views(prev@), name@) == -1,
        },
{
    let ghost pv = holding_views(prev@);
    let n = prev.len();
    let mut j: usize = 0;
    while j < n
        invariant
            j <= n,
            n == prev@.len(),
            pv == holding_views(prev@),
            forall|q: int| #![trigger pv[q]] 0 <= q < j ==> pv[q].name != name@,
        decreases n - j,
    {
        proof {
            assert(pv[j as int] == prev@[j as int]@);
        }
        if str_eq(prev[j].name.as_str(), name) {
            proof {
                lemma_find_prev_idx_at(pv, name@, j as int);
            }
            return Some(j);
        }
        j += 1;
    }
    proof {
        lemma_find_prev_idx_chars(pv, name@);
        if find_prev_idx(pv, name@) != -1 {
            assert(pv[find_prev_idx(pv, name@)].name == name@);
        }
    }
    None
}

/// Compare `current` against `previous` and return the detected event,
/// if the change is material, together with the snapshot that becomes
/// the new baseline — always `current`, whether or not an event fired.
///
/// The display name is the matching key, so it must identify a
/// holding: the previous snapshot's names are required to be pairwise
/// distinct. The poll loop rejects payloads that break this before
/// any snapshot becomes a baseline.
pub fn evaluate(previous: Option<&Snapshot>, current: Snapshot, tolerance: &RebalanceTolerance) -> (r:
    (Option<RebalanceEvent>, Snapshot))
    requires
        match previous {
            Some(p) => distinct_names(holding_views(p.holdings@)),
            None => true,
        },
    ensures
        r.1 == current,
        match previous {
            None => r.0 is None,
            Some(p) => {
                let ev = detect(
                    holding_views(p.holdings@),
                    holding_views(current.holdings@),
                    tolerance.percentage_points.units as nat,
                );
                &&& material(ev) ==> r.0 is Some && r.0->Some_0@ == ev
                &&& !material(ev) ==> r.0 is None
            },
        },
{
    let p = match previous {
        None => {
            return (None, current);
        },
        Some(p) => p,
    };
    let ghost pv = holding_views(p.holdings@);
    let ghost cv = holding_views(current.holdings@);
    let ghost tol = tolerance.percentage_points.units as nat;
    let tol_units: u64 = tolerance.percentage_points.units;

    let mut cash_moved = false;
    let mut crypto_moved = false;
    let mut cash_direction: Option<CashDirection> = None;
    let mut lines: Vec<ComparisonLine> = Vec::new();

    proof {
        assert(line_views(lines@) =~= Seq::<LineV>::empty());
        assert(cv.take(0) =~= Seq::<HoldingV>::empty());
    }
    let n = current.holdings.len();
    let mut i: usize = 0;
    while i < n
        invariant
            i <= n,
            n == current.holdings@.len(),
            pv == holding_views(p.holdings@),
            cv == holding_views(current.holdings@),
            tol == tol_units as nat,
            (EventV {
                cash_moved: cash_moved,
                crypto_moved: crypto_moved,
                cash_direction: cash_direction,
                lines: line_views(lines@),
            }) == detect(pv, cv.take(i as int), tol),
        decreases n - i,
    {
        proof {
            assert(cv[i as int] == current.holdings@[i as int]@);
            assert(cv.take(i as int + 1).drop_last() =~= cv.take(i as int));
            assert(cv.take(i as int + 1).last() == cv[i as int]);
        }
        let h = &current.holdings[i];
        let ghost st = detect(pv, cv.take(i as int), tol);
        match find_previous_holding(&p.holdings, h.name.as_str()) {
            Some(j) => {
                proof {
                    assert(pv[j as int] == p.holdings@[j as int]@);
                }
                let m = &p.holdings[j];
                let cp: u64 = h.percentage_of_fund.units;
                let pp: u64 = m.percentage_of_fund.units;
                let inc = cp > pp && cp - pp > tol_units;
                let dec = pp > cp && pp - cp > tol_units;
                if inc || dec {
                    if str_eq(h.ticker.as_str(), "USD") {
                        cash_moved = true;
                        cash_direction = if inc {
                            Some(CashDirection::ToCash)
                        } else {
                            Some(CashDirection::ToCrypto)
                        };
                    } else {
                        crypto_moved = true;
                    }
                }
                lines.push(
                    ComparisonLine::Matched {
                        ticker: h.ticker.clone(),
                        current: h.percentage_of_fund,
                        previous: m.percentage_of_fund,
                    },
                );
                proof {
                    assert(line_views(lines@) =~= st.lines + seq![
                        LineV::Matched {
                            ticker: cv[i as int].ticker,
                            current: cv[i as int].percentage_of_fund,
                            previous: pv[j as int].percentage_of_fund,
                        },
                    ]);
                }
            },
            None => {
                crypto_moved = true;
                lines.push(
                    ComparisonLine::NewHolding {
                        ticker: h.ticker.clone(),
                        percentage: h.percentage_of_fund,
                    },
                );
                proof {
                    assert(line_views(lines@) =~= st.lines + seq![
                        LineV::NewHolding {
                            ticker: cv[i as int].ticker,
                            percentage: cv[i as int].percentage_of_fund,
                        },
                    ]);
                }
            },
        }
        i += 1;
    }
    proof {
        assert(cv.take(n as int) =~= cv);
    }

    if cash_moved || crypto_moved {
        let event = RebalanceEvent { cash_moved, crypto_moved, cash_direction, lines };
        (Some(event), current)
    } else {
        (None, current)
    }
}

/// Drift detection is symmetric around the tolerance and its boundary
/// is exclusive: a rise is flagged exactly when the fall seen from the
/// other side would be, and a drift of exactly the tolerance is never
/// flagged, in either direction.
pub proof fn lemma_drift_boundary(cur: nat, prev: nat, tol: nat)
    ensures
        drift_increased(cur, prev, tol) <==> drift_decreased(prev, cur, tol),
        cur == prev + tol ==> !drift_increased(cur, prev, tol) && !drift_decreased(cur, prev, tol),
        prev == cur + tol ==> !drift_increased(cur, prev, tol) && !drift_decreased(cur, prev, tol),
{
}

/// A holding of the current snapshot with no name match in the
/// previous one always flags a crypto rebalance, whatever its
/// percentage.
pub proof fn lemma_new_holding_flags_crypto(
    prev: Seq<HoldingV>,
    cur: Seq<HoldingV>,
    tol: nat,
    i: int,
)
    requires
        0 <= i < cur.len(),
        find_prev_idx(prev, cur[i].name) == -1,
    ensures
        detect(prev, cur, tol).crypto_moved,
    decreases cur.len(),
{
    if i == cur.len() - 1 {
        assert(cur.last() == cur[i]);
    } else {
        assert(cur.drop_last()[i] == cur[i]);
        lemma_new_holding_flags_crypto(prev, cur.drop_last(), tol, i);
    }
}

/// No two holdings share a display name.
pub open spec fn distinct_names(s: Seq<HoldingV>) -> bool {
    forall|i: int, j: int| #![trigger s[i], s[j]] 0 <= i < j < s.len() ==> s[i].name != s[j].name
}

proof fn lemma_no_change_prefix(s: Seq<HoldingV>, tol: nat, k: int)
    requires
        distinct_names(s),
        0 <= k <= s.len(),
    ensures
        !material(detect(s, s.take(k), tol)),
        detect(s, s.take(k), tol).cash_direction is None,
    decreases k,
{
    if k > 0 {
        lemma_no_change_prefix(s, tol, k - 1);
        assert(s.take(k).drop_last() =~= s.take(k - 1));
        assert(s.take(k).last() == s[k - 1]);
        let h = s[k - 1];
        lemma_find_prev_idx_chars(s, h.name);
        let d = find_prev_idx(s, h.name);
        if d == -1 {
            assert(s[k - 1].name == h.name);
        }
        assert(d == k - 1) by {
            if d < k - 1 {
                assert(s[d].name == s[k - 1].name);
            } else if d > k - 1 {
                assert(s[k - 1].name != h.name);
            }
        }
        assert(!drift_increased(h.percentage_of_fund, s[d].percentage_of_fund, tol));
        assert(!drift_decreased(h.percentage_of_fund, s[d].percentage_of_fund, tol));
    }
}

/// No-change idempotence: once the baseline has advanced to a
/// snapshot, evaluating an identical composition (with pairwise
/// distinct names) detects nothing.
pub proof fn lemma_no_change_no_event(s: Seq<HoldingV>, tol: nat)
    requires
        distinct_names(s),
    ensures
        !material(detect(s, s, tol)),
{
    lemma_no_change_prefix(s, tol, s.len() as int);
    assert(s.take(s.len() as int) =~= s);
}

/// The component that owns the baseline snapshot across poll cycles.
pub struct RebalanceDetector {
    pub previous: Option<Snapshot>,
    pub tolerance: RebalanceTolerance,
}

impl RebalanceDetector {
    /// Well-formed: a stored baseline has pairwise distinct display
    /// names, so name-keyed matching identifies a unique holding.
    pub open spec fn wf(&self) -> bool {
        match self.previous {
            Some(p) => distinct_names(holding_views(p.holdings@)),
            None => true,
        }
    }

    /// A detector that has not yet seen a snapshot.
    pub fn new(tolerance: RebalanceTolerance) -> (r: RebalanceDetector)
        ensures
            r.previous is None,
            r.tolerance == tolerance,
            r.wf(),
    {
        RebalanceDetector { previous: None, tolerance }
    }

    /// Feed one normalized snapshot: returns the detected event, if
    /// any, and unconditionally advances the baseline to `current`.
    pub fn observe(&mut self, current: Snapshot) -> (r: Option<RebalanceEvent>)
        requires
            old(self).wf(),
            distinct_names(holding_views(current.holdings@)),
        ensures
            final (self).wf(),
            final (self).tolerance == old(self).tolerance,
            final (self).previous == Some(current),
            match old(self).previous {
                None => r is None,
                Some(p) => {
                    let ev = detect(
                        holding_views(p.holdings@),
                        holding_views(current.holdings@),
                        old(self).tolerance.percentage_points.units as nat,
                    );
                    &&& material(ev) ==> r is Some && r->Some_0@ == ev
                    &&& !material(ev) ==> r is None
                },
            },
    {
        let (event, baseline) = evaluate(self.previous.as_ref(), current, &self.tolerance);
        self.previous = Some(baseline);
        event
    }
}

/// Check that no two holdings share a display name.
pub fn names_distinct(holdings: &Vec<Holding>) -> (r: bool)
    ensures
        r == distinct_names(holding_views(holdings@)),
{
    let ghost hv = holding_views(holdings@);
    let n = holdings.len();
    let mut i: usize = 0;
    while i < n
        invariant
            i <= n,
            n == holdings@.len(),
            hv == holding_views(holdings@),
            forall|p: int, q: int|
                #![trigger hv[p], hv[q]]
                0 <= p < q < i ==> hv[p].name != hv[q].name,
        decreases n - i,
    {
        let mut j: usize = 0;
        while j < i
            invariant
                j <= i < n,
                n == holdings@.len(),
                hv == holding_views(holdings@),
                forall|p: int, q: int|
                    #![trigger hv[p], hv[q]]
                    0 <= p < q < i ==> hv[p].name != hv[q].name,
                forall|p: int| #![trigger hv[p]] 0 <= p < j ==> hv[p].name != hv[i as int].name,
            decreases i - j,
        {
            proof {
                assert(hv[i as int] == holdings@[i as int]@);
                assert(hv[j as int] == holdings@[j as int]@);
            }
            if str_eq(holdings[j].name.as_str(), holdings[i].name.as_str()) {
                return false;
            }
            j += 1;
        }
        i += 1;
    }
    true
}

} // verus!
