//! Upstream fund-API payload types and snapshot normalization.
//!
//! The types mirror the JSON shapes of the fund API: every numeric field
//! arrives as a string. Normalization merges all stablecoin lines into
//! the single synthetic `"USD"` cash line and then drops immaterial
//! lines, exactly as specified by [`merge_views`] and [`kept_assets`].

use vstd::prelude::*;

use crate::decimal::{
    decimal_str, decimal_units, format_decimal, lemma_decimal_str_roundtrip, parse_decimal,
    valid_decimal_str, DataError, Decimal,
};
use crate::text::str_eq;

verus! {

/// Headline record of one fund, as the general funds endpoint lists it.
#[derive(Clone, Debug)]
pub struct FundGeneral {
    pub circulating_supply: String,
    pub net_asset_value: String,
    pub nav_per_token: String,
    pub name: String,
    pub ticker: String,
}

/// Response of the general funds endpoint.
#[derive(Clone, Debug)]
pub struct ApiFundsGeneral {
    pub status: String,
    pub data: Vec<FundGeneral>,
}

/// Mathematical image of one fund's headline record.
pub ghost struct FundGeneralV {
    pub circulating_supply: Seq<char>,
    pub net_asset_value: Seq<char>,
    pub nav_per_token: Seq<char>,
    pub name: Seq<char>,
    pub ticker: Seq<char>,
}

impl View for FundGeneral {
    type V = FundGeneralV;

    open spec fn view(&self) -> FundGeneralV {
        FundGeneralV {
            circulating_supply: self.circulating_supply@,
            net_asset_value: self.net_asset_value@,
            nav_per_token: self.nav_per_token@,
            name: self.name@,
            ticker: self.ticker@,
        }
    }
}

pub open spec fn fund_views(funds: Seq<FundGeneral>) -> Seq<FundGeneralV> {
    Seq::new(funds.len(), |i: int| funds[i]@)
}

/// One line of a fund's pie breakdown, all fields as upstream text.
#[derive(Clone, Debug)]
pub struct FundPieAsset {
    pub ticker: String,
    pub name: String,
    pub value: String,
    pub amount: String,
    pub price: String,
    pub percentage: String,
}

/// A fund's pie breakdown.
#[derive(Clone, Debug)]
pub struct FundPie {
    pub status: String,
    pub assets: Vec<FundPieAsset>,
}

/// Response of the nav endpoint.
#[derive(Clone, Debug)]
pub struct FundNav {
    pub status: String,
    pub circulating_supply: String,
    pub net_asset_value: String,
    pub nav_per_token: String,
    pub name: String,
    pub ticker: String,
    pub price: String,
    pub assets: Vec<FundNavAsset>,
}

/// One asset line of the nav endpoint.
#[derive(Clone, Debug)]
pub struct FundNavAsset {
    pub name: String,
    pub ticker: String,
    pub usd_value: String,
}

/// Response of the movement endpoint.
#[derive(Clone, Debug)]
pub struct FundPerf {
    pub status: String,
    pub percentage: String,
}

/// Mathematical image of one pie line.
pub ghost struct AssetV {
    pub ticker: Seq<char>,
    pub name: Seq<char>,
    pub value: Seq<char>,
    pub amount: Seq<char>,
    pub price: Seq<char>,
    pub percentage: Seq<char>,
}

impl View for FundPieAsset {
    type V = AssetV;

    open spec fn view(&self) -> AssetV {
        AssetV {
            ticker: self.ticker@,
            name: self.name@,
            value: self.value@,
            amount: self.amount@,
            price: self.price@,
            percentage: self.percentage@,
        }
    }
}

pub open spec fn asset_views(assets: Seq<FundPieAsset>) -> Seq<AssetV> {
    Seq::new(assets.len(), |i: int| assets[i]@)
}

/// Tickers that count as cash and are merged into the `"USD"` line.
pub open spec fn is_stable_ticker(t: Seq<char>) -> bool {
    t == "USD"@ || t == "BUSD"@ || t == "BUSD-T"@
}

/// The text parses and its value fits the fixed-point range.
pub open spec fn num_ok(s: Seq<char>) -> bool {
    valid_decimal_str(s) && decimal_units(s) <= u64::MAX
}

/// Sum of the percentage units of all stablecoin lines.
pub open spec fn sum_stable_perc(s: Seq<AssetV>) -> nat
    decreases s.len(),
{
    if s.len() == 0 {
        0
    } else {
        sum_stable_perc(s.drop_last()) + if is_stable_ticker(s.last().ticker) {
            decimal_units(s.last().percentage)
        } else {
            0
        }
    }
}

/// Sum of the USD-value units of all stablecoin lines.
pub open spec fn sum_stable_value(s: Seq<AssetV>) -> nat
    decreases s.len(),
{
    if s.len() == 0 {
        0
    } else {
        sum_stable_value(s.drop_last()) + if is_stable_ticker(s.last().ticker) {
            decimal_units(s.last().value)
        } else {
            0
        }
    }
}

/// Index of the first line with ticker `"USD"`, or `-1` if none.
pub open spec fn first_usd_idx(s: Seq<AssetV>) -> int
    decreases s.len(),
{
    if s.len() == 0 {
        -1
    } else if s[0].ticker == "USD"@ {
        0
    } else if first_usd_idx(s.drop_first()) == -1 {
        -1
    } else {
        1 + first_usd_idx(s.drop_first())
    }
}

/// Index of the first stablecoin line, or `-1` if none.
pub open spec fn first_stable_idx(s: Seq<AssetV>) -> int
    decreases s.len(),
{
    if s.len() == 0 {
        -1
    } else if is_stable_ticker(s[0].ticker) {
        0
    } else if first_stable_idx(s.drop_first()) == -1 {
        -1
    } else {
        1 + first_stable_idx(s.drop_first())
    }
}

/// Where the merged cash line stands: in place of the first `"USD"`
/// line when one exists, else in place of the first stablecoin line;
/// `-1` when the pie holds no stablecoin line at all.
pub open spec fn cash_anchor(s: Seq<AssetV>) -> int {
    if first_usd_idx(s) != -1 {
        first_usd_idx(s)
    } else {
        first_stable_idx(s)
    }
}

/// The single synthetic cash line: ticker `"USD"` and the exact
/// stablecoin sums. An existing `"USD"` line keeps its name, amount
/// and price; a line created from scratch gets neutral ones.
pub open spec fn cash_line(s: Seq<AssetV>) -> AssetV {
    if first_usd_idx(s) != -1 {
        AssetV {
            value: decimal_str(sum_stable_value(s)),
            percentage: decimal_str(sum_stable_perc(s)),
            ..s[first_usd_idx(s)]
        }
    } else {
        AssetV {
            ticker: "USD"@,
            name: "USD"@,
            value: decimal_str(sum_stable_value(s)),
            amount: decimal_str(0),
            price: decimal_str(0),
            percentage: decimal_str(sum_stable_perc(s)),
        }
    }
}

/// What line `i` contributes to the merged pie: the cash line at the
/// anchor, nothing for any other stablecoin line, itself otherwise.
pub open spec fn merge_emit(s: Seq<AssetV>, i: int) -> Seq<AssetV> {
    if i == cash_anchor(s) {
        seq![cash_line(s)]
    } else if is_stable_ticker(s[i].ticker) {
        Seq::empty()
    } else {
        seq![s[i]]
    }
}

pub open spec fn merge_prefix(s: Seq<AssetV>, n: int) -> Seq<AssetV>
    decreases n,
{
    if n <= 0 {
        Seq::empty()
    } else {
        merge_prefix(s, n - 1) + merge_emit(s, n - 1)
    }
}

/// The whole pie after the stablecoin merge: all stablecoin lines
/// collapse into the one cash line, everything else keeps its order.
/// Whenever any stablecoin line exists, the result holds exactly one
/// line with ticker `"USD"` — created if the input had none.
pub open spec fn merge_views(s: Seq<AssetV>) -> Seq<AssetV> {
    merge_prefix(s, s.len() as int)
}

/// Number of lines with ticker `"USD"`.
pub open spec fn usd_count(s: Seq<AssetV>) -> nat
    decreases s.len(),
{
    if s.len() == 0 {
        0
    } else {
        usd_count(s.drop_last()) + if s.last().ticker == "USD"@ {
            1 as nat
        } else {
            0 as nat
        }
    }
}

/// Materiality: a line survives if it is the synthetic cash line or
/// holds strictly more than 1% of the fund.
pub open spec fn keep_asset(a: AssetV) -> bool {
    a.ticker == "USD"@ || decimal_units(a.percentage) > 10000
}

/// The lines that survive the materiality filter, in order.
pub open spec fn kept_assets(s: Seq<AssetV>) -> Seq<AssetV>
    decreases s.len(),
{
    if s.len() == 0 {
        Seq::empty()
    } else {
        kept_assets(s.drop_last()) + if keep_asset(s.last()) {
            seq![s.last()]
        } else {
            Seq::empty()
        }
    }
}

/// Every numeric field that the stablecoin merge reads parses, and the
/// merged sums stay in range.
pub open spec fn mergeable(s: Seq<AssetV>) -> bool {
    &&& forall|i: int|
        0 <= i < s.len() && is_stable_ticker(#[trigger] s[i].ticker) ==> num_ok(s[i].percentage)
            && num_ok(s[i].value)
    &&& sum_stable_perc(s) <= u64::MAX
    &&& sum_stable_value(s) <= u64::MAX
}

/// Every numeric field that normalization reads parses, and the merged
/// sums stay in range.
pub open spec fn normalizable(s: Seq<AssetV>) -> bool {
    &&& forall|i: int| 0 <= i < s.len() ==> num_ok(#[trigger] s[i].percentage)
    &&& forall|i: int|
        0 <= i < s.len() && is_stable_ticker(#[trigger] s[i].ticker) ==> num_ok(s[i].value)
    &&& sum_stable_perc(s) <= u64::MAX
    &&& sum_stable_value(s) <= u64::MAX
}

pub(crate) proof fn lemma_sum_stable_step(s: Seq<AssetV>, i: int)
    requires
        0 <= i < s.len(),
    ensures
        sum_stable_perc(s.take(i + 1)) == sum_stable_perc(s.take(i)) + if is_stable_ticker(
            s[i].ticker,
        ) {
            decimal_units(s[i].percentage)
        } else {
            0
        },
        sum_stable_value(s.take(i + 1)) == sum_stable_value(s.take(i)) + if is_stable_ticker(
            s[i].ticker,
        ) {
            decimal_units(s[i].value)
        } else {
            0
        },
{
    assert(s.take(i + 1).drop_last() =~= s.take(i));
    assert(s.take(i + 1).last() == s[i]);
}

pub(crate) proof fn lemma_sum_stable_prefix(s: Seq<AssetV>, i: int)
    requires
        0 <= i <= s.len(),
    ensures
        sum_stable_perc(s.take(i)) <= sum_stable_perc(s),
        sum_stable_value(s.take(i)) <= sum_stable_value(s),
    decreases s.len() - i,
{
    if i == s.len() {
        assert(s.take(i) =~= s);
    } else {
        lemma_sum_stable_prefix(s, i + 1);
        lemma_sum_stable_step(s, i);
    }
}

proof fn lemma_kept_assets_step(s: Seq<AssetV>, i: int)
    requires
        0 <= i < s.len(),
    ensures
        kept_assets(s.take(i + 1)) == kept_assets(s.take(i)) + if keep_asset(s[i]) {
            seq![s[i]]
        } else {
            Seq::<AssetV>::empty()
        },
{
    assert(s.take(i + 1).drop_last() =~= s.take(i));
    assert(s.take(i + 1).last() == s[i]);
}

pub(crate) proof fn lemma_first_usd_idx_chars(s: Seq<AssetV>)
    ensures
        first_usd_idx(s) == -1 ==> forall|i: int|
            #![trigger s[i]]
            0 <= i < s.len() ==> s[i].ticker != "USD"@,
        first_usd_idx(s) != -1 ==> 0 <= first_usd_idx(s) < s.len() && s[first_usd_idx(s)].ticker
            == "USD"@ && (forall|i: int|
            #![trigger s[i]]
            0 <= i < first_usd_idx(s) ==> s[i].ticker != "USD"@),
    decreases s.len(),
{
    if s.len() == 0 {
    } else if s[0].ticker == "USD"@ {
    } else {
        lemma_first_usd_idx_chars(s.drop_first());
        let d = first_usd_idx(s);
        if d == -1 {
            assert forall|i: int| #![trigger s[i]] 0 <= i < s.len() implies s[i].ticker
                != "USD"@ by {
                if i > 0 {
                    assert(s.drop_first()[i - 1] == s[i]);
                }
            }
        } else {
            assert(s.drop_first()[d - 1] == s[d]);
            assert forall|i: int| #![trigger s[i]] 0 <= i < d implies s[i].ticker != "USD"@ by {
                if i > 0 {
                    assert(s.drop_first()[i - 1] == s[i]);
                }
            }
        }
    }
}

proof fn lemma_first_usd_idx_at(s: Seq<AssetV>, p: int)
    requires
        0 <= p < s.len(),
        s[p].ticker == "USD"@,
        forall|i: int| #![trigger s[i]] 0 <= i < p ==> s[i].ticker != "USD"@,
    ensures
        first_usd_idx(s) == p,
{
    lemma_first_usd_idx_chars(s);
    let d = first_usd_idx(s);
    if d == -1 {
    } else if d < p {
    } else if d > p {
    }
}

proof fn lemma_first_stable_idx_chars(s: Seq<AssetV>)
    ensures
        first_stable_idx(s) == -1 ==> forall|i: int|
            #![trigger s[i]]
            0 <= i < s.len() ==> !is_stable_ticker(s[i].ticker),
        first_stable_idx(s) != -1 ==> 0 <= first_stable_idx(s) < s.len() && is_stable_ticker(
            s[first_stable_idx(s)].ticker,
        ) && (forall|i: int|
            #![trigger s[i]]
            0 <= i < first_stable_idx(s) ==> !is_stable_ticker(s[i].ticker)),
    decreases s.len(),
{
    if s.len() == 0 {
    } else if is_stable_ticker(s[0].ticker) {
    } else {
        lemma_first_stable_idx_chars(s.drop_first());
        let d = first_stable_idx(s);
        if d == -1 {
            assert forall|i: int| #![trigger s[i]] 0 <= i < s.len() implies !is_stable_ticker(
                s[i].ticker,
            ) by {
                if i > 0 {
                    assert(s.drop_first()[i - 1] == s[i]);
                }
            }
        } else {
            assert(s.drop_first()[d - 1] == s[d]);
            assert forall|i: int| #![trigger s[i]] 0 <= i < d implies !is_stable_ticker(
                s[i].ticker,
            ) by {
                if i > 0 {
                    assert(s.drop_first()[i - 1] == s[i]);
                }
            }
        }
    }
}

proof fn lemma_first_stable_idx_at(s: Seq<AssetV>, p: int)
    requires
        0 <= p < s.len(),
        is_stable_ticker(s[p].ticker),
        forall|i: int| #![trigger s[i]] 0 <= i < p ==> !is_stable_ticker(s[i].ticker),
    ensures
        first_stable_idx(s) == p,
{
    lemma_first_stable_idx_chars(s);
    let d = first_stable_idx(s);
    if d == -1 {
    } else if d < p {
    } else if d > p {
    }
}

/// The cash line always carries the ticker `"USD"`.
proof fn lemma_cash_line_ticker(s: Seq<AssetV>)
    ensures
        cash_line(s).ticker == "USD"@,
{
    lemma_first_usd_idx_chars(s);
}

/// Every line of the merged pie is the cash line or an unchanged
/// non-stablecoin line of the input.
pub(crate) proof fn lemma_merge_prefix_elements(s: Seq<AssetV>, n: int, j: int)
    requires
        0 <= n <= s.len(),
        0 <= j < merge_prefix(s, n).len(),
    ensures
        merge_prefix(s, n)[j] == cash_line(s) || (exists|i: int|
            0 <= i < s.len() && !is_stable_ticker(s[i].ticker) && merge_prefix(s, n)[j] == s[i]),
    decreases n,
{
    let p = merge_prefix(s, n - 1);
    let e = merge_emit(s, n - 1);
    if j < p.len() {
        lemma_merge_prefix_elements(s, n - 1, j);
        assert((p + e)[j] == p[j]);
    } else {
        assert((p + e)[j] == e[j - p.len()]);
        if n - 1 == cash_anchor(s) {
        } else if is_stable_ticker(s[n - 1].ticker) {
        } else {
            assert(merge_prefix(s, n)[j] == s[n - 1]);
        }
    }
}

/// Counting `"USD"` lines distributes over appending one line.
proof fn lemma_usd_count_push(a: Seq<AssetV>, x: AssetV)
    ensures
        usd_count(a + seq![x]) == usd_count(a) + if x.ticker == "USD"@ {
            1 as nat
        } else {
            0 as nat
        },
{
    assert((a + seq![x]).drop_last() =~= a);
    assert((a + seq![x]).last() == x);
}

/// The merged pie holds exactly one `"USD"` line once the anchor has
/// been passed, and none before it.
proof fn lemma_merge_prefix_usd_count(s: Seq<AssetV>, n: int)
    requires
        0 <= n <= s.len(),
    ensures
        usd_count(merge_prefix(s, n)) == if 0 <= cash_anchor(s) < n {
            1 as nat
        } else {
            0 as nat
        },
    decreases n,
{
    if n > 0 {
        lemma_merge_prefix_usd_count(s, n - 1);
        let p = merge_prefix(s, n - 1);
        if n - 1 == cash_anchor(s) {
            lemma_cash_line_ticker(s);
            lemma_usd_count_push(p, cash_line(s));
        } else if is_stable_ticker(s[n - 1].ticker) {
            assert(p + Seq::<AssetV>::empty() =~= p);
        } else {
            assert(s[n - 1].ticker != "USD"@);
            lemma_usd_count_push(p, s[n - 1]);
        }
    }
}

/// The materiality filter never drops a `"USD"` line, so it keeps the
/// count of such lines.
proof fn lemma_kept_usd_count(t: Seq<AssetV>)
    ensures
        usd_count(kept_assets(t)) == usd_count(t),
    decreases t.len(),
{
    if t.len() > 0 {
        lemma_kept_usd_count(t.drop_last());
        let k = kept_assets(t.drop_last());
        if keep_asset(t.last()) {
            lemma_usd_count_push(k, t.last());
        } else {
            assert(t.last().ticker != "USD"@);
            assert(k + Seq::<AssetV>::empty() =~= k);
        }
    }
}

impl FundPieAsset {
    /// Field-by-field copy, known to equal the original.
    fn duplicate(&self) -> (r: FundPieAsset)
        ensures
            r == *self,
    {
        FundPieAsset {
            ticker: self.ticker.clone(),
            name: self.name.clone(),
            value: self.value.clone(),
            amount: self.amount.clone(),
            price: self.price.clone(),
            percentage: self.percentage.clone(),
        }
    }

    fn is_stable(&self) -> (r: bool)
        ensures
            r == is_stable_ticker(self.ticker@),
    {
        str_eq(self.ticker.as_str(), "USD") || str_eq(self.ticker.as_str(), "BUSD") || str_eq(
            self.ticker.as_str(),
            "BUSD-T",
        )
    }
}

impl FundPie {
    /// Collapse all stablecoin lines into the single synthetic `"USD"`
    /// cash line, which carries the exact sums of their percentages
    /// and USD values. The cash line stands where the first `"USD"`
    /// line stood, or is created in place of the first stablecoin line
    /// when the pie had none; every other line is untouched.
    pub fn stablecoin_summary(&mut self)
        requires
            mergeable(asset_views(old(self).assets@)),
        ensures
            final (self).status == old(self).status,
            asset_views(final (self).assets@) == merge_views(asset_views(old(self).assets@)),
    {
        let ghost av = asset_views(self.assets@);
        let n = self.assets.len();

        // First pass: the exact stablecoin sums and the cash anchor.
        let mut sp = Decimal { units: 0 };
        let mut sv = Decimal { units: 0 };
        let mut usd_at: usize = n;  // `n`: no `"USD"` line seen yet
        let mut stable_at: usize = n;  // `n`: no stablecoin line seen yet
        let mut i: usize = 0;
        while i < n
            invariant
                i <= n,
                n == self.assets.len(),
                av == asset_views(self.assets@),
                mergeable(av),
                sp.units == sum_stable_perc(av.take(i as int)),
                sv.units == sum_stable_value(av.take(i as int)),
                usd_at <= n,
                stable_at <= n,
                usd_at == n ==> forall|j: int|
                    #![trigger av[j]]
                    0 <= j < i ==> av[j].ticker != "USD"@,
                usd_at < n ==> usd_at < i && av[usd_at as int].ticker == "USD"@ && (forall|j: int|
                    #![trigger av[j]]
                    0 <= j < usd_at ==> av[j].ticker != "USD"@),
                stable_at == n ==> forall|j: int|
                    #![trigger av[j]]
                    0 <= j < i ==> !is_stable_ticker(av[j].ticker),
                stable_at < n ==> stable_at < i && is_stable_ticker(av[stable_at as int].ticker)
                    && (forall|j: int|
                    #![trigger av[j]]
                    0 <= j < stable_at ==> !is_stable_ticker(av[j].ticker)),
            decreases n - i,
        {
            proof {
                lemma_sum_stable_step(av, i as int);
                lemma_sum_stable_prefix(av, i as int + 1);
                assert(av[i as int] == self.assets@[i as int]@);
            }
            let a = &self.assets[i];
            if a.is_stable() {
                let p = match parse_decimal(a.percentage.as_str()) {
                    Ok(d) => d,
                    Err(_) => {
                        proof {
                            assert(false);
                        }
                        Decimal { units: 0 }
                    },
                };
                let v = match parse_decimal(a.value.as_str()) {
                    Ok(d) => d,
                    Err(_) => {
                        proof {
                            assert(false);
                        }
                        Decimal { units: 0 }
                    },
                };
                sp = Decimal { units: sp.units + p.units };
                sv = Decimal { units: sv.units + v.units };
                if stable_at == n {
                    stable_at = i;
                }
            }
            if usd_at == n && str_eq(a.ticker.as_str(), "USD") {
                usd_at = i;
            }
            i += 1;
        }
        proof {
            assert(av.take(n as int) =~= av);
            if usd_at < n {
                lemma_first_usd_idx_at(av, usd_at as int);
            } else {
                lemma_first_usd_idx_chars(av);
                if first_usd_idx(av) != -1 {
                    assert(av[first_usd_idx(av)].ticker == "USD"@);
                }
            }
            if stable_at < n {
                lemma_first_stable_idx_at(av, stable_at as int);
            } else {
                lemma_first_stable_idx_chars(av);
                if first_stable_idx(av) != -1 {
                    assert(is_stable_ticker(av[first_stable_idx(av)].ticker));
                }
            }
        }

        // Second pass: rebuild the lines with the merge applied.
        let mut out: Vec<FundPieAsset> = Vec::new();
        i = 0;
        while i < n
            invariant
                i <= n,
                n == self.assets.len(),
                av == asset_views(self.assets@),
                mergeable(av),
                sp.units == sum_stable_perc(av),
                sv.units == sum_stable_value(av),
                usd_at <= n,
                stable_at <= n,
                first_usd_idx(av) == if usd_at == n {
                    -1 as int
                } else {
                    usd_at as int
                },
                first_stable_idx(av) == if stable_at == n {
                    -1 as int
                } else {
                    stable_at as int
                },
                asset_views(out@) == merge_prefix(av, i as int),
            decreases n - i,
        {
            proof {
                assert(av[i as int] == self.assets@[i as int]@);
            }
            let ghost before = out@;
            let a = &self.assets[i];
            let is_anchor = if usd_at < n {
                i == usd_at
            } else {
                stable_at < n && i == stable_at
            };
            proof {
                assert(is_anchor == (i as int == cash_anchor(av)));
            }
            if is_anchor {
                if usd_at < n {
                    out.push(
                        FundPieAsset {
                            ticker: a.ticker.clone(),
                            name: a.name.clone(),
                            value: format_decimal(&sv),
                            amount: a.amount.clone(),
                            price: a.price.clone(),
                            percentage: format_decimal(&sp),
                        },
                    );
                } else {
                    out.push(
                        FundPieAsset {
                            ticker: String::from_str("USD"),
                            name: String::from_str("USD"),
                            value: format_decimal(&sv),
                            amount: format_decimal(&Decimal { units: 0 }),
                            price: format_decimal(&Decimal { units: 0 }),
                            percentage: format_decimal(&sp),
                        },
                    );
                }
                proof {
                    assert(out@[before.len() as int]@ == cash_line(av));
                    assert forall|q: int| 0 <= q < before.len() implies out@[q]@ == asset_views(
                        before,
                    )[q] by {
                        assert(out@[q] == before[q]);
                    }
                    assert(asset_views(out@) =~= merge_prefix(av, i as int) + merge_emit(
                        av,
                        i as int,
                    ));
                }
            } else if a.is_stable() {
                // collapsed into the cash line
                proof {
                    assert(merge_prefix(av, i as int) + Seq::<AssetV>::empty() =~= merge_prefix(
                        av,
                        i as int,
                    ));
                }
            } else {
                out.push(a.duplicate());
                proof {
                    assert(out@[before.len() as int]@ == av[i as int]);
                    assert forall|q: int| 0 <= q < before.len() implies out@[q]@ == asset_views(
                        before,
                    )[q] by {
                        assert(out@[q] == before[q]);
                    }
                    assert(asset_views(out@) =~= merge_prefix(av, i as int) + merge_emit(
                        av,
                        i as int,
                    ));
                }
            }
            i += 1;
        }
        self.assets = out;
    }

    /// Normalize the pie: merge the stablecoin lines into the cash
    /// line, then drop every line that is immaterial — under 1% of the
    /// fund — except the cash line itself, which always survives.
    pub fn remove_small_assets(&mut self)
        requires
            normalizable(asset_views(old(self).assets@)),
        ensures
            final (self).status == old(self).status,
            asset_views(final (self).assets@) == kept_assets(
                merge_views(asset_views(old(self).assets@)),
            ),
    {
        let ghost av = asset_views(self.assets@);
        self.stablecoin_summary();
        let ghost m = merge_views(av);
        proof {
            assert forall|j: int| 0 <= j < m.len() implies num_ok(#[trigger] m[j].percentage) by {
                lemma_merge_prefix_elements(av, av.len() as int, j);
                if m[j] == cash_line(av) {
                    lemma_decimal_str_roundtrip(sum_stable_perc(av));
                } else {
                    let i = choose|i: int|
                        0 <= i < av.len() && !is_stable_ticker(av[i].ticker) && m[j] == av[i];
                    assert(num_ok(av[i].percentage));
                }
            }
        }
        let n = self.assets.len();
        let mut out: Vec<FundPieAsset> = Vec::new();
        let mut i: usize = 0;
        while i < n
            invariant
                i <= n,
                n == self.assets.len(),
                asset_views(self.assets@) == m,
                forall|j: int| 0 <= j < m.len() ==> num_ok(#[trigger] m[j].percentage),
                asset_views(out@) == kept_assets(m.take(i as int)),
            decreases n - i,
        {
            proof {
                assert(m[i as int] == self.assets@[i as int]@);
                lemma_kept_assets_step(m, i as int);
            }
            let a = &self.assets[i];
            let keep = if str_eq(a.ticker.as_str(), "USD") {
                true
            } else {
                let p = match parse_decimal(a.percentage.as_str()) {
                    Ok(d) => d,
                    Err(_) => {
                        proof {
                            assert(false);
                        }
                        Decimal { units: 0 }
                    },
                };
                p.units > 10000
            };
            if keep {
                out.push(a.duplicate());
            }
            proof {
                assert(asset_views(out@) =~= kept_assets(m.take(i as int + 1)));
            }
            i += 1;
        }
        proof {
            assert(m.take(n as int) =~= m);
        }
        self.assets = out;
    }

    /// Percentage of the fund held as cash: the percentage of the
    /// first `"USD"` line, or `None` when the pie has no such line.
    pub fn get_cash_allocation_percent(&self) -> (r: Option<Decimal>)
        requires
            first_usd_idx(asset_views(self.assets@)) != -1 ==> num_ok(
                asset_views(self.assets@)[first_usd_idx(asset_views(self.assets@))].percentage,
            ),
        ensures
            match r {
                Some(d) => first_usd_idx(asset_views(self.assets@)) != -1 && d.units as nat
                    == decimal_units(
                    asset_views(self.assets@)[first_usd_idx(asset_views(self.assets@))].percentage,
                ),
                None => first_usd_idx(asset_views(self.assets@)) == -1,
            },
    {
        let ghost av = asset_views(self.assets@);
        let n = self.assets.len();
        let mut i: usize = 0;
        while i < n
            invariant
                i <= n,
                n == self.assets.len(),
                av == asset_views(self.assets@),
                first_usd_idx(av) != -1 ==> num_ok(av[first_usd_idx(av)].percentage),
                forall|j: int| #![trigger av[j]] 0 <= j < i ==> av[j].ticker != "USD"@,
            decreases n - i,
        {
            proof {
                assert(av[i as int] == self.assets@[i as int]@);
            }
            let a = &self.assets[i];
            if str_eq(a.ticker.as_str(), "USD") {
                proof {
                    lemma_first_usd_idx_at(av, i as int);
                }
                let d = match parse_decimal(a.percentage.as_str()) {
                    Ok(d) => d,
                    Err(_) => {
                        proof {
                            assert(false);
                        }
                        Decimal { units: 0 }
                    },
                };
                return Some(d);
            }
            i += 1;
        }
        proof {
            lemma_first_usd_idx_chars(av);
            if first_usd_idx(av) != -1 {
                assert(av[first_usd_idx(av)].ticker == "USD"@);
            }
        }
        None
    }
}

proof fn lemma_merge_prefix_has_cash(s: Seq<AssetV>, n: int)
    requires
        0 <= cash_anchor(s) < n <= s.len(),
    ensures
        merge_prefix(s, n).contains(cash_line(s)),
    decreases n,
{
    let p = merge_prefix(s, n - 1);
    let e = merge_emit(s, n - 1);
    if n - 1 == cash_anchor(s) {
        assert((p + e)[p.len() as int] == cash_line(s));
    } else {
        lemma_merge_prefix_has_cash(s, n - 1);
        let j = choose|j: int| 0 <= j < p.len() && p[j] == cash_line(s);
        assert((p + e)[j] == cash_line(s));
    }
}

/// The merged cash line, stated for every pie that holds any
/// stablecoin line at all: the merged pie — and the normalized pie
/// after the materiality filter — holds exactly one line with ticker
/// `"USD"`, created when the input had none, and its percentage and
/// value are the exact sums of the stablecoin lines' originals — no
/// rounding, no truncation.
pub proof fn lemma_cash_merge_exact(s: Seq<AssetV>)
    requires
        first_stable_idx(s) != -1,
    ensures
        cash_line(s).ticker == "USD"@,
        valid_decimal_str(cash_line(s).percentage),
        decimal_units(cash_line(s).percentage) == sum_stable_perc(s),
        valid_decimal_str(cash_line(s).value),
        decimal_units(cash_line(s).value) == sum_stable_value(s),
        merge_views(s).contains(cash_line(s)),
        kept_assets(merge_views(s)).contains(cash_line(s)),
        usd_count(merge_views(s)) == 1,
        usd_count(kept_assets(merge_views(s))) == 1,
{
    lemma_decimal_str_roundtrip(sum_stable_perc(s));
    lemma_decimal_str_roundtrip(sum_stable_value(s));
    lemma_cash_line_ticker(s);
    lemma_first_usd_idx_chars(s);
    lemma_first_stable_idx_chars(s);
    assert(0 <= cash_anchor(s) < s.len());
    lemma_merge_prefix_has_cash(s, s.len() as int);
    lemma_merge_prefix_usd_count(s, s.len() as int);
    lemma_kept_usd_count(merge_views(s));
    let j = choose|j: int|
        0 <= j < merge_views(s).len() && merge_views(s)[j] == cash_line(s);
    assert(keep_asset(merge_views(s)[j]));
    lemma_materiality_keeps(merge_views(s), j);
}

/// Every line that the materiality filter may keep, it keeps: the cash
/// line whatever its percentage, and any line above 1% of the fund.
pub proof fn lemma_materiality_keeps(s: Seq<AssetV>, i: int)
    requires
        0 <= i < s.len(),
        keep_asset(s[i]),
    ensures
        kept_assets(s).contains(s[i]),
    decreases s.len(),
{
    if i == s.len() - 1 {
        assert(s.last() == s[i]);
        let k = kept_assets(s.drop_last());
        assert(kept_assets(s)[k.len() as int] == s[i]);
    } else {
        lemma_materiality_keeps(s.drop_last(), i);
        let k = kept_assets(s.drop_last());
        let w = choose|w: int| 0 <= w < k.len() && k[w] == s.drop_last()[i];
        assert(kept_assets(s)[w] == s[i]);
    }
}

/// Only lines that pass the materiality rule survive the filter: each
/// survivor is the cash line or holds more than 1% of the fund.
pub proof fn lemma_materiality_drops(s: Seq<AssetV>, j: int)
    requires
        0 <= j < kept_assets(s).len(),
    ensures
        keep_asset(kept_assets(s)[j]),
    decreases s.len(),
{
    if s.len() > 0 {
        let k = kept_assets(s.drop_last());
        if j < k.len() {
            lemma_materiality_drops(s.drop_last(), j);
        }
    }
}

/// Every survivor of the materiality filter is one of the lines that
/// went in.
pub proof fn lemma_kept_assets_elements(s: Seq<AssetV>, j: int)
    requires
        0 <= j < kept_assets(s).len(),
    ensures
        exists|i: int| 0 <= i < s.len() && kept_assets(s)[j] == s[i],
    decreases s.len(),
{
    if s.len() > 0 {
        let k = kept_assets(s.drop_last());
        if j < k.len() {
            lemma_kept_assets_elements(s.drop_last(), j);
            let i = choose|i: int| 0 <= i < s.drop_last().len() && k[j] == s.drop_last()[i];
            assert(kept_assets(s)[j] == s[i]);
        } else {
            assert(kept_assets(s)[j] == s[s.len() - 1]);
        }
    }
}

/// Every numeric field a snapshot needs parses, and the merged
/// stablecoin sums stay in range.
pub open spec fn pie_numbers_ok(s: Seq<AssetV>) -> bool {
    &&& forall|i: int|
        0 <= i < s.len() ==> num_ok((#[trigger] s[i]).percentage) && num_ok(s[i].value) && num_ok(
            s[i].amount,
        )
    &&& sum_stable_perc(s) <= u64::MAX
    &&& sum_stable_value(s) <= u64::MAX
}

impl FundPie {
    /// Check every numeric field of the pie, including that the
    /// stablecoin sums stay in range.
    pub fn numbers_ok(&self) -> (r: bool)
        ensures
            r == pie_numbers_ok(asset_views(self.assets@)),
    {
        let ghost av = asset_views(self.assets@);
        let n = self.assets.len();
        let mut sp = Decimal { units: 0 };
        let mut sv = Decimal { units: 0 };
        let mut i: usize = 0;
        while i < n
            invariant
                i <= n,
                n == self.assets.len(),
                av == asset_views(self.assets@),
                forall|j: int|
                    0 <= j < i ==> num_ok((#[trigger] av[j]).percentage) && num_ok(av[j].value)
                        && num_ok(av[j].amount),
                sp.units == sum_stable_perc(av.take(i as int)),
                sv.units == sum_stable_value(av.take(i as int)),
            decreases n - i,
        {
            proof {
                assert(av[i as int] == self.assets@[i as int]@);
                lemma_sum_stable_step(av, i as int);
            }
            let a = &self.assets[i];
            let p = match parse_decimal(a.percentage.as_str()) {
                Ok(d) => d,
                Err(_) => {
                    return false;
                },
            };
            let v = match parse_decimal(a.value.as_str()) {
                Ok(d) => d,
                Err(_) => {
                    return false;
                },
            };
            if let Err(_) = parse_decimal(a.amount.as_str()) {
                return false;
            }
            if a.is_stable() {
                sp = match sp.checked_add(&p) {
                    Some(d) => d,
                    None => {
                        proof {
                            lemma_sum_stable_prefix(av, i as int + 1);
                        }
                        return false;
                    },
                };
                sv = match sv.checked_add(&v) {
                    Some(d) => d,
                    None => {
                        proof {
                            lemma_sum_stable_prefix(av, i as int + 1);
                        }
                        return false;
                    },
                };
            }
            i += 1;
        }
        proof {
            assert(av.take(n as int) =~= av);
        }
        true
    }
}

impl FundNav {
    /// The fund's current net asset value, as upstream text.
    pub fn net_asset_value(&self) -> (r: String)
        ensures
            r@ == self.net_asset_value@,
    {
        self.net_asset_value.clone()
    }
}

/// The canonical upstream identifier for a fund name or ticker, if the
/// name is known.
pub open spec fn canonical_fund_name(s: Seq<char>) -> Option<Seq<char>> {
    if s == "c20"@ || s == "crypto20"@ || s == "C20"@ {
        Some("crypto20"@)
    } else if s == "c10"@ || s == "crypto10"@ || s == "C10"@ {
        Some("crypto10"@)
    } else if s == "iba"@ || s == "bitcoin-alpha"@ || s == "IBA"@ {
        Some("bitcoin-alpha"@)
    } else if s == "ihf"@ || s == "hyperion"@ || s == "IHF"@ {
        Some("hyperion"@)
    } else if s == "iml"@ || s == "margin-lending"@ || s == "IML"@ {
        Some("margin-lending"@)
    } else if s == "igp"@ || s == "gold-plus"@ || s == "IGP"@ {
        Some("gold-plus"@)
    } else if s == "ems"@ || s == "emerging-markets-solar"@ || s == "EMS"@ {
        Some("emerging-markets-solar"@)
    } else {
        None
    }
}

/// Map a user-supplied fund name or ticker to its canonical upstream
/// identifier; unknown names are rejected.
pub fn normalize_fund_name(got_name: &str) -> (r: Result<String, DataError>)
    ensures
        match r {
            Ok(n) => canonical_fund_name(got_name@) == Some(n@),
            Err(e) => canonical_fund_name(got_name@) is None && e == DataError::UnknownFund,
        },
{
    if str_eq(got_name, "c20") || str_eq(got_name, "crypto20") || str_eq(got_name, "C20") {
        Ok(String::from_str("crypto20"))
    } else if str_eq(got_name, "c10") || str_eq(got_name, "crypto10") || str_eq(got_name, "C10") {
        Ok(String::from_str("crypto10"))
    } else if str_eq(got_name, "iba") || str_eq(got_name, "bitcoin-alpha") || str_eq(
        got_name,
        "IBA",
    ) {
        Ok(String::from_str("bitcoin-alpha"))
    } else if str_eq(got_name, "ihf") || str_eq(got_name, "hyperion") || str_eq(got_name, "IHF") {
        Ok(String::from_str("hyperion"))
    } else if str_eq(got_name, "iml") || str_eq(got_name, "margin-lending") || str_eq(
        got_name,
        "IML",
    ) {
        Ok(String::from_str("margin-lending"))
    } else if str_eq(got_name, "igp") || str_eq(got_name, "gold-plus") || str_eq(got_name, "IGP") {
        Ok(String::from_str("gold-plus"))
    } else if str_eq(got_name, "ems") || str_eq(got_name, "emerging-markets-solar") || str_eq(
        got_name,
        "EMS",
    ) {
        Ok(String::from_str("emerging-markets-solar"))
    } else {
        Err(DataError::UnknownFund)
    }
}

} // verus!
