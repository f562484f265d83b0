//! The compute halves of the chat commands: lookups and message
//! texts, built from already-fetched payloads.

use vstd::prelude::*;

use crate::api::{asset_views, fund_views, num_ok, AssetV, FundGeneral, FundGeneralV, FundPie};
use crate::decimal::{
    all_digits, decimal_str, decimal_units, digits_value, format_decimal, parse_decimal, pow10,
    valid_decimal_str, DataError, Decimal,
};
use crate::render::{comma_grouped, separate_with_commas_u64};
use crate::decimal::int_digits_str;
use crate::text::{str_contains_char, str_eq};

verus! {

/// The headline nav shown for the default fund: the last record named
/// `"crypto10"` wins, or a placeholder when none is present.
pub open spec fn nav_status_text(s: Seq<FundGeneralV>) -> Seq<char>
    decreases s.len(),
{
    if s.len() == 0 {
        "not_found"@
    } else if s.last().name == "crypto10"@ {
        s.last().nav_per_token
    } else {
        nav_status_text(s.drop_last())
    }
}

/// The nav text for the default fund, from the general funds listing.
pub fn nav_status(funds: &Vec<FundGeneral>) -> (r: String)
    ensures
        r@ == nav_status_text(fund_views(funds@)),
{
    let ghost fv = fund_views(funds@);
    let mut found: Option<String> = None;
    let n = funds.len();
    let mut i: usize = 0;
    while i < n
        invariant
            i <= n,
            n == funds@.len(),
            fv == fund_views(funds@),
            match found {
                Some(nav) => nav@ == nav_status_text(fv.take(i as int)),
                None => nav_status_text(fv.take(i as int)) == "not_found"@,
            },
        decreases n - i,
    {
        proof {
            assert(fv[i as int] == funds@[i as int]@);
            assert(fv.take(i as int + 1).drop_last() =~= fv.take(i as int));
            assert(fv.take(i as int + 1).last() == fv[i as int]);
        }
        if str_eq(funds[i].name.as_str(), "crypto10") {
            found = Some(funds[i].nav_per_token.clone());
        }
        i += 1;
    }
    proof {
        assert(fv.take(n as int) =~= fv);
    }
    match found {
        Some(nav) => nav,
        None => String::from_str("not_found"),
    }
}

/// The nav of the first fund with this canonical name, if any.
pub open spec fn first_fund_nav(s: Seq<FundGeneralV>, name: Seq<char>) -> Option<Seq<char>>
    decreases s.len(),
{
    if s.len() == 0 {
        None
    } else if s[0].name == name {
        Some(s[0].nav_per_token)
    } else {
        first_fund_nav(s.drop_first(), name)
    }
}

proof fn lemma_first_fund_nav_prefix(s: Seq<FundGeneralV>, name: Seq<char>, p: int)
    requires
        0 <= p <= s.len(),
        forall|i: int| #![trigger s[i]] 0 <= i < p ==> s[i].name != name,
    ensures
        p == s.len() ==> first_fund_nav(s, name) is None,
        p < s.len() && s[p].name == name ==> first_fund_nav(s, name) == Some(s[p].nav_per_token),
    decreases s.len(),
{
    if s.len() > 0 {
        if s[0].name == name {
        } else {
            assert forall|i: int| #![trigger s.drop_first()[i]] 0 <= i < p - 1 implies s.drop_first(
            )[i].name != name by {
                assert(s.drop_first()[i] == s[i + 1]);
            }
            lemma_first_fund_nav_prefix(s.drop_first(), name, if p > 0 {
                p - 1
            } else {
                0
            });
            if p < s.len() && s[p].name == name {
                assert(s.drop_first()[p - 1] == s[p]);
            }
        }
    }
}

/// Find the nav-per-token of the fund with this canonical name: the
/// first matching record wins.
pub fn find_fund_nav(funds: &Vec<FundGeneral>, fund_name: &str) -> (r: Option<String>)
    ensures
        match r {
            Some(nav) => first_fund_nav(fund_views(funds@), fund_name@) == Some(nav@),
            None => first_fund_nav(fund_views(funds@), fund_name@) is None,
        },
{
    let ghost fv = fund_views(funds@);
    let n = funds.len();
    let mut i: usize = 0;
    while i < n
        invariant
            i <= n,
            n == funds@.len(),
            fv == fund_views(funds@),
            forall|j: int| #![trigger fv[j]] 0 <= j < i ==> fv[j].name != fund_name@,
        decreases n - i,
    {
        proof {
            assert(fv[i as int] == funds@[i as int]@);
        }
        if str_eq(funds[i].name.as_str(), fund_name) {
            proof {
                lemma_first_fund_nav_prefix(fv, fund_name@, i as int);
            }
            return Some(funds[i].nav_per_token.clone());
        }
        i += 1;
    }
    proof {
        lemma_first_fund_nav_prefix(fv, fund_name@, n as int);
    }
    None
}

/// A nav for display: parseable values are truncated to three
/// fraction digits and rendered canonically, anything else is shown
/// as it came.
pub open spec fn display_nav_text(s: Seq<char>) -> Seq<char> {
    if valid_decimal_str(s) && decimal_units(s) <= u64::MAX {
        decimal_str((decimal_units(s) - decimal_units(s) % 10) as nat)
    } else {
        s
    }
}

/// Render a nav string for display, at most three fraction digits.
pub fn display_nav(nav: &str) -> (r: String)
    ensures
        r@ == display_nav_text(nav@),
{
    match parse_decimal(nav) {
        Ok(d) => {
            let t = d.truncate_frac(3);
            proof {
                assert(pow10(1) == 10) by {
                    reveal_with_fuel(pow10, 2);
                }
            }
            format_decimal(&t)
        },
        Err(_) => nav.to_owned(),
    }
}

/// The trend marker: down when the performance text is negative.
pub open spec fn trend_text(perf: Seq<char>) -> Seq<char> {
    if perf.contains('-') {
        "v"@
    } else {
        "^"@
    }
}

pub fn trend_arrow(perf_percent: &str) -> (r: &'static str)
    ensures
        r@ == trend_text(perf_percent@),
{
    if str_contains_char(perf_percent, '-') {
        "v"
    } else {
        "^"
    }
}

/// The nickname shown in a server: ticker, display nav and trend.
pub fn nickname_text(fund_ticker: &str, nav: &str, perf_percent: &str) -> (r: String)
    ensures
        r@ == fund_ticker@ + " $"@ + display_nav_text(nav@) + " "@ + trend_text(perf_percent@),
{
    let mut out = String::new();
    out.append(fund_ticker);
    out.append(" $");
    let d = display_nav(nav);
    out.append(d.as_str());
    out.append(" ");
    out.append(trend_arrow(perf_percent));
    proof {
        assert(out@ =~= fund_ticker@ + " $"@ + display_nav_text(nav@) + " "@ + trend_text(
            perf_percent@,
        ));
    }
    out
}

/// The presence line: the configured range and its performance.
pub fn activity_text(playing: &str, perf_percent: &str) -> (r: String)
    ensures
        r@ == playing@ + " "@ + perf_percent@ + "%"@,
{
    let mut out = String::new();
    out.append(playing);
    out.append(" ");
    out.append(perf_percent);
    out.append("%");
    proof {
        assert(out@ =~= playing@ + " "@ + perf_percent@ + "%"@);
    }
    out
}

/// Text of the fund-movement summary: one line per time range.
pub open spec fn movement_text(s: Seq<(String, String)>) -> Seq<char>
    decreases s.len(),
{
    if s.len() == 0 {
        Seq::empty()
    } else {
        movement_text(s.drop_last()) + "**"@ + s.last().0@ + "h** "@ + s.last().1@ + "%\n"@
    }
}

/// Render fetched (range, percentage) movement pairs, in order.
pub fn movement_summary(movements: &Vec<(String, String)>) -> (r: String)
    ensures
        r@ == movement_text(movements@),
{
    let mut out = String::new();
    proof {
        assert(out@ =~= movement_text(movements@.take(0)));
    }
    let n = movements.len();
    let mut i: usize = 0;
    while i < n
        invariant
            i <= n,
            n == movements@.len(),
            out@ == movement_text(movements@.take(i as int)),
        decreases n - i,
    {
        proof {
            assert(movements@.take(i as int + 1).drop_last() =~= movements@.take(i as int));
            assert(movements@.take(i as int + 1).last() == movements@[i as int]);
        }
        out.append("**");
        out.append(movements[i].0.as_str());
        out.append("h** ");
        out.append(movements[i].1.as_str());
        out.append("%\n");
        proof {
            assert(out@ =~= movement_text(movements@.take(i as int + 1)));
        }
        i += 1;
    }
    proof {
        assert(movements@.take(n as int) =~= movements@);
    }
    out
}

/// Text of the performance summary: one line per requested range.
pub open spec fn perf_lines_text(s: Seq<(String, String)>) -> Seq<char>
    decreases s.len(),
{
    if s.len() == 0 {
        Seq::empty()
    } else {
        perf_lines_text(s.drop_last()) + "**"@ + s.last().0@ + " "@ + s.last().1@ + "%**\n"@
    }
}

/// Render fetched (range, percentage) performance pairs under the
/// fund's heading.
pub fn perf_message(fund_label: &str, entries: &Vec<(String, String)>) -> (r: String)
    ensures
        r@ == "***"@ + fund_label@ + " performance***\n"@ + perf_lines_text(entries@),
{
    let mut out = String::new();
    out.append("***");
    out.append(fund_label);
    out.append(" performance***\n");
    let ghost header = out@;
    proof {
        assert(header =~= "***"@ + fund_label@ + " performance***\n"@);
        assert(out@ =~= header + perf_lines_text(entries@.take(0)));
    }
    let n = entries.len();
    let mut i: usize = 0;
    while i < n
        invariant
            i <= n,
            n == entries@.len(),
            out@ == header + perf_lines_text(entries@.take(i as int)),
            header == "***"@ + fund_label@ + " performance***\n"@,
        decreases n - i,
    {
        proof {
            assert(entries@.take(i as int + 1).drop_last() =~= entries@.take(i as int));
            assert(entries@.take(i as int + 1).last() == entries@[i as int]);
        }
        out.append("**");
        out.append(entries[i].0.as_str());
        out.append(" ");
        out.append(entries[i].1.as_str());
        out.append("%**\n");
        proof {
            assert(out@ =~= header + perf_lines_text(entries@.take(i as int + 1)));
        }
        i += 1;
    }
    proof {
        assert(entries@.take(n as int) =~= entries@);
    }
    out
}

/// Text of the stats summary: the net value line, then one line per
/// asset with its ticker, percentage text and whole-dollar value.
pub open spec fn stats_lines_text(s: Seq<AssetV>) -> Seq<char>
    decreases s.len(),
{
    if s.len() == 0 {
        Seq::empty()
    } else {
        stats_lines_text(s.drop_last()) + "**"@ + s.last().ticker + " "@ + s.last().percentage
            + "%** $"@ + comma_grouped(int_digits_str(decimal_units(s.last().value) / 10000))
            + "\n"@
    }
}

pub open spec fn stats_text(s: Seq<AssetV>, nav_units: nat) -> Seq<char> {
    "**Fund Net Value**: $"@ + comma_grouped(int_digits_str(nav_units / 10000)) + "\n"@
        + stats_lines_text(s)
}

/// Render the allocation statistics of a (normalized) pie together
/// with the fund's net value.
pub fn stats_message(pie: &FundPie, net_value: &Decimal) -> (r: String)
    requires
        forall|i: int|
            0 <= i < pie.assets@.len() ==> num_ok((#[trigger] asset_views(pie.assets@)[i]).value),
    ensures
        r@ == stats_text(asset_views(pie.assets@), net_value.units as nat),
{
    let ghost av = asset_views(pie.assets@);
    let mut out = String::new();
    out.append("**Fund Net Value**: $");
    let nv = separate_with_commas_u64(net_value.whole_part());
    out.append(nv.as_str());
    out.append("\n");
    let ghost header = out@;
    proof {
        assert(header =~= "**Fund Net Value**: $"@ + comma_grouped(
            int_digits_str(net_value.units as nat / 10000),
        ) + "\n"@);
        assert(out@ =~= header + stats_lines_text(av.take(0)));
    }
    let n = pie.assets.len();
    let mut i: usize = 0;
    while i < n
        invariant
            i <= n,
            n == pie.assets@.len(),
            av == asset_views(pie.assets@),
            forall|j: int| 0 <= j < av.len() ==> num_ok((#[trigger] av[j]).value),
            out@ == header + stats_lines_text(av.take(i as int)),
        decreases n - i,
    {
        proof {
            assert(av[i as int] == pie.assets@[i as int]@);
            assert(av.take(i as int + 1).drop_last() =~= av.take(i as int));
            assert(av.take(i as int + 1).last() == av[i as int]);
        }
        let a = &pie.assets[i];
        let value = match parse_decimal(a.value.as_str()) {
            Ok(d) => d,
            Err(_) => {
                proof {
                    assert(false);
                }
                Decimal { units: 0 }
            },
        };
        out.append("**");
        out.append(a.ticker.as_str());
        out.append(" ");
        out.append(a.percentage.as_str());
        out.append("%** $");
        let w = separate_with_commas_u64(value.whole_part());
        out.append(w.as_str());
        out.append("\n");
        proof {
            assert(out@ =~= header + stats_lines_text(av.take(i as int + 1)));
        }
        i += 1;
    }
    proof {
        assert(av.take(n as int) =~= av);
    }
    out
}

/// Seconds per unit of a time-range suffix: weeks, days or hours.
pub open spec fn range_unit_secs(c: char) -> Option<nat> {
    if c == 'w' || c == 'W' {
        Some(604800 as nat)
    } else if c == 'd' || c == 'D' {
        Some(86400 as nat)
    } else if c == 'h' || c == 'H' {
        Some(3600 as nat)
    } else {
        None
    }
}

/// The seconds a time-range text such as `"24h"` or `"4w"` denotes:
/// a non-empty run of digits followed by a unit suffix.
pub open spec fn playing_range_secs(s: Seq<char>) -> Option<nat> {
    if s.len() >= 2 && all_digits(s.drop_last()) && range_unit_secs(s.last()) is Some {
        Some(digits_value(s.drop_last()) * range_unit_secs(s.last())->0)
    } else {
        None
    }
}

/// Parse a time-range text like `"24h"`, `"7d"` or `"4w"` into
/// seconds. Rejects malformed texts and values out of range.
pub fn playing_to_secs(playing: &str) -> (r: Result<u64, DataError>)
    ensures
        match r {
            Ok(v) => playing_range_secs(playing@) == Some(v as nat),
            Err(e) => match playing_range_secs(playing@) {
                None => e == DataError::MalformedNumber,
                Some(n) => n > u64::MAX && e == DataError::NumberTooLarge,
            },
        },
{
    let n = playing.unicode_len();
    if n < 2 {
        return Err(DataError::MalformedNumber);
    }
    let ghost digits = playing@.drop_last();
    let last = playing.get_char(n - 1);
    let unit: u64 = if last == 'w' || last == 'W' {
        604800
    } else if last == 'd' || last == 'D' {
        86400
    } else if last == 'h' || last == 'H' {
        3600
    } else {
        return Err(DataError::MalformedNumber);
    };

    // Accumulate the digit prefix, tracking overflow exactly.
    let mut acc: u64 = 0;
    let mut too_big = false;
    let mut i: usize = 0;
    while i < n - 1
        invariant
            i <= n - 1,
            n >= 2,
            n == playing@.len(),
            digits == playing@.drop_last(),
            forall|j: int| 0 <= j < i ==> crate::decimal::is_digit_char(playing@[j]),
            !too_big ==> acc == digits_value(playing@.take(i as int)),
            too_big ==> digits_value(playing@.take(i as int)) > u64::MAX,
        decreases n - i,
    {
        let c = playing.get_char(i);
        let v = c as u32;
        if v < 48 || v > 57 {
            proof {
                assert(playing@.drop_last()[i as int] == playing@[i as int]);
                assert(!all_digits(digits));
            }
            return Err(DataError::MalformedNumber);
        }
        let d: u64 = (v - 48) as u64;
        proof {
            crate::decimal::lemma_digits_value_step(playing@, i as int);
        }
        if too_big {
        } else if acc > (u64::MAX - d) / 10 {
            proof {
                assert(acc * 10 + d > u64::MAX) by (nonlinear_arith)
                    requires
                        acc > (u64::MAX - d) / 10,
                        d <= 9,
                        acc <= u64::MAX,
                ;
            }
            too_big = true;
        } else {
            proof {
                assert(acc * 10 + d <= u64::MAX) by (nonlinear_arith)
                    requires
                        acc <= (u64::MAX - d) / 10,
                        d <= 9,
                ;
            }
            acc = acc * 10 + d;
        }
        i += 1;
    }
    proof {
        assert(playing@.take(n as int - 1) =~= digits);
        assert(all_digits(digits)) by {
            assert forall|j: int| 0 <= j < digits.len() implies crate::decimal::is_digit_char(
                digits[j],
            ) by {
                assert(digits[j] == playing@[j]);
            }
        }
        assert(playing_range_secs(playing@) == Some(digits_value(digits) * unit as nat));
    }
    if too_big {
        proof {
            assert(digits_value(digits) * unit as nat >= digits_value(digits)) by (nonlinear_arith)
                requires
                    unit >= 1,
            ;
        }
        return Err(DataError::NumberTooLarge);
    }
    if acc <= u64::MAX / unit {
        proof {
            assert(acc * unit <= u64::MAX) by (nonlinear_arith)
                requires
                    acc <= u64::MAX / unit,
                    unit >= 1,
            ;
        }
        Ok(acc * unit)
    } else {
        proof {
            assert(acc * unit > u64::MAX) by (nonlinear_arith)
                requires
                    acc > u64::MAX / unit,
                    unit >= 1,
                    acc <= u64::MAX,
            ;
        }
        Err(DataError::NumberTooLarge)
    }
}

} // verus!
