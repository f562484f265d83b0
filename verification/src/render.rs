//! Rendering a detected rebalance event as message text.

use vstd::prelude::*;

use thousands::Separable;

use crate::decimal::{decimal_str, format_decimal, int_digits_str, Decimal};
use crate::model::{CashDirection, ComparisonLine, EventV, LineV, RebalanceEvent};
use crate::model::line_views;

verus! {

/// Digit grouping: a comma every three digits from the right.
pub open spec fn comma_grouped(s: Seq<char>) -> Seq<char>
    decreases s.len(),
{
    if s.len() <= 3 {
        s
    } else {
        comma_grouped(s.take(s.len() - 3)) + seq![','] + s.skip(s.len() - 3)
    }
}

/// Relies on `thousands::Separable::separate_with_commas`: for an
/// unsigned integer it renders the decimal digits and inserts a comma
/// every three digits from the right.
#[verifier::external_body]
pub(crate) fn separate_with_commas_u64(n: u64) -> (r: String)
    ensures
        r@ == comma_grouped(int_digits_str(n as nat)),
{
    n.separate_with_commas()
}

/// Text of one comparison line.
pub open spec fn line_text(l: LineV) -> Seq<char> {
    match l {
        LineV::Matched { ticker, current, previous } => ticker + " "@ + decimal_str(current)
            + "% (before "@ + decimal_str(previous) + "%)\n"@,
        LineV::NewHolding { ticker, percentage } => ticker + " new token in the fund ("@
            + decimal_str(percentage) + "%)\n"@,
    }
}

/// Text of all comparison lines, in event order.
pub open spec fn lines_text(ls: Seq<LineV>) -> Seq<char>
    decreases ls.len(),
{
    if ls.len() == 0 {
        Seq::empty()
    } else {
        lines_text(ls.drop_last()) + line_text(ls.last())
    }
}

/// The one-line summary of what kind of change was detected.
pub open spec fn direction_text(ev: EventV) -> Seq<char> {
    if ev.cash_moved {
        match ev.cash_direction {
            Some(CashDirection::ToCash) => "Value moved to Cash"@,
            Some(CashDirection::ToCrypto) => "Value moved to Cryptocurrencies"@,
            None => "Crypto assets rebalanced"@,
        }
    } else {
        "Crypto assets rebalanced"@
    }
}

/// The full rendered event: banner, net-asset-value line with
/// thousands separators truncated to whole currency units, the change
/// summary, then one line per comparison, in order.
pub open spec fn event_text(ev: EventV, nav_units: nat) -> Seq<char> {
    "Fund rebalanced!\n"@ + "Fund Net Value: $"@ + comma_grouped(int_digits_str(nav_units / 10000))
        + "\n"@ + direction_text(ev) + "\n"@ + lines_text(ev.lines)
}

fn append_line(out: &mut String, line: &ComparisonLine)
    ensures
        final (out)@ == old(out)@ + line_text(line@),
{
    match line {
        ComparisonLine::Matched { ticker, current, previous } => {
            out.append(ticker.as_str());
            out.append(" ");
            let c = format_decimal(current);
            out.append(c.as_str());
            out.append("% (before ");
            let p = format_decimal(previous);
            out.append(p.as_str());
            out.append("%)\n");
            proof {
                assert(final (out)@ =~= old(out)@ + line_text(line@));
            }
        },
        ComparisonLine::NewHolding { ticker, percentage } => {
            out.append(ticker.as_str());
            out.append(" new token in the fund (");
            let p = format_decimal(percentage);
            out.append(p.as_str());
            out.append("%)\n");
            proof {
                assert(final (out)@ =~= old(out)@ + line_text(line@));
            }
        },
    }
}

proof fn lemma_lines_text_step(ls: Seq<LineV>, i: int)
    requires
        0 <= i < ls.len(),
    ensures
        lines_text(ls.take(i + 1)) == lines_text(ls.take(i)) + line_text(ls[i]),
{
    assert(ls.take(i + 1).drop_last() =~= ls.take(i));
    assert(ls.take(i + 1).last() == ls[i]);
}

/// Render a detected event together with the fund's net asset value.
pub fn render_event(event: &RebalanceEvent, net_asset_value: &Decimal) -> (r: String)
    ensures
        r@ == event_text(event@, net_asset_value.units as nat),
{
    let mut out = String::new();
    out.append("Fund rebalanced!\n");
    out.append("Fund Net Value: $");
    let nav = separate_with_commas_u64(net_asset_value.whole_part());
    out.append(nav.as_str());
    out.append("\n");
    if event.cash_moved {
        match event.cash_direction {
            Some(CashDirection::ToCash) => out.append("Value moved to Cash"),
            Some(CashDirection::ToCrypto) => out.append("Value moved to Cryptocurrencies"),
            None => out.append("Crypto assets rebalanced"),
        }
    } else {
        out.append("Crypto assets rebalanced");
    }
    out.append("\n");
    let ghost header = out@;
    let ghost lv = line_views(event.lines@);
    proof {
        assert(lines_text(lv.take(0)) =~= Seq::<char>::empty());
        assert(out@ =~= header + lines_text(lv.take(0)));
    }
    let n = event.lines.len();
    let mut i: usize = 0;
    while i < n
        invariant
            i <= n,
            n == event.lines@.len(),
            lv == line_views(event.lines@),
            out@ == header + lines_text(lv.take(i as int)),
            header + lines_text(lv) == event_text(event@, net_asset_value.units as nat),
        decreases n - i,
    {
        proof {
            assert(lv[i as int] == event.lines@[i as int]@);
            lemma_lines_text_step(lv, i as int);
        }
        append_line(&mut out, &event.lines[i]);
        proof {
            assert(out@ =~= header + lines_text(lv.take(i as int + 1)));
        }
        i += 1;
    }
    proof {
        assert(lv.take(n as int) =~= lv);
    }
    out
}

} // verus!
