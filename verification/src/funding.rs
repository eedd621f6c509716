//! The watch on funding rates. Figures are doubles, held by their bits.

use vstd::prelude::*;

use crate::bits::below;
use crate::screen::{is_plain_usdt, plain_usdt};

verus! {

/// The seconds between two scans.
pub const SCAN_SECS: u64 = 3600;

/// The seconds within which a rate is not told twice: one period.
pub const ALERT_SECS: u64 = 28800;

/// How many rates stand in each half of the report.
pub const REPORT_ROWS: usize = 5;

/// Whether the rate of a symbol is looked at: one against USDT with a turnover of twenty million at
/// least.
pub fn is_watched(sym: &str, turnover: u64) -> (r: bool)
    ensures
        r == (plain_usdt(sym@) && !below(turnover, 0x4173_12d0_0000_0000)),
{
    is_plain_usdt(sym) && !below(turnover, 0x4173_12d0_0000_0000)
}

/// Whether a rate is told at once: by the year it is the limit or more, up or down.
pub fn is_extreme(annual_size: u64, limit: u64) -> (r: bool)
    ensures
        r == !below(annual_size, limit),
{
    !below(annual_size, limit)
}

/// Whether the long side pays.
pub fn longs_pay(rate: u64) -> (r: bool)
    ensures
        r == below(0, rate),
{
    below(0, rate)
}

/// The places of the last rates of a list of so many, the last first.
pub fn last_rows(len: usize) -> (r: Vec<usize>)
    ensures
        r@.len() == (if len < REPORT_ROWS { len } else { REPORT_ROWS }),
        forall|i: int| 0 <= i < r@.len() ==> #[trigger] r@[i] == len - 1 - i,
{
    let mut out: Vec<usize> = Vec::new();
    let mut i: usize = 0;
    while i < REPORT_ROWS && i < len
        invariant
            i <= REPORT_ROWS,
            i <= len,
            out@.len() == i,
            forall|k: int| 0 <= k < i ==> #[trigger] out@[k] == len - 1 - k,
        decreases REPORT_ROWS - i,
    {
        out.push(len - 1 - i);
        i = i + 1;
    }
    out
}

} // verus!
