//! The search for coins that suit a grid: those that go up and down a lot and get nowhere. Figures are
//! doubles, held by their bits.

use vstd::prelude::*;

use crate::bits::below;
use crate::json::{list_of_text, parse_list, views, JsonView};
use crate::screen::{coin_usdt, is_coin_usdt};
use crate::text::texts;

verus! {

/// The seconds between two scans.
pub const SCAN_SECS: u64 = 3600;

/// How many hours are looked at.
pub const LOOKBACK_HOURS: u32 = 168;

/// How many coins are reported.
pub const MAX_REPORT: usize = 10;

/// Whether a coin is looked at: a coin against USDT with a turnover of twenty million at least.
pub fn is_eligible(sym: &str, turnover: u64) -> (r: bool)
    ensures
        r == (coin_usdt(sym@) && !below(turnover, 0x4173_12d0_0000_0000)),
{
    is_coin_usdt(sym) && !below(turnover, 0x4173_12d0_0000_0000)
}

/// Whether a coin suits a grid: its way is more than six times its progress, it has moved by less than
/// fifteen percent, and it moves by more than three percent a day.
pub fn suits_grid(efficiency: u64, net_size: u64, daily_move: u64) -> (r: bool)
    ensures
        r == (below(efficiency, 0x3fc3_3333_3333_3333) && below(net_size, 0x402e_0000_0000_0000)
            && below(0x4008_0000_0000_0000, daily_move)),
{
    below(efficiency, 0x3fc3_3333_3333_3333) && below(net_size, 0x402e_0000_0000_0000) && below(
        0x4008_0000_0000_0000,
        daily_move,
    )
}

/// The closing prices of the first `n` candles, of those that write one.
pub open spec fn closes_of(bars: Seq<JsonView>, n: int) -> Seq<Seq<char>>
    decreases n,
{
    if n <= 0 {
        Seq::empty()
    } else {
        match bars[n - 1].item_text(4) {
            Some(s) => closes_of(bars, n - 1).push(s),
            None => closes_of(bars, n - 1),
        }
    }
}

/// The closing prices of all candles but the last, which is not over; nothing where the reply is no
/// list.
pub fn closing_prices(text: &str) -> (r: Option<Vec<String>>)
    ensures
        match r {
            Some(v) => list_of_text(text@) matches Some(bars) && texts(v@) == closes_of(
                bars,
                bars.len() - 1,
            ),
            None => list_of_text(text@) is None,
        },
{
    let bars = match parse_list(text) {
        Some(v) => v,
        None => return None,
    };
    let ghost all = views(bars@);
    let mut out: Vec<String> = Vec::new();
    assert(texts(out@) =~= Seq::empty());
    let n: usize = if bars.len() == 0 { 0 } else { bars.len() - 1 };
    let mut i: usize = 0;
    while i < n
        invariant
            i <= n <= bars.len(),
            all == views(bars@),
            texts(out@) == closes_of(all, i as int),
        decreases n - i,
    {
        assert(all[i as int] == bars@[i as int]@);
        if let Some(s) = bars[i].item_text(4) {
            let ghost before = texts(out@);
            out.push(s.to_string());
            assert(texts(out@) =~= before.push(s@));
        }
        i = i + 1;
    }
    Some(out)
}

/// Every candle that writes a closing price has it in the list, in the order of the candles.
pub proof fn closes_are_kept(bars: Seq<JsonView>, n: int)
    requires
        0 < n <= bars.len(),
    ensures
        bars[n - 1].item_text(4) matches Some(s) ==> closes_of(bars, n) == closes_of(bars, n - 1).push(s),
        bars[n - 1].item_text(4) is None ==> closes_of(bars, n) == closes_of(bars, n - 1),
        closes_of(bars, 0).len() == 0,
{
}

} // verus!
