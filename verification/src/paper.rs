//! Trading on paper: which coins are bought, when they are sold, and what the tally says. Figures are
//! doubles, held by their bits.

use vstd::prelude::*;

use crate::bits::{at_most, below, is_number};
use crate::screen::{coin_usdt, is_coin_usdt};

verus! {

/// How many positions there may be.
pub const MAX_POS: usize = 2;

/// The seconds for which a symbol is left alone after it was sold.
pub const COOLDOWN_SECS: u64 = 3600;

/// How many candidates are looked at in a round.
pub const MAX_CANDIDATES: usize = 20;

/// How many closed candles are needed.
pub const MIN_BARS: usize = 292;

/// A position on paper: its symbol, its entry price, the highest price since, and when it was opened.
pub struct PaperPos {
    pub sym: String,
    pub entry: u64,
    pub peak: u64,
    pub opened_ms: u64,
}

/// The tally: the sum of all results, of the profits and of the losses, and how many there were.
#[derive(Clone, Copy, Debug)]
pub struct PaperStats {
    pub total_net: u64,
    pub gross_win: u64,
    pub gross_loss: u64,
    pub trades: u32,
    pub wins: u32,
}

/// How a position ends.
#[derive(Clone, Copy, Debug, PartialEq, Eq, Structural)]
pub enum PaperExit {
    /// It goes on.
    No,
    /// The price has come back to the trailing line: sold at the line, or at the opening price where
    /// that is lower.
    Trail { price: u64 },
    /// It has been held for a day: sold at the close.
    Fuse { price: u64 },
}

/// How a position ends, if it does: by its trailing line, the candle and its age in minutes.
pub open spec fn exit_of(low: u64, open: u64, close: u64, line: u64, minutes: u64) -> PaperExit {
    if at_most(low, line) && below(0, line) {
        PaperExit::Trail { price: if below(open, line) { open } else { line } }
    } else if minutes >= 1440 {
        PaperExit::Fuse { price: close }
    } else {
        PaperExit::No
    }
}

impl PaperPos {
    /// A position opened at a price.
    pub fn new(sym: &str, entry: u64, now_ms: u64) -> (r: PaperPos)
        ensures
            r.sym@ == sym@,
            r.entry == entry,
            r.peak == entry,
            r.opened_ms == now_ms,
    {
        PaperPos { sym: sym.to_string(), entry, peak: entry, opened_ms: now_ms }
    }

    /// Takes a closed candle. A position that goes on remembers a new highest price; whether it has
    /// one.
    pub fn take_bar(
        &mut self,
        open: u64,
        high: u64,
        low: u64,
        close: u64,
        line: u64,
        minutes: u64,
    ) -> (r: (PaperExit, bool))
        ensures
            r.0 == exit_of(low, open, close, line, minutes),
            r.1 == (r.0 == PaperExit::No && below(old(self).peak, high)),
            final(self).peak == peak_after(old(self).peak, high, low, open, close, line, minutes),
            final(self).sym == old(self).sym,
            final(self).entry == old(self).entry,
            final(self).opened_ms == old(self).opened_ms,
    {
        if at_most(low, line) && below(0, line) {
            let price: u64 = if below(open, line) { open } else { line };
            return (PaperExit::Trail { price }, false);
        }
        if minutes >= 1440 {
            return (PaperExit::Fuse { price: close }, false);
        }
        if below(self.peak, high) {
            self.peak = high;
            (PaperExit::No, true)
        } else {
            (PaperExit::No, false)
        }
    }
}

/// The highest price of a position after a candle.
pub open spec fn peak_after(
    peak: u64,
    high: u64,
    low: u64,
    open: u64,
    close: u64,
    line: u64,
    minutes: u64,
) -> u64 {
    if exit_of(low, open, close, line, minutes) == PaperExit::No && below(peak, high) {
        high
    } else {
        peak
    }
}

/// The highest price of a position never falls: it stays, or a higher one takes its place; and a sale at
/// the trailing line is never above the line.
pub proof fn peak_only_rises(
    peak: u64,
    high: u64,
    low: u64,
    open: u64,
    close: u64,
    line: u64,
    minutes: u64,
)
    ensures
        ({
            let next = peak_after(peak, high, low, open, close, line, minutes);
            next == peak || next == high && below(peak, high)
        }),
        exit_of(low, open, close, line, minutes) matches PaperExit::Trail { price } ==> at_most(
            price,
            line,
        ),
{
}

impl PaperStats {
    /// Counts a result: the sums are given as they become with it.
    pub fn book(
        &mut self,
        net: u64,
        total_net: u64,
        gross_win: u64,
        gross_loss: u64,
    )
        ensures
            final(self).total_net == total_net,
            final(self).trades == (old(self).trades + 1) % 0x1_0000_0000,
            final(self).wins == (if below(0, net) {
                (old(self).wins + 1) % 0x1_0000_0000
            } else {
                old(self).wins as int
            }),
            final(self).gross_win == (if below(0, net) { gross_win } else { old(self).gross_win }),
            final(self).gross_loss == (if below(0, net) {
                old(self).gross_loss
            } else {
                gross_loss
            }),
    {
        self.total_net = total_net;
        self.trades = self.trades.wrapping_add(1);
        if below(0, net) {
            self.wins = self.wins.wrapping_add(1);
            self.gross_win = gross_win;
        } else {
            self.gross_loss = gross_loss;
        }
    }
}

/// What the tally says of trading with real money.
#[derive(Clone, Copy, Debug, PartialEq, Eq, Structural)]
pub enum Verdict {
    /// There are fewer than thirty results.
    TooFew,
    /// Profits are more than 1.3 times the losses.
    Passed,
    /// They are not.
    Failed,
}

/// What the tally says of trading with real money: by the number of results, and the profits over the
/// losses.
pub fn verdict(trades: u32, profit_factor: u64) -> (r: Verdict)
    ensures
        r == (if trades < 30 {
            Verdict::TooFew
        } else if below(0x3ff4_cccc_cccc_cccd, profit_factor) {
            Verdict::Passed
        } else {
            Verdict::Failed
        }),
{
    if trades < 30 {
        Verdict::TooFew
    } else if below(0x3ff4_cccc_cccc_cccd, profit_factor) {
        Verdict::Passed
    } else {
        Verdict::Failed
    }
}

/// A coin over the day: its turnover, its price, the day's highest price and the distance from it in
/// percent; whether there is a position in it, and whether it is left alone.
#[derive(Clone, Copy, Debug)]
pub struct Day {
    pub turnover: u64,
    pub last: u64,
    pub high: u64,
    pub distance: u64,
    pub held: bool,
    pub cooling: bool,
}

/// How a coin went up: in an hour, a quarter and five minutes, in percent, and the last five minutes'
/// turnover over the usual one.
#[derive(Clone, Copy, Debug)]
pub struct Rise {
    pub ret60: u64,
    pub ret15: u64,
    pub ret5: u64,
    pub surge: u64,
}

/// Whether a coin is looked at.
pub open spec fn candidate(sym: Seq<char>, day: Day) -> bool {
    &&& coin_usdt(sym)
    &&& !below(day.turnover, 0x41a1_e1a3_0000_0000)
    &&& !at_most(day.last, 0)
    &&& !at_most(day.high, 0)
    &&& !below(0xc008_0000_0000_0000, day.distance)
    &&& !day.held
    &&& !day.cooling
}

/// Whether a coin is going up.
pub open spec fn surging(rise: Rise) -> bool {
    &&& at_most(0x4008_0000_0000_0000, rise.ret60)
    &&& at_most(0x3ff0_0000_0000_0000, rise.ret15)
    &&& at_most(0x3fe0_0000_0000_0000, rise.ret5)
    &&& at_most(0x4018_0000_0000_0000, rise.surge)
}

/// Whether the funding of a coin is acceptable.
pub open spec fn acceptable(annual: u64) -> bool {
    !below(annual, 0) && !below(0x403e_0000_0000_0000, annual)
}

/// The price at which a coin is bought.
pub open spec fn bought_at(live: u64, close: u64) -> u64 {
    if below(0, live) { live } else { close }
}

/// Opens a position in a coin exactly where there is room for one, the coin is looked at, it is going up
/// and its funding is acceptable: at the price of the running candle, or at the last close. The highest
/// price starts from the entry price.
pub fn enter(
    open: usize,
    sym: &str,
    day: Day,
    rise: Rise,
    annual: u64,
    live: u64,
    close: u64,
    now_ms: u64,
) -> (r: Option<PaperPos>)
    ensures
        r is Some <==> open < MAX_POS && candidate(sym@, day) && surging(rise) && acceptable(annual),
        r matches Some(p) ==> p.sym@ == sym@ && p.entry == bought_at(live, close) && p.peak == p.entry
            && p.opened_ms == now_ms,
{
    if free_slots(open) > 0 && is_candidate(sym, day) && is_surging(rise) && funding_fits(annual) {
        Some(PaperPos::new(sym, entry_price(live, close), now_ms))
    } else {
        None
    }
}

/// Whether a coin is looked at: a coin against USDT with a turnover of 150 million at least, prices
/// above zero, and its price three percent below the day's highest or more; one that is neither held nor
/// left alone.
pub fn is_candidate(sym: &str, day: Day) -> (r: bool)
    ensures
        r == candidate(sym@, day),
{
    is_coin_usdt(sym) && !below(day.turnover, 0x41a1_e1a3_0000_0000) && !at_most(day.last, 0)
        && !at_most(day.high, 0) && !below(0xc008_0000_0000_0000, day.distance) && !day.held
        && !day.cooling
}

/// Whether a coin is going up: three percent in an hour, one in a quarter, half a percent in five
/// minutes, with six times the usual turnover.
pub fn is_surging(rise: Rise) -> (r: bool)
    ensures
        r == surging(rise),
{
    at_most(0x4008_0000_0000_0000, rise.ret60) && at_most(0x3ff0_0000_0000_0000, rise.ret15)
        && at_most(0x3fe0_0000_0000_0000, rise.ret5) && at_most(0x4018_0000_0000_0000, rise.surge)
}

/// Whether the funding of a coin is acceptable: by the year, from nothing to thirty percent.
pub fn funding_fits(annual: u64) -> (r: bool)
    ensures
        r == acceptable(annual),
{
    !below(annual, 0) && !below(0x403e_0000_0000_0000, annual)
}

/// The price at which a coin is bought: that of the running candle where it is above zero, else the
/// last close.
pub fn entry_price(live: u64, last: u64) -> (r: u64)
    ensures
        r == bought_at(live, last),
{
    if below(0, live) { live } else { last }
}

/// How many positions can be opened.
pub fn free_slots(held: usize) -> (r: usize)
    ensures
        r == (if held >= MAX_POS { 0 } else { MAX_POS - held }),
{
    if held >= MAX_POS { 0 } else { MAX_POS - held }
}

/// When a position on paper ends, said outright: at its trailing line where that is above zero and the lowest price
/// has come down to it, sold at the lower of the line and the opening price; else after a day, at the close; else
/// not, and then a higher price is remembered.
pub proof fn paper_exits(peak: u64, high: u64, low: u64, open: u64, close: u64, line: u64, minutes: u64)
    ensures
        ({
            let e = exit_of(low, open, close, line, minutes);
            let hit = at_most(low, line) && below(0, line);
            &&& e is Trail <==> hit
            &&& e is Fuse <==> !hit && minutes >= 1440
            &&& e is No <==> !hit && minutes < 1440
            &&& e matches PaperExit::Trail { price } ==> (price == open && below(open, line)) || (price == line
                && !below(open, line))
            &&& e matches PaperExit::Fuse { price } ==> price == close
            &&& peak_after(peak, high, low, open, close, line, minutes) == if !hit && minutes < 1440 && below(
                peak,
                high,
            ) {
                high
            } else {
                peak
            }
        }),
{
}

/// Which coins are bought on paper: a turnover of 150 million or more, at least three percent below the day's
/// highest price, neither held nor left alone; up by three percent in an hour, one in a quarter and half a percent
/// in five minutes with six times the turnover; and with funding from nothing to thirty percent a year. A figure
/// that is no number makes no coin go up.
pub proof fn entries_are_choosy(sym: Seq<char>, day: Day, rise: Rise, annual: u64)
    ensures
        candidate(sym, day) ==> coin_usdt(sym) && !day.held && !day.cooling,
        is_number(day.turnover) && is_number(day.distance) && is_number(day.last) && is_number(day.high) ==> (
        candidate(sym, day) <==> coin_usdt(sym) && at_most(0x41a1_e1a3_0000_0000, day.turnover) && below(
            0,
            day.last,
        ) && below(0, day.high) && at_most(day.distance, 0xc008_0000_0000_0000) && !day.held && !day.cooling),
        surging(rise) <==> at_most(0x4008_0000_0000_0000, rise.ret60) && at_most(
            0x3ff0_0000_0000_0000,
            rise.ret15,
        ) && at_most(0x3fe0_0000_0000_0000, rise.ret5) && at_most(0x4018_0000_0000_0000, rise.surge),
        !is_number(rise.ret60) || !is_number(rise.ret15) || !is_number(rise.ret5) || !is_number(rise.surge)
            ==> !surging(rise),
        is_number(annual) ==> (acceptable(annual) <==> at_most(0, annual) && at_most(
            annual,
            0x403e_0000_0000_0000,
        )),
{
}

/// A coin is bought at the price of the running candle where that is above zero, else at the last close.
pub proof fn bought_at_live_price(live: u64, close: u64)
    ensures
        below(0, live) ==> bought_at(live, close) == live,
        !below(0, live) ==> bought_at(live, close) == close,
{
}

} // verus!
