//! The strategy of one symbol: what it holds, when it goes in, and when it gets out.

use std::collections::VecDeque;

use vstd::arithmetic::power::{lemma_pow_adds, lemma_pow_positive, pow};
use vstd::prelude::*;

use crate::decimal::{
    absolute, arithmetic, dec_of_text, difference, difference_of, distance, larger, lemma_absolute,
    lemma_difference, lemma_lit, lemma_lit_units, lemma_normal, lemma_opposite, lemma_product,
    lemma_quotient, lemma_rounded_sign, lemma_sum, lemma_unit, lemma_units_bound, lemma_units_sign,
    lit, normal, opposite, or_else, parse_dec, precision, product, product_of, quotient,
    quotient_of, rounded, smaller, sum, sum_of, unit, zero, Dec,
};
use crate::json::{items_of_text, parse_items, views, JsonView};
use crate::models::AggTradeUpdate;
use crate::orderbook::{Level, OrderBook};
use crate::portfolio::SignalEvent;
use crate::profit::{
    amounts_to, gain, gain_pct, gains_are_percentages, keeps_profit, leaves_no_loss,
    lemma_keeps_profit, lemma_reached_bounds, lemma_reached_further, lies_behind, line,
    lines_lie_behind, whole,
};
use crate::screen::{day_key, day_name};
use crate::side::{closing_side, Side};
use crate::text::same;

verus! {

/// What the strategy can be told.
#[derive(Clone, Copy, Debug)]
pub enum ControlMessage {
    /// A trade was made: its size, with a minus for a sale, and its price.
    TradeExecuted { trade_qty: Dec, fill_price: Dec },
    /// Forget the position.
    ClearPosition,
    /// Close the position at the market.
    ClosePosition,
    /// Take the position over from the exchange.
    SyncPosition,
    /// The exchange has this position.
    ForceUpdatePosition { amt: Dec, entry: Dec },
    /// Open no position until told otherwise.
    PauseTrading,
    /// Open positions again.
    ResumeTrading,
    /// Open short positions, or none.
    AllowShorting(bool),
}

/// The position of a symbol.
#[derive(Clone, Debug)]
pub struct PositionManager {
    pub symbol: String,
    pub is_isolated: bool,
    pub position_amt: Dec,
    pub entry_price: Dec,
    pub highest_price_since_entry: Dec,
    pub lowest_price_since_entry: Dec,
}

/// The figures of a position: its size, its entry price, and the highest and the lowest price since.
#[derive(Clone, Copy, Debug)]
pub struct Figures {
    pub amt: Dec,
    pub entry: Dec,
    pub high: Dec,
    pub low: Dec,
}

impl PositionManager {
    /// The figures of the position.
    pub open spec fn figures_spec(&self) -> Figures {
        Figures {
            amt: self.position_amt,
            entry: self.entry_price,
            high: self.highest_price_since_entry,
            low: self.lowest_price_since_entry,
        }
    }

    /// The figures of the position.
    #[verifier::when_used_as_spec(figures_spec)]
    pub fn figures(&self) -> (r: Figures)
        ensures
            r == self.figures_spec(),
    {
        Figures {
            amt: self.position_amt,
            entry: self.entry_price,
            high: self.highest_price_since_entry,
            low: self.lowest_price_since_entry,
        }
    }

    fn set(&mut self, f: Figures)
        ensures
            final(self).figures() == f,
            final(self).symbol == old(self).symbol,
            final(self).is_isolated == old(self).is_isolated,
    {
        self.position_amt = f.amt;
        self.entry_price = f.entry;
        self.highest_price_since_entry = f.high;
        self.lowest_price_since_entry = f.low;
    }

    /// A symbol without a position.
    pub fn empty(symbol: &str) -> (r: PositionManager)
        ensures
            r.symbol@ == symbol@,
            r.is_isolated,
            r.figures() == (Figures {
                amt: zero(),
                entry: zero(),
                high: zero(),
                low: lit(999999999, 0),
            }),
    {
        PositionManager {
            symbol: symbol.to_string(),
            is_isolated: true,
            position_amt: zero(),
            entry_price: zero(),
            highest_price_since_entry: zero(),
            lowest_price_since_entry: lit(999999999, 0),
        }
    }

    /// The key under which the position of a symbol is stored.
    pub fn key(symbol: &str) -> (r: String)
        ensures
            r@ == symbol@ + "_state"@,
    {
        symbol.to_string().concat("_state")
    }
}

/// The key under which the trades of a day are stored.
pub fn trade_history_key(year: u32, month: u32, day: u32) -> (r: String)
    ensures
        r@ == "trade_history_"@ + day_name(year, month, day),
{
    "trade_history_".to_string().concat(day_key(year, month, day).as_str())
}

/// The figures after a trade: the sizes are added. Trades in one direction average the entry price, a
/// trade beyond the whole position starts a new one at its own price, any other keeps the entry price.
pub open spec fn traded(f: Figures, qty: Dec, price: Dec) -> Option<Figures> {
    match sum(Some(f.amt), Some(qty)) {
        None => None,
        Some(amt) => if amt.units() == 0 {
            Some(Figures { amt: zero(), ..f })
        } else if f.amt.minus() == qty.minus() || f.amt.units() == 0 {
            let value = sum(
                product(Some(absolute(f.amt)), Some(f.entry)),
                product(Some(absolute(qty)), Some(price)),
            );
            match quotient(value, Some(absolute(amt))) {
                Some(entry) => Some(Figures { amt, entry, high: entry, low: entry }),
                None => None,
            }
        } else if amt.minus() != f.amt.minus() {
            Some(Figures { amt, entry: price, high: price, low: price })
        } else {
            Some(Figures { amt, ..f })
        },
    }
}

/// The size of a position or a trade, without its sign.
pub open spec fn size_of(amt: Dec) -> int {
    distance(amt.units())
}

/// The entry price is the average of the old one and the price of the trade, weighted with the sizes, but
/// for rounding.
pub open spec fn averaged(f: Figures, qty: Dec, price: Dec, next: Figures) -> bool {
    let (a, q, w) = (size_of(f.amt), size_of(qty), size_of(next.amt));
    let (e, p) = (f.entry.units(), price.units());
    precision() * distance(next.entry.units() * w - (a * e + q * p)) <= precision() * (w + 4 * unit())
        + 7 * (distance(a * e) + distance(q * p))
}

/// Whether a trade adds to a position, or opens one.
pub open spec fn adds_to(f: Figures, qty: Dec) -> bool {
    f.amt.units() == 0 || f.amt.minus() == qty.minus()
}

/// Books a trade. Nothing where a figure is out of range. The size of the position is the sum of the
/// sizes, as exact as decimals allow, and a trade that adds to it averages the entry price. A trade that
/// opens a position leaves no trace of the entry price before it.
pub fn book_trade(f: Figures, qty: Dec, price: Dec) -> (r: Option<Figures>)
    ensures
        r == traded(f, qty, price),
        r matches Some(next) ==> rounded(Some(next.amt), f.amt.units() + qty.units(), 1),
        r matches Some(next) ==> adds_to(f, qty) && next.amt.units() != 0 ==> averaged(
            f,
            qty,
            price,
            next,
        ),
        r matches Some(next) ==> f.amt.units() == 0 && next.amt.units() == qty.units() && qty.units()
            != 0 && product(Some(absolute(qty)), Some(price))->0.units() * unit() == size_of(qty)
            * price.units() ==> next.entry.units() == price.units(),
{
    let amt = match sum(Some(f.amt), Some(qty)) {
        Some(d) => d,
        None => return None,
    };
    if amt.is_zero() {
        let none = zero();
        Some(Figures { amt: none, entry: f.entry, high: f.high, low: f.low })
    } else if f.amt.is_minus() == qty.is_minus() || f.amt.is_zero() {
        let held = product(Some(absolute(f.amt)), Some(f.entry));
        let added = product(Some(absolute(qty)), Some(price));
        let value = sum(held, added);
        if let Some(x) = added {
            proof {
                use_type_invariant(&x);
            }
        }
        match quotient(value, Some(absolute(amt))) {
            Some(entry) => {
                proof {
                    lemma_absolute(f.amt);
                    lemma_absolute(qty);
                    lemma_absolute(amt);
                    lemma_averaged(
                        size_of(f.amt) * f.entry.units(),
                        size_of(qty) * price.units(),
                        held->0.units(),
                        added->0.units(),
                        value->0.units(),
                        size_of(amt),
                        entry.units() * size_of(amt),
                    );
                    if f.amt.units() == 0 {
                        use_type_invariant(&price);
                        let a = absolute(f.amt).units();
                        assert(a * f.entry.units() == 0) by (nonlinear_arith)
                            requires
                                a == 0,
                        ;
                        lemma_opening(qty, price, held, added, value, entry, amt);
                    }
                }
                Some(Figures { amt, entry, high: entry, low: entry })
            },
            None => None,
        }
    } else if amt.is_minus() != f.amt.is_minus() {
        Some(Figures { amt, entry: price, high: price, low: price })
    } else {
        Some(Figures { amt, entry: f.entry, high: f.high, low: f.low })
    }
}

/// How far the rounding of two products, their sum and its quotient can carry an average.
proof fn lemma_averaged(ae: int, qp: int, held: int, added: int, value: int, w: int, ew: int)
    requires
        w > 0,
        distance(held * unit() - ae) * precision() <= unit() * precision() + distance(ae),
        distance(added * unit() - qp) * precision() <= unit() * precision() + distance(qp),
        distance(value - (held + added)) * precision() <= precision() + distance(held + added),
        distance(ew - value * unit()) * precision() <= w * precision() + distance(value * unit()),
    ensures
        precision() * distance(ew - (ae + qp)) <= precision() * (w + 4 * unit()) + 7 * (distance(ae)
            + distance(qp)),
{
    let (m, n, h) = (distance(ae), distance(qp), distance(held + added));
    let (d1, d2) = (distance(ew - value * unit()), distance(value - (held + added)));
    let (d3, d4) = (distance(held * unit() - ae), distance(added * unit() - qp));
    lemma_size(held * unit(), ae, unit());
    lemma_size(added * unit(), qp, unit());
    lemma_size(value, held + added, 1);
    lemma_scaled_sum(held, added);
    lemma_scaled_sum(value, 0);
    lemma_four(ew - value * unit(), (value - (held + added)) * unit(), held * unit() - ae, added
        * unit() - qp);
    lemma_scaled_sum(value - (held + added), 0);
    assert(ew - (ae + qp) == (ew - value * unit()) + (value - (held + added)) * unit() + (held * unit()
        - ae) + (added * unit() - qp));
    lemma_added_up(
        distance(ew - (ae + qp)),
        d1,
        d2,
        d3,
        d4,
        m,
        n,
        h,
        distance(value * unit()),
        w,
    );
}

/// A figure that is close to another is no more than about twice as large.
proof fn lemma_size(x: int, y: int, step: int)
    requires
        distance(x - y) * precision() <= step * precision() + distance(y),
    ensures
        distance(x) <= 2 * distance(y) + step,
{
}

proof fn lemma_scaled_sum(x: int, y: int)
    ensures
        unit() * distance(x + y) <= distance(x * unit()) + distance(y * unit()),
        distance(x * unit()) == unit() * distance(x),
{
}

proof fn lemma_four(a: int, b: int, c: int, d: int)
    ensures
        distance(a + b + c + d) <= distance(a) + distance(b) + distance(c) + distance(d),
{
}

proof fn lemma_added_up(
    total: int,
    d1: int,
    d2: int,
    d3: int,
    d4: int,
    m: int,
    n: int,
    h: int,
    v: int,
    w: int,
)
    requires
        total <= d1 + unit() * d2 + d3 + d4,
        d1 * precision() <= w * precision() + v,
        d2 * precision() <= precision() + h,
        d3 * precision() <= unit() * precision() + m,
        d4 * precision() <= unit() * precision() + n,
        unit() * h <= 2 * (m + n) + 2 * unit(),
        v <= unit() * (2 * h + 1),
        m >= 0,
        n >= 0,
    ensures
        precision() * total <= precision() * (w + 4 * unit()) + 7 * (m + n),
{
}

/// Opening a position at a price gives that price, where its value is a decimal.
proof fn lemma_opening(
    qty: Dec,
    price: Dec,
    held: Option<Dec>,
    added: Option<Dec>,
    value: Option<Dec>,
    entry: Dec,
    amt: Dec,
)
    requires
        price.wf(),
        held is Some,
        added is Some,
        value is Some,
        added->0.wf(),
        rounded(held, 0, unit()),
        rounded(value, held->0.units() + added->0.units(), 1),
        size_of(amt) > 0,
        rounded(Some(entry), value->0.units() * unit(), size_of(amt)),
    ensures
        value->0.units() == added->0.units(),
        amt.units() == qty.units() && added->0.units() * unit() == size_of(qty) * price.units()
            ==> entry.units() == price.units(),
{
    let none = zero();
    lemma_lit(0, 0);
    lemma_units_sign(none);
    assert(none.units() * unit() == 0);
    assert(held->0.units() == 0);
    assert(added->0.units() * 1 == held->0.units() + added->0.units());
    if amt.units() == qty.units() && added->0.units() * unit() == size_of(qty) * price.units() {
        assert(price.units() * size_of(amt) == value->0.units() * unit()) by (nonlinear_arith)
            requires
                size_of(amt) == size_of(qty),
                value->0.units() == added->0.units(),
                added->0.units() * unit() == size_of(qty) * price.units(),
        ;
    }
}

/// The price at the top of a side of the book, or another one.
pub open spec fn top_price(top: Option<Level>, other: Dec) -> Dec {
    match top {
        Some(l) => l.price,
        None => other,
    }
}

/// The price at the top of a side of the book, or another one.
fn price_or(top: Option<Level>, other: Dec) -> (r: Dec)
    ensures
        r == top_price(top, other),
{
    match top {
        Some(l) => l.price,
        None => other,
    }
}

/// The figures after the exchange has reported another position: the highest and the lowest price start
/// again from the price in the book, so that the stop follows the price anew.
pub open spec fn updated(f: Figures, amt: Dec, entry: Dec, book: OrderBook) -> Figures {
    if amt.units() == f.amt.units() {
        f
    } else if amt.units() == 0 {
        Figures { amt: zero(), ..f }
    } else {
        let price = top_price(book.top_bid(), entry);
        Figures { amt, entry, high: price, low: price }
    }
}

/// The figures of a position taken over from the exchange: the highest and the lowest price start
/// from the price in the book and the entry price.
pub open spec fn taken_over(amt: Dec, entry: Dec, book: OrderBook) -> Figures {
    let price = top_price(
        if amt.units() > 0 { book.top_bid() } else { book.top_ask() },
        entry,
    );
    Figures {
        amt,
        entry,
        high: if price.units() > entry.units() { price } else { entry },
        low: if price.units() < entry.units() && price.units() > 0 { price } else { entry },
    }
}

/// The first entry of a symbol in the exchange's list of positions, from `i` on.
pub open spec fn position_entry(items: Seq<JsonView>, symbol: Seq<char>, i: int) -> Option<JsonView>
    decreases items.len() - i,
{
    if i < 0 || i >= items.len() {
        None
    } else if text_or_empty(items[i].text_field("symbol"@)) == symbol {
        Some(items[i])
    } else {
        position_entry(items, symbol, i + 1)
    }
}

/// A text, or the empty one.
pub open spec fn text_or_empty(s: Option<Seq<char>>) -> Seq<char> {
    match s {
        Some(t) => t,
        None => ""@,
    }
}

/// What became of a message.
#[derive(Clone, Copy, Debug)]
pub enum ControlReply {
    /// Nothing more to do.
    Quiet,
    /// The position is to be stored.
    Save,
    /// There is no position to close.
    NothingToClose,
    /// The position is to be closed with this order, which can only reduce it.
    Close { side: Side, qty: Dec },
    /// The exchange's list of positions is to be read.
    ReadPositions,
    /// A figure is out of range.
    OutOfRange,
}

/// What became of taking a position over.
#[derive(Clone, Copy, Debug)]
pub enum SyncReply {
    /// The position was taken over; the price from which it is watched.
    TakenOver { amt: Dec, entry: Dec, price: Dec },
    /// The exchange holds no position.
    Flat,
    /// The exchange does not list the symbol.
    NotFound,
}

/// How strong a breakout is.
#[derive(Clone, Copy, Debug, PartialEq, Eq, Structural)]
pub enum Strength {
    S,
    A,
    B,
}

impl Strength {
    /// The letter of the strength.
    pub open spec fn letter(self) -> Seq<char> {
        match self {
            Strength::S => "S"@,
            Strength::A => "A"@,
            Strength::B => "B"@,
        }
    }

    /// The letter of the strength.
    pub fn text(&self) -> (r: &'static str)
        ensures
            r@ == self.letter(),
    {
        match self {
            Strength::S => "S",
            Strength::A => "A",
            Strength::B => "B",
        }
    }
}

/// The strategy of one symbol. Moments are nanoseconds of a clock that does not go back.
pub struct StrategyEngine {
    pub position: PositionManager,
    pub mid_price_history: VecDeque<Dec>,
    pub breakout_window: usize,
    pub initial_sl_pct: Dec,
    pub activation_pct: Dec,
    pub trailing_sl_pct: Dec,
    pub round_trip_fee_pct: Dec,
    pub fast_buy_flow: Dec,
    pub fast_sell_flow: Dec,
    pub slow_buy_flow: Dec,
    pub slow_sell_flow: Dec,
    pub auto_margin_usdt: Dec,
    pub auto_leverage: u32,
    pub tick_counter: u64,
    pub last_signal_time: Option<u64>,
    pub current_funding_rate: Dec,
    pub last_funding_fetch: Option<u64>,
    pub last_tick_time: Option<u64>,
    pub last_sl_error_time: Option<u64>,
    pub paused: bool,
    pub allow_short: bool,
}

/// The four flows of money: fast and slow, bought and sold.
#[derive(Clone, Copy, Debug)]
pub struct Flows {
    pub fast_buy: Dec,
    pub fast_sell: Dec,
    pub slow_buy: Dec,
    pub slow_sell: Dec,
}

impl StrategyEngine {
    /// The flows of the engine.
    pub open spec fn flows_spec(&self) -> Flows {
        Flows {
            fast_buy: self.fast_buy_flow,
            fast_sell: self.fast_sell_flow,
            slow_buy: self.slow_buy_flow,
            slow_sell: self.slow_sell_flow,
        }
    }

    /// The flows of the engine.
    #[verifier::when_used_as_spec(flows_spec)]
    pub fn flows(&self) -> (r: Flows)
        ensures
            r == self.flows_spec(),
    {
        Flows {
            fast_buy: self.fast_buy_flow,
            fast_sell: self.fast_sell_flow,
            slow_buy: self.slow_buy_flow,
            slow_sell: self.slow_sell_flow,
        }
    }

    /// What a message to the position leaves alone.
    pub open spec fn same_market(&self, other: &StrategyEngine) -> bool {
        &&& self.position.symbol == other.position.symbol
        &&& self.position.is_isolated == other.position.is_isolated
        &&& self.mid_price_history == other.mid_price_history
        &&& self.same_settings(other)
        &&& self.flows() == other.flows()
        &&& self.tick_counter == other.tick_counter
        &&& self.last_signal_time == other.last_signal_time
        &&& self.current_funding_rate == other.current_funding_rate
        &&& self.last_funding_fetch == other.last_funding_fetch
        &&& self.last_tick_time == other.last_tick_time
        &&& self.last_sl_error_time == other.last_sl_error_time
    }

    /// The settings are the same.
    pub open spec fn same_settings(&self, other: &StrategyEngine) -> bool {
        &&& self.breakout_window == other.breakout_window
        &&& self.initial_sl_pct == other.initial_sl_pct
        &&& self.activation_pct == other.activation_pct
        &&& self.trailing_sl_pct == other.trailing_sl_pct
        &&& self.round_trip_fee_pct == other.round_trip_fee_pct
        &&& self.auto_margin_usdt == other.auto_margin_usdt
        &&& self.auto_leverage == other.auto_leverage
    }

    /// The strategy of a symbol, with the position that was stored for it or none.
    pub fn new(symbol: &str, stored: Option<PositionManager>) -> (r: StrategyEngine)
        ensures
            match stored {
                Some(p) => r.position == p,
                None => r.position.symbol@ == symbol@ && r.position.is_isolated
                    && r.position.figures() == (Figures {
                    amt: zero(),
                    entry: zero(),
                    high: zero(),
                    low: lit(999999999, 0),
                }),
            },
            r.mid_price_history@ == Seq::<Dec>::empty(),
            r.breakout_window == 3000,
            r.initial_sl_pct == lit(25, 1),
            r.activation_pct == lit(30, 1),
            r.trailing_sl_pct == lit(15, 1),
            r.round_trip_fee_pct == lit(1, 1),
            r.auto_margin_usdt == lit(500, 1),
            r.auto_leverage == 10,
            r.flows() == (Flows {
                fast_buy: zero(),
                fast_sell: zero(),
                slow_buy: zero(),
                slow_sell: zero(),
            }),
            r.tick_counter == 0,
            r.last_signal_time is None,
            r.current_funding_rate == zero(),
            r.last_funding_fetch is None,
            r.last_tick_time is None,
            r.last_sl_error_time is None,
            !r.paused,
            r.allow_short,
    {
        let position = match stored {
            Some(p) => p,
            None => PositionManager::empty(symbol),
        };
        StrategyEngine {
            position,
            mid_price_history: VecDeque::with_capacity(3000),
            breakout_window: 3000,
            initial_sl_pct: lit(25, 1),
            activation_pct: lit(30, 1),
            trailing_sl_pct: lit(15, 1),
            round_trip_fee_pct: lit(1, 1),
            fast_buy_flow: zero(),
            fast_sell_flow: zero(),
            slow_buy_flow: zero(),
            slow_sell_flow: zero(),
            auto_margin_usdt: lit(500, 1),
            auto_leverage: 10,
            tick_counter: 0,
            last_signal_time: None,
            current_funding_rate: zero(),
            last_funding_fetch: None,
            last_tick_time: None,
            last_sl_error_time: None,
            paused: false,
            allow_short: true,
        }
    }

    /// The figures of the position after a message, and what is to be done.
    pub open spec fn controlled(&self, msg: ControlMessage, book: OrderBook) -> (
        Figures,
        ControlReply,
    ) {
        let f = self.position.figures();
        match msg {
            ControlMessage::TradeExecuted { trade_qty, fill_price } => match traded(
                f,
                trade_qty,
                fill_price,
            ) {
                Some(next) => (next, ControlReply::Save),
                None => (f, ControlReply::OutOfRange),
            },
            ControlMessage::ClearPosition => (Figures { amt: zero(), ..f }, ControlReply::Save),
            ControlMessage::ClosePosition => if f.amt.units() == 0 {
                (f, ControlReply::NothingToClose)
            } else {
                (
                    f,
                    ControlReply::Close {
                        side: closing_side(f.amt.units() > 0),
                        qty: absolute(f.amt),
                    },
                )
            },
            ControlMessage::SyncPosition => (f, ControlReply::ReadPositions),
            ControlMessage::ForceUpdatePosition { amt, entry } => (
                updated(f, amt, entry, book),
                if amt.units() == f.amt.units() { ControlReply::Quiet } else { ControlReply::Save },
            ),
            ControlMessage::PauseTrading => (f, ControlReply::Quiet),
            ControlMessage::ResumeTrading => (f, ControlReply::Quiet),
            ControlMessage::AllowShorting(_) => (f, ControlReply::Quiet),
        }
    }

    /// Takes a message.
    pub fn handle_control_message(&mut self, msg: ControlMessage, book: &OrderBook) -> (r:
        ControlReply)
        ensures
            (final(self).position.figures(), r) == old(self).controlled(msg, *book),
            final(self).same_market(&*old(self)),
            final(self).paused == (match msg {
                ControlMessage::PauseTrading => true,
                ControlMessage::ResumeTrading => false,
                _ => old(self).paused,
            }),
            final(self).allow_short == (match msg {
                ControlMessage::AllowShorting(yes) => yes,
                _ => old(self).allow_short,
            }),
    {
        let f = self.position.figures();
        match msg {
            ControlMessage::TradeExecuted { trade_qty, fill_price } => {
                match book_trade(f, trade_qty, fill_price) {
                    Some(next) => {
                        self.position.set(next);
                        ControlReply::Save
                    },
                    None => ControlReply::OutOfRange,
                }
            },
            ControlMessage::ClearPosition => {
                self.position.position_amt = zero();
                ControlReply::Save
            },
            ControlMessage::ClosePosition => {
                if f.amt.is_zero() {
                    ControlReply::NothingToClose
                } else {
                    ControlReply::Close {
                        side: closing_side(f.amt.is_positive()),
                        qty: absolute(f.amt),
                    }
                }
            },
            ControlMessage::SyncPosition => ControlReply::ReadPositions,
            ControlMessage::ForceUpdatePosition { amt, entry } => {
                if amt.equals(f.amt) {
                    return ControlReply::Quiet;
                }
                if amt.is_zero() {
                    self.position.position_amt = zero();
                } else {
                    let price = price_or(book.best_bid(), entry);
                    self.position.set(Figures { amt, entry, high: price, low: price });
                }
                ControlReply::Save
            },
            ControlMessage::PauseTrading => {
                self.paused = true;
                ControlReply::Quiet
            },
            ControlMessage::ResumeTrading => {
                self.paused = false;
                ControlReply::Quiet
            },
            ControlMessage::AllowShorting(yes) => {
                self.allow_short = yes;
                ControlReply::Quiet
            },
        }
    }

    /// Takes the answer to an order that was to close the position: it is gone if the order was
    /// accepted.
    pub fn close_answered(&mut self, accepted: bool)
        ensures
            final(self).same_market(&*old(self)),
            final(self).paused == old(self).paused,
            final(self).allow_short == old(self).allow_short,
            final(self).position.figures() == (if accepted {
                Figures { amt: zero(), ..old(self).position.figures() }
            } else {
                old(self).position.figures()
            }),
    {
        if accepted {
            self.position.position_amt = zero();
        }
    }

    /// The figures after the exchange's list of positions was read, and what is told.
    pub open spec fn synced(&self, items: Seq<JsonView>, book: OrderBook) -> (Figures, SyncReply) {
        let f = self.position.figures();
        match position_entry(items, self.position.symbol@, 0) {
            None => (f, SyncReply::NotFound),
            Some(item) => {
                let amt = or_else(item.dec_field("positionAmt"@), zero());
                if amt.units() == 0 {
                    (Figures { amt: zero(), ..f }, SyncReply::Flat)
                } else {
                    let entry = or_else(item.dec_field("entryPrice"@), zero());
                    let price = top_price(
                        if amt.units() > 0 { book.top_bid() } else { book.top_ask() },
                        entry,
                    );
                    (taken_over(amt, entry, book), SyncReply::TakenOver { amt, entry, price })
                }
            },
        }
    }

    /// Takes the position over from the exchange's list of positions.
    pub fn sync_position(&mut self, positions: &str, book: &OrderBook) -> (r: SyncReply)
        ensures
            (final(self).position.figures(), r) == old(self).synced(
                items_of_text(positions@),
                *book,
            ),
            final(self).same_market(&*old(self)),
            final(self).paused == old(self).paused,
            final(self).allow_short == old(self).allow_short,
    {
        let items = parse_items(positions);
        let ghost all = items_of_text(positions@);
        let ghost symbol = self.position.symbol@;
        let mut i: usize = 0;
        while i < items.len()
            invariant
                i <= items.len(),
                all == items_of_text(positions@),
                all == views(items@),
                symbol == self.position.symbol@,
                *self == *old(self),
                position_entry(all, symbol, 0) == position_entry(all, symbol, i as int),
            decreases items.len() - i,
        {
            assert(all[i as int] == items@[i as int]@);
            let listed = match items[i].text_field("symbol") {
                Some(s) => s,
                None => "",
            };
            if same(listed, self.position.symbol.as_str()) {
                let amt = or_else(items[i].dec_field("positionAmt"), zero());
                if amt.is_zero() {
                    self.position.position_amt = zero();
                    return SyncReply::Flat;
                }
                let entry = or_else(items[i].dec_field("entryPrice"), zero());
                let price = if amt.is_positive() {
                    price_or(book.best_bid(), entry)
                } else {
                    price_or(book.best_ask(), entry)
                };
                let high = if price.above(entry) { price } else { entry };
                let low = if price.below(entry) && price.is_positive() { price } else { entry };
                self.position.set(Figures { amt, entry, high, low });
                return SyncReply::TakenOver { amt, entry, price };
            }
            i = i + 1;
        }
        SyncReply::NotFound
    }
}

/// The flows after a trade: what was sold where the buyer's order was waiting, else what was bought.
pub open spec fn flows_after(f: Flows, qty: Dec, price: Dec, is_buyer_maker: bool) -> Option<Flows> {
    let notional = product(Some(qty), Some(price));
    if is_buyer_maker {
        match (sum(Some(f.fast_sell), notional), sum(Some(f.slow_sell), notional)) {
            (Some(fast_sell), Some(slow_sell)) => Some(Flows { fast_sell, slow_sell, ..f }),
            _ => None,
        }
    } else {
        match (sum(Some(f.fast_buy), notional), sum(Some(f.slow_buy), notional)) {
            (Some(fast_buy), Some(slow_buy)) => Some(Flows { fast_buy, slow_buy, ..f }),
            _ => None,
        }
    }
}

/// The flows with what the time since the last look has taken from them.
pub open spec fn decayed(f: Flows, decays: Option<(Dec, Dec)>) -> Option<Flows> {
    match decays {
        None => Some(f),
        Some((fast, slow)) => match (
            product(Some(f.fast_buy), Some(fast)),
            product(Some(f.fast_sell), Some(fast)),
            product(Some(f.slow_buy), Some(slow)),
            product(Some(f.slow_sell), Some(slow)),
        ) {
            (Some(fast_buy), Some(fast_sell), Some(slow_buy), Some(slow_sell)) => Some(
                Flows { fast_buy, fast_sell, slow_buy, slow_sell },
            ),
            _ => None,
        },
    }
}

fn decay(f: Flows, decays: Option<(Dec, Dec)>) -> (r: Option<Flows>)
    ensures
        r == decayed(f, decays),
{
    match decays {
        None => Some(f),
        Some((fast, slow)) => {
            let a = product(Some(f.fast_buy), Some(fast));
            let b = product(Some(f.fast_sell), Some(fast));
            let c = product(Some(f.slow_buy), Some(slow));
            let d = product(Some(f.slow_sell), Some(slow));
            match (a, b, c, d) {
                (Some(fast_buy), Some(fast_sell), Some(slow_buy), Some(slow_sell)) => Some(
                    Flows { fast_buy, fast_sell, slow_buy, slow_sell },
                ),
                _ => None,
            }
        },
    }
}

/// The quantities of the first `n` levels, each weighted with four fifths of the weight before it,
/// and the weight of the next.
pub open spec fn weighted(side: Seq<Level>, n: nat) -> (Option<Dec>, Option<Dec>)
    decreases n,
{
    if n == 0 {
        (Some(zero()), Some(lit(10, 1)))
    } else {
        let (total, weight) = weighted(side, (n - 1) as nat);
        (
            sum(total, product(Some(side[n - 1].qty), weight)),
            product(weight, Some(lit(8, 1))),
        )
    }
}

/// The weighted quantity of the ten best levels.
pub open spec fn depth(side: Seq<Level>) -> Option<Dec> {
    weighted(side, if side.len() < 10 { side.len() } else { 10 }).0
}

fn weigh(book: &OrderBook, is_bid: bool) -> (r: Option<Dec>)
    ensures
        r == depth(book.best_first(is_bid)),
{
    let ghost side = book.best_first(is_bid);
    let mut total = Some(zero());
    let mut weight = Some(lit(10, 1));
    let mut n: usize = 0;
    while n < 10
        invariant
            n <= 10,
            n <= side.len(),
            side == book.best_first(is_bid),
            (total, weight) == weighted(side, n as nat),
        ensures
            (total, weight) == weighted(side, n as nat),
            n == (if side.len() < 10 { side.len() } else { 10 }),
        decreases 10 - n,
    {
        match book.level(is_bid, n) {
            Some(l) => {
                total = sum(total, product(Some(l.qty), weight));
                weight = product(weight, Some(lit(8, 1)));
            },
            None => {
                break ;
            },
        }
        n = n + 1;
    }
    total
}

/// How far the book leans to one side: the difference of the two depths over their sum, zero for an
/// empty book.
pub open spec fn imbalance(book: OrderBook) -> Option<Dec> {
    let bids = depth(book.best_first(true));
    let asks = depth(book.best_first(false));
    match sum(bids, asks) {
        None => None,
        Some(all) => if all.units() > 0 {
            quotient(difference(bids, asks), Some(all))
        } else {
            Some(zero())
        },
    }
}

/// A figure for two depths leans to the side of the larger one: it is above zero only where there are more
/// bids, below zero only where there are more asks, surely so where the difference is not too small a part of
/// the whole, and where the figures are decimals it is the difference over the sum.
pub open spec fn leans(bids: int, asks: int, figure: Dec) -> bool {
    &&& bids >= asks ==> figure.units() >= 0
    &&& bids <= asks ==> figure.units() <= 0
    &&& bids + asks <= 0 ==> figure.units() == 0
    &&& bids + asks > 1 && bids - asks >= 4 && (bids - asks) * unit() >= 8 * (bids + asks)
        ==> figure.units() > 0
    &&& bids + asks > 1 && asks - bids >= 4 && (asks - bids) * unit() >= 8 * (bids + asks)
        ==> figure.units() < 0
    &&& forall|all: Dec, lead: Dec, e: Dec|
        all.wf() && lead.wf() && e.wf() && all.units() == bids + asks && all.units() > 1 && lead.units()
            == bids - asks && #[trigger] (e.units() * all.units()) == #[trigger] (lead.units() * unit())
            ==> figure.units() == e.units()
}

/// The difference of two depths over their sum leans to the side of the larger one.
proof fn lemma_leans(bids: int, asks: int, all: Dec, lead: Dec, figure: Dec)
    requires
        rounded(Some(all), bids + asks, 1),
        rounded(Some(lead), bids - asks, 1),
        all.units() > 0,
        rounded(Some(figure), lead.units() * unit(), all.units()),
    ensures
        leans(bids, asks, figure),
{
    lemma_rounded_sign(all, bids + asks, 1);
    lemma_rounded_sign(lead, bids - asks, 1);
    lemma_rounded_sign(figure, lead.units() * unit(), all.units());
    if bids + asks > 1 {
        assert(all.units() <= 2 * (bids + asks));
        if bids - asks >= 4 && (bids - asks) * unit() >= 8 * (bids + asks) {
            assert(2 * lead.units() >= bids - asks);
            assert(lead.units() * unit() >= 2 * all.units());
        }
        if asks - bids >= 4 && (asks - bids) * unit() >= 8 * (bids + asks) {
            assert(2 * lead.units() <= bids - asks);
            assert(lead.units() * unit() <= -2 * all.units());
        }
    }
    assert forall|s: Dec, d: Dec, e: Dec|
        s.wf() && d.wf() && e.wf() && s.units() == bids + asks && s.units() > 1 && d.units() == bids - asks
            && #[trigger] (e.units() * s.units()) == #[trigger] (d.units() * unit()) implies figure.units()
        == e.units() by {
        assert(s.units() * 1 == bids + asks);
        assert(d.units() * 1 == bids - asks);
        assert(all.units() == s.units() && lead.units() == d.units());
    }
}

/// How far the book leans to one side: to the side that is deeper, by the difference over the whole.
pub fn book_imbalance(book: &OrderBook) -> (r: Option<Dec>)
    ensures
        r == imbalance(*book),
        r matches Some(figure) ==> depth(book.best_first(true)) is Some && depth(book.best_first(false)) is Some
            && leans(
            depth(book.best_first(true))->0.units(),
            depth(book.best_first(false))->0.units(),
            figure,
        ),
{
    let bids = weigh(book, true);
    let asks = weigh(book, false);
    let r = match sum(bids, asks) {
        None => None,
        Some(all) => if all.is_positive() {
            quotient(difference(bids, asks), Some(all))
        } else {
            Some(zero())
        },
    };
    proof {
        if r is Some {
            let all = sum(bids, asks)->0;
            lemma_rounded_sign(all, bids->0.units() + asks->0.units(), 1);
            if all.units() > 0 {
                let lead = difference(bids, asks)->0;
                lemma_leans(bids->0.units(), asks->0.units(), all, lead, r->0);
            }
        }
    }
    r
}

/// The book leans to the side that is deeper: the imbalance is the difference of the two depths over their
/// sum, above zero where there are more bids and below it where there are more asks. So two books with the
/// depths exchanged lean to opposite sides.
pub proof fn book_leans_to_deeper_side(book: OrderBook, bids: Dec, asks: Dec, figure: Dec)
    requires
        arithmetic(),
        bids.wf(),
        asks.wf(),
        depth(book.best_first(true)) == Some(bids),
        depth(book.best_first(false)) == Some(asks),
        imbalance(book) == Some(figure),
    ensures
        leans(bids.units(), asks.units(), figure),
{
    lemma_lit(0, 0);
    lemma_units_sign(zero());
    lemma_sum(bids, asks);
    lemma_difference(bids, asks);
    let all = sum_of(bids, asks)->0;
    lemma_rounded_sign(all, bids.units() + asks.units(), 1);
    if all.units() > 0 {
        lemma_quotient(difference_of(bids, asks)->0, all);
        lemma_leans(bids.units(), asks.units(), all, difference_of(bids, asks)->0, figure);
    }
}

/// The ten best levels of a side count, the best fully and each next one four fifths of the one before. Said
/// for quantities, weighted quantities and sums that are decimals.
pub proof fn depth_weighs_levels(side: Seq<Level>, terms: Seq<Dec>, sums: Seq<Dec>)
    requires
        arithmetic(),
        depth(side) is Some,
        terms.len() == (if side.len() < 10 { side.len() } else { 10 }),
        sums.len() == terms.len() + 1,
        sums[0].units() == 0,
        forall|i: int|
            0 <= i < terms.len() ==> (#[trigger] terms[i]).wf() && side[i].qty.wf() && terms[i].units() * pow(
                10,
                i as nat,
            ) == side[i].qty.units() * pow(8, i as nat),
        forall|i: int|
            0 <= i < terms.len() ==> (#[trigger] sums[i + 1]).wf() && sums[i + 1].units() == sums[i].units()
                + terms[i].units(),
    ensures
        depth(side)->0.units() == sums[terms.len() as int].units(),
{
    lemma_weighted(side, terms, sums, terms.len());
}

/// The weight of a level is a decimal.
proof fn lemma_weight(n: nat) -> (w: Dec)
    requires
        n <= 10,
    ensures
        w.wf(),
        w.units() * pow(10, n) == pow(8, n) * unit(),
{
    reveal_with_fuel(pow, 11);
    let k = pow(8, n);
    assert(0 < k < 0x1_0000_0000) by {
        assert(k == 1 || k == 8 || k == 64 || k == 512 || k == 4096 || k == 32768 || k == 262144 || k
            == 2097152 || k == 16777216 || k == 134217728 || k == 1073741824);
    }
    let w = lit(k as u32, n as u32);
    lemma_lit(k as u32, n as u32);
    lemma_unit();
    lemma_pow_adds(10, (28 - n) as nat, n);
    reveal(Dec::units);
    let (a, b) = (pow(10, (28 - n) as nat), pow(10, n));
    assert((k * a) * b == k * (a * b)) by (nonlinear_arith);
    w
}

proof fn lemma_weighted(side: Seq<Level>, terms: Seq<Dec>, sums: Seq<Dec>, n: nat)
    requires
        arithmetic(),
        n <= terms.len() <= 10,
        n <= side.len(),
        sums.len() == terms.len() + 1,
        weighted(side, n).0 is Some,
        sums[0].units() == 0,
        forall|i: int|
            0 <= i < terms.len() ==> (#[trigger] terms[i]).wf() && side[i].qty.wf() && terms[i].units() * pow(
                10,
                i as nat,
            ) == side[i].qty.units() * pow(8, i as nat),
        forall|i: int|
            0 <= i < terms.len() ==> (#[trigger] sums[i + 1]).wf() && sums[i + 1].units() == sums[i].units()
                + terms[i].units(),
    ensures
        weighted(side, n).0->0.wf(),
        weighted(side, n).0->0.units() == sums[n as int].units(),
        weighted(side, n).1 matches Some(w) ==> w.wf() && w.units() * pow(10, n) == pow(8, n) * unit(),
    decreases n,
{
    lemma_lit(0, 0);
    lemma_units_sign(zero());
    lemma_lit(10, 1);
    lemma_lit_units(10, 1);
    lemma_lit(8, 1);
    lemma_lit_units(8, 1);
    if n == 0 {
        assert(pow(10, 0) == 1 && pow(8, 0) == 1) by {
            reveal(pow);
        }
    } else {
        let m = (n - 1) as nat;
        lemma_weighted(side, terms, sums, m);
        let total = weighted(side, m).0->0;
        let weight = weighted(side, m).1->0;
        let qty = side[m as int].qty;
        let term = terms[m as int];
        assert(sums[m as int + 1].wf());
        lemma_product(qty, weight);
        let (t, e) = (pow(10, m), pow(8, m));
        lemma_pow_positive(10, m);
        assert(term.units() * unit() == qty.units() * weight.units()) by {
            let (x, q, w, u) = (term.units(), qty.units(), weight.units(), unit());
            assert((x * u) * t == (q * w) * t) by (nonlinear_arith)
                requires
                    x * t == q * e,
                    w * t == e * u,
            ;
            assert(x * u == q * w) by (nonlinear_arith)
                requires
                    (x * u) * t == (q * w) * t,
                    t > 0,
            ;
        }
        let p = product_of(qty, weight)->0;
        assert(p.units() == term.units());
        lemma_sum(total, p);
        assert(sums[m as int + 1].units() * 1 == total.units() + p.units());
        lemma_product(weight, lit(8, 1));
        let w = lemma_weight(n);
        assert(pow(10, n) == 10 * t && pow(8, n) == 8 * e) by {
            reveal(pow);
        }
        assert(w.units() * unit() == weight.units() * lit(8, 1).units()) by {
            let (x, y, u) = (w.units(), weight.units(), unit());
            assert((10 * x) * t == (8 * y) * t) by (nonlinear_arith)
                requires
                    x * (10 * t) == (8 * e) * u,
                    y * t == e * u,
            ;
            assert(10 * x == 8 * y) by (nonlinear_arith)
                requires
                    (10 * x) * t == (8 * y) * t,
                    t > 0,
            ;
            assert(lit(8, 1).units() == 800000000000000000000000000 * 10);
        }
    }
}

/// The highest of the first `n` prices, zero at least.
pub open spec fn highest(prices: Seq<Dec>, n: int) -> Dec
    decreases n,
{
    if n <= 0 {
        zero()
    } else {
        larger(highest(prices, n - 1), prices[n - 1])
    }
}

/// The lowest of the first `n` prices, 999999999 at most.
pub open spec fn lowest(prices: Seq<Dec>, n: int) -> Dec
    decreases n,
{
    if n <= 0 {
        lit(999999999, 0)
    } else {
        smaller(lowest(prices, n - 1), prices[n - 1])
    }
}

fn extremes(prices: &VecDeque<Dec>) -> (r: (Dec, Dec))
    ensures
        r.0 == highest(prices@, prices@.len() as int),
        r.1 == lowest(prices@, prices@.len() as int),
{
    let mut high = zero();
    let mut low = lit(999999999, 0);
    let mut i: usize = 0;
    while i < prices.len()
        invariant
            i <= prices@.len(),
            high == highest(prices@, i as int),
            low == lowest(prices@, i as int),
        decreases prices@.len() - i,
    {
        high = larger(high, prices[i]);
        low = smaller(low, prices[i]);
        i = i + 1;
    }
    (high, low)
}

/// The window of prices with the newest put in and the oldest taken out.
pub open spec fn rolled(prices: Seq<Dec>, newest: Dec) -> Seq<Dec> {
    (if prices.len() > 0 { prices.drop_first() } else { prices }).push(newest)
}

/// How many nanoseconds have passed since a moment.
pub open spec fn since(then: u64, now: u64) -> int {
    if now >= then { now - then } else { 0 }
}

/// Whether less than so many nanoseconds have passed since a moment, if there was one.
pub open spec fn within(then: Option<u64>, now: u64, span: int) -> bool {
    then is Some && since(then->0, now) < span
}

fn is_within(then: Option<u64>, now: u64, span: u64) -> (r: bool)
    ensures
        r == within(then, now, span as int),
{
    match then {
        Some(t) => if now >= t { now - t < span } else { 0 < span },
        None => false,
    }
}

/// What the book showed: its best prices, its imbalance, and the extremes of the window before.
#[derive(Clone, Copy, Debug)]
pub struct Scan {
    pub bid: Dec,
    pub ask: Dec,
    pub obi: Dec,
    pub high: Dec,
    pub low: Dec,
}

/// The end of a position: the order that closes it, the price, and what it brings.
#[derive(Clone, Copy, Debug)]
pub struct ExitReport {
    pub side: Side,
    pub qty: Dec,
    pub price: Dec,
    pub gross_pct: Dec,
    pub net_pct: Dec,
    pub gross_usdt: Dec,
    pub fee_usdt: Dec,
    pub net_usdt: Dec,
}

/// What a look at the book led to.
#[derive(Clone, Copy, Debug)]
pub enum Market {
    /// A side of the book is empty.
    NoBook,
    /// A figure is out of range.
    OutOfRange,
    /// The window of prices is not full yet.
    Warming,
    /// There is no position, and the last signal was a moment ago.
    Cooling,
    /// There is no position. Whether the funding rate is to be read first.
    Flat { scan: Scan, fetch_funding: bool },
    /// The position is kept. Whether it is to be stored.
    Keep { changed: bool },
    /// The position is to be closed, but an order was refused a moment ago.
    Wait,
    /// The position is to be closed. Whether it is to be stored if that fails.
    Exit { report: ExitReport, changed: bool },
}

/// What closing a position at a price brings.
pub open spec fn exit_report(long: bool, f: Figures, price: Dec, fee_pct: Dec) -> Option<
    ExitReport,
> {
    let size = absolute(f.amt);
    let gain = if long {
        difference(Some(price), Some(f.entry))
    } else {
        difference(Some(f.entry), Some(price))
    };
    let gross_pct = gain_pct(long, price, f.entry);
    let net_pct = difference(gross_pct, Some(fee_pct));
    let gross = product(gain, Some(size));
    let fee = product(
        sum(product(Some(size), Some(f.entry)), product(Some(size), Some(price))),
        Some(lit(5, 4)),
    );
    let net = difference(gross, fee);
    if gross_pct is Some && net_pct is Some && gross is Some && fee is Some && net is Some {
        Some(
            ExitReport {
                side: closing_side(long),
                qty: normal(size),
                price,
                gross_pct: gross_pct->0,
                net_pct: net_pct->0,
                gross_usdt: gross->0,
                fee_usdt: fee->0,
                net_usdt: net->0,
            },
        )
    } else {
        None
    }
}

/// An order takes a position to nothing: its quantity is above zero, and the position and the order, a purchase
/// counted up and a sale down, add up to zero.
pub open spec fn takes_to_nothing(amt: Dec, side: Side, qty: Dec) -> bool {
    &&& qty.units() > 0
    &&& amt.units() + (if side == Side::Buy { qty.units() } else { -qty.units() }) == 0
}

/// What the end of a position brings, said of its figures: the gain in percent of the entry price and in money,
/// a gain where the price has moved in favour of the position and a loss where it has moved against it, five
/// ten-thousandths of what was paid and of what is paid now as the fee, and what is left of the gain after it.
pub open spec fn settles(long: bool, f: Figures, price: Dec, fee_pct: Dec, x: ExitReport) -> bool {
    let g = gain(long, price.units(), f.entry.units());
    let size = size_of(f.amt);
    &&& x.price == price
    &&& rounded(Some(x.net_usdt), x.gross_usdt.units() - x.fee_usdt.units(), 1)
    &&& rounded(Some(x.net_pct), x.gross_pct.units() - fee_pct.units(), 1)
    &&& f.entry.units() > 0 ==> amounts_to(long, price.units(), f.entry.units(), x.gross_pct.units())
    &&& g >= 0 ==> x.gross_usdt.units() >= 0
    &&& g <= 0 ==> x.gross_usdt.units() <= 0
    &&& forall|d: Dec, e: Dec|
        d.wf() && e.wf() && d.units() == g && #[trigger] (e.units() * unit()) == #[trigger] (d.units() * size)
            ==> x.gross_usdt.units() == e.units()
    &&& forall|paid: Dec, now: Dec, both: Dec, e: Dec|
        paid.wf() && now.wf() && both.wf() && e.wf() && #[trigger] (paid.units() * unit()) == size
            * f.entry.units() && #[trigger] (now.units() * unit()) == size * price.units() && both.units()
            == paid.units() + now.units() && #[trigger] (e.units() * 10000) == #[trigger] (both.units() * 5)
            ==> x.fee_usdt.units() == e.units()
}

/// Gains, fees and what is left of a gain, from the results of which they were made.
proof fn lemma_settles(
    long: bool,
    f: Figures,
    price: Dec,
    fee_pct: Dec,
    x: ExitReport,
    g: Dec,
    paid: Dec,
    now: Dec,
    both: Dec,
)
    requires
        x.price == price,
        rounded(Some(x.net_usdt), x.gross_usdt.units() - x.fee_usdt.units(), 1),
        rounded(Some(x.net_pct), x.gross_pct.units() - fee_pct.units(), 1),
        f.entry.units() > 0 ==> amounts_to(long, price.units(), f.entry.units(), x.gross_pct.units()),
        rounded(Some(g), gain(long, price.units(), f.entry.units()), 1),
        rounded(Some(x.gross_usdt), g.units() * size_of(f.amt), unit()),
        rounded(Some(paid), size_of(f.amt) * f.entry.units(), unit()),
        rounded(Some(now), size_of(f.amt) * price.units(), unit()),
        rounded(Some(both), paid.units() + now.units(), 1),
        rounded(Some(x.fee_usdt), both.units() * lit(5, 4).units(), unit()),
    ensures
        settles(long, f, price, fee_pct, x),
{
    let size = size_of(f.amt);
    let to = gain(long, price.units(), f.entry.units());
    let gs = g.units() * size;
    lemma_lit_units(5, 4);
    lemma_rounded_sign(g, to, 1);
    lemma_rounded_sign(x.gross_usdt, gs, unit());
    assert(g.units() >= 0 ==> gs >= 0) by (nonlinear_arith)
        requires
            gs == g.units() * size,
            size >= 0,
    ;
    assert(g.units() <= 0 ==> gs <= 0) by (nonlinear_arith)
        requires
            gs == g.units() * size,
            size >= 0,
    ;
    assert forall|d: Dec, e: Dec|
        d.wf() && e.wf() && d.units() == to && #[trigger] (e.units() * unit()) == #[trigger] (d.units()
            * size) implies x.gross_usdt.units() == e.units() by {
        assert(d.units() * 1 == to);
        assert(g.units() == d.units());
    }
    assert forall|a: Dec, b: Dec, c: Dec, e: Dec|
        a.wf() && b.wf() && c.wf() && e.wf() && #[trigger] (a.units() * unit()) == size * f.entry.units()
            && #[trigger] (b.units() * unit()) == size * price.units() && c.units() == a.units() + b.units()
            && #[trigger] (e.units() * 10000) == #[trigger] (c.units() * 5) implies x.fee_usdt.units()
        == e.units() by {
        assert(paid.units() == a.units() && now.units() == b.units());
        assert(c.units() * 1 == paid.units() + now.units());
        assert(both.units() == c.units());
        assert(lit(5, 4).units() == 5000000000000000000000000);
        assert(e.units() * unit() == both.units() * lit(5, 4).units()) by (nonlinear_arith)
            requires
                e.units() * 10000 == both.units() * 5,
                lit(5, 4).units() == 5000000000000000000000000,
        ;
    }
}

/// Works out what closing a position at a price brings. The order takes the position to nothing.
pub fn report_exit(long: bool, f: Figures, price: Dec, fee_pct: Dec) -> (r: Option<ExitReport>)
    ensures
        r == exit_report(long, f, price, fee_pct),
        r matches Some(x) ==> x.qty.units() == distance(f.amt.units()),
        r matches Some(x) ==> f.amt.units() != 0 && long == (f.amt.units() > 0) ==> takes_to_nothing(
            f.amt,
            x.side,
            x.qty,
        ),
        r matches Some(x) ==> settles(long, f, price, fee_pct, x),
{
    let size = absolute(f.amt);
    proof {
        lemma_absolute(f.amt);
    }
    let gain = if long {
        difference(Some(price), Some(f.entry))
    } else {
        difference(Some(f.entry), Some(price))
    };
    let gross_pct = gain_pct(long, price, f.entry);
    let net_pct = difference(gross_pct, Some(fee_pct));
    let gross = product(gain, Some(size));
    let paid = product(Some(size), Some(f.entry));
    let now = product(Some(size), Some(price));
    let both = sum(paid, now);
    let fee = product(both, Some(lit(5, 4)));
    let net = difference(gross, fee);
    match (gross_pct, net_pct, gross, fee, net) {
        (Some(gross_pct), Some(net_pct), Some(gross_usdt), Some(fee_usdt), Some(net_usdt)) => {
            let x = ExitReport {
                side: closing_side(long),
                qty: normal(size),
                price,
                gross_pct,
                net_pct,
                gross_usdt,
                fee_usdt,
                net_usdt,
            };
            proof {
                lemma_settles(long, f, price, fee_pct, x, gain->0, paid->0, now->0, both->0);
            }
            Some(x)
        },
        _ => None,
    }
}

/// The order that ends a position takes it to nothing: a sale for a long position and a purchase for a short
/// one, of its whole size without its sign; and its figures are those of the gain, the fee and what is left.
pub proof fn exit_takes_all(long: bool, f: Figures, price: Dec, fee_pct: Dec, x: ExitReport)
    requires
        arithmetic(),
        f.amt.wf(),
        f.entry.wf(),
        price.wf(),
        fee_pct.wf(),
        f.amt.units() != 0,
        long == (f.amt.units() > 0),
        exit_report(long, f, price, fee_pct) == Some(x),
    ensures
        takes_to_nothing(f.amt, x.side, x.qty),
        settles(long, f, price, fee_pct, x),
{
    let size = absolute(f.amt);
    lemma_absolute(f.amt);
    lemma_normal(size);
    lemma_lit(5, 4);
    lemma_difference(price, f.entry);
    lemma_difference(f.entry, price);
    let g = if long { difference_of(price, f.entry)->0 } else { difference_of(f.entry, price)->0 };
    lemma_product(g, size);
    lemma_product(size, f.entry);
    lemma_product(size, price);
    let (paid, now) = (product_of(size, f.entry)->0, product_of(size, price)->0);
    lemma_sum(paid, now);
    let both = sum_of(paid, now)->0;
    lemma_product(both, lit(5, 4));
    lemma_difference(x.gross_usdt, x.fee_usdt);
    if f.entry.units() > 0 {
        gains_are_percentages(long, price, f.entry, x.gross_pct);
    }
    assert(x.gross_pct.wf()) by {
        lemma_lit(100, 0);
        lemma_quotient(g, f.entry);
        lemma_product(quotient_of(g, f.entry)->0, lit(100, 0));
    }
    lemma_difference(x.gross_pct, fee_pct);
    lemma_settles(long, f, price, fee_pct, x, g, paid, now, both);
}

/// A message that closes the position asks for an order that takes it to nothing, where there is one.
pub proof fn close_takes_all(engine: &StrategyEngine, book: OrderBook)
    ensures
        ({
            let amt = engine.position.position_amt;
            let (next, reply) = engine.controlled(ControlMessage::ClosePosition, book);
            &&& next == engine.position.figures()
            &&& amt.units() == 0 ==> reply is NothingToClose
            &&& amt.units() != 0 ==> (reply matches ControlReply::Close { side, qty } && takes_to_nothing(amt, side, qty))
        }),
{
    lemma_absolute(engine.position.position_amt);
}

/// Where a look at the book ends a position, the order takes it to nothing, at the price that the position can
/// be closed at: the bid for a long one, the ask for a short one.
pub proof fn stop_takes_all(engine: &StrategyEngine, bid: Dec, ask: Dec, now: u64, x: ExitReport, changed: bool)
    requires
        arithmetic(),
        engine.position.position_amt.wf(),
        engine.position.entry_price.wf(),
        engine.round_trip_fee_pct.wf(),
        bid.wf(),
        ask.wf(),
        engine.position.position_amt.units() != 0,
        engine.held_market(bid, ask, now) == (Market::Exit { report: x, changed }),
    ensures
        takes_to_nothing(engine.position.position_amt, x.side, x.qty),
        x.price == (if engine.position.position_amt.units() > 0 { bid } else { ask }),
{
    let f = engine.figures_now(bid, ask);
    let long = f.amt.units() > 0;
    exit_takes_all(long, f, if long { bid } else { ask }, engine.round_trip_fee_pct, x);
}

/// The stop price of a position: behind its best price once the gain is large enough, before that
/// behind its entry price.
pub open spec fn stop_of(
    long: bool,
    best: Dec,
    entry: Dec,
    activation: Dec,
    trailing: Dec,
    initial: Dec,
) -> Option<Dec> {
    match gain_pct(long, best, entry) {
        None => None,
        Some(gained) => if gained.units() >= activation.units() {
            line(long, best, trailing)
        } else {
            line(long, entry, initial)
        },
    }
}

/// The stop price of a position. Once it follows the best price it is on the profitable side of the
/// entry price, as long as giving back the trailing percentage leaves no loss.
pub fn stop_price(
    long: bool,
    best: Dec,
    entry: Dec,
    activation: Dec,
    trailing: Dec,
    initial: Dec,
) -> (r: Option<Dec>)
    ensures
        r == stop_of(long, best, entry, activation, trailing, initial),
        (r is Some && best.units() > 0 && entry.units() > 0 && gain_pct(long, best, entry)->0.units()
            >= activation.units() && leaves_no_loss(long, activation.units(), trailing.units()))
            ==> keeps_profit(long, r->0.units(), entry.units(), activation.units()),
        r is Some && entry.units() > 0 ==> amounts_to(
            long,
            best.units(),
            entry.units(),
            gain_pct(long, best, entry)->0.units(),
        ),
        r is Some && best.units() > 0 && 0 <= trailing.units() <= 5 * whole() && gain_pct(
            long,
            best,
            entry,
        )->0.units() >= activation.units() ==> lies_behind(
            long,
            r->0.units(),
            best.units(),
            trailing.units(),
        ),
        r is Some && entry.units() > 0 && 0 <= initial.units() <= 5 * whole() && gain_pct(
            long,
            best,
            entry,
        )->0.units() < activation.units() ==> lies_behind(
            long,
            r->0.units(),
            entry.units(),
            initial.units(),
        ),
{
    match gain_pct(long, best, entry) {
        None => None,
        Some(gained) => if !gained.below(activation) {
            let r = line(long, best, trailing);
            proof {
                use_type_invariant(&activation);
                lemma_units_bound(activation);
                if r is Some && best.units() > 0 && entry.units() > 0 && leaves_no_loss(
                    long,
                    activation.units(),
                    trailing.units(),
                ) {
                    lemma_reached_further(
                        long,
                        best.units(),
                        best.units(),
                        entry.units(),
                        gained.units(),
                        activation.units(),
                    );
                    lemma_reached_bounds(
                        long,
                        best.units(),
                        entry.units(),
                        activation.units(),
                    );
                    lemma_keeps_profit(
                        long,
                        best.units(),
                        entry.units(),
                        activation.units(),
                        trailing.units(),
                        r->0.units(),
                    );
                }
            }
            r
        } else {
            line(long, entry, initial)
        },
    }
}

/// A breakout: which way, how strong, at which price an order would trade, and the price that broke
/// out.
#[derive(Clone, Copy, Debug)]
pub struct Breakout {
    pub side: Side,
    pub strength: Strength,
    pub price: Dec,
    pub seen: Dec,
}

/// How strong a breakout is, by the imbalance towards it, the fast and the slow flow with it and
/// against it.
pub open spec fn strength_of(
    leans: bool,
    fast: Dec,
    fast_against: Dec,
    slow: Dec,
    slow_against: Dec,
) -> Option<Strength> {
    let fast_limit = product(Some(fast_against), Some(lit(30, 1)));
    let slow_limit = product(Some(slow_against), Some(lit(15, 1)));
    if leans && fast_limit is None || slow_limit is None {
        None
    } else {
        let strong_fast = leans && fast.units() > fast_limit->0.units() && fast.units() > lit(
            150000,
            1,
        ).units();
        let strong_slow = slow.units() > slow_limit->0.units() && slow.units() > lit(
            30000,
            0,
        ).units();
        Some(
            if strong_fast && strong_slow {
                Strength::S
            } else if strong_fast {
                Strength::A
            } else {
                Strength::B
            },
        )
    }
}

fn measure_strength(
    leans: bool,
    fast: Dec,
    fast_against: Dec,
    slow: Dec,
    slow_against: Dec,
) -> (r: Option<Strength>)
    ensures
        r == strength_of(leans, fast, fast_against, slow, slow_against),
        r matches Some(grade) ==> forall|thrice: Dec, half: Dec|
            #![trigger thrice.units(), half.units()]
            thrice.wf() && half.wf() && thrice.units() == 3 * fast_against.units() && 2 * half.units() == 3
                * slow_against.units() ==> {
                let quick = leans && fast.units() > thrice.units() && fast.units() > 15000 * unit();
                let steady = slow.units() > half.units() && slow.units() > 30000 * unit();
                &&& grade == Strength::S <==> quick && steady
                &&& grade == Strength::A <==> quick && !steady
                &&& grade == Strength::B <==> !quick
            },
{
    proof {
        lemma_lit_units(30, 1);
        lemma_lit_units(15, 1);
        lemma_lit_units(150000, 1);
        lemma_lit_units(30000, 0);
        assert forall|e: Dec| #![trigger e.units()] e.units() == 3 * fast_against.units() implies e.units() * unit()
            == fast_against.units() * lit(30, 1).units() by {
            assert(e.units() * unit() == fast_against.units() * lit(30, 1).units()) by (nonlinear_arith)
                requires
                    e.units() == 3 * fast_against.units(),
                    lit(30, 1).units() == 30 * (unit() / 10),
            ;
        }
        assert forall|e: Dec| #![trigger e.units()] 2 * e.units() == 3 * slow_against.units() implies e.units() * unit()
            == slow_against.units() * lit(15, 1).units() by {
            assert(e.units() * unit() == slow_against.units() * lit(15, 1).units()) by (nonlinear_arith)
                requires
                    2 * e.units() == 3 * slow_against.units(),
                    lit(15, 1).units() == 15 * (unit() / 10),
            ;
        }
    }
    let strong_fast = if leans {
        match product(Some(fast_against), Some(lit(30, 1))) {
            Some(limit) => fast.above(limit) && fast.above(lit(150000, 1)),
            None => return None,
        }
    } else {
        false
    };
    let strong_slow = match product(Some(slow_against), Some(lit(15, 1))) {
        Some(limit) => slow.above(limit) && slow.above(lit(30000, 0)),
        None => return None,
    };
    Some(
        if strong_fast && strong_slow {
            Strength::S
        } else if strong_fast {
            Strength::A
        } else {
            Strength::B
        },
    )
}

impl StrategyEngine {
    /// Adds a trade to the flows. Where a figure is out of range nothing changes, and the answer is
    /// no.
    pub fn handle_trade(&mut self, trade: &AggTradeUpdate) -> (r: bool)
        ensures
            ({
                let qty = or_else(dec_of_text(trade.qty@), zero());
                let price = or_else(dec_of_text(trade.price@), zero());
                let next = flows_after(old(self).flows(), qty, price, trade.is_buyer_maker);
                &&& r == (next is Some)
                &&& final(self).flows() == if next is Some { next->0 } else { old(self).flows() }
            }),
            final(self).position == old(self).position,
            final(self).mid_price_history == old(self).mid_price_history,
            final(self).same_settings(&*old(self)),
            final(self).tick_counter == old(self).tick_counter,
            final(self).last_signal_time == old(self).last_signal_time,
            final(self).current_funding_rate == old(self).current_funding_rate,
            final(self).last_funding_fetch == old(self).last_funding_fetch,
            final(self).last_tick_time == old(self).last_tick_time,
            final(self).last_sl_error_time == old(self).last_sl_error_time,
            final(self).paused == old(self).paused,
            final(self).allow_short == old(self).allow_short,
    {
        let qty = or_else(parse_dec(trade.qty.as_str()), zero());
        let price = or_else(parse_dec(trade.price.as_str()), zero());
        let notional = product(Some(qty), Some(price));
        if trade.is_buyer_maker {
            let fast = sum(Some(self.fast_sell_flow), notional);
            let slow = sum(Some(self.slow_sell_flow), notional);
            match (fast, slow) {
                (Some(f), Some(s)) => {
                    self.fast_sell_flow = f;
                    self.slow_sell_flow = s;
                    true
                },
                _ => false,
            }
        } else {
            let fast = sum(Some(self.fast_buy_flow), notional);
            let slow = sum(Some(self.slow_buy_flow), notional);
            match (fast, slow) {
                (Some(f), Some(s)) => {
                    self.fast_buy_flow = f;
                    self.slow_buy_flow = s;
                    true
                },
                _ => false,
            }
        }
    }

    /// The best price of the position once the book has been looked at.
    pub open spec fn best_now(&self, bid: Dec, ask: Dec) -> Dec {
        let f = self.position.figures();
        if f.amt.units() > 0 { larger(f.high, bid) } else { smaller(f.low, ask) }
    }

    /// The figures of the position once the book has been looked at.
    pub open spec fn figures_now(&self, bid: Dec, ask: Dec) -> Figures {
        let f = self.position.figures();
        if f.amt.units() > 0 {
            Figures { high: self.best_now(bid, ask), ..f }
        } else if f.amt.units() < 0 {
            Figures { low: self.best_now(bid, ask), ..f }
        } else {
            f
        }
    }

    /// What becomes of a position at these prices.
    pub open spec fn held_market(&self, bid: Dec, ask: Dec, now: u64) -> Market {
        let f = self.figures_now(bid, ask);
        let long = f.amt.units() > 0;
        let price = if long { bid } else { ask };
        let best = self.best_now(bid, ask);
        let changed = if long {
            bid.units() > self.position.highest_price_since_entry.units()
        } else {
            ask.units() < self.position.lowest_price_since_entry.units()
        };
        match stop_of(
            long,
            best,
            f.entry,
            self.activation_pct,
            self.trailing_sl_pct,
            self.initial_sl_pct,
        ) {
            None => Market::OutOfRange,
            Some(stop) => if if long {
                price.units() > stop.units()
            } else {
                price.units() < stop.units()
            } {
                Market::Keep { changed }
            } else if within(self.last_sl_error_time, now, 5000000000) {
                Market::Wait
            } else {
                match exit_report(long, f, price, self.round_trip_fee_pct) {
                    None => Market::OutOfRange,
                    Some(report) => Market::Exit { report, changed },
                }
            },
        }
    }

    /// What a look at the book leads to.
    pub open spec fn market(&self, book: OrderBook, decays: Option<(Dec, Dec)>, now: u64) -> Market {
        let obi = imbalance(book);
        if obi is None {
            Market::OutOfRange
        } else if book.top_bid() is None || book.top_ask() is None {
            Market::NoBook
        } else {
            let bid = book.top_bid()->0.price;
            let ask = book.top_ask()->0.price;
            let prices = self.mid_price_history@;
            if mid_price(book) is None || decayed(self.flows(), decays) is None {
                Market::OutOfRange
            } else if prices.len() < self.breakout_window {
                Market::Warming
            } else if self.position.position_amt.units() != 0 {
                self.held_market(bid, ask, now)
            } else if within(self.last_signal_time, now, 10000000000) {
                Market::Cooling
            } else {
                Market::Flat {
                    scan: Scan {
                        bid,
                        ask,
                        obi: obi->0,
                        high: highest(prices, prices.len() as int),
                        low: lowest(prices, prices.len() as int),
                    },
                    fetch_funding: !within(self.last_funding_fetch, now, 300000000001),
                }
            }
        }
    }

    /// Looks at the book: what the flows have lost since the last look is given by two factors, none
    /// where no time has passed. Where a side of the book is empty or a figure is out of range,
    /// nothing changes.
    pub fn evaluate_market(
        &mut self,
        book: &OrderBook,
        decays: Option<(Dec, Dec)>,
        now: u64,
    ) -> (r: Market)
        ensures
            r == old(self).market(*book, decays, now),
            final(self).position.symbol == old(self).position.symbol,
            final(self).position.is_isolated == old(self).position.is_isolated,
            final(self).same_settings(&*old(self)),
            final(self).last_signal_time == old(self).last_signal_time,
            final(self).current_funding_rate == old(self).current_funding_rate,
            final(self).last_funding_fetch == old(self).last_funding_fetch,
            final(self).last_sl_error_time == old(self).last_sl_error_time,
            final(self).paused == old(self).paused,
            final(self).allow_short == old(self).allow_short,
            r matches Market::Exit { report, .. } ==> takes_to_nothing(
                old(self).position.position_amt,
                report.side,
                report.qty,
            ),
            r is NoBook || r is OutOfRange ==> final(self).same_market(&*old(self))
                && final(self).position.figures() == old(self).position.figures(),
            !(r is NoBook || r is OutOfRange) ==> {
                let bid = book.top_bid()->0.price;
                let ask = book.top_ask()->0.price;
                &&& decayed(old(self).flows(), decays) == Some(final(self).flows())
                &&& final(self).last_tick_time == Some(now)
                &&& final(self).mid_price_history@ == window_after(
                    old(self).mid_price_history@,
                    old(self).breakout_window as nat,
                    mid_price(*book)->0,
                )
                &&& final(self).tick_counter == if r is Warming {
                    old(self).tick_counter as int
                } else {
                    (old(self).tick_counter + 1) % 0x1_0000_0000_0000_0000
                }
                &&& final(self).position.figures() == if r is Warming {
                    old(self).position.figures()
                } else {
                    old(self).figures_now(bid, ask)
                }
            },
    {
        let obi = match book_imbalance(book) {
            Some(d) => d,
            None => return Market::OutOfRange,
        };
        let (bid, ask) = match (book.best_bid(), book.best_ask()) {
            (Some(b), Some(a)) => (b.price, a.price),
            _ => return Market::NoBook,
        };
        let mid = match quotient(sum(Some(bid), Some(ask)), Some(lit(2, 0))) {
            Some(d) => d,
            None => return Market::OutOfRange,
        };
        let flows = match decay(self.flows(), decays) {
            Some(f) => f,
            None => return Market::OutOfRange,
        };
        if self.mid_price_history.len() < self.breakout_window {
            self.set_flows(flows, now);
            self.mid_price_history.push_back(mid);
            return Market::Warming;
        }
        let f = self.position.figures();
        let mut next = f;
        let verdict = if f.amt.is_zero() {
            if is_within(self.last_signal_time, now, 10000000000) {
                Market::Cooling
            } else {
                let (high, low) = extremes(&self.mid_price_history);
                Market::Flat {
                    scan: Scan { bid, ask, obi, high, low },
                    fetch_funding: !is_within(self.last_funding_fetch, now, 300000000001),
                }
            }
        } else {
            let long = f.amt.is_positive();
            let price = if long { bid } else { ask };
            let changed = if long { bid.above(f.high) } else { ask.below(f.low) };
            let best = if long { larger(f.high, bid) } else { smaller(f.low, ask) };
            if long {
                next.high = best;
            } else {
                next.low = best;
            }
            let stop = match stop_price(
                long,
                best,
                f.entry,
                self.activation_pct,
                self.trailing_sl_pct,
                self.initial_sl_pct,
            ) {
                Some(d) => d,
                None => return Market::OutOfRange,
            };
            let safe = if long { price.above(stop) } else { price.below(stop) };
            if safe {
                Market::Keep { changed }
            } else if is_within(self.last_sl_error_time, now, 5000000000) {
                Market::Wait
            } else {
                match report_exit(long, next, price, self.round_trip_fee_pct) {
                    Some(report) => Market::Exit { report, changed },
                    None => return Market::OutOfRange,
                }
            }
        };
        self.set_flows(flows, now);
        self.position.set(next);
        let _oldest = self.mid_price_history.pop_front();
        self.mid_price_history.push_back(mid);
        self.tick_counter = self.tick_counter.wrapping_add(1);
        verdict
    }

    fn set_flows(&mut self, flows: Flows, now: u64)
        ensures
            final(self).flows() == flows,
            final(self).last_tick_time == Some(now),
            final(self).position == old(self).position,
            final(self).mid_price_history == old(self).mid_price_history,
            final(self).same_settings(&*old(self)),
            final(self).tick_counter == old(self).tick_counter,
            final(self).last_signal_time == old(self).last_signal_time,
            final(self).current_funding_rate == old(self).current_funding_rate,
            final(self).last_funding_fetch == old(self).last_funding_fetch,
            final(self).last_sl_error_time == old(self).last_sl_error_time,
            final(self).paused == old(self).paused,
            final(self).allow_short == old(self).allow_short,
    {
        self.fast_buy_flow = flows.fast_buy;
        self.fast_sell_flow = flows.fast_sell;
        self.slow_buy_flow = flows.slow_buy;
        self.slow_sell_flow = flows.slow_sell;
        self.last_tick_time = Some(now);
    }
}

/// The price in the middle of the book.
pub open spec fn mid_price(book: OrderBook) -> Option<Dec> {
    quotient(
        sum(Some(book.top_bid()->0.price), Some(book.top_ask()->0.price)),
        Some(lit(2, 0)),
    )
}

/// What a look at the window says about going in.
#[derive(Clone, Copy, Debug)]
pub enum Entry {
    /// A figure is out of range.
    OutOfRange,
    /// Nothing has broken out.
    Nothing,
    /// A price has left the window.
    Broken(Breakout),
}

impl StrategyEngine {
    /// Everything but the four marks of time that the answers of others set.
    pub open spec fn same_but_times(&self, other: &StrategyEngine) -> bool {
        &&& self.position == other.position
        &&& self.mid_price_history == other.mid_price_history
        &&& self.same_settings(other)
        &&& self.flows() == other.flows()
        &&& self.tick_counter == other.tick_counter
        &&& self.last_tick_time == other.last_tick_time
        &&& self.paused == other.paused
        &&& self.allow_short == other.allow_short
    }

    /// For how many nanoseconds the flows have to be decayed, where any have passed since the last
    /// look.
    pub fn decay_due(&self, now: u64) -> (r: Option<u64>)
        ensures
            r == (match self.last_tick_time {
                Some(t) => if now > t { Some((now - t) as u64) } else { None },
                None => None,
            }),
    {
        match self.last_tick_time {
            Some(t) => if now > t { Some(now - t) } else { None },
            None => None,
        }
    }

    /// Takes a funding rate that was read.
    pub fn funding_read(&mut self, rate: Dec, now: u64)
        ensures
            final(self).current_funding_rate == rate,
            final(self).last_funding_fetch == Some(now),
            final(self).same_but_times(&*old(self)),
            final(self).last_signal_time == old(self).last_signal_time,
            final(self).last_sl_error_time == old(self).last_sl_error_time,
    {
        self.current_funding_rate = rate;
        self.last_funding_fetch = Some(now);
    }

    /// Which way the price has left the window, if it has: up where the bid is above its highest
    /// price, else down where the ask is below its lowest. Nothing counts while trading is paused, and
    /// no fall while short positions are not wanted.
    pub open spec fn entry_of(&self, scan: Scan) -> Entry {
        let f = self.flows();
        if self.paused {
            Entry::Nothing
        } else if scan.bid.units() > scan.high.units() {
            match strength_of(
                scan.obi.units() > lit(3, 1).units(),
                f.fast_buy,
                f.fast_sell,
                f.slow_buy,
                f.slow_sell,
            ) {
                None => Entry::OutOfRange,
                Some(strength) => Entry::Broken(
                    Breakout { side: Side::Buy, strength, price: scan.ask, seen: scan.bid },
                ),
            }
        } else if scan.ask.units() < scan.low.units() && self.allow_short {
            match strength_of(
                scan.obi.units() < opposite(lit(3, 1)).units(),
                f.fast_sell,
                f.fast_buy,
                f.slow_sell,
                f.slow_buy,
            ) {
                None => Entry::OutOfRange,
                Some(strength) => Entry::Broken(
                    Breakout { side: Side::Sell, strength, price: scan.bid, seen: scan.ask },
                ),
            }
        } else {
            Entry::Nothing
        }
    }

    /// Looks for a price that has left the window.
    pub fn find_entry(&self, scan: Scan) -> (r: Entry)
        ensures
            r == self.entry_of(scan),
    {
        if self.paused {
            Entry::Nothing
        } else if scan.bid.above(scan.high) {
            let leans = scan.obi.above(lit(3, 1));
            match measure_strength(
                leans,
                self.fast_buy_flow,
                self.fast_sell_flow,
                self.slow_buy_flow,
                self.slow_sell_flow,
            ) {
                None => Entry::OutOfRange,
                Some(strength) => Entry::Broken(
                    Breakout { side: Side::Buy, strength, price: scan.ask, seen: scan.bid },
                ),
            }
        } else if scan.ask.below(scan.low) && self.allow_short {
            let leans = scan.obi.below(opposite(lit(3, 1)));
            match measure_strength(
                leans,
                self.fast_sell_flow,
                self.fast_buy_flow,
                self.slow_sell_flow,
                self.slow_buy_flow,
            ) {
                None => Entry::OutOfRange,
                Some(strength) => Entry::Broken(
                    Breakout { side: Side::Sell, strength, price: scan.bid, seen: scan.ask },
                ),
            }
        } else {
            Entry::Nothing
        }
    }

    /// Makes a signal of a breakout that is strong, or that the model gives more than three chances in
    /// four.
    pub fn decide_signal(&mut self, b: Breakout, ml_prob: Dec, now: u64) -> (r: Option<SignalEvent>)
        ensures
            r is Some <==> (b.strength == Strength::S || ml_prob.units() > lit(75, 2).units()),
            r matches Some(signal) ==> signal.symbol@ == old(self).position.symbol@
                && signal.side@ == b.side.word() && signal.strength@ == b.strength.letter()
                && signal.price == b.price,
            final(self).last_signal_time == (if r is Some {
                Some(now)
            } else {
                old(self).last_signal_time
            }),
            final(self).same_but_times(&*old(self)),
            final(self).current_funding_rate == old(self).current_funding_rate,
            final(self).last_funding_fetch == old(self).last_funding_fetch,
            final(self).last_sl_error_time == old(self).last_sl_error_time,
    {
        if b.strength == Strength::S || ml_prob.above(lit(75, 2)) {
            let signal = SignalEvent {
                symbol: self.position.symbol.clone(),
                side: b.side.text().to_string(),
                strength: b.strength.text().to_string(),
                price: b.price,
            };
            self.last_signal_time = Some(now);
            Some(signal)
        } else {
            None
        }
    }

    /// Takes the answer to the order that was to end the position. The position is gone if it was
    /// accepted; if not, the order is tried again no sooner than after five seconds. Whether the
    /// refusal is to be told.
    pub fn exit_answered(&mut self, accepted: bool, now: u64) -> (tell: bool)
        ensures
            tell == (!accepted && !within(old(self).last_sl_error_time, now, 5000000000)),
            final(self).last_sl_error_time == (if tell {
                Some(now)
            } else {
                old(self).last_sl_error_time
            }),
            final(self).position.figures() == (if accepted {
                Figures { amt: zero(), ..old(self).position.figures() }
            } else {
                old(self).position.figures()
            }),
            final(self).position.symbol == old(self).position.symbol,
            final(self).position.is_isolated == old(self).position.is_isolated,
            final(self).mid_price_history == old(self).mid_price_history,
            final(self).same_settings(&*old(self)),
            final(self).flows() == old(self).flows(),
            final(self).tick_counter == old(self).tick_counter,
            final(self).last_tick_time == old(self).last_tick_time,
            final(self).last_signal_time == old(self).last_signal_time,
            final(self).current_funding_rate == old(self).current_funding_rate,
            final(self).last_funding_fetch == old(self).last_funding_fetch,
            final(self).paused == old(self).paused,
            final(self).allow_short == old(self).allow_short,
    {
        if accepted {
            self.position.position_amt = zero();
            false
        } else if is_within(self.last_sl_error_time, now, 5000000000) {
            false
        } else {
            self.last_sl_error_time = Some(now);
            true
        }
    }
}

/// A position is closed exactly where the price has come back to the stop, and no order was refused
/// within five seconds: a long one where the bid is at the stop or below, a short one where the ask is
/// at the stop or above.
pub proof fn exit_at_stop(engine: &StrategyEngine, bid: Dec, ask: Dec, now: u64, stop: Dec)
    requires
        engine.position.position_amt.units() != 0,
        ({
            let f = engine.figures_now(bid, ask);
            let long = f.amt.units() > 0;
            &&& stop_of(
                long,
                engine.best_now(bid, ask),
                f.entry,
                engine.activation_pct,
                engine.trailing_sl_pct,
                engine.initial_sl_pct,
            ) == Some(stop)
            &&& exit_report(
                long,
                f,
                if long { bid } else { ask },
                engine.round_trip_fee_pct,
            ) is Some
        }),
    ensures
        engine.held_market(bid, ask, now) is Exit <==> {
            &&& !within(engine.last_sl_error_time, now, 5000000000)
            &&& if engine.position.position_amt.units() > 0 {
                bid.units() <= stop.units()
            } else {
                ask.units() >= stop.units()
            }
        },
{
}

/// The highest price of a long position never falls, the lowest of a short one never rises, and a look
/// at the book changes neither the size nor the entry price.
pub proof fn extremes_only_widen(engine: &StrategyEngine, bid: Dec, ask: Dec)
    ensures
        ({
            let f = engine.position.figures();
            let next = engine.figures_now(bid, ask);
            &&& next.amt == f.amt && next.entry == f.entry
            &&& next.high.units() >= f.high.units()
            &&& next.low.units() <= f.low.units()
            &&& f.amt.units() > 0 ==> next.high.units() >= bid.units()
            &&& f.amt.units() < 0 ==> next.low.units() <= ask.units()
        }),
{
}

/// No entry is looked for while there is a position, nor within ten seconds of the last signal.
pub proof fn entries_are_spaced(
    engine: &StrategyEngine,
    book: OrderBook,
    decays: Option<(Dec, Dec)>,
    now: u64,
)
    requires
        engine.market(book, decays, now) is Flat,
    ensures
        engine.position.position_amt.units() == 0,
        engine.last_signal_time matches Some(t) ==> since(t, now) >= 10000000000,
{
}

/// While trading is paused no entry is found, and while short positions are not wanted none that goes
/// short.
pub proof fn paused_finds_nothing(engine: &StrategyEngine, scan: Scan)
    ensures
        engine.paused ==> engine.entry_of(scan) is Nothing,
        !engine.allow_short ==> !(engine.entry_of(scan) matches Entry::Broken(b) && b.side
            == Side::Sell),
{
}

/// The highest price of a window is no lower than any of its prices, the lowest no higher.
pub proof fn extremes_bound(prices: Seq<Dec>, n: int, i: int)
    requires
        0 <= i < n <= prices.len(),
    ensures
        prices[i].units() <= highest(prices, n).units(),
        prices[i].units() >= lowest(prices, n).units(),
    decreases n,
{
    if i < n - 1 {
        extremes_bound(prices, n - 1, i);
    }
}

/// A trade that takes a position back to nothing leaves no size behind, and one that takes part of it
/// keeps the entry price.
pub proof fn trade_books(f: Figures, qty: Dec, price: Dec, next: Figures)
    requires
        traded(f, qty, price) == Some(next),
    ensures
        sum(Some(f.amt), Some(qty))->0.units() == next.amt.units(),
        f.amt.units() != 0 && f.amt.minus() != qty.minus() && next.amt.minus() == f.amt.minus()
            && next.amt.units() != 0 ==> next.entry == f.entry && next.high == f.high && next.low
            == f.low,
        f.amt.units() != 0 && f.amt.minus() != qty.minus() && next.amt.minus() != f.amt.minus()
            && next.amt.units() != 0 ==> next.entry == price,
{
    lemma_lit(0, 0);
    lemma_units_sign(zero());
}

/// A position is opened only where the price has left the window: bought above every price in it, sold
/// below every price in it.
pub proof fn entry_beats_window(
    engine: &StrategyEngine,
    book: OrderBook,
    decays: Option<(Dec, Dec)>,
    now: u64,
    scan: Scan,
    fetch_funding: bool,
    b: Breakout,
    i: int,
)
    requires
        engine.market(book, decays, now) == (Market::Flat { scan, fetch_funding }),
        engine.entry_of(scan) == Entry::Broken(b),
        0 <= i < engine.mid_price_history@.len(),
    ensures
        b.side == Side::Buy ==> engine.mid_price_history@[i].units() < book.top_bid()->0.price.units()
            && b.price == book.top_ask()->0.price,
        b.side == Side::Sell ==> engine.mid_price_history@[i].units()
            > book.top_ask()->0.price.units() && b.price == book.top_bid()->0.price,
{
    let prices = engine.mid_price_history@;
    extremes_bound(prices, prices.len() as int, i);
}

/// Two trades to one side, from no position on: the sizes add up, and the entry price is the average of the
/// two prices weighted with the sizes, but for rounding, whatever entry price was left from before. Of each
/// trade is asked what `book_trade` says of it.
pub proof fn two_fills_average(
    none: Figures,
    q: Dec,
    p: Dec,
    one: Figures,
    r: Dec,
    s: Dec,
    both: Figures,
)
    requires
        none.amt.units() == 0,
        one.amt.units() == q.units(),
        both.amt.units() == q.units() + r.units(),
        (q.units() > 0 && r.units() > 0) || (q.units() < 0 && r.units() < 0),
        averaged(none, q, p, one),
        averaged(one, r, s, both),
    ensures
        size_of(both.amt) == size_of(q) + size_of(r),
        close_to_average(both, size_of(q), p.units(), size_of(r), s.units()),
{
    let (a, b, w) = (size_of(q), size_of(r), size_of(both.amt));
    let qp = a * p.units();
    let rs = b * s.units();
    let e1 = one.entry.units();
    let a0 = size_of(none.amt) * none.entry.units();
    assert(a0 == 0) by (nonlinear_arith)
        requires
            a0 == size_of(none.amt) * none.entry.units(),
            size_of(none.amt) == 0,
    ;
    assert(e1 * a == a * e1) by (nonlinear_arith);
}

/// The entry price of a position is the average of two prices weighted with two sizes, but for rounding.
pub open spec fn close_to_average(f: Figures, a: int, p: int, b: int, s: int) -> bool {
    precision() * distance(f.entry.units() * size_of(f.amt) - (a * p + b * s)) <= precision() * (3
        * size_of(f.amt) + 9 * unit()) + 16 * (distance(a * p) + distance(b * s))
}

/// In which order two such trades come makes no difference, but for rounding.
pub proof fn fills_commute(f: Figures, g: Figures, a: int, p: int, b: int, s: int)
    requires
        size_of(f.amt) == size_of(g.amt),
        close_to_average(f, a, p, b, s),
        close_to_average(g, b, s, a, p),
    ensures
        precision() * distance((f.entry.units() - g.entry.units()) * size_of(f.amt)) <= precision() * (6
            * size_of(f.amt) + 18 * unit()) + 32 * (distance(a * p) + distance(b * s)),
{
    let w = size_of(f.amt);
    let (x, y) = (f.entry.units(), g.entry.units());
    assert((x - y) * w == x * w - y * w) by (nonlinear_arith);
}

/// The window of prices after a look at the book.
pub open spec fn window_after(prices: Seq<Dec>, window: nat, newest: Dec) -> Seq<Dec> {
    if prices.len() < window { prices.push(newest) } else { rolled(prices, newest) }
}

/// The window grows to its length and then keeps it, the newest price last and the oldest dropped; and
/// before it is full a look leads to nothing.
pub proof fn window_keeps_its_length(
    engine: &StrategyEngine,
    book: OrderBook,
    decays: Option<(Dec, Dec)>,
    now: u64,
    newest: Dec,
)
    requires
        0 < engine.breakout_window,
        engine.mid_price_history@.len() <= engine.breakout_window,
    ensures
        ({
            let old = engine.mid_price_history@;
            let new = window_after(old, engine.breakout_window as nat, newest);
            &&& new.len() <= engine.breakout_window
            &&& new.len() == if old.len() < engine.breakout_window { old.len() + 1 } else { old.len() }
            &&& new.last() == newest
            &&& old.len() < engine.breakout_window ==> {
                let m = engine.market(book, decays, now);
                m is Warming || m is NoBook || m is OutOfRange
            }
        }),
{
}

/// A flow is strong where it is more than so many tenths of the one against it and more than a bound. Said where
/// that many tenths of the other one are a decimal.
proof fn lemma_outweighs(flow: Dec, against: Dec, tenths: u32, exact: Dec)
    requires
        arithmetic(),
        flow.wf(),
        against.wf(),
        exact.wf(),
        exact.units() * 10 == against.units() * tenths,
    ensures
        product(Some(against), Some(lit(tenths, 1))) matches Some(limit) ==> limit.units() == exact.units(),
{
    lemma_lit(tenths, 1);
    lemma_lit_units(tenths, 1);
    lemma_product(against, lit(tenths, 1));
    let u = unit() / 10;
    assert(unit() == 10 * u);
    assert(exact.units() * unit() == against.units() * lit(tenths, 1).units()) by (nonlinear_arith)
        requires
            unit() == 10 * u,
            lit(tenths, 1).units() == tenths * u,
            exact.units() * 10 == against.units() * tenths,
    ;
}

/// How strong a breakout is: the best two grades are for a book that leans with it by more than three tenths
/// and a fast flow of more than 15000 that is more than three times the one against it; the best of them for a
/// slow flow besides of more than 30000 and more than one and a half times the one against it; any other gets
/// the third. A breakout upwards counts what is bought and a book that leans to the bids, one downwards what is
/// sold and a book that leans to the asks. Said where the products are decimals.
pub proof fn strength_is_earned(engine: &StrategyEngine, scan: Scan, b: Breakout, fast3: Dec, slow15: Dec)
    requires
        arithmetic(),
        engine.entry_of(scan) == Entry::Broken(b),
        engine.fast_buy_flow.wf(),
        engine.fast_sell_flow.wf(),
        engine.slow_buy_flow.wf(),
        engine.slow_sell_flow.wf(),
        fast3.wf(),
        slow15.wf(),
        fast3.units() == 3 * (if b.side == Side::Buy {
            engine.fast_sell_flow
        } else {
            engine.fast_buy_flow
        }).units(),
        2 * slow15.units() == 3 * (if b.side == Side::Buy {
            engine.slow_sell_flow
        } else {
            engine.slow_buy_flow
        }).units(),
    ensures
        ({
            let up = b.side == Side::Buy;
            let fast = (if up { engine.fast_buy_flow } else { engine.fast_sell_flow }).units();
            let slow = (if up { engine.slow_buy_flow } else { engine.slow_sell_flow }).units();
            let leaning = if up {
                10 * scan.obi.units() > 3 * unit()
            } else {
                10 * scan.obi.units() < -3 * unit()
            };
            let quick = leaning && fast > fast3.units() && fast > 15000 * unit();
            let steady = slow > slow15.units() && slow > 30000 * unit();
            &&& b.strength == Strength::S <==> quick && steady
            &&& b.strength == Strength::A <==> quick && !steady
            &&& b.strength == Strength::B <==> !quick
        }),
{
    lemma_lit_units(3, 1);
    lemma_opposite(lit(3, 1));
    lemma_lit_units(150000, 1);
    lemma_lit_units(30000, 0);
    let up = b.side == Side::Buy;
    let f = engine.flows();
    let (fast, fast_against) = if up { (f.fast_buy, f.fast_sell) } else { (f.fast_sell, f.fast_buy) };
    let (slow, slow_against) = if up { (f.slow_buy, f.slow_sell) } else { (f.slow_sell, f.slow_buy) };
    lemma_outweighs(fast, fast_against, 30, fast3);
    lemma_outweighs(slow, slow_against, 15, slow15);
}

/// A breakout is found exactly where a price has left the window and trading is not paused: upwards where the
/// bid is above the highest price, to be bought at the ask; downwards where the ask is below the lowest and
/// short positions are wanted, to be sold at the bid.
pub proof fn breakout_is_found(engine: &StrategyEngine, scan: Scan)
    ensures
        ({
            let up = scan.bid.units() > scan.high.units();
            let down = !up && scan.ask.units() < scan.low.units() && engine.allow_short;
            let e = engine.entry_of(scan);
            &&& engine.paused || !(up || down) <==> e is Nothing
            &&& e matches Entry::Broken(b) ==> (if up {
                b.side == Side::Buy && b.price == scan.ask && b.seen == scan.bid
            } else {
                b.side == Side::Sell && b.price == scan.bid && b.seen == scan.ask
            })
        }),
{
}

/// A trade adds its worth to the flows of its direction, fast and slow, and leaves the others alone: what is
/// sold where the buyer's order was waiting, else what is bought. Exactly so where the figures are decimals.
pub proof fn trade_feeds_its_flows(
    f: Flows,
    qty: Dec,
    price: Dec,
    is_buyer_maker: bool,
    next: Flows,
    worth: Dec,
    sums: (Dec, Dec),
)
    requires
        arithmetic(),
        qty.wf(),
        price.wf(),
        f.fast_buy.wf() && f.fast_sell.wf() && f.slow_buy.wf() && f.slow_sell.wf(),
        flows_after(f, qty, price, is_buyer_maker) == Some(next),
        worth.wf(),
        worth.units() * unit() == qty.units() * price.units(),
        sums.0.wf() && sums.1.wf(),
        sums.0.units() == (if is_buyer_maker { f.fast_sell } else { f.fast_buy }).units() + worth.units(),
        sums.1.units() == (if is_buyer_maker { f.slow_sell } else { f.slow_buy }).units() + worth.units(),
    ensures
        is_buyer_maker ==> next.fast_buy == f.fast_buy && next.slow_buy == f.slow_buy && next.fast_sell.units()
            == sums.0.units() && next.slow_sell.units() == sums.1.units(),
        !is_buyer_maker ==> next.fast_sell == f.fast_sell && next.slow_sell == f.slow_sell
            && next.fast_buy.units() == sums.0.units() && next.slow_buy.units() == sums.1.units(),
{
    lemma_product(qty, price);
    let n = product_of(qty, price)->0;
    lemma_sum(f.fast_sell, n);
    lemma_sum(f.slow_sell, n);
    lemma_sum(f.fast_buy, n);
    lemma_sum(f.slow_buy, n);
    assert(sums.0.units() * 1 == sums.0.units() && sums.1.units() * 1 == sums.1.units());
}

/// Time takes from the flows what the factors say: the fast ones keep the first part of themselves, the slow
/// ones the second, and no more than they were where a factor is no more than one.
pub proof fn flows_fade(f: Flows, fast: Dec, slow: Dec, next: Flows)
    requires
        arithmetic(),
        fast.wf() && slow.wf(),
        f.fast_buy.wf() && f.fast_sell.wf() && f.slow_buy.wf() && f.slow_sell.wf(),
        decayed(f, Some((fast, slow))) == Some(next),
    ensures
        rounded(Some(next.fast_buy), f.fast_buy.units() * fast.units(), unit()),
        rounded(Some(next.fast_sell), f.fast_sell.units() * fast.units(), unit()),
        rounded(Some(next.slow_buy), f.slow_buy.units() * slow.units(), unit()),
        rounded(Some(next.slow_sell), f.slow_sell.units() * slow.units(), unit()),
        decayed(f, None) == Some(f),
{
    lemma_product(f.fast_buy, fast);
    lemma_product(f.fast_sell, fast);
    lemma_product(f.slow_buy, slow);
    lemma_product(f.slow_sell, slow);
}

/// The middle of the book is half of the bid and the ask together, where that is a decimal.
pub proof fn middle_is_between(book: OrderBook, bid: Level, ask: Level, mid: Dec, both: Dec, half: Dec)
    requires
        arithmetic(),
        book.top_bid() == Some(bid),
        book.top_ask() == Some(ask),
        bid.price.wf() && ask.price.wf(),
        mid_price(book) == Some(mid),
        both.wf() && half.wf(),
        both.units() == bid.price.units() + ask.price.units(),
        2 * half.units() == both.units(),
    ensures
        mid.units() == half.units(),
{
    lemma_lit(2, 0);
    lemma_lit_units(2, 0);
    lemma_sum(bid.price, ask.price);
    assert(both.units() * 1 == bid.price.units() + ask.price.units());
    let s = sum_of(bid.price, ask.price)->0;
    lemma_quotient(s, lit(2, 0));
    assert(half.units() * lit(2, 0).units() == s.units() * unit()) by (nonlinear_arith)
        requires
            lit(2, 0).units() == 2 * unit(),
            s.units() == 2 * half.units(),
    ;
}

/// The highest price of a window is one of its prices, or zero where all are below; the lowest is one of them,
/// or 999999999 where all are above.
pub proof fn extremes_are_prices(prices: Seq<Dec>, n: int)
    requires
        0 <= n <= prices.len(),
    ensures
        highest(prices, n) == zero() || exists|i: int| 0 <= i < n && prices[i] == highest(prices, n),
        lowest(prices, n) == lit(999999999, 0) || exists|i: int| 0 <= i < n && prices[i] == lowest(prices, n),
        highest(prices, n).units() >= 0,
        lowest(prices, n).units() <= 999999999 * unit(),
    decreases n,
{
    lemma_lit(0, 0);
    lemma_units_sign(zero());
    lemma_lit_units(999999999, 0);
    if n > 0 {
        extremes_are_prices(prices, n - 1);
        assert(prices[n - 1] == prices[n - 1]);
    }
}

/// Where a stop of the strategy stands: once the best price has gained the activation percentage it is the
/// trailing percentage behind that price, before that the initial percentage behind the entry price; on the
/// side of a loss, below for a long position and above for a short one, but for rounding.
pub proof fn stop_stands_behind(
    long: bool,
    best: Dec,
    entry: Dec,
    activation: Dec,
    trailing: Dec,
    initial: Dec,
    stop: Dec,
    gained: Dec,
)
    requires
        arithmetic(),
        best.wf() && entry.wf() && trailing.wf() && initial.wf(),
        best.units() > 0,
        entry.units() > 0,
        0 <= trailing.units() <= 5 * whole(),
        0 <= initial.units() <= 5 * whole(),
        gain_pct(long, best, entry) == Some(gained),
        stop_of(long, best, entry, activation, trailing, initial) == Some(stop),
    ensures
        amounts_to(long, best.units(), entry.units(), gained.units()),
        gained.units() >= activation.units() ==> lies_behind(
            long,
            stop.units(),
            best.units(),
            trailing.units(),
        ),
        gained.units() < activation.units() ==> lies_behind(
            long,
            stop.units(),
            entry.units(),
            initial.units(),
        ),
{
    gains_are_percentages(long, best, entry, gained);
    if gained.units() >= activation.units() {
        lines_lie_behind(long, best, trailing, stop);
    } else {
        lines_lie_behind(long, entry, initial, stop);
    }
}

/// What becomes of a position at given prices, but for figures out of range: it is kept while the price that it
/// can be closed at, the bid or the ask, is on its side of the stop; else it is closed, or waits where an order
/// was refused less than five seconds ago. It is stored where its best price has improved.
pub proof fn position_is_minded(engine: &StrategyEngine, bid: Dec, ask: Dec, now: u64, stop: Dec)
    requires
        engine.position.position_amt.units() != 0,
        ({
            let f = engine.position.figures();
            let long = f.amt.units() > 0;
            stop_of(
                long,
                if long {
                    if bid.units() > f.high.units() { bid } else { f.high }
                } else {
                    if ask.units() < f.low.units() { ask } else { f.low }
                },
                f.entry,
                engine.activation_pct,
                engine.trailing_sl_pct,
                engine.initial_sl_pct,
            ) == Some(stop)
        }),
    ensures
        ({
            let f = engine.position.figures();
            let long = f.amt.units() > 0;
            let safe = if long { bid.units() > stop.units() } else { ask.units() < stop.units() };
            let better = if long { bid.units() > f.high.units() } else { ask.units() < f.low.units() };
            let lately = engine.last_sl_error_time matches Some(t) && (now < t || now - t < 5000000000);
            let m = engine.held_market(bid, ask, now);
            &&& safe ==> m == (Market::Keep { changed: better })
            &&& !safe && lately ==> m is Wait
            &&& !safe && !lately ==> m is Exit || m is OutOfRange
            &&& m matches Market::Exit { changed, .. } ==> changed == better
        }),
{
}

/// The best price of a position is the better of the one before and the price in the book, and nothing else of
/// it changes.
pub proof fn best_price_is_kept(engine: &StrategyEngine, bid: Dec, ask: Dec)
    ensures
        ({
            let f = engine.position.figures();
            let next = engine.figures_now(bid, ask);
            &&& f.amt.units() > 0 ==> next.low == f.low && (if bid.units() > f.high.units() {
                next.high == bid
            } else {
                next.high == f.high
            })
            &&& f.amt.units() < 0 ==> next.high == f.high && (if ask.units() < f.low.units() {
                next.low == ask
            } else {
                next.low == f.low
            })
            &&& f.amt.units() == 0 ==> next == f
            &&& next.amt == f.amt && next.entry == f.entry
        }),
{
}

/// A full window moves on by one price: the oldest goes, the others keep their order, the newest is last.
pub proof fn window_moves_on(prices: Seq<Dec>, window: nat, newest: Dec)
    requires
        0 < window,
    ensures
        ({
            let next = window_after(prices, window, newest);
            &&& next.last() == newest
            &&& prices.len() < window ==> next.drop_last() == prices
            &&& prices.len() >= window ==> next.drop_last() == prices.skip(1)
        }),
{
    let next = window_after(prices, window, newest);
    if prices.len() < window {
        assert(next.drop_last() =~= prices);
    } else {
        assert(next.drop_last() =~= prices.skip(1));
    }
}

/// A full window without a position is looked at for an entry from ten seconds after the last signal on, with
/// the best prices, the imbalance and the extremes of the window; the funding rate is read first where that was
/// never done or is more than three hundred seconds ago.
pub proof fn flat_market_is_scanned(
    engine: &StrategyEngine,
    book: OrderBook,
    decays: Option<(Dec, Dec)>,
    now: u64,
)
    requires
        book.top_bid() is Some,
        book.top_ask() is Some,
        imbalance(book) is Some,
        mid_price(book) is Some,
        decayed(engine.flows(), decays) is Some,
        engine.mid_price_history@.len() >= engine.breakout_window,
        engine.position.position_amt.units() == 0,
    ensures
        ({
            let m = engine.market(book, decays, now);
            let prices = engine.mid_price_history@;
            let lately = engine.last_signal_time matches Some(t) && (now < t || now - t < 10000000000);
            let known = engine.last_funding_fetch matches Some(t) && (now < t || now - t <= 300000000000);
            &&& lately ==> m is Cooling
            &&& !lately ==> (m matches Market::Flat { scan, fetch_funding } && fetch_funding == !known && scan.bid
                == book.top_bid()->0.price && scan.ask == book.top_ask()->0.price && Some(scan.obi)
                == imbalance(book) && scan.high == highest(prices, prices.len() as int) && scan.low == lowest(
                prices,
                prices.len() as int,
            ))
        }),
{
}

/// The exchange's word on a position is taken: a size that is the same changes nothing, one of zero ends the
/// position, any other is taken with its entry price and watched anew from the bid, or from the entry price
/// where there is no bid.
pub proof fn reported_position_is_taken(f: Figures, amt: Dec, entry: Dec, book: OrderBook)
    ensures
        ({
            let next = updated(f, amt, entry, book);
            &&& amt.units() == f.amt.units() ==> next == f
            &&& amt.units() != f.amt.units() && amt.units() == 0 ==> next.amt.units() == 0 && next.entry
                == f.entry
            &&& amt.units() != f.amt.units() && amt.units() != 0 ==> next.amt == amt && next.entry == entry && (
            match book.top_bid() {
                Some(l) => next.high == l.price && next.low == l.price,
                None => next.high == entry && next.low == entry,
            })
        }),
{
    lemma_lit(0, 0);
    lemma_units_sign(zero());
}

/// A position that is taken over is watched from its entry price and the price that it can be closed at, the
/// bid for a long one and the ask for a short one: the highest price is the higher of the two, the lowest the
/// lower one that is above zero.
pub proof fn taken_position_is_watched(amt: Dec, entry: Dec, book: OrderBook)
    ensures
        ({
            let next = taken_over(amt, entry, book);
            let top = if amt.units() > 0 { book.top_bid() } else { book.top_ask() };
            &&& next.amt == amt && next.entry == entry
            &&& next.high.units() >= entry.units() && next.low.units() <= entry.units()
            &&& top is None ==> next.high == entry && next.low == entry
            &&& top matches Some(l) ==> {
                &&& l.price.units() > entry.units() ==> next.high == l.price && next.low == entry
                &&& 0 < l.price.units() < entry.units() ==> next.high == entry && next.low == l.price
                &&& l.price.units() == entry.units() || l.price.units() <= 0 ==> next.low == entry
            }
        }),
{
}

/// The entry that is read from the exchange's list is the first of the symbol.
pub proof fn first_entry_is_read(items: Seq<JsonView>, symbol: Seq<char>, i: int)
    requires
        0 <= i <= items.len(),
    ensures
        position_entry(items, symbol, i) is None <==> forall|j: int|
            i <= j < items.len() ==> text_or_empty((#[trigger] items[j]).text_field("symbol"@)) != symbol,
        position_entry(items, symbol, i) matches Some(item) ==> exists|j: int|
            i <= j < items.len() && #[trigger] items[j] == item && text_or_empty(item.text_field("symbol"@))
                == symbol && forall|k: int|
                i <= k < j ==> text_or_empty((#[trigger] items[k]).text_field("symbol"@)) != symbol,
    decreases items.len() - i,
{
    if i < items.len() {
        if text_or_empty(items[i].text_field("symbol"@)) == symbol {
            assert(items[i] == items[i]);
        } else {
            first_entry_is_read(items, symbol, i + 1);
            if let Some(item) = position_entry(items, symbol, i + 1) {
                let j = choose|j: int|
                    i + 1 <= j < items.len() && #[trigger] items[j] == item && text_or_empty(
                        item.text_field("symbol"@),
                    ) == symbol && forall|k: int|
                        i + 1 <= k < j ==> text_or_empty((#[trigger] items[k]).text_field("symbol"@)) != symbol;
                assert(items[j] == item);
            }
        }
    }
}

/// A trade on a position, in its four cases: one that takes it to nothing leaves none, one that adds to it
/// starts to watch the price anew from the average, one that goes beyond it opens the other way at its own
/// price, and one that takes a part changes nothing but the size.
pub proof fn trade_cases(f: Figures, qty: Dec, price: Dec, next: Figures)
    requires
        arithmetic(),
        f.amt.wf(),
        qty.wf(),
        traded(f, qty, price) == Some(next),
        f.amt.units() != 0,
        qty.units() != 0,
    ensures
        f.amt.units() + qty.units() == 0 ==> next.amt.units() == 0 && next.entry == f.entry,
        next.amt.units() != 0 ==> {
            let (a, q) = (f.amt.units(), qty.units());
            let together = (a > 0) == (q > 0);
            let turned = (a > 0) != (next.amt.units() > 0);
            &&& together ==> next.high == next.entry && next.low == next.entry
            &&& !together && turned ==> next.entry == price && next.high == price && next.low == price
            &&& !together && !turned ==> next.entry == f.entry && next.high == f.high && next.low == f.low
        },
{
    lemma_units_sign(f.amt);
    lemma_units_sign(qty);
    lemma_sum(f.amt, qty);
    let amt = sum_of(f.amt, qty)->0;
    lemma_units_sign(amt);
    lemma_rounded_sign(amt, f.amt.units() + qty.units(), 1);
    lemma_lit(0, 0);
    lemma_units_sign(zero());
}

/// What messages do to the position: one that clears it, or that closes it and is answered, leaves no size; a pause,
/// a synchronisation and the switch for short positions do not touch it; and a trade that was made is booked.
pub proof fn messages_reach_position(engine: &StrategyEngine, book: OrderBook, qty: Dec, price: Dec, yes: bool)
    ensures
        ({
            let f = engine.position.figures();
            let (cleared, a) = engine.controlled(ControlMessage::ClearPosition, book);
            let (synced, b) = engine.controlled(ControlMessage::SyncPosition, book);
            let (paused, c) = engine.controlled(ControlMessage::PauseTrading, book);
            let (resumed, d) = engine.controlled(ControlMessage::ResumeTrading, book);
            let (short, e) = engine.controlled(ControlMessage::AllowShorting(yes), book);
            let (booked, g) = engine.controlled(
                ControlMessage::TradeExecuted { trade_qty: qty, fill_price: price },
                book,
            );
            &&& cleared.amt.units() == 0 && cleared.entry == f.entry && a is Save
            &&& synced == f && b is ReadPositions
            &&& paused == f && resumed == f && short == f && c is Quiet && d is Quiet && e is Quiet
            &&& traded(f, qty, price) matches Some(next) ==> booked == next && g is Save
            &&& traded(f, qty, price) is None ==> booked == f && g is OutOfRange
        }),
{
    lemma_lit(0, 0);
    lemma_units_sign(zero());
}

/// What a synchronisation does: a symbol that is not listed changes nothing, one without a size has no position, and
/// any other is taken over with the size and the entry price that are listed.
pub proof fn sync_takes_listed(engine: &StrategyEngine, items: Seq<JsonView>, book: OrderBook)
    ensures
        ({
            let f = engine.position.figures();
            let (next, reply) = engine.synced(items, book);
            match position_entry(items, engine.position.symbol@, 0) {
                None => next == f && reply is NotFound,
                Some(item) => {
                    let size = match item.dec_field("positionAmt"@) {
                        Some(d) => d.units(),
                        None => 0,
                    };
                    &&& size == 0 ==> next.amt.units() == 0 && next.entry == f.entry && reply is Flat
                    &&& size != 0 ==> Some(next.amt) == item.dec_field("positionAmt"@) && (match item.dec_field(
                        "entryPrice"@,
                    ) {
                        Some(e) => next.entry == e,
                        None => next.entry.units() == 0,
                    }) && (reply matches SyncReply::TakenOver { amt, entry, .. } && amt == next.amt && entry
                        == next.entry)
                },
            }
        }),
{
    lemma_lit(0, 0);
    lemma_units_sign(zero());
}

/// Time has passed since a moment by as much as the clock has moved, and none where it has not; less than a span has
/// passed only since a moment that there was.
pub proof fn time_is_counted(then: Option<u64>, now: u64, span: int)
    requires
        span > 0,
    ensures
        then is None ==> !within(then, now, span),
        then matches Some(t) ==> (within(then, now, span) <==> now < t || now - t < span),
{
}

/// A look at the book, before anything is decided: without both sides there is nothing to look at, and before the
/// window is full nothing is done; a position is then minded at the best bid and the best ask.
pub proof fn looks_come_first(
    engine: &StrategyEngine,
    book: OrderBook,
    decays: Option<(Dec, Dec)>,
    now: u64,
)
    requires
        imbalance(book) is Some,
    ensures
        ({
            let m = engine.market(book, decays, now);
            let full = engine.mid_price_history@.len() >= engine.breakout_window;
            &&& book.bids@.len() == 0 || book.asks@.len() == 0 ==> m is NoBook
            &&& book.bids@.len() > 0 && book.asks@.len() > 0 && mid_price(book) is Some && decayed(
                engine.flows(),
                decays,
            ) is Some ==> {
                &&& !full <==> m is Warming
                &&& full && engine.position.position_amt.units() != 0 ==> m == engine.held_market(
                    book.bids@[book.bids@.len() - 1].price,
                    book.asks@[0].price,
                    now,
                )
            }
        }),
{
}

} // verus!
