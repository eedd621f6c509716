//! The chat: who may give commands, what a command asks for, and the figures that an answer needs.

use vstd::prelude::*;

use crate::bits::{at_most, below};
use crate::decimal::{
    absolute, arithmetic, dec_of_text, difference, fits, floor, is_floor, lemma_absolute,
    lemma_lit_units, lemma_normal, lemma_product, lemma_quotient, lemma_sum, lemma_units_sign, lit,
    normal, or_else, parse_dec, product, product_of, quotient, quotient_of, rounded, sum,
    text_of_dec, to_u32, unit, whole_u32, zero, Dec,
};
use crate::json::{
    json_fault, json_of_text, list_of_text, parse_json, parse_list, read_json, views, Json,
    JsonView,
};
use crate::order::{is_order, ranks, sort_places};
use crate::orderbook::{Level, OrderBook};
use crate::portfolio::{market_entry, opens_at_market, order_size, sized, OrderAsk};
use crate::profit::{
    amounts_to, gains_are_percentages, lemma_amounts_to, lemma_on_grid, lemma_within_tick, on_grid,
    within_tick,
};
use crate::side::Side;
use crate::strategy::ControlMessage;
use crate::text::{
    bounded_natural, ends, ends_with, lower_of, parse_u32, parse_u64, parse_usize, remove_char,
    same, starts, starts_with, texts, to_lower, to_upper, trim, trimmed, upper_of, without, words,
    words_of,
};

verus! {

/// Whether a chat may give commands: any may where no chat is set.
pub fn is_authorised(admin: &str, chat: &str) -> (r: bool)
    ensures
        r == (admin@.len() == 0 || admin@ == chat@),
{
    admin.is_empty() || same(admin, chat)
}

/// The symbol that a command names: its argument without white space around it, in upper case.
pub fn symbol_argument(args: &str) -> (r: String)
    ensures
        r@ == upper_of(trimmed(args@)),
{
    to_upper(trim(args).as_str())
}

/// Whether an interval is one of those that the exchange has candles for.
pub open spec fn is_interval(s: Seq<char>) -> bool {
    ||| s == "1m"@
    ||| s == "3m"@
    ||| s == "5m"@
    ||| s == "15m"@
    ||| s == "30m"@
    ||| s == "1h"@
    ||| s == "2h"@
    ||| s == "4h"@
    ||| s == "6h"@
    ||| s == "8h"@
    ||| s == "12h"@
    ||| s == "1d"@
    ||| s == "3d"@
    ||| s == "1w"@
}

/// The time that a request for prices asks for: an interval that the exchange has candles for, or a day
/// written as hours; five minutes where it names neither.
pub open spec fn span_asked(args: Seq<char>) -> Seq<char> {
    let asked = lower_of(trimmed(args));
    if is_interval(asked) || asked == "24h"@ { asked } else { "5m"@ }
}

/// The exchange's name for the candles of a time. A day is one candle, however it is written.
pub open spec fn candles_for(span: Seq<char>) -> Seq<char> {
    if span == "24h"@ { "1d"@ } else { span }
}

/// The time that a request for prices asks for, as the answer names it.
pub fn price_span(args: &str) -> (r: String)
    ensures
        r@ == span_asked(args@),
{
    let asked = to_lower(trim(args).as_str());
    let s = asked.as_str();
    let known = same(s, "1m") || same(s, "3m") || same(s, "5m") || same(s, "15m") || same(s, "30m")
        || same(s, "1h") || same(s, "2h") || same(s, "4h") || same(s, "6h") || same(s, "8h") || same(
        s,
        "12h",
    ) || same(s, "1d") || same(s, "3d") || same(s, "1w") || same(s, "24h");
    if known { asked } else { "5m".to_string() }
}

/// The interval of the exchange for the time that a request for prices asks for.
pub fn price_interval(args: &str) -> (r: String)
    ensures
        r@ == candles_for(span_asked(args@)),
{
    let span = price_span(args);
    if same(span.as_str(), "24h") { "1d".to_string() } else { span }
}

/// Every time that can be asked for has candles at the exchange.
pub proof fn spans_have_candles(args: Seq<char>)
    ensures
        is_interval(candles_for(span_asked(args))),
        lower_of(trimmed(args)) == "24h"@ ==> candles_for(span_asked(args)) == "1d"@ && span_asked(args)
            == "24h"@,
        is_interval(lower_of(trimmed(args))) ==> candles_for(span_asked(args)) == lower_of(
            trimmed(args),
        ),
{
    reveal_strlit("24h");
    reveal_strlit("1m");
    reveal_strlit("3m");
    reveal_strlit("5m");
    reveal_strlit("15m");
    reveal_strlit("30m");
    reveal_strlit("1h");
    reveal_strlit("2h");
    reveal_strlit("4h");
    reveal_strlit("6h");
    reveal_strlit("8h");
    reveal_strlit("12h");
    reveal_strlit("1d");
    reveal_strlit("3d");
    reveal_strlit("1w");
    assert(("24h"@)[0] == '2' && ("12h"@)[0] == '1');
    assert(("15m"@)[0] == '1' && ("30m"@)[0] == '3');
}

/// The change from one price to another in percent; nothing where one of the two is not above zero.
pub open spec fn change_of(current: Dec, past: Dec) -> Option<Dec> {
    if current.units() > 0 && past.units() > 0 {
        product(
            quotient(difference(Some(current), Some(past)), Some(past)),
            Some(lit(100, 0)),
        )
    } else {
        None
    }
}

/// The change from one price to another in percent.
pub fn price_change(current: Dec, past: Dec) -> (r: Option<Dec>)
    ensures
        r == change_of(current, past),
        r matches Some(pct) ==> amounts_to(true, current.units(), past.units(), pct.units()),
{
    if current.is_positive() && past.is_positive() {
        let moved = difference(Some(current), Some(past));
        let part = quotient(moved, Some(past));
        let r = product(part, Some(lit(100, 0)));
        proof {
            lemma_lit_units(100, 0);
            if r is Some {
                lemma_amounts_to(
                    true,
                    current.units(),
                    past.units(),
                    moved->0.units(),
                    part->0.units(),
                    r->0.units(),
                );
            }
        }
        r
    } else {
        None
    }
}

/// The order in which price changes are listed: the largest first.
pub fn rank_changes(changes: &Vec<Dec>) -> (order: Vec<usize>)
    ensures
        is_order(order@, ranks(changes@), true),
{
    sort_places(changes, true)
}

/// Midnight, eight hours ahead of Greenwich, at or before a moment: seconds of the epoch.
pub open spec fn midnight_before(now: int) -> int {
    (now + 28800) / 86400 * 86400 - 28800
}

/// Yesterday, eight hours ahead of Greenwich: its first and its last second, in milliseconds.
pub fn yesterday(now: u64) -> (r: (u64, u64))
    requires
        172800 <= now <= 0xff_ffff_ffff,
    ensures
        r.0 == (midnight_before(now as int) - 86400) * 1000,
        r.1 == (midnight_before(now as int) - 1) * 1000,
        r.0 <= r.1 < now * 1000,
{
    let midnight: u64 = (now + 28800) / 86400 * 86400 - 28800;
    ((midnight - 86400) * 1000, (midnight - 1) * 1000)
}

/// The midnight from which on so many days of trades are listed, today being the first, in
/// milliseconds; nothing where that lies before the epoch.
pub fn history_start(now: u64, days: u32) -> (r: Option<u64>)
    requires
        now <= 0xff_ffff_ffff,
    ensures
        ({
            let back = if days == 0 { 0 } else { days - 1 };
            let start = midnight_before(now as int) - back * 86400;
            r == if start >= 0 { Some((start * 1000) as u64) } else { None }
        }),
{
    let back: u64 = if days == 0 { 0 } else { days as u64 - 1 };
    let midnight: u64 = (now + 28800) / 86400 * 86400;
    let gone: u64 = back * 86400 + 28800;
    if midnight >= gone { Some((midnight - gone) * 1000) } else { None }
}

/// An order as it was typed: the symbol, the margin, the leverage, and a limit or none.
pub struct TradeOrder {
    pub symbol: String,
    pub margin: Dec,
    pub leverage: Dec,
    pub limit: Option<Dec>,
}

/// Whether an order has as many words as it should.
pub open spec fn order_shaped(args: Seq<char>) -> bool {
    words_of(args).len() == 3 || words_of(args).len() == 4
}

/// Reads an order: a symbol, a margin, a leverage and a limit or none. Nothing where the number of
/// words is wrong.
pub fn parse_order(args: &str) -> (r: Option<TradeOrder>)
    ensures
        r is Some <==> order_shaped(args@),
        r matches Some(o) ==> {
            let w = words_of(args@);
            &&& o.symbol@ == upper_of(w[0])
            &&& o.margin == or_else(dec_of_text(w[1]), zero())
            &&& o.leverage == or_else(dec_of_text(w[2]), lit(1, 0))
            &&& o.limit == if w.len() == 4 { dec_of_text(w[3]) } else { None }
        },
{
    let w = words(args);
    let ghost all = texts(w@);
    if w.len() != 3 && w.len() != 4 {
        return None;
    }
    assert(all[0] == w@[0]@ && all[1] == w@[1]@ && all[2] == w@[2]@);
    assert(w.len() == 4 ==> all[3] == w@[3]@);
    Some(
        TradeOrder {
            symbol: to_upper(w[0].as_str()),
            margin: or_else(parse_dec(w[1].as_str()), zero()),
            leverage: or_else(parse_dec(w[2].as_str()), lit(1, 0)),
            limit: if w.len() == 4 { parse_dec(w[3].as_str()) } else { None },
        },
    )
}

/// What an order comes to: the leverage to set, the price that is expected, the quantity, and the
/// limit on the symbol's grid of prices.
#[derive(Clone, Copy, Debug)]
pub struct OrderPlan {
    pub leverage: u32,
    pub entry: Dec,
    pub qty: Dec,
    pub limit: Option<Dec>,
}

/// The level that an order would trade against: the best asked price where it buys, else the best bid.
pub fn top_for(book: &OrderBook, buy: bool) -> (r: Option<Level>)
    ensures
        r == (if buy { book.top_ask() } else { book.top_bid() }),
{
    if buy { book.best_ask() } else { book.best_bid() }
}

/// The price that an order is expected to trade at: its limit, or the top of the book, or one.
pub open spec fn expected_price(limit: Option<Dec>, top: Option<Level>) -> Dec {
    match (limit, top) {
        (Some(l), _) => l,
        (None, Some(t)) => t.price,
        (None, None) => lit(1, 0),
    }
}

/// The limit on the symbol's grid of prices, downwards; none where the symbol's rules are not known.
pub open spec fn limit_on_grid(limit: Option<Dec>, rules: Option<(Dec, Dec)>) -> Option<Option<Dec>> {
    match (limit, rules) {
        (Some(l), Some((_, tick))) => if tick.units() > 0 {
            match quotient(Some(l), Some(tick)) {
                None => None,
                Some(steps) => match product(Some(floor(steps)), Some(tick)) {
                    None => None,
                    Some(px) => Some(Some(normal(px))),
                },
            }
        } else {
            Some(Some(normal(l)))
        },
        _ => Some(None),
    }
}

/// What an order comes to, by the top of the book that it would trade against and by the symbol's
/// rules, its steps of quantity and of price.
pub open spec fn planned_order(
    margin: Dec,
    leverage: Dec,
    limit: Option<Dec>,
    top: Option<Level>,
    rules: Option<(Dec, Dec)>,
) -> Option<OrderPlan> {
    let entry = expected_price(limit, top);
    let step = match rules {
        Some((s, _)) => Some(s),
        None => None,
    };
    match product(Some(margin), Some(leverage)) {
        None => None,
        Some(notional) => match (sized(notional, entry, step), limit_on_grid(limit, rules)) {
            (Some(qty), Some(on_grid)) => Some(
                OrderPlan {
                    leverage: match whole_u32(leverage) {
                        Some(n) => n,
                        None => 1,
                    },
                    entry,
                    qty,
                    limit: on_grid,
                },
            ),
            _ => None,
        },
    }
}

/// Works out what an order comes to. Nothing where a figure is out of range.
pub fn plan_order(order: &TradeOrder, top: Option<Level>, rules: Option<(Dec, Dec)>) -> (r: Option<
    OrderPlan,
>)
    ensures
        r == planned_order(order.margin, order.leverage, order.limit, top, rules),
{
    let entry = match (order.limit, top) {
        (Some(l), _) => l,
        (None, Some(t)) => t.price,
        (None, None) => lit(1, 0),
    };
    let step = match rules {
        Some((s, _)) => Some(s),
        None => None,
    };
    let notional = match product(Some(order.margin), Some(order.leverage)) {
        Some(d) => d,
        None => return None,
    };
    let qty = match order_size(notional, entry, step) {
        Some(d) => d,
        None => return None,
    };
    let limit = match (order.limit, rules) {
        (Some(l), Some((_, tick))) => {
            if tick.is_positive() {
                match quotient(Some(l), Some(tick)) {
                    None => return None,
                    Some(steps) => match product(Some(floor(steps)), Some(tick)) {
                        None => return None,
                        Some(px) => Some(normal(px)),
                    },
                }
            } else {
                Some(normal(l))
            }
        },
        _ => None,
    };
    let leverage: u32 = match to_u32(order.leverage) {
        Some(n) => n,
        None => 1,
    };
    Some(OrderPlan { leverage, entry, qty, limit })
}

/// The order that a command places: one with a limit exactly where a limit was typed, else one at the market
/// that may open a position. A limit has no price where the symbol's rules are not known.
pub fn order_ask(side: Side, order: &TradeOrder, plan: OrderPlan) -> (r: OrderAsk)
    ensures
        match order.limit {
            Some(_) => r matches OrderAsk::Limit { side: s, qty, price } && s@ == side.word() && qty@
                == text_of_dec(normal(plan.qty)) && price@ == match plan.limit {
                Some(l) => text_of_dec(l),
                None => ""@,
            },
            None => opens_at_market(r, side.word(), plan.qty),
        },
{
    if order.limit.is_none() {
        return market_entry(side.text(), plan.qty);
    }
    let price = match plan.limit {
        Some(l) => l.text(),
        None => "".to_string(),
    };
    OrderAsk::Limit { side: side.text().to_string(), qty: normal(plan.qty).text(), price }
}

/// A command that reaches the strategies.
#[derive(Clone, Copy, Debug, PartialEq, Eq, Structural)]
pub enum DeskCommand {
    /// Forget the position of a symbol; it stays on the exchange.
    Panic,
    /// Close the position of a symbol.
    Close,
    /// Take the position of a symbol over.
    Sync,
    /// Open nothing.
    Pause,
    /// Open positions again.
    Resume,
    /// Open short positions, or none.
    Short { on: bool },
}

/// What a strategy is told by a command.
pub fn control_for(c: DeskCommand) -> (r: ControlMessage)
    ensures
        r == (match c {
            DeskCommand::Panic => ControlMessage::ClearPosition,
            DeskCommand::Close => ControlMessage::ClosePosition,
            DeskCommand::Sync => ControlMessage::SyncPosition,
            DeskCommand::Pause => ControlMessage::PauseTrading,
            DeskCommand::Resume => ControlMessage::ResumeTrading,
            DeskCommand::Short { on } => ControlMessage::AllowShorting(on),
        }),
{
    match c {
        DeskCommand::Panic => ControlMessage::ClearPosition,
        DeskCommand::Close => ControlMessage::ClosePosition,
        DeskCommand::Sync => ControlMessage::SyncPosition,
        DeskCommand::Pause => ControlMessage::PauseTrading,
        DeskCommand::Resume => ControlMessage::ResumeTrading,
        DeskCommand::Short { on } => ControlMessage::AllowShorting(on),
    }
}

/// What a request for the profit of a time asks for.
#[derive(Clone, Copy, Debug, PartialEq, Eq, Structural)]
pub enum ProfitSpan {
    /// It names no time.
    Empty,
    /// It does not end in a unit.
    BadUnit,
    /// The time is zero, no number, or longer than thirty days.
    Invalid,
    /// So many seconds.
    Seconds(u64),
}

/// The seconds of a unit of time.
pub open spec fn unit_seconds(c: char) -> Option<int> {
    if c == 'm' {
        Some(60)
    } else if c == 'h' {
        Some(3600)
    } else if c == 'd' {
        Some(86400)
    } else if c == 'w' {
        Some(604800)
    } else {
        None
    }
}

/// What a request for the profit of a time asks for: a number and a unit, the unit's letter read away
/// wherever it stands.
pub open spec fn span_of(arg: Seq<char>) -> ProfitSpan {
    if arg.len() == 0 {
        ProfitSpan::Empty
    } else {
        match unit_seconds(arg.last()) {
            None => ProfitSpan::BadUnit,
            Some(seconds) => match bounded_natural(without(arg, arg.last()), u64::MAX as int) {
                None => ProfitSpan::Invalid,
                Some(n) => if n * seconds == 0 || n * seconds > 2592000 {
                    ProfitSpan::Invalid
                } else {
                    ProfitSpan::Seconds((n * seconds) as u64)
                },
            },
        }
    }
}

/// Reads a request for the profit of a time.
pub fn profit_span(args: &str) -> (r: ProfitSpan)
    ensures
        r == span_of(lower_of(trimmed(args@))),
        r matches ProfitSpan::Seconds(s) ==> 0 < s <= 2592000,
{
    let arg = to_lower(trim(args).as_str());
    let len: usize = arg.as_str().unicode_len();
    if len == 0 {
        return ProfitSpan::Empty;
    }
    let c = arg.as_str().get_char(len - 1);
    let seconds: u128 = if c == 'm' {
        60
    } else if c == 'h' {
        3600
    } else if c == 'd' {
        86400
    } else if c == 'w' {
        604800
    } else {
        return ProfitSpan::BadUnit;
    };
    let rest = remove_char(arg.as_str(), c);
    let n: u128 = match parse_u64(rest.as_str()) {
        Some(n) => n as u128,
        None => return ProfitSpan::Invalid,
    };
    if n == 0 || n > 2592000 {
        assert(n > 2592000 ==> n * seconds > 2592000) by (nonlinear_arith)
            requires
                seconds >= 60,
        ;
        return ProfitSpan::Invalid;
    }
    assert(0 < n * seconds <= 2592000 * 604800) by (nonlinear_arith)
        requires
            0 < n <= 2592000,
            60 <= seconds <= 604800,
    ;
    let total: u128 = n * seconds;
    if total > 2592000 { ProfitSpan::Invalid } else { ProfitSpan::Seconds(total as u64) }
}

/// What the switch for short positions was set to.
#[derive(Clone, Copy, Debug, PartialEq, Eq, Structural)]
pub enum ShortSwitch {
    On,
    Off,
    Bad,
}

/// Reads the switch for short positions.
pub fn short_switch(args: &str) -> (r: ShortSwitch)
    ensures
        ({
            let arg = lower_of(trimmed(args@));
            &&& r == ShortSwitch::On <==> arg == "on"@
            &&& r == ShortSwitch::Off <==> arg != "on"@ && arg == "off"@
        }),
{
    let arg = to_lower(trim(args).as_str());
    if same(arg.as_str(), "on") {
        ShortSwitch::On
    } else if same(arg.as_str(), "off") {
        ShortSwitch::Off
    } else {
        ShortSwitch::Bad
    }
}

/// The days that a request for the history names in its first `n` words: the last number, one where
/// there is none.
pub open spec fn history_days(w: Seq<Seq<char>>, n: int) -> u32
    decreases n,
{
    if n <= 0 {
        1
    } else {
        match bounded_natural(w[n - 1], u32::MAX as int) {
            Some(d) => d as u32,
            None => history_days(w, n - 1),
        }
    }
}

/// The symbol that a request for the history names in its first `n` words: the last word that is no
/// number.
pub open spec fn history_symbol(w: Seq<Seq<char>>, n: int) -> Option<Seq<char>>
    decreases n,
{
    if n <= 0 {
        None
    } else if bounded_natural(w[n - 1], u32::MAX as int) is None {
        Some(upper_of(w[n - 1]))
    } else {
        history_symbol(w, n - 1)
    }
}

/// Reads a request for the history: how many days, and of which symbol.
pub fn history_request(args: &str) -> (r: (u32, Option<String>))
    ensures
        ({
            let w = words_of(args@);
            &&& r.0 == history_days(w, w.len() as int)
            &&& match r.1 {
                Some(s) => history_symbol(w, w.len() as int) == Some(s@),
                None => history_symbol(w, w.len() as int) is None,
            }
        }),
{
    let w = words(args);
    let ghost all = texts(w@);
    let mut days: u32 = 1;
    let mut symbol: Option<String> = None;
    let mut i: usize = 0;
    while i < w.len()
        invariant
            i <= w.len(),
            all == texts(w@),
            days == history_days(all, i as int),
            match symbol {
                Some(s) => history_symbol(all, i as int) == Some(s@),
                None => history_symbol(all, i as int) is None,
            },
        decreases w.len() - i,
    {
        assert(all[i as int] == w@[i as int]@);
        match parse_u32(w[i].as_str()) {
            Some(d) => {
                days = d;
            },
            None => {
                symbol = Some(to_upper(w[i].as_str()));
            },
        }
        i = i + 1;
    }
    (days, symbol)
}

/// What trades have brought: profits, losses and fees.
#[derive(Clone, Copy, Debug)]
pub struct TradeTotals {
    pub profit: Dec,
    pub loss: Dec,
    pub fee: Dec,
}

/// The outcome of a trade that closed something: a profit, or a loss without its sign.
#[derive(Clone, Copy, Debug)]
pub enum Outcome {
    Nothing,
    Profit(Dec),
    Loss(Dec),
}

/// A text field, or another text in its place.
pub open spec fn text_or(s: Option<Seq<char>>, other: Seq<char>) -> Seq<char> {
    match s {
        Some(t) => t,
        None => other,
    }
}

/// What a trade brought. A figure that is written as zero, or that starts as a loss of less than a
/// thousandth, counts as nothing.
pub open spec fn outcome_of(trade: JsonView) -> Outcome {
    let pnl = text_or(trade.text_field("realizedPnl"@), "0"@);
    if pnl == "0"@ || pnl == "0.00000000"@ || starts(pnl, "-0.000"@) {
        Outcome::Nothing
    } else {
        match dec_of_text(pnl) {
            None => Outcome::Nothing,
            Some(d) => if d.units() > 0 { Outcome::Profit(d) } else { Outcome::Loss(absolute(d)) },
        }
    }
}

/// What a trade brought.
pub fn trade_outcome(trade: &Json) -> (r: Outcome)
    ensures
        r == outcome_of(trade@),
{
    let pnl = match trade.text_field("realizedPnl") {
        Some(s) => s,
        None => "0",
    };
    if same(pnl, "0") || same(pnl, "0.00000000") || starts_with(pnl, "-0.000") {
        return Outcome::Nothing;
    }
    match parse_dec(pnl) {
        None => Outcome::Nothing,
        Some(d) => if d.is_positive() { Outcome::Profit(d) } else { Outcome::Loss(absolute(d)) },
    }
}

/// The totals with a trade added to them.
pub open spec fn totals_with(t: TradeTotals, trade: JsonView) -> Option<TradeTotals> {
    let commission = dec_of_text(text_or(trade.text_field("commission"@), "0"@));
    let fee = match commission {
        Some(c) => sum(Some(t.fee), Some(c)),
        None => Some(t.fee),
    };
    let profit = match outcome_of(trade) {
        Outcome::Profit(d) => sum(Some(t.profit), Some(d)),
        _ => Some(t.profit),
    };
    let loss = match outcome_of(trade) {
        Outcome::Loss(d) => sum(Some(t.loss), Some(d)),
        _ => Some(t.loss),
    };
    match (profit, loss, fee) {
        (Some(profit), Some(loss), Some(fee)) => Some(TradeTotals { profit, loss, fee }),
        _ => None,
    }
}

impl TradeTotals {
    /// No trades.
    pub fn new() -> (r: TradeTotals)
        ensures
            r == (TradeTotals { profit: zero(), loss: zero(), fee: zero() }),
    {
        TradeTotals { profit: zero(), loss: zero(), fee: zero() }
    }

    /// Adds a trade. Nothing where a figure is out of range.
    pub fn add_trade(self, trade: &Json) -> (r: Option<TradeTotals>)
        ensures
            r == totals_with(self, trade@),
            r matches Some(next) ==> match outcome_of(trade@) {
                Outcome::Nothing => next.profit == self.profit && next.loss == self.loss,
                Outcome::Profit(d) => next.loss == self.loss && rounded(
                    Some(next.profit),
                    self.profit.units() + d.units(),
                    1,
                ),
                Outcome::Loss(d) => next.profit == self.profit && rounded(
                    Some(next.loss),
                    self.loss.units() + d.units(),
                    1,
                ),
            },
    {
        let commission = match trade.text_field("commission") {
            Some(s) => s,
            None => "0",
        };
        let mut next = self;
        if let Some(c) = parse_dec(commission) {
            match sum(Some(self.fee), Some(c)) {
                Some(fee) => {
                    next.fee = fee;
                },
                None => return None,
            }
        }
        match trade_outcome(trade) {
            Outcome::Nothing => {},
            Outcome::Profit(d) => match sum(Some(self.profit), Some(d)) {
                Some(profit) => {
                    next.profit = profit;
                },
                None => return None,
            },
            Outcome::Loss(d) => match sum(Some(self.loss), Some(d)) {
                Some(loss) => {
                    next.loss = loss;
                },
                None => return None,
            },
        }
        Some(next)
    }

    /// What is left of the profits once losses and fees are taken off.
    pub fn net(&self) -> (r: Option<Dec>)
        ensures
            r == difference(difference(Some(self.profit), Some(self.loss)), Some(self.fee)),
            r is Some ==> exists|won: Dec| #[trigger]
                rounded(Some(won), self.profit.units() - self.loss.units(), 1) && rounded(
                    r,
                    won.units() - self.fee.units(),
                    1,
                ),
    {
        difference(difference(Some(self.profit), Some(self.loss)), Some(self.fee))
    }
}

/// The moment of a trade, zero where it has none.
pub open spec fn trade_time(trade: JsonView) -> u64 {
    match trade.u64_field("time"@) {
        Some(t) => t,
        None => 0,
    }
}

/// The order in which trades are listed: the latest first, of several at one moment the last.
pub fn list_trades(trades: &Vec<Json>) -> (order: Vec<usize>)
    ensures
        ({
            let times = views(trades@).map_values(|t: JsonView| trade_time(t) as int);
            is_order(order@.reverse(), times, false)
        }),
{
    let mut times: Vec<u64> = Vec::new();
    let ghost want = views(trades@).map_values(|t: JsonView| trade_time(t) as int);
    let mut i: usize = 0;
    while i < trades.len()
        invariant
            i <= trades.len(),
            want == views(trades@).map_values(|t: JsonView| trade_time(t) as int),
            times@.len() == i,
            forall|k: int| 0 <= k < i ==> #[trigger] times@[k] == want[k],
        decreases trades.len() - i,
    {
        let t: u64 = match trades[i].u64_field("time") {
            Some(t) => t,
            None => 0,
        };
        assert(views(trades@)[i as int] == trades@[i as int]@);
        times.push(t);
        i = i + 1;
    }
    assert(ranks(times@) =~= want);
    let up = sort_places(&times, false);
    let mut order: Vec<usize> = Vec::new();
    let mut k: usize = up.len();
    while k > 0
        invariant
            k <= up.len(),
            order@.len() == up.len() - k,
            forall|j: int| 0 <= j < order@.len() ==> #[trigger] order@[j] == up@[up.len() - 1 - j],
        decreases k,
    {
        k = k - 1;
        order.push(up[k]);
    }
    assert(order@.reverse() =~= up@);
    order
}

/// A figure of the account: a text, a number as the exchange wrote it, or missing.
pub enum Figure {
    Text(String),
    Number(String),
    Missing,
}

/// Whether a figure is what a field holds.
pub open spec fn is_figure(f: Figure, field: Option<JsonView>) -> bool {
    match (f, field) {
        (Figure::Text(s), Some(JsonView::Text(t))) => s@ == t,
        (Figure::Number(s), Some(JsonView::Number { text, .. })) => s@ == text,
        (Figure::Missing, Some(JsonView::Text(_))) => false,
        (Figure::Missing, Some(JsonView::Number { .. })) => false,
        (Figure::Missing, _) => true,
        _ => false,
    }
}

/// What the exchange says of the account.
pub enum AccountReport {
    /// The reply is no JSON, and why.
    NotJson(String),
    /// The request was refused with a message.
    Refused(String),
    /// The wallet, the open profit, what is free, and whether the account may trade.
    Account { balance: Figure, unrealized: Figure, available: Figure, can_trade: bool },
}

fn read_figure(j: &Json, key: &str) -> (r: Figure)
    ensures
        is_figure(r, j@.field(key@)),
{
    match j.field(key) {
        Some(Json::Text(s)) => Figure::Text(s.clone()),
        Some(Json::Number { text, .. }) => Figure::Number(text.clone()),
        _ => Figure::Missing,
    }
}

/// Reads what the exchange says of the account. It may trade unless the exchange says it may not.
pub fn account_report(text: &str) -> (r: AccountReport)
    ensures
        match r {
            AccountReport::NotJson(why) => json_fault(text@) == Some(why@),
            AccountReport::Refused(m) => json_of_text(text@) matches Some(j) && j.text_field("msg"@)
                == Some(m@),
            AccountReport::Account { balance, unrealized, available, can_trade } => json_of_text(
                text@,
            ) matches Some(j) && j.text_field("msg"@) is None && is_figure(
                balance,
                j.field("totalWalletBalance"@),
            ) && is_figure(unrealized, j.field("totalUnrealizedProfit"@)) && is_figure(
                available,
                j.field("availableBalance"@),
            ) && can_trade == (j.bool_field("canTrade"@) != Some(false)),
        },
{
    let j = match read_json(text) {
        Err(why) => return AccountReport::NotJson(why),
        Ok(j) => j,
    };
    if let Some(m) = j.text_field("msg") {
        return AccountReport::Refused(m.to_string());
    }
    let can_trade = match j.bool_field("canTrade") {
        Some(b) => b,
        None => true,
    };
    AccountReport::Account {
        balance: read_figure(&j, "totalWalletBalance"),
        unrealized: read_figure(&j, "totalUnrealizedProfit"),
        available: read_figure(&j, "availableBalance"),
        can_trade,
    }
}

/// The symbols of the open positions that a synchronisation reaches: those of the exchange's list that
/// have a size, in its order.
pub open spec fn open_symbols(items: Seq<JsonView>, n: int) -> Seq<Seq<char>>
    decreases n,
{
    if n <= 0 {
        Seq::empty()
    } else {
        let before = open_symbols(items, n - 1);
        let item = items[n - 1];
        if or_else(item.dec_field("positionAmt"@), zero()).units() != 0 {
            before.push(text_or(item.text_field("symbol"@), ""@))
        } else {
            before
        }
    }
}

/// The symbols of the open positions in the exchange's list.
pub fn positions_to_sync(positions: &str) -> (r: Vec<String>)
    ensures
        ({
            let items = crate::json::items_of_text(positions@);
            texts(r@) == open_symbols(items, items.len() as int)
        }),
{
    let items = crate::json::parse_items(positions);
    let ghost all = views(items@);
    let mut out: Vec<String> = Vec::new();
    let mut n: usize = 0;
    assert(texts(out@) =~= Seq::empty());
    while n < items.len()
        invariant
            n <= items.len(),
            all == views(items@),
            texts(out@) == open_symbols(all, n as int),
        decreases items.len() - n,
    {
        assert(all[n as int] == items@[n as int]@);
        if !or_else(items[n].dec_field("positionAmt"), zero()).is_zero() {
            let symbol = match items[n].text_field("symbol") {
                Some(s) => s,
                None => "",
            };
            let ghost before = texts(out@);
            out.push(symbol.to_string());
            assert(texts(out@) =~= before.push(symbol@));
        }
        n = n + 1;
    }
    out
}

/// A double at a place of a list; nothing where there is none.
pub open spec fn double_at(doubles: Seq<Option<u64>>, i: int) -> Option<u64> {
    if 0 <= i < doubles.len() { doubles[i] } else { None }
}

/// Whether a double lies between two others, both counted in.
pub open spec fn in_range(d: Option<u64>, low: u64, high: u64) -> bool {
    d is Some && at_most(low, d->0) && at_most(d->0, high)
}

fn get_double(doubles: &Vec<Option<u64>>, i: usize) -> (r: Option<u64>)
    ensures
        r == double_at(doubles@, i as int),
{
    if i < doubles.len() { doubles[i] } else { None }
}

fn lies_in(d: Option<u64>, low: u64, high: u64) -> (r: bool)
    ensures
        r == in_range(d, low, high),
{
    match d {
        Some(x) => at_most(low, x) && at_most(x, high),
        None => false,
    }
}

fn word_is(w: &Vec<String>, i: usize, word: &str) -> (r: bool)
    requires
        i < w.len(),
    ensures
        r == (texts(w@)[i as int] == word@),
{
    same(w[i].as_str(), word)
}

/// A command to the guardian. Values stand in the words of the command.
#[derive(Clone, Copy, Debug, PartialEq, Eq, Structural)]
pub enum GuardCommand {
    Status,
    Stats,
    On,
    Off,
    Stop,
    BadStop,
    Alert { minutes: u64 },
    BadAlert,
    AutoTune { on: bool },
    GivebackOff,
    Giveback,
    BadGiveback,
    TrailOff,
    TrailOn,
    Trail,
    BadTrail,
    AutoCloseOff,
    AutoClose { minutes: u64 },
    BadAutoClose,
    Usage,
}

/// The command that some words are, with the doubles that the words can be read as.
pub open spec fn guard_command_of(w: Seq<Seq<char>>, d: Seq<Option<u64>>) -> GuardCommand {
    if w.len() == 0 {
        GuardCommand::Status
    } else if w.len() == 1 {
        if w[0] == "status"@ {
            GuardCommand::Status
        } else if w[0] == "stats"@ {
            GuardCommand::Stats
        } else if w[0] == "on"@ {
            GuardCommand::On
        } else if w[0] == "off"@ {
            GuardCommand::Off
        } else {
            GuardCommand::Usage
        }
    } else if w.len() == 2 {
        let minutes = bounded_natural(w[1], u64::MAX as int);
        if w[0] == "stop"@ {
            if in_range(double_at(d, 1), 0x4014_0000_0000_0000, 0x4056_8000_0000_0000) {
                GuardCommand::Stop
            } else {
                GuardCommand::BadStop
            }
        } else if w[0] == "alert"@ {
            if minutes is Some && minutes->0 > 0 {
                GuardCommand::Alert { minutes: minutes->0 as u64 }
            } else {
                GuardCommand::BadAlert
            }
        } else if w[0] == "autotune"@ && (w[1] == "on"@ || w[1] == "off"@) {
            GuardCommand::AutoTune { on: w[1] == "on"@ }
        } else if w[0] == "giveback"@ {
            if w[1] == "off"@ {
                GuardCommand::GivebackOff
            } else if in_range(double_at(d, 1), 0x4024_0000_0000_0000, 0x404e_0000_0000_0000) {
                GuardCommand::Giveback
            } else {
                GuardCommand::BadGiveback
            }
        } else if w[0] == "trail"@ && w[1] == "off"@ {
            GuardCommand::TrailOff
        } else if w[0] == "trail"@ && w[1] == "on"@ {
            GuardCommand::TrailOn
        } else if w[0] == "autoclose"@ {
            if w[1] == "off"@ || w[1] == "0"@ {
                GuardCommand::AutoCloseOff
            } else if minutes is Some && minutes->0 > 0 {
                GuardCommand::AutoClose { minutes: minutes->0 as u64 }
            } else {
                GuardCommand::BadAutoClose
            }
        } else {
            GuardCommand::Usage
        }
    } else if w.len() == 3 && w[0] == "trail"@ {
        if in_range(double_at(d, 1), 0x4000_0000_0000_0000, 0x4072_c000_0000_0000) && in_range(
            double_at(d, 2),
            0x3ff0_0000_0000_0000,
            0x4059_0000_0000_0000,
        ) && below(double_at(d, 2)->0, double_at(d, 1)->0) {
            GuardCommand::Trail
        } else {
            GuardCommand::BadTrail
        }
    } else {
        GuardCommand::Usage
    }
}

/// Reads a command to the guardian. The doubles are the bits that each word has as a double.
pub fn guard_command(w: &Vec<String>, doubles: &Vec<Option<u64>>) -> (r: GuardCommand)
    ensures
        r == guard_command_of(texts(w@), doubles@),
{
    let ghost all = texts(w@);
    let n: usize = w.len();
    if n == 0 {
        return GuardCommand::Status;
    }
    if n == 1 {
        return if word_is(w, 0, "status") {
            GuardCommand::Status
        } else if word_is(w, 0, "stats") {
            GuardCommand::Stats
        } else if word_is(w, 0, "on") {
            GuardCommand::On
        } else if word_is(w, 0, "off") {
            GuardCommand::Off
        } else {
            GuardCommand::Usage
        };
    }
    let d1 = get_double(doubles, 1);
    if n == 2 {
        assert(all[1] == w@[1]@);
        let minutes: u64 = match parse_u64(w[1].as_str()) {
            Some(m) => m,
            None => 0,
        };
        return if word_is(w, 0, "stop") {
            if lies_in(d1, 0x4014_0000_0000_0000, 0x4056_8000_0000_0000) {
                GuardCommand::Stop
            } else {
                GuardCommand::BadStop
            }
        } else if word_is(w, 0, "alert") {
            if minutes > 0 { GuardCommand::Alert { minutes } } else { GuardCommand::BadAlert }
        } else if word_is(w, 0, "autotune") && (word_is(w, 1, "on") || word_is(w, 1, "off")) {
            GuardCommand::AutoTune { on: word_is(w, 1, "on") }
        } else if word_is(w, 0, "giveback") {
            if word_is(w, 1, "off") {
                GuardCommand::GivebackOff
            } else if lies_in(d1, 0x4024_0000_0000_0000, 0x404e_0000_0000_0000) {
                GuardCommand::Giveback
            } else {
                GuardCommand::BadGiveback
            }
        } else if word_is(w, 0, "trail") && word_is(w, 1, "off") {
            GuardCommand::TrailOff
        } else if word_is(w, 0, "trail") && word_is(w, 1, "on") {
            GuardCommand::TrailOn
        } else if word_is(w, 0, "autoclose") {
            if word_is(w, 1, "off") || word_is(w, 1, "0") {
                GuardCommand::AutoCloseOff
            } else if minutes > 0 {
                GuardCommand::AutoClose { minutes }
            } else {
                GuardCommand::BadAutoClose
            }
        } else {
            GuardCommand::Usage
        };
    }
    if n == 3 && word_is(w, 0, "trail") {
        let d2 = get_double(doubles, 2);
        let fits = lies_in(d1, 0x4000_0000_0000_0000, 0x4072_c000_0000_0000) && lies_in(
            d2,
            0x3ff0_0000_0000_0000,
            0x4059_0000_0000_0000,
        ) && match (d1, d2) {
            (Some(arm), Some(back)) => below(back, arm),
            _ => false,
        };
        return if fits { GuardCommand::Trail } else { GuardCommand::BadTrail };
    }
    GuardCommand::Usage
}

/// A setting to be stored.
pub struct Setting {
    pub key: String,
    pub value: String,
}

/// Settings as keys and values.
pub open spec fn setting_views(v: Seq<Setting>) -> Seq<(Seq<char>, Seq<char>)> {
    v.map_values(|s: Setting| (s.key@, s.value@))
}

/// The settings that a command to the guardian stores.
pub open spec fn guard_settings(c: GuardCommand, w: Seq<Seq<char>>) -> Seq<(Seq<char>, Seq<char>)> {
    match c {
        GuardCommand::On => seq![("GUARD_ENABLED"@, "1"@)],
        GuardCommand::Off => seq![("GUARD_ENABLED"@, "0"@)],
        GuardCommand::Stop => seq![("GUARD_STOP_ROE"@, w[1])],
        GuardCommand::Alert { .. } => seq![("GUARD_HOLD_ALERT_MIN"@, w[1])],
        GuardCommand::AutoTune { on } => seq![
            ("GUARD_AUTO_TUNE"@, if on { "1"@ } else { "0"@ }),
        ],
        GuardCommand::GivebackOff => seq![("GUARD_TRAIL_GIVEBACK_PCT"@, "0"@)],
        GuardCommand::Giveback => seq![("GUARD_TRAIL_GIVEBACK_PCT"@, w[1])],
        GuardCommand::TrailOff => seq![("GUARD_TRAIL_ENABLED"@, "0"@)],
        GuardCommand::TrailOn => seq![("GUARD_TRAIL_ENABLED"@, "1"@)],
        GuardCommand::Trail => seq![
            ("GUARD_TRAIL_ARM_ROE"@, w[1]),
            ("GUARD_TRAIL_ROE"@, w[2]),
            ("GUARD_TRAIL_ENABLED"@, "1"@),
            ("GUARD_AUTO_TUNE"@, "0"@),
        ],
        GuardCommand::AutoCloseOff => seq![("GUARD_AUTO_CLOSE_MIN"@, "0"@)],
        GuardCommand::AutoClose { .. } => seq![("GUARD_AUTO_CLOSE_MIN"@, w[1])],
        _ => Seq::empty(),
    }
}

fn push_setting(v: &mut Vec<Setting>, key: &str, value: &str)
    ensures
        setting_views(final(v)@) == setting_views(old(v)@).push((key@, value@)),
{
    let ghost before = setting_views(v@);
    v.push(Setting { key: key.to_string(), value: value.to_string() });
    assert(setting_views(v@) =~= before.push((key@, value@)));
}

/// The settings that a command to the guardian stores.
pub fn guard_writes(c: GuardCommand, w: &Vec<String>) -> (r: Vec<Setting>)
    requires
        c is Stop || c is Alert || c is Giveback || c is AutoClose ==> w.len() == 2,
        c is Trail ==> w.len() == 3,
    ensures
        setting_views(r@) == guard_settings(c, texts(w@)),
{
    let mut out: Vec<Setting> = Vec::new();
    assert(setting_views(out@) =~= Seq::empty());
    match c {
        GuardCommand::On => push_setting(&mut out, "GUARD_ENABLED", "1"),
        GuardCommand::Off => push_setting(&mut out, "GUARD_ENABLED", "0"),
        GuardCommand::Stop => push_setting(&mut out, "GUARD_STOP_ROE", w[1].as_str()),
        GuardCommand::Alert { .. } => push_setting(
            &mut out,
            "GUARD_HOLD_ALERT_MIN",
            w[1].as_str(),
        ),
        GuardCommand::AutoTune { on } => push_setting(
            &mut out,
            "GUARD_AUTO_TUNE",
            if on { "1" } else { "0" },
        ),
        GuardCommand::GivebackOff => push_setting(&mut out, "GUARD_TRAIL_GIVEBACK_PCT", "0"),
        GuardCommand::Giveback => push_setting(
            &mut out,
            "GUARD_TRAIL_GIVEBACK_PCT",
            w[1].as_str(),
        ),
        GuardCommand::TrailOff => push_setting(&mut out, "GUARD_TRAIL_ENABLED", "0"),
        GuardCommand::TrailOn => push_setting(&mut out, "GUARD_TRAIL_ENABLED", "1"),
        GuardCommand::Trail => {
            push_setting(&mut out, "GUARD_TRAIL_ARM_ROE", w[1].as_str());
            push_setting(&mut out, "GUARD_TRAIL_ROE", w[2].as_str());
            push_setting(&mut out, "GUARD_TRAIL_ENABLED", "1");
            push_setting(&mut out, "GUARD_AUTO_TUNE", "0");
        },
        GuardCommand::AutoCloseOff => push_setting(&mut out, "GUARD_AUTO_CLOSE_MIN", "0"),
        GuardCommand::AutoClose { .. } => push_setting(
            &mut out,
            "GUARD_AUTO_CLOSE_MIN",
            w[1].as_str(),
        ),
        _ => {},
    }
    assert(setting_views(out@) =~= guard_settings(c, texts(w@)));
    out
}

/// A trailing stop can only be set so that it starts above what it gives back.
pub proof fn trail_starts_above_giveback(w: Seq<Seq<char>>, d: Seq<Option<u64>>)
    requires
        guard_command_of(w, d) == GuardCommand::Trail,
    ensures
        double_at(d, 1) is Some,
        double_at(d, 2) is Some,
        below(double_at(d, 2)->0, double_at(d, 1)->0),
{
}

/// A setting out of its range stores nothing.
pub proof fn bad_values_store_nothing(w: Seq<Seq<char>>, d: Seq<Option<u64>>)
    ensures
        ({
            let c = guard_command_of(w, d);
            c is BadStop || c is BadAlert || c is BadGiveback || c is BadTrail || c is BadAutoClose
                || c is Usage || c is Status || c is Stats ==> guard_settings(c, w).len() == 0
        }),
{
}

/// A closed position in the guardian's log.
#[derive(Clone, Copy, Debug)]
pub struct LoggedTrade {
    /// Its place in the log.
    pub place: usize,
    pub armed: bool,
    pub direct: bool,
}

/// The entry of the log at a place, where it is JSON and no older than a moment.
pub open spec fn logged(text: Seq<char>, place: int, oldest: u64) -> Option<LoggedTrade> {
    match json_of_text(text) {
        None => None,
        Some(j) => {
            let ts = match j.u64_field("ts"@) {
                Some(t) => t,
                None => 0,
            };
            if ts < oldest {
                None
            } else {
                Some(
                    LoggedTrade {
                        place: place as usize,
                        armed: j.bool_field("armed"@) == Some(true),
                        direct: j.bool_field("direct_exit"@) == Some(true),
                    },
                )
            }
        },
    }
}

/// The entries of the first `n` lines of the log that are no older than a moment.
pub open spec fn recent_of(log: Seq<Seq<char>>, oldest: u64, n: int) -> Seq<LoggedTrade>
    decreases n,
{
    if n <= 0 {
        Seq::empty()
    } else {
        match logged(log[n - 1], n - 1, oldest) {
            Some(t) => recent_of(log, oldest, n - 1).push(t),
            None => recent_of(log, oldest, n - 1),
        }
    }
}

/// The closed positions of the last seven days.
pub fn recent_trades(log: &Vec<String>, now_ms: u64) -> (r: Vec<LoggedTrade>)
    ensures
        ({
            let oldest = if now_ms >= 604800000 { (now_ms - 604800000) as u64 } else { 0 };
            r@ == recent_of(texts(log@), oldest, log@.len() as int)
        }),
{
    let oldest: u64 = if now_ms >= 604800000 { now_ms - 604800000 } else { 0 };
    let ghost all = texts(log@);
    let mut out: Vec<LoggedTrade> = Vec::new();
    let mut n: usize = 0;
    while n < log.len()
        invariant
            n <= log.len(),
            all == texts(log@),
            out@ == recent_of(all, oldest, n as int),
        decreases log.len() - n,
    {
        assert(all[n as int] == log@[n as int]@);
        if let Some(j) = parse_json(log[n].as_str()) {
            let ts: u64 = match j.u64_field("ts") {
                Some(t) => t,
                None => 0,
            };
            if ts >= oldest {
                let armed = match j.bool_field("armed") {
                    Some(b) => b,
                    None => false,
                };
                let direct = match j.bool_field("direct_exit") {
                    Some(b) => b,
                    None => false,
                };
                out.push(LoggedTrade { place: n, armed, direct });
            }
        }
        n = n + 1;
    }
    out
}

/// A command to the paper trader. Values stand in the words of the command.
#[derive(Clone, Copy, Debug, PartialEq, Eq, Structural)]
pub enum PaperCommand {
    Status,
    On,
    Off,
    Trail,
    BadTrail,
    Reset,
    Usage,
}

/// The command to the paper trader that some words are.
pub open spec fn paper_command_of(w: Seq<Seq<char>>, d: Seq<Option<u64>>) -> PaperCommand {
    if w.len() == 0 || w.len() == 1 && w[0] == "status"@ {
        PaperCommand::Status
    } else if w.len() == 1 && w[0] == "on"@ {
        PaperCommand::On
    } else if w.len() == 1 && w[0] == "off"@ {
        PaperCommand::Off
    } else if w.len() == 2 && w[0] == "trail"@ {
        if in_range(double_at(d, 1), 0x3fe0_0000_0000_0000, 0x4034_0000_0000_0000) {
            PaperCommand::Trail
        } else {
            PaperCommand::BadTrail
        }
    } else if w.len() == 1 && w[0] == "reset"@ {
        PaperCommand::Reset
    } else {
        PaperCommand::Usage
    }
}

/// Reads a command to the paper trader.
pub fn paper_command(w: &Vec<String>, doubles: &Vec<Option<u64>>) -> (r: PaperCommand)
    ensures
        r == paper_command_of(texts(w@), doubles@),
{
    let n: usize = w.len();
    if n == 0 || n == 1 && word_is(w, 0, "status") {
        PaperCommand::Status
    } else if n == 1 && word_is(w, 0, "on") {
        PaperCommand::On
    } else if n == 1 && word_is(w, 0, "off") {
        PaperCommand::Off
    } else if n == 2 && word_is(w, 0, "trail") {
        if lies_in(get_double(doubles, 1), 0x3fe0_0000_0000_0000, 0x4034_0000_0000_0000) {
            PaperCommand::Trail
        } else {
            PaperCommand::BadTrail
        }
    } else if n == 1 && word_is(w, 0, "reset") {
        PaperCommand::Reset
    } else {
        PaperCommand::Usage
    }
}

/// The settings that a command to the paper trader stores.
pub open spec fn paper_settings(c: PaperCommand, w: Seq<Seq<char>>) -> Seq<(Seq<char>, Seq<char>)> {
    match c {
        PaperCommand::On => seq![("PAPER_ENABLED"@, "1"@)],
        PaperCommand::Off => seq![("PAPER_ENABLED"@, "0"@)],
        PaperCommand::Trail => seq![("PAPER_TRAIL_PCT"@, w[1])],
        _ => Seq::empty(),
    }
}

/// The settings that a command to the paper trader stores.
pub fn paper_writes(c: PaperCommand, w: &Vec<String>) -> (r: Vec<Setting>)
    requires
        c is Trail ==> w.len() == 2,
    ensures
        setting_views(r@) == paper_settings(c, texts(w@)),
{
    let mut out: Vec<Setting> = Vec::new();
    assert(setting_views(out@) =~= Seq::empty());
    match c {
        PaperCommand::On => push_setting(&mut out, "PAPER_ENABLED", "1"),
        PaperCommand::Off => push_setting(&mut out, "PAPER_ENABLED", "0"),
        PaperCommand::Trail => push_setting(&mut out, "PAPER_TRAIL_PCT", w[1].as_str()),
        _ => {},
    }
    assert(setting_views(out@) =~= paper_settings(c, texts(w@)));
    out
}

/// A list of texts as JSON.
pub uninterp spec fn json_text_of(v: Seq<Seq<char>>) -> Seq<char>;

/// `serde_json::to_string` of a list of texts: the text of a JSON list that holds them in their order.
#[verifier::external_body]
pub(crate) fn texts_json(v: &Vec<String>) -> (r: String)
    ensures
        r@ == json_text_of(texts(v@)),
        json_of_text(r@) == Some(
            JsonView::List(texts(v@).map_values(|s: Seq<char>| JsonView::Text(s))),
        ),
{
    serde_json::to_string(v).unwrap()
}

/// The text under which a list of symbols is stored. The same list is read back from it.
pub fn write_texts(v: &Vec<String>) -> (r: String)
    ensures
        r@ == json_text_of(texts(v@)),
        list_of_text(r@) matches Some(items) && all_texts(items) && items.map_values(
            |j: JsonView| j->Text_0,
        ) == texts(v@),
{
    let r = texts_json(v);
    assert(texts(v@).map_values(|s: Seq<char>| JsonView::Text(s)).map_values(
        |j: JsonView| j->Text_0,
    ) =~= texts(v@));
    r
}

/// Whether every value is a text.
pub open spec fn all_texts(v: Seq<JsonView>) -> bool {
    forall|i: int| 0 <= i < v.len() ==> #[trigger] v[i] is Text
}

/// The texts that a stored list holds; none where it is no list of texts.
pub open spec fn stored_texts(raw: Option<&str>) -> Seq<Seq<char>> {
    match raw {
        None => Seq::empty(),
        Some(s) => match list_of_text(s@) {
            Some(v) if all_texts(v) => v.map_values(|j: JsonView| j->Text_0),
            _ => Seq::empty(),
        },
    }
}

/// Reads a stored list of texts.
pub fn read_texts(raw: Option<&str>) -> (r: Vec<String>)
    ensures
        texts(r@) == stored_texts(raw),
{
    let mut out: Vec<String> = Vec::new();
    assert(texts(out@) =~= Seq::empty());
    let s = match raw {
        Some(s) => s,
        None => return out,
    };
    let items = match parse_list(s) {
        Some(v) => v,
        None => return out,
    };
    let ghost all = views(items@);
    let mut i: usize = 0;
    while i < items.len()
        invariant
            i <= items.len(),
            all == views(items@),
            list_of_text(s@) == Some(all),
            raw == Some(s),
            texts(out@).len() == i,
            forall|k: int|
                0 <= k < i ==> (#[trigger] all[k]) is Text && texts(out@)[k] == all[k]->Text_0,
        decreases items.len() - i,
    {
        assert(all[i as int] == items@[i as int]@);
        match &items[i] {
            Json::Text(t) => {
                let ghost before = texts(out@);
                out.push(t.clone());
                assert(texts(out@) =~= before.push(t@));
            },
            _ => {
                let none: Vec<String> = Vec::new();
                assert(texts(none@) =~= Seq::empty());
                return none;
            },
        }
        i = i + 1;
    }
    assert(texts(out@) =~= all.map_values(|j: JsonView| j->Text_0));
    out
}

/// A list without a text.
pub open spec fn unlisted(v: Seq<Seq<char>>, s: Seq<char>) -> Seq<Seq<char>>
    decreases v.len(),
{
    if v.len() == 0 {
        v
    } else if v.last() == s {
        unlisted(v.drop_last(), s)
    } else {
        unlisted(v.drop_last(), s).push(v.last())
    }
}

/// A list with a text in it: at its end where it was not in it.
pub open spec fn listed(v: Seq<Seq<char>>, s: Seq<char>) -> Seq<Seq<char>> {
    if v.contains(s) { v } else { v.push(s) }
}

/// Puts a symbol on a list of symbols.
pub fn pin(pins: Vec<String>, symbol: &str) -> (r: Vec<String>)
    ensures
        texts(r@) == listed(texts(pins@), symbol@),
{
    let mut i: usize = 0;
    while i < pins.len()
        invariant
            i <= pins.len(),
            forall|j: int| 0 <= j < i ==> (#[trigger] pins@[j])@ != symbol@,
        decreases pins.len() - i,
    {
        if same(pins[i].as_str(), symbol) {
            assert(texts(pins@)[i as int] == symbol@);
            return pins;
        }
        i = i + 1;
    }
    assert(!texts(pins@).contains(symbol@)) by {
        if texts(pins@).contains(symbol@) {
            let k = choose|k: int| 0 <= k < texts(pins@).len() && texts(pins@)[k] == symbol@;
            assert(pins@[k]@ == symbol@);
        }
    }
    let ghost before = texts(pins@);
    let mut pins = pins;
    pins.push(symbol.to_string());
    assert(texts(pins@) =~= before.push(symbol@));
    pins
}

/// Takes a symbol off a list of symbols.
pub fn unpin(pins: Vec<String>, symbol: &str) -> (r: Vec<String>)
    ensures
        texts(r@) == unlisted(texts(pins@), symbol@),
{
    let mut out: Vec<String> = Vec::new();
    let ghost all = texts(pins@);
    let mut i: usize = 0;
    assert(texts(out@) =~= unlisted(all.take(0), symbol@));
    while i < pins.len()
        invariant
            i <= pins.len(),
            all == texts(pins@),
            texts(out@) == unlisted(all.take(i as int), symbol@),
        decreases pins.len() - i,
    {
        assert(all[i as int] == pins@[i as int]@);
        assert(all.take(i + 1).drop_last() =~= all.take(i as int));
        if !same(pins[i].as_str(), symbol) {
            let ghost before = texts(out@);
            out.push(pins[i].clone());
            assert(texts(out@) =~= before.push(all[i as int]));
        }
        i = i + 1;
    }
    assert(all.take(i as int) =~= all);
    out
}

/// A command to the spot grids. Values stand in the words of the command.
#[derive(Clone, Copy, Debug, PartialEq, Eq, Structural)]
pub enum GridCommand {
    Status,
    On,
    Pin,
    NotUsdt,
    Unpin,
    Stop,
    Auto { on: bool },
    Off,
    Liquidate,
    Budget,
    BadBudget,
    Slots { slots: usize },
    BadSlots,
    Usage,
}

/// The command to the spot grids that some words are.
pub open spec fn grid_command_of(w: Seq<Seq<char>>, d: Seq<Option<u64>>) -> GridCommand {
    if w.len() == 0 {
        GridCommand::Status
    } else if w.len() == 1 {
        if w[0] == "status"@ {
            GridCommand::Status
        } else if w[0] == "on"@ {
            GridCommand::On
        } else if w[0] == "off"@ {
            GridCommand::Off
        } else if w[0] == "liquidate"@ {
            GridCommand::Liquidate
        } else {
            GridCommand::Usage
        }
    } else if w.len() == 2 {
        let slots = bounded_natural(w[1], usize::MAX as int);
        if w[0] == "on"@ {
            if ends(upper_of(w[1]), "USDT"@) { GridCommand::Pin } else { GridCommand::NotUsdt }
        } else if w[0] == "unpin"@ {
            GridCommand::Unpin
        } else if w[0] == "stop"@ {
            GridCommand::Stop
        } else if w[0] == "auto"@ && (w[1] == "on"@ || w[1] == "off"@) {
            GridCommand::Auto { on: w[1] == "on"@ }
        } else if w[0] == "budget"@ {
            if in_range(double_at(d, 1), 0x4024_0000_0000_0000, 0x40f8_6a00_0000_0000) {
                GridCommand::Budget
            } else {
                GridCommand::BadBudget
            }
        } else if w[0] == "slots"@ {
            if slots is Some && 1 <= slots->0 <= 6 {
                GridCommand::Slots { slots: slots->0 as usize }
            } else {
                GridCommand::BadSlots
            }
        } else {
            GridCommand::Usage
        }
    } else {
        GridCommand::Usage
    }
}

/// Reads a command to the spot grids.
pub fn grid_command(w: &Vec<String>, doubles: &Vec<Option<u64>>) -> (r: GridCommand)
    ensures
        r == grid_command_of(texts(w@), doubles@),
{
    let n: usize = w.len();
    if n == 0 {
        return GridCommand::Status;
    }
    if n == 1 {
        return if word_is(w, 0, "status") {
            GridCommand::Status
        } else if word_is(w, 0, "on") {
            GridCommand::On
        } else if word_is(w, 0, "off") {
            GridCommand::Off
        } else if word_is(w, 0, "liquidate") {
            GridCommand::Liquidate
        } else {
            GridCommand::Usage
        };
    }
    if n != 2 {
        return GridCommand::Usage;
    }
    assert(texts(w@)[1] == w@[1]@);
    if word_is(w, 0, "on") {
        let symbol = to_upper(w[1].as_str());
        if ends_with(symbol.as_str(), "USDT") { GridCommand::Pin } else { GridCommand::NotUsdt }
    } else if word_is(w, 0, "unpin") {
        GridCommand::Unpin
    } else if word_is(w, 0, "stop") {
        GridCommand::Stop
    } else if word_is(w, 0, "auto") && (word_is(w, 1, "on") || word_is(w, 1, "off")) {
        GridCommand::Auto { on: word_is(w, 1, "on") }
    } else if word_is(w, 0, "budget") {
        if lies_in(get_double(doubles, 1), 0x4024_0000_0000_0000, 0x40f8_6a00_0000_0000) {
            GridCommand::Budget
        } else {
            GridCommand::BadBudget
        }
    } else if word_is(w, 0, "slots") {
        match parse_usize(w[1].as_str()) {
            Some(slots) if 1 <= slots && slots <= 6 => GridCommand::Slots { slots },
            _ => GridCommand::BadSlots,
        }
    } else {
        GridCommand::Usage
    }
}

/// The settings that a command to the spot grids stores, given the symbols that are pinned.
pub open spec fn grid_settings(c: GridCommand, w: Seq<Seq<char>>, pins: Seq<Seq<char>>) -> Seq<
    (Seq<char>, Seq<char>),
> {
    match c {
        GridCommand::On => seq![("GRID_LIVE_ENABLED"@, "1"@)],
        GridCommand::Pin => seq![
            ("GRID_LIVE_PINS"@, json_text_of(listed(pins, upper_of(w[1])))),
            ("GRID_LIVE_ENABLED"@, "1"@),
        ],
        GridCommand::Unpin => seq![
            ("GRID_LIVE_PINS"@, json_text_of(unlisted(pins, upper_of(w[1])))),
        ],
        GridCommand::Stop => seq![
            ("GRID_LIVE_STOP_"@ + upper_of(w[1]), "1"@),
            ("GRID_LIVE_PINS"@, json_text_of(unlisted(pins, upper_of(w[1])))),
        ],
        GridCommand::Auto { on } => seq![("GRID_LIVE_AUTO"@, if on { "1"@ } else { "0"@ })],
        GridCommand::Off => seq![("GRID_LIVE_ENABLED"@, "0"@)],
        GridCommand::Liquidate => seq![("GRID_LIVE_LIQUIDATE"@, "1"@)],
        GridCommand::Budget => seq![("GRID_LIVE_BUDGET"@, w[1])],
        GridCommand::Slots { .. } => seq![("GRID_LIVE_MAX_ACTIVE"@, w[1])],
        _ => Seq::empty(),
    }
}

/// The settings that a command to the spot grids stores, given the stored list of pinned symbols.
pub fn grid_writes(c: GridCommand, w: &Vec<String>, pins: Option<&str>) -> (r: Vec<Setting>)
    requires
        c is Pin || c is Unpin || c is Stop || c is Budget || c is Slots ==> w.len() == 2,
    ensures
        setting_views(r@) == grid_settings(c, texts(w@), stored_texts(pins)),
{
    let mut out: Vec<Setting> = Vec::new();
    assert(setting_views(out@) =~= Seq::empty());
    match c {
        GridCommand::On => push_setting(&mut out, "GRID_LIVE_ENABLED", "1"),
        GridCommand::Pin => {
            let symbol = to_upper(w[1].as_str());
            let list = pin(read_texts(pins), symbol.as_str());
            push_setting(&mut out, "GRID_LIVE_PINS", write_texts(&list).as_str());
            push_setting(&mut out, "GRID_LIVE_ENABLED", "1");
        },
        GridCommand::Unpin => {
            let symbol = to_upper(w[1].as_str());
            let list = unpin(read_texts(pins), symbol.as_str());
            push_setting(&mut out, "GRID_LIVE_PINS", write_texts(&list).as_str());
        },
        GridCommand::Stop => {
            let symbol = to_upper(w[1].as_str());
            let list = unpin(read_texts(pins), symbol.as_str());
            let key = "GRID_LIVE_STOP_".to_string().concat(symbol.as_str());
            push_setting(&mut out, key.as_str(), "1");
            push_setting(&mut out, "GRID_LIVE_PINS", write_texts(&list).as_str());
        },
        GridCommand::Auto { on } => push_setting(
            &mut out,
            "GRID_LIVE_AUTO",
            if on { "1" } else { "0" },
        ),
        GridCommand::Off => push_setting(&mut out, "GRID_LIVE_ENABLED", "0"),
        GridCommand::Liquidate => push_setting(&mut out, "GRID_LIVE_LIQUIDATE", "1"),
        GridCommand::Budget => push_setting(&mut out, "GRID_LIVE_BUDGET", w[1].as_str()),
        GridCommand::Slots { .. } => push_setting(&mut out, "GRID_LIVE_MAX_ACTIVE", w[1].as_str()),
        _ => {},
    }
    assert(setting_views(out@) =~= grid_settings(c, texts(w@), stored_texts(pins)));
    out
}

/// The spot grids, which trade with real money, are switched on by two commands only: the one to switch
/// them on, and the one to pin a symbol.
pub proof fn only_asked_for_switches_on(
    c: GridCommand,
    w: Seq<Seq<char>>,
    pins: Seq<Seq<char>>,
    i: int,
)
    requires
        0 <= i < grid_settings(c, w, pins).len(),
        grid_settings(c, w, pins)[i] == ("GRID_LIVE_ENABLED"@, "1"@),
    ensures
        c is On || c is Pin,
{
    reveal_strlit("GRID_LIVE_ENABLED");
    reveal_strlit("GRID_LIVE_PINS");
    reveal_strlit("GRID_LIVE_STOP_");
    reveal_strlit("GRID_LIVE_AUTO");
    reveal_strlit("GRID_LIVE_LIQUIDATE");
    reveal_strlit("GRID_LIVE_BUDGET");
    reveal_strlit("GRID_LIVE_MAX_ACTIVE");
    reveal_strlit("1");
    reveal_strlit("0");
    let on = "GRID_LIVE_ENABLED"@;
    let key = grid_settings(c, w, pins)[i].0;
    assert(on.len() == 17 && on[10] == 'E');
    match c {
        GridCommand::Stop => {
            if i == 0 {
                assert(key[10] == 'S');
            }
        },
        GridCommand::Off => {
            assert(("0"@)[0] != ("1"@)[0]);
        },
        _ => {},
    }
}

/// A symbol that was taken off a list is not on it, and every other one stays.
pub proof fn unpinned_is_gone(v: Seq<Seq<char>>, s: Seq<char>)
    ensures
        !unlisted(v, s).contains(s),
        forall|t: Seq<char>| t != s && #[trigger] v.contains(t) ==> unlisted(v, s).contains(t),
        forall|t: Seq<char>| #[trigger] unlisted(v, s).contains(t) ==> v.contains(t),
    decreases v.len(),
{
    if v.len() > 0 {
        let front = v.drop_last();
        unpinned_is_gone(front, s);
        let out = unlisted(front, s);
        assert forall|t: Seq<char>| t != s && #[trigger] v.contains(t) implies unlisted(
            v,
            s,
        ).contains(t) by {
            let k = choose|k: int| 0 <= k < v.len() && v[k] == t;
            if k == v.len() - 1 {
                assert(unlisted(v, s) == out.push(t));
                assert(unlisted(v, s)[out.len() as int] == t);
            } else {
                assert(front[k] == t);
                assert(front.contains(t));
                let j = choose|j: int| 0 <= j < out.len() && out[j] == t;
                assert(unlisted(v, s)[j] == t);
            }
        }
        assert forall|t: Seq<char>| #[trigger] unlisted(v, s).contains(t) implies v.contains(t) by {
            let k = choose|k: int| 0 <= k < unlisted(v, s).len() && unlisted(v, s)[k] == t;
            if k < out.len() {
                assert(out[k] == t);
                assert(out.contains(t));
                let j = choose|j: int| 0 <= j < front.len() && front[j] == t;
                assert(v[j] == t);
            } else {
                assert(v[v.len() - 1] == t);
            }
        }
        assert(!unlisted(v, s).contains(s)) by {
            if unlisted(v, s).contains(s) {
                let k = choose|k: int| 0 <= k < unlisted(v, s).len() && unlisted(v, s)[k] == s;
                if k < out.len() {
                    assert(out[k] == s);
                    assert(out.contains(s));
                }
            }
        }
    }
}

/// A symbol that was pinned is on the list, once, and the others stay as they were.
pub proof fn pinned_is_listed(v: Seq<Seq<char>>, s: Seq<char>)
    ensures
        listed(v, s).contains(s),
        listed(listed(v, s), s) == listed(v, s),
        v.len() <= listed(v, s).len() <= v.len() + 1,
        forall|i: int| 0 <= i < v.len() ==> #[trigger] listed(v, s)[i] == v[i],
{
    if !v.contains(s) {
        assert(v.push(s)[v.len() as int] == s);
    }
}

/// The change from one price to another is the rise in percent of the earlier one, below zero where the price has
/// fallen, but for rounding.
pub proof fn change_is_percentage(current: Dec, past: Dec, pct: Dec)
    requires
        arithmetic(),
        current.wf() && past.wf(),
        change_of(current, past) == Some(pct),
    ensures
        current.units() > 0 && past.units() > 0,
        amounts_to(true, current.units(), past.units(), pct.units()),
{
    gains_are_percentages(true, current, past, pct);
}

/// Midnight eight hours ahead of Greenwich is four in the afternoon there: the last one at or before a moment.
pub proof fn midnight_is_at_four(now: int)
    ensures
        midnight_before(now) <= now < midnight_before(now) + 86400,
        midnight_before(now) % 86400 == 57600,
{
}

/// The time of a request for profits is a number of minutes, hours, days or weeks, and no more than thirty days.
pub proof fn spans_are_counted(arg: Seq<char>, n: int)
    requires
        arg.len() > 0,
        bounded_natural(without(arg, arg.last()), u64::MAX as int) == Some(n),
        n >= 0,
    ensures
        arg.last() == 'm' && 0 < n <= 43200 ==> span_of(arg) == ProfitSpan::Seconds((n * 60) as u64),
        arg.last() == 'h' && 0 < n <= 720 ==> span_of(arg) == ProfitSpan::Seconds((n * 3600) as u64),
        arg.last() == 'd' && 0 < n <= 30 ==> span_of(arg) == ProfitSpan::Seconds((n * 86400) as u64),
        arg.last() == 'w' && 0 < n <= 4 ==> span_of(arg) == ProfitSpan::Seconds((n * 604800) as u64),
        span_of(arg) matches ProfitSpan::Seconds(s) ==> 0 < s <= 2592000 && (arg.last() == 'm' || arg.last() == 'h'
            || arg.last() == 'd' || arg.last() == 'w'),
        n == 0 && unit_seconds(arg.last()) is Some ==> span_of(arg) == ProfitSpan::Invalid,
{
    if let Some(k) = unit_seconds(arg.last()) {
        assert(0 <= n * k) by (nonlinear_arith)
            requires
                n >= 0,
                k >= 60,
        ;
        assert(n == 0 ==> n * k == 0) by (nonlinear_arith);
    }
}

/// The days and the symbol of a request for the history are the last number and the last word that is none.
pub proof fn last_words_count(w: Seq<Seq<char>>, n: int, i: int)
    requires
        0 <= i < n <= w.len(),
    ensures
        (bounded_natural(w[i], u32::MAX as int) is Some && forall|j: int|
            i < j < n ==> bounded_natural(#[trigger] w[j], u32::MAX as int) is None) ==> Some(
            history_days(w, n) as int,
        ) == bounded_natural(w[i], u32::MAX as int),
        (bounded_natural(w[i], u32::MAX as int) is None && forall|j: int|
            i < j < n ==> bounded_natural(#[trigger] w[j], u32::MAX as int) is Some) ==> history_symbol(w, n)
            == Some(upper_of(w[i])),
    decreases n,
{
    if i < n - 1 {
        last_words_count(w, n - 1, i);
        assert(w[n - 1] == w[n - 1]);
    }
}

/// A trade is a profit where its figure is above zero, and else a loss of the same size without its sign; a figure
/// that cannot be read, or is written as nothing, is neither.
pub proof fn outcome_has_its_sign(trade: JsonView, d: Dec)
    requires
        ({
            let pnl = text_or(trade.text_field("realizedPnl"@), "0"@);
            &&& pnl != "0"@ && pnl != "0.00000000"@ && !starts(pnl, "-0.000"@)
            &&& dec_of_text(pnl) == Some(d)
        }),
    ensures
        d.units() > 0 ==> outcome_of(trade) == Outcome::Profit(d),
        d.units() <= 0 ==> (outcome_of(trade) matches Outcome::Loss(l) && l.units() == -d.units()),
{
    lemma_absolute(d);
}

/// A trade that is added to the totals raises the profits or the losses by what it brought, never both, and the
/// fees by its fee.
pub proof fn trade_is_totalled(t: TradeTotals, trade: JsonView, next: TradeTotals)
    requires
        arithmetic(),
        t.profit.wf() && t.loss.wf() && t.fee.wf(),
        dec_of_text(text_or(trade.text_field("commission"@), "0"@)) matches Some(c) ==> c.wf(),
        outcome_of(trade) matches Outcome::Profit(d) ==> d.wf(),
        outcome_of(trade) matches Outcome::Loss(d) ==> d.wf(),
        totals_with(t, trade) == Some(next),
    ensures
        match outcome_of(trade) {
            Outcome::Nothing => next.profit == t.profit && next.loss == t.loss,
            Outcome::Profit(d) => next.loss == t.loss && rounded(
                Some(next.profit),
                t.profit.units() + d.units(),
                1,
            ),
            Outcome::Loss(d) => next.profit == t.profit && rounded(
                Some(next.loss),
                t.loss.units() + d.units(),
                1,
            ),
        },
        match dec_of_text(text_or(trade.text_field("commission"@), "0"@)) {
            Some(c) => rounded(Some(next.fee), t.fee.units() + c.units(), 1),
            None => next.fee == t.fee,
        },
{
    if let Some(c) = dec_of_text(text_or(trade.text_field("commission"@), "0"@)) {
        lemma_sum(t.fee, c);
    }
    match outcome_of(trade) {
        Outcome::Nothing => {},
        Outcome::Profit(d) => lemma_sum(t.profit, d),
        Outcome::Loss(d) => lemma_sum(t.loss, d),
    }
}

/// The symbols that a synchronisation reaches are those of all entries with a size, and of no others.
pub proof fn all_open_symbols(items: Seq<JsonView>, n: int)
    requires
        0 <= n <= items.len(),
    ensures
        forall|i: int|
            0 <= i < n && or_else((#[trigger] items[i]).dec_field("positionAmt"@), zero()).units() != 0
                ==> open_symbols(items, n).contains(text_or(items[i].text_field("symbol"@), ""@)),
        forall|k: int|
            #![trigger open_symbols(items, n)[k]]
            0 <= k < open_symbols(items, n).len() ==> exists|i: int|
                0 <= i < n && or_else((#[trigger] items[i]).dec_field("positionAmt"@), zero()).units() != 0
                    && open_symbols(items, n)[k] == text_or(items[i].text_field("symbol"@), ""@),
    decreases n,
{
    if n > 0 {
        all_open_symbols(items, n - 1);
        let before = open_symbols(items, n - 1);
        let now = open_symbols(items, n);
        assert forall|i: int|
            0 <= i < n && or_else((#[trigger] items[i]).dec_field("positionAmt"@), zero()).units() != 0 implies
            now.contains(text_or(items[i].text_field("symbol"@), ""@)) by {
            let s = text_or(items[i].text_field("symbol"@), ""@);
            if i < n - 1 {
                let k = choose|k: int| 0 <= k < before.len() && before[k] == s;
                assert(now[k] == s);
            } else {
                assert(now[before.len() as int] == s);
            }
        }
        assert forall|k: int| #![trigger now[k]] 0 <= k < now.len() implies exists|i: int|
            0 <= i < n && or_else((#[trigger] items[i]).dec_field("positionAmt"@), zero()).units() != 0 && now[k]
                == text_or(items[i].text_field("symbol"@), ""@) by {
            if k < before.len() {
                assert(now[k] == before[k]);
                let i = choose|i: int|
                    0 <= i < n - 1 && or_else((#[trigger] items[i]).dec_field("positionAmt"@), zero()).units() != 0
                        && before[k] == text_or(items[i].text_field("symbol"@), ""@);
                assert(items[i] == items[i]);
            } else {
                assert(items[n - 1] == items[n - 1]);
            }
        }
    }
}

/// An order comes to its margin times its leverage, at its limit or else at the top of the book; the leverage is
/// set to its whole part, or to one where it has none that fits.
pub proof fn order_is_planned(
    order: &TradeOrder,
    top: Option<Level>,
    rules: Option<(Dec, Dec)>,
    plan: OrderPlan,
)
    requires
        arithmetic(),
        order.margin.wf() && order.leverage.wf(),
        planned_order(order.margin, order.leverage, order.limit, top, rules) == Some(plan),
    ensures
        order.limit matches Some(l) ==> plan.entry == l,
        order.limit is None ==> (top matches Some(t) ==> plan.entry == t.price),
        order.limit is None && top is None ==> plan.entry.units() == unit(),
        exists|worth: Dec| #[trigger]
            rounded(Some(worth), order.margin.units() * order.leverage.units(), unit()) && sized(
                worth,
                plan.entry,
                match rules {
                    Some((step, _)) => Some(step),
                    None => None,
                },
            ) == Some(plan.qty),
        !order.leverage.minus() && order.leverage.units() < 0x1_0000_0000 * unit() ==> plan.leverage * unit()
            <= order.leverage.units() < (plan.leverage + 1) * unit(),
        order.leverage.units() < 0 ==> plan.leverage == 1,
        order.limit is None || rules is None <==> plan.limit is None,
{
    lemma_lit_units(1, 0);
    lemma_units_sign(order.leverage);
    lemma_product(order.margin, order.leverage);
    let worth = product_of(order.margin, order.leverage)->0;
    assert(rounded(Some(worth), order.margin.units() * order.leverage.units(), unit()));
}

/// A limit is brought down to a whole number of ticks, less than a tick below what was typed, but for rounding;
/// where the symbol has no tick it stays as it is.
pub proof fn limit_is_on_grid(limit: Dec, step: Dec, tick: Dec, at: Dec)
    requires
        arithmetic(),
        limit.wf() && tick.wf(),
        limit.units() >= 0,
        limit_on_grid(Some(limit), Some((step, tick))) == Some(Some(at)),
    ensures
        tick.units() <= 0 ==> at.units() == limit.units(),
        tick.units() > 0 ==> within_tick(true, at.units(), limit.units(), tick.units()),
        tick.units() > 0 && fits(2 * (limit.units() + tick.units()), tick.places()) ==> on_grid(
            true,
            at.units(),
            limit.units(),
            tick.units(),
        ),
{
    lemma_normal(limit);
    if tick.units() > 0 {
        lemma_quotient(limit, tick);
        let steps = quotient_of(limit, tick)->0;
        let n = floor(steps);
        assert(is_floor(n, steps) && n.wf()) by {
            reveal(arithmetic);
        }
        lemma_product(n, tick);
        let px = product_of(n, tick)->0;
        lemma_normal(px);
        lemma_within_tick(true, limit.units(), tick.units(), steps.units(), n.units(), px.units());
        if fits(2 * (limit.units() + tick.units()), tick.places()) {
            lemma_on_grid(true, limit.units(), tick, steps.units(), n, px);
        }
    }
}

/// The settings of the guardian can be set within these ranges and to what was typed: the stop from 5 to 90, what
/// is given back from 10 to 60, the trailing stop from 2 to 300 and from 1 to 100 with the second below the first,
/// reminders and closing for age from one minute on. What was typed is stored under the setting that was named.
pub proof fn guard_takes_settings(w: Seq<Seq<char>>, d: Seq<Option<u64>>)
    requires
        d.len() == w.len(),
    ensures
        ({
            let set = guard_settings(guard_command_of(w, d), w);
            let minutes = bounded_natural(w[1], u64::MAX as int);
            &&& w.len() == 2 && w[0] == "stop"@ && d[1] is Some && at_most(0x4014_0000_0000_0000, d[1]->0) && at_most(
                d[1]->0,
                0x4056_8000_0000_0000,
            ) ==> set == seq![("GUARD_STOP_ROE"@, w[1])]
            &&& w.len() == 2 && w[0] == "stop"@ && !(d[1] is Some && at_most(0x4014_0000_0000_0000, d[1]->0)
                && at_most(d[1]->0, 0x4056_8000_0000_0000)) ==> set.len() == 0
            &&& w.len() == 2 && w[0] == "alert"@ && minutes is Some && minutes->0 > 0 ==> set == seq![
                ("GUARD_HOLD_ALERT_MIN"@, w[1]),
            ]
            &&& w.len() == 2 && w[0] == "autoclose"@ && w[1] != "off"@ && w[1] != "0"@ && minutes is Some
                && minutes->0 > 0 ==> set == seq![("GUARD_AUTO_CLOSE_MIN"@, w[1])]
            &&& w.len() == 2 && w[0] == "autoclose"@ && (w[1] == "off"@ || w[1] == "0"@) ==> set == seq![
                ("GUARD_AUTO_CLOSE_MIN"@, "0"@),
            ]
            &&& w.len() == 2 && w[0] == "giveback"@ && w[1] != "off"@ && d[1] is Some && at_most(
                0x4024_0000_0000_0000,
                d[1]->0,
            ) && at_most(d[1]->0, 0x404e_0000_0000_0000) ==> set == seq![("GUARD_TRAIL_GIVEBACK_PCT"@, w[1])]
            &&& w.len() == 3 && w[0] == "trail"@ && d[1] is Some && d[2] is Some && at_most(
                0x4000_0000_0000_0000,
                d[1]->0,
            ) && at_most(d[1]->0, 0x4072_c000_0000_0000) && at_most(0x3ff0_0000_0000_0000, d[2]->0) && at_most(
                d[2]->0,
                0x4059_0000_0000_0000,
            ) && below(d[2]->0, d[1]->0) ==> set == seq![
                ("GUARD_TRAIL_ARM_ROE"@, w[1]),
                ("GUARD_TRAIL_ROE"@, w[2]),
                ("GUARD_TRAIL_ENABLED"@, "1"@),
                ("GUARD_AUTO_TUNE"@, "0"@),
            ]
            &&& w.len() == 3 && w[0] == "trail"@ && (d[1] is None || d[2] is None || !below(d[2]->0, d[1]->0))
                ==> set.len() == 0
            &&& w.len() == 1 && w[0] == "on"@ ==> set == seq![("GUARD_ENABLED"@, "1"@)]
            &&& w.len() == 1 && w[0] == "off"@ ==> set == seq![("GUARD_ENABLED"@, "0"@)]
        }),
{
    lemma_guard_words();
}

/// The words of the guardian's commands differ.
proof fn lemma_guard_words()
    ensures
        "stop"@ != "alert"@ && "stop"@ != "autotune"@ && "stop"@ != "giveback"@ && "stop"@ != "trail"@ && "stop"@
            != "autoclose"@,
        "alert"@ != "autotune"@ && "alert"@ != "giveback"@ && "alert"@ != "trail"@ && "alert"@ != "autoclose"@,
        "autotune"@ != "giveback"@ && "autotune"@ != "trail"@ && "autotune"@ != "autoclose"@,
        "giveback"@ != "trail"@ && "giveback"@ != "autoclose"@ && "trail"@ != "autoclose"@,
        "status"@ != "stats"@ && "status"@ != "on"@ && "status"@ != "off"@,
        "stats"@ != "on"@ && "stats"@ != "off"@ && "on"@ != "off"@,
        "on"@ != "liquidate"@ && "off"@ != "liquidate"@ && "status"@ != "liquidate"@,
        "on"@ != "unpin"@ && "on"@ != "stop"@ && "on"@ != "auto"@ && "on"@ != "budget"@ && "on"@ != "slots"@,
        "unpin"@ != "stop"@ && "unpin"@ != "auto"@ && "unpin"@ != "budget"@ && "unpin"@ != "slots"@,
        "stop"@ != "auto"@ && "stop"@ != "budget"@ && "stop"@ != "slots"@,
        "auto"@ != "budget"@ && "auto"@ != "slots"@ && "budget"@ != "slots"@,
        "on"@ != "trail"@ && "on"@ != "reset"@ && "off"@ != "reset"@ && "status"@ != "reset"@,
{
    reveal_strlit("stop");
    reveal_strlit("alert");
    reveal_strlit("autotune");
    reveal_strlit("giveback");
    reveal_strlit("trail");
    reveal_strlit("autoclose");
    reveal_strlit("status");
    reveal_strlit("stats");
    reveal_strlit("on");
    reveal_strlit("off");
    reveal_strlit("liquidate");
    reveal_strlit("unpin");
    reveal_strlit("auto");
    reveal_strlit("budget");
    reveal_strlit("slots");
    reveal_strlit("reset");
    assert(("autotune"@)[0] == 'a' && ("giveback"@)[0] == 'g');
    assert(("alert"@)[0] == 'a' && ("trail"@)[0] == 't' && ("stats"@)[0] == 's' && ("unpin"@)[0] == 'u');
    assert(("slots"@)[1] == 'l' && ("stats"@)[1] == 't' && ("stop"@)[0] == 's' && ("auto"@)[0] == 'a');
    assert(("status"@)[0] == 's' && ("budget"@)[0] == 'b' && ("reset"@)[0] == 'r' && ("liquidate"@)[0] == 'l');
    assert("alert"@.len() == 5 && "autotune"@.len() == 8 && "giveback"@.len() == 8 && "trail"@.len() == 5);
    assert("autoclose"@.len() == 9 && "status"@.len() == 6 && "stats"@.len() == 5 && "on"@.len() == 2);
    assert("off"@.len() == 3 && "liquidate"@.len() == 9 && "unpin"@.len() == 5 && "stop"@.len() == 4);
    assert("auto"@.len() == 4 && "budget"@.len() == 6 && "slots"@.len() == 5 && "reset"@.len() == 5);
    assert(("alert"@)[0] != ("trail"@)[0]);
    assert(("autotune"@)[0] != ("giveback"@)[0]);
}

/// The settings of the spot grids can be set within these ranges: the budget from 10 to 100000, the grids at a time
/// from one to six. Pinning a symbol puts it on the list and switches the grids on, unpinning and stopping take it
/// off; only a symbol against USDT is pinned.
pub proof fn grids_take_settings(w: Seq<Seq<char>>, d: Seq<Option<u64>>, pins: Seq<Seq<char>>)
    requires
        d.len() == w.len(),
    ensures
        ({
            let set = grid_settings(grid_command_of(w, d), w, pins);
            let slots = bounded_natural(w[1], usize::MAX as int);
            let symbol = upper_of(w[1]);
            &&& w.len() == 1 && w[0] == "on"@ ==> set == seq![("GRID_LIVE_ENABLED"@, "1"@)]
            &&& w.len() == 1 && w[0] == "off"@ ==> set == seq![("GRID_LIVE_ENABLED"@, "0"@)]
            &&& w.len() == 1 && w[0] == "liquidate"@ ==> set == seq![("GRID_LIVE_LIQUIDATE"@, "1"@)]
            &&& w.len() == 2 && w[0] == "on"@ && ends(symbol, "USDT"@) ==> set == seq![
                ("GRID_LIVE_PINS"@, json_text_of(listed(pins, symbol))),
                ("GRID_LIVE_ENABLED"@, "1"@),
            ]
            &&& w.len() == 2 && w[0] == "on"@ && !ends(symbol, "USDT"@) ==> set.len() == 0
            &&& w.len() == 2 && w[0] == "unpin"@ ==> set == seq![
                ("GRID_LIVE_PINS"@, json_text_of(unlisted(pins, symbol))),
            ]
            &&& w.len() == 2 && w[0] == "stop"@ ==> set == seq![
                ("GRID_LIVE_STOP_"@ + symbol, "1"@),
                ("GRID_LIVE_PINS"@, json_text_of(unlisted(pins, symbol))),
            ]
            &&& w.len() == 2 && w[0] == "budget"@ && d[1] is Some && at_most(0x4024_0000_0000_0000, d[1]->0) && at_most(
                d[1]->0,
                0x40f8_6a00_0000_0000,
            ) ==> set == seq![("GRID_LIVE_BUDGET"@, w[1])]
            &&& w.len() == 2 && w[0] == "budget"@ && !(d[1] is Some && at_most(0x4024_0000_0000_0000, d[1]->0)
                && at_most(d[1]->0, 0x40f8_6a00_0000_0000)) ==> set.len() == 0
            &&& w.len() == 2 && w[0] == "slots"@ && slots is Some && 1 <= slots->0 <= 6 ==> set == seq![
                ("GRID_LIVE_MAX_ACTIVE"@, w[1]),
            ]
            &&& w.len() == 2 && w[0] == "slots"@ && !(slots is Some && 1 <= slots->0 <= 6) ==> set.len() == 0
            &&& w.len() > 2 || w.len() == 0 ==> set.len() == 0
        }),
{
    lemma_guard_words();
}

/// The distance of the paper trader's trailing stop can be set from 0.5 to 20, and it is switched on and off.
pub proof fn paper_takes_settings(w: Seq<Seq<char>>, d: Seq<Option<u64>>)
    requires
        d.len() == w.len(),
    ensures
        ({
            let set = paper_settings(paper_command_of(w, d), w);
            &&& w.len() == 1 && w[0] == "on"@ ==> set == seq![("PAPER_ENABLED"@, "1"@)]
            &&& w.len() == 1 && w[0] == "off"@ ==> set == seq![("PAPER_ENABLED"@, "0"@)]
            &&& w.len() == 1 && w[0] == "reset"@ ==> paper_command_of(w, d) is Reset && set.len() == 0
            &&& w.len() == 2 && w[0] == "trail"@ && d[1] is Some && at_most(0x3fe0_0000_0000_0000, d[1]->0) && at_most(
                d[1]->0,
                0x4034_0000_0000_0000,
            ) ==> set == seq![("PAPER_TRAIL_PCT"@, w[1])]
            &&& w.len() == 2 && w[0] == "trail"@ && !(d[1] is Some && at_most(0x3fe0_0000_0000_0000, d[1]->0)
                && at_most(d[1]->0, 0x4034_0000_0000_0000)) ==> set.len() == 0
            &&& w.len() > 2 || w.len() == 0 ==> set.len() == 0
        }),
{
    lemma_guard_words();
}

/// The closed positions that are listed are exactly those of the log that can be read and are no older than the
/// moment, in its order.
pub proof fn recent_trades_are_listed(log: Seq<Seq<char>>, oldest: u64, n: int)
    requires
        0 <= n <= log.len() <= usize::MAX,
    ensures
        forall|k: int|
            0 <= k < recent_of(log, oldest, n).len() ==> ({
                let t = #[trigger] recent_of(log, oldest, n)[k];
                &&& t.place < n
                &&& json_of_text(log[t.place as int]) matches Some(j) && (match j.u64_field("ts"@) {
                    Some(ts) => ts >= oldest,
                    None => oldest == 0,
                }) && (t.armed <==> j.bool_field("armed"@) == Some(true)) && (t.direct <==> j.bool_field(
                    "direct_exit"@,
                ) == Some(true))
            }),
        forall|i: int|
            0 <= i < n && (json_of_text(#[trigger] log[i]) matches Some(j) && (match j.u64_field("ts"@) {
                Some(ts) => ts >= oldest,
                None => oldest == 0,
            })) ==> exists|k: int|
                0 <= k < recent_of(log, oldest, n).len() && (#[trigger] recent_of(log, oldest, n)[k]).place == i,
    decreases n,
{
    if n > 0 {
        recent_trades_are_listed(log, oldest, n - 1);
        let before = recent_of(log, oldest, n - 1);
        let now = recent_of(log, oldest, n);
        assert forall|k: int| 0 <= k < now.len() implies ({
            let t = #[trigger] now[k];
            &&& t.place < n
            &&& json_of_text(log[t.place as int]) matches Some(j) && (match j.u64_field("ts"@) {
                Some(ts) => ts >= oldest,
                None => oldest == 0,
            }) && (t.armed <==> j.bool_field("armed"@) == Some(true)) && (t.direct <==> j.bool_field(
                "direct_exit"@,
            ) == Some(true))
        }) by {
            if k < before.len() {
                assert(now[k] == before[k]);
            }
        }
        assert forall|i: int|
            0 <= i < n && (json_of_text(#[trigger] log[i]) matches Some(j) && (match j.u64_field("ts"@) {
                Some(ts) => ts >= oldest,
                None => oldest == 0,
            })) implies exists|k: int| 0 <= k < now.len() && (#[trigger] now[k]).place == i by {
            if i < n - 1 {
                let k = choose|k: int| 0 <= k < before.len() && (#[trigger] before[k]).place == i;
                assert(now[k] == before[k]);
            } else {
                assert(now[before.len() as int].place == i);
            }
        }
    }
}

/// A request for prices that names no time that there are candles for is one for five minutes; one that does is for
/// that time.
pub proof fn unknown_spans_are_five_minutes(args: Seq<char>)
    ensures
        !is_interval(lower_of(trimmed(args))) && lower_of(trimmed(args)) != "24h"@ ==> span_asked(args) == "5m"@,
        is_interval(lower_of(trimmed(args))) ==> span_asked(args) == lower_of(trimmed(args)),
{
}

/// A list of symbols that was stored is read back as it was; what is no list of texts is read as none.
pub proof fn stored_list_is_read(raw: &str, v: Seq<JsonView>)
    requires
        list_of_text(raw@) == Some(v),
    ensures
        stored_texts(None).len() == 0,
        (forall|i: int| 0 <= i < v.len() ==> #[trigger] v[i] is Text) ==> stored_texts(Some(raw)).len() == v.len()
            && forall|i: int| 0 <= i < v.len() ==> #[trigger] v[i] == JsonView::Text(stored_texts(Some(raw))[i]),
        (exists|i: int| 0 <= i < v.len() && !(#[trigger] v[i] is Text)) ==> stored_texts(Some(raw)).len() == 0,
{
}

/// Taking a symbol off a list keeps the order of the others, and leaves a list alone that does not hold it.
pub proof fn unpinning_keeps_order(v: Seq<Seq<char>>, s: Seq<char>)
    ensures
        unlisted(v, s) == v.filter(|t: Seq<char>| t != s),
        !v.contains(s) ==> unlisted(v, s) == v,
    decreases v.len(),
{
    reveal(Seq::filter);
    if v.len() > 0 {
        let front = v.drop_last();
        unpinning_keeps_order(front, s);
        if !v.contains(s) {
            assert(!front.contains(s)) by {
                if front.contains(s) {
                    let k = choose|k: int| 0 <= k < front.len() && front[k] == s;
                    assert(v[k] == s);
                }
            }
            assert(v[v.len() - 1] != s);
            assert(front.push(v.last()) =~= v);
        }
    }
}

} // verus!
