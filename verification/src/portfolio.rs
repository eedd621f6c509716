//! The portfolio: which signals are followed, and with how much.

use vstd::prelude::*;

use crate::decimal::{
    arithmetic, distance, fits, floor, is_floor, lemma_lit, lemma_lit_units, lemma_opposite,
    lemma_product, lemma_quotient, lemma_rounded_sign, lemma_units_sign, lit, magnitude_limit,
    normal, opposite, or_else, product, quotient, quotient_of, rounded, text_of_dec, unit, zero,
    Dec,
};
use crate::guardian::{live_of, live_symbols_differ, live_positions, position_views, Held};
use crate::json::{items_of_text, json_of_text, parse_json, JsonView};
use crate::profit::{lemma_next_to, lemma_on_grid, lemma_within_tick, next_to, on_grid, within_tick};
use crate::strategy::{since, within, ControlMessage};
use crate::text::{bounded_natural, parse_usize, same, texts};

verus! {

/// The leverage with which signals are followed.
pub const LEVERAGE: u32 = 10;

/// The kind of margin of every position.
pub fn margin_kind() -> (r: &'static str)
    ensures
        r@ == "ISOLATED"@,
{
    "ISOLATED"
}

/// An order, as it is sent: its side, its quantity and its price as texts. A market order that may only
/// reduce a position opens none.
#[derive(Clone, Debug, PartialEq, Eq)]
pub enum OrderAsk {
    Market { side: String, qty: String, reduce_only: bool },
    Limit { side: String, qty: String, price: String },
}

/// Whether an order is the market order over a quantity, one that may open a position.
pub open spec fn opens_at_market(r: OrderAsk, side: Seq<char>, qty: Dec) -> bool {
    r matches OrderAsk::Market { side: s, qty: q, reduce_only } && s@ == side && q@ == text_of_dec(
        normal(qty),
    ) && !reduce_only
}

/// The order that follows a signal: at the market, and it may open a position.
pub fn market_entry(side: &str, qty: Dec) -> (r: OrderAsk)
    ensures
        opens_at_market(r, side@, qty),
{
    OrderAsk::Market { side: side.to_string(), qty: normal(qty).text(), reduce_only: false }
}

/// A signal to go in: the symbol, the side, how strong it is, and the price at which it was seen.
#[derive(Clone, Debug)]
pub struct SignalEvent {
    pub symbol: String,
    pub side: String,
    pub strength: String,
    pub price: Dec,
}

/// The portfolio: the symbols that have a position, and when the last one was opened, in nanoseconds
/// of a clock that does not go back.
pub struct PortfolioManager {
    pub active_symbols: Vec<String>,
    pub last_new_position_time: Option<u64>,
}

/// What the account holds: the wallet, and what of it is free.
#[derive(Clone, Copy, Debug)]
pub struct Funds {
    pub wallet: Dec,
    pub available: Dec,
}

/// What becomes of a signal.
#[derive(Clone, Copy, Debug)]
pub enum Decision {
    /// The symbol has a position already.
    AlreadyHeld,
    /// A position was opened a moment ago.
    TooSoon,
    /// There are as many positions as may be.
    Full { held: usize, limit: usize },
    /// There is too little money.
    TooLittle,
    /// A figure is out of range.
    OutOfRange,
    /// An order of this value is to be placed.
    Trade { notional: Dec },
}

/// The funds that the exchange reports; none where the reply is no JSON or the wallet is empty.
pub open spec fn funds_of(text: Seq<char>) -> Option<Funds> {
    match json_of_text(text) {
        None => None,
        Some(j) => {
            let wallet = or_else(j.dec_field("totalWalletBalance"@), zero());
            let available = or_else(j.dec_field("availableBalance"@), zero());
            if wallet.units() > 0 { Some(Funds { wallet, available }) } else { None }
        },
    }
}

impl Funds {
    /// Reads the funds from the exchange's reply.
    pub fn read(text: &str) -> (r: Option<Funds>)
        ensures
            r == funds_of(text@),
    {
        match parse_json(text) {
            None => None,
            Some(j) => {
                let wallet = or_else(j.dec_field("totalWalletBalance"), zero());
                let available = or_else(j.dec_field("availableBalance"), zero());
                if wallet.is_positive() { Some(Funds { wallet, available }) } else { None }
            },
        }
    }

    /// The money for one position: three tenths of the wallet where they are free, else all but a
    /// twentieth of what is free.
    pub open spec fn margin(self) -> Option<Dec> {
        match product(Some(self.wallet), Some(lit(30, 2))) {
            None => None,
            Some(target) => if self.available.units() >= target.units() {
                Some(target)
            } else {
                product(Some(self.available), Some(lit(95, 2)))
            },
        }
    }

    /// The money for one position. It is never more than what is free.
    pub fn usable_margin(&self) -> (r: Option<Dec>)
        ensures
            r == self.margin(),
            r matches Some(m) ==> self.available.units() >= 0 ==> m.units()
                <= self.available.units(),
            r matches Some(m) ==> forall|third: Dec, rest: Dec|
                #![trigger third.units(), rest.units()]
                third.wf() && rest.wf() && 10 * third.units() == 3 * self.wallet.units() && 100 * rest.units() == 95
                    * self.available.units() ==> m.units() == (if self.available.units() >= third.units() {
                    third.units()
                } else {
                    rest.units()
                }),
    {
        proof {
            lemma_lit_units(30, 2);
            lemma_lit_units(95, 2);
            assert forall|e: Dec| #![trigger e.units()] 10 * e.units() == 3 * self.wallet.units() implies e.units()
                * unit() == self.wallet.units() * lit(30, 2).units() by {
                assert(e.units() * unit() == self.wallet.units() * lit(30, 2).units()) by (nonlinear_arith)
                    requires
                        10 * e.units() == 3 * self.wallet.units(),
                        lit(30, 2).units() == 30 * (unit() / 100),
                ;
            }
            assert forall|e: Dec| #![trigger e.units()] 100 * e.units() == 95 * self.available.units() implies e.units()
                * unit() == self.available.units() * lit(95, 2).units() by {
                assert(e.units() * unit() == self.available.units() * lit(95, 2).units()) by (nonlinear_arith)
                    requires
                        100 * e.units() == 95 * self.available.units(),
                        lit(95, 2).units() == 95 * (unit() / 100),
                ;
            }
        }
        let target = match product(Some(self.wallet), Some(lit(30, 2))) {
            Some(d) => d,
            None => return None,
        };
        if !self.available.below(target) {
            Some(target)
        } else {
            let r = product(Some(self.available), Some(lit(95, 2)));
            proof {
                if r is Some && self.available.units() >= 0 {
                    lemma_part(self.available, r->0);
                }
            }
            r
        }
    }
}

/// All but a twentieth of an amount is no more than the amount.
proof fn lemma_part(a: Dec, part: Dec)
    requires
        a.units() >= 0,
        rounded(Some(part), a.units() * lit(95, 2).units(), unit()),
    ensures
        part.units() <= a.units(),
{
    lemma_lit_units(95, 2);
    let x = a.units();
    let r = part.units();
    let f = lit(95, 2).units();
    assert(f == 9500000000000000000000000000);
    if x == 0 {
        lemma_lit(0, 0);
        lemma_units_sign(lit(0, 0));
        assert(x * f == 0) by (nonlinear_arith)
            requires
                x == 0,
        ;
        assert(lit(0, 0).units() * unit() == x * f);
    }
    assert(r <= x) by (nonlinear_arith)
        requires
            x > 0 || r == 0 && x == 0,
            f == 9500000000000000000000000000,
            (r * 10000000000000000000000000000 - x * f) * 4951760157141521099596496896
                <= 10000000000000000000000000000 * 4951760157141521099596496896int + x * f,
    ;
}

/// The symbols that have a position in the exchange's list.
pub open spec fn active_of(positions: Seq<char>) -> Seq<Seq<char>> {
    let items = items_of_text(positions);
    live_of(items, items.len() as int).map_values(|p: (Seq<char>, Held)| p.0)
}

/// The most positions that there may be: one unless set otherwise.
pub open spec fn position_limit(raw: Option<&str>) -> usize {
    match raw {
        Some(s) => match bounded_natural(s@, usize::MAX as int) {
            Some(n) => n as usize,
            None => 1,
        },
        None => 1,
    }
}

/// What becomes of a signal, given the symbols that have a position.
pub open spec fn decided(
    active: Seq<Seq<char>>,
    symbol: Seq<char>,
    strength: Seq<char>,
    funds: Funds,
    limit: usize,
    last: Option<u64>,
    now: u64,
) -> Decision {
    let held = active.contains(symbol);
    if held && strength != "DCA"@ {
        Decision::AlreadyHeld
    } else if !held && within(last, now, 2000000000) {
        Decision::TooSoon
    } else if !held && active.len() >= limit {
        Decision::Full { held: active.len() as usize, limit }
    } else {
        match funds.margin() {
            None => Decision::OutOfRange,
            Some(margin) => if margin.units() < lit(50, 1).units() {
                Decision::TooLittle
            } else {
                match product(Some(margin), Some(lit(LEVERAGE, 0))) {
                    None => Decision::OutOfRange,
                    Some(notional) => Decision::Trade { notional },
                }
            },
        }
    }
}

impl PortfolioManager {
    /// A portfolio of which nothing is known yet.
    pub fn new() -> (r: PortfolioManager)
        ensures
            texts(r.active_symbols@) == Seq::<Seq<char>>::empty(),
            r.last_new_position_time is None,
    {
        let r = PortfolioManager { active_symbols: Vec::new(), last_new_position_time: None };
        assert(texts(r.active_symbols@) =~= Seq::empty());
        r
    }

    /// Whether a symbol has a position.
    fn is_active(&self, symbol: &str) -> (r: bool)
        ensures
            r == texts(self.active_symbols@).contains(symbol@),
    {
        let mut i: usize = 0;
        while i < self.active_symbols.len()
            invariant
                i <= self.active_symbols.len(),
                forall|j: int| 0 <= j < i ==> (#[trigger] self.active_symbols@[j])@ != symbol@,
            decreases self.active_symbols.len() - i,
        {
            if same(self.active_symbols[i].as_str(), symbol) {
                assert(texts(self.active_symbols@)[i as int] == symbol@);
                return true;
            }
            i = i + 1;
        }
        assert(!texts(self.active_symbols@).contains(symbol@)) by {
            if texts(self.active_symbols@).contains(symbol@) {
                let k = choose|k: int|
                    0 <= k < texts(self.active_symbols@).len() && texts(self.active_symbols@)[k]
                        == symbol@;
                assert(self.active_symbols@[k]@ == symbol@);
            }
        }
        false
    }

    /// Decides what becomes of a signal, from the exchange's list of positions and the limit that is
    /// set. A symbol that is traded anew counts as held at once, so that the limit holds while the
    /// order is on its way.
    pub fn handle_signal(
        &mut self,
        signal: &SignalEvent,
        funds: Funds,
        positions: &str,
        limit_setting: Option<&str>,
        now: u64,
    ) -> (r: Decision)
        ensures
            r == decided(
                active_of(positions@),
                signal.symbol@,
                signal.strength@,
                funds,
                position_limit(limit_setting),
                old(self).last_new_position_time,
                now,
            ),
            ({
                let active = active_of(positions@);
                let anew = r is Trade && !active.contains(signal.symbol@);
                &&& texts(final(self).active_symbols@) == if anew {
                    active.push(signal.symbol@)
                } else {
                    active
                }
                &&& final(self).last_new_position_time == if anew {
                    Some(now)
                } else {
                    old(self).last_new_position_time
                }
                &&& anew ==> final(self).active_symbols@.len() <= position_limit(limit_setting)
            }),
            r matches Decision::Trade { notional } ==> funds.margin() is Some && funds.margin()->0.units() >= 5 * unit()
                && rounded(Some(notional), funds.margin()->0.units() * (10 * unit()), unit()),
    {
        proof {
            lemma_lit_units(50, 1);
            lemma_lit_units(LEVERAGE, 0);
        }
        let live = live_positions(positions);
        let ghost active = active_of(positions@);
        let mut list: Vec<String> = Vec::new();
        let mut i: usize = 0;
        while i < live.len()
            invariant
                i <= live.len(),
                position_views(live@) == live_of(
                    items_of_text(positions@),
                    items_of_text(positions@).len() as int,
                ),
                active == active_of(positions@),
                active.len() == live.len(),
                texts(list@) == active.take(i as int),
            decreases live.len() - i,
        {
            assert(position_views(live@)[i as int] == live@[i as int]@);
            let ghost before = texts(list@);
            list.push(live[i].symbol.clone());
            assert(texts(list@) =~= before.push(active[i as int]));
            assert(active.take(i + 1) =~= active.take(i as int).push(active[i as int]));
            i = i + 1;
        }
        assert(active.take(i as int) =~= active);
        self.active_symbols = list;
        let held = self.is_active(signal.symbol.as_str());
        if held {
            if !same(signal.strength.as_str(), "DCA") {
                return Decision::AlreadyHeld;
            }
        } else {
            let soon = match self.last_new_position_time {
                Some(t) => if now >= t { now - t < 2000000000 } else { true },
                None => false,
            };
            if soon {
                return Decision::TooSoon;
            }
        }
        let limit: usize = match limit_setting {
            Some(s) => match parse_usize(s) {
                Some(n) => n,
                None => 1,
            },
            None => 1,
        };
        let count: usize = self.active_symbols.len();
        if !held && count >= limit {
            return Decision::Full { held: count, limit };
        }
        let margin = match funds.usable_margin() {
            Some(d) => d,
            None => return Decision::OutOfRange,
        };
        if margin.below(lit(50, 1)) {
            return Decision::TooLittle;
        }
        let notional = match product(Some(margin), Some(lit(LEVERAGE, 0))) {
            Some(d) => d,
            None => return Decision::OutOfRange,
        };
        if !held {
            let ghost before = texts(self.active_symbols@);
            self.active_symbols.push(signal.symbol.clone());
            assert(texts(self.active_symbols@) =~= before.push(signal.symbol@));
            self.last_new_position_time = Some(now);
        }
        Decision::Trade { notional }
    }
}

/// A new position is opened only where there is room for it, and no sooner than two seconds after the
/// last one; a symbol that has a position is bought again only to average it down.
pub proof fn openings_are_held_back(
    active: Seq<Seq<char>>,
    symbol: Seq<char>,
    strength: Seq<char>,
    funds: Funds,
    limit: usize,
    last: Option<u64>,
    now: u64,
)
    requires
        decided(active, symbol, strength, funds, limit, last, now) is Trade,
    ensures
        !active.contains(symbol) ==> active.len() < limit,
        !active.contains(symbol) ==> (last matches Some(t) ==> since(t, now) >= 2000000000),
        active.contains(symbol) ==> strength == "DCA"@,
{
}

/// How much is bought for an amount at a price: in whole steps, where the symbol has a step.
pub open spec fn sized(notional: Dec, price: Dec, step: Option<Dec>) -> Option<Dec> {
    match quotient(Some(notional), Some(price)) {
        None => None,
        Some(qty) => if step is Some && step->0.units() > 0 {
            match quotient(Some(qty), step) {
                None => None,
                Some(steps) => product(Some(floor(steps)), step),
            }
        } else {
            Some(qty)
        },
    }
}

/// Works out how much is bought for an amount at a price. Nothing where the price is zero or a figure
/// is out of range. It is a whole number of steps, no more than the amount pays for and less than a step
/// short of it, unless it has more digits than a decimal holds.
pub fn order_size(notional: Dec, price: Dec, step: Option<Dec>) -> (r: Option<Dec>)
    ensures
        r == sized(notional, price, step),
        price.units() == 0 ==> r is None,
        r is Some && price.units() > 0 ==> rounded(
            quotient(Some(notional), Some(price)),
            notional.units() * unit(),
            price.units(),
        ) && (step is None || step->0.units() <= 0 ==> r == quotient(Some(notional), Some(price))),
        ({
            let qty = quotient(Some(notional), Some(price))->0;
            (r is Some && step is Some && step->0.units() > 0 && qty.units() >= 0 && fits(
                2 * (qty.units() + step->0.units()),
                step->0.places(),
            )) ==> on_grid(true, r->0.units(), qty.units(), step->0.units()) && within_tick(
                true,
                r->0.units(),
                qty.units(),
                step->0.units(),
            ) && (quotient(Some(qty), step)->0.units() * step->0.units() == qty.units() * unit()
                ==> next_to(true, r->0.units(), qty.units(), step->0.units()))
        }),
{
    let qty = match quotient(Some(notional), Some(price)) {
        Some(d) => d,
        None => return None,
    };
    match step {
        Some(s) if s.is_positive() => match quotient(Some(qty), Some(s)) {
            Some(steps) => {
                let n = floor(steps);
                let r = product(Some(n), Some(s));
                proof {
                    if r is Some && qty.units() >= 0 && fits(
                        2 * (qty.units() + s.units()),
                        s.places(),
                    ) {
                        use_type_invariant(&s);
                        lemma_on_grid(true, qty.units(), s, steps.units(), n, r->0);
                        lemma_next_to(true, qty.units(), s, steps, n, r->0);
                        lemma_within_tick(
                            true,
                            qty.units(),
                            s.units(),
                            steps.units(),
                            n.units(),
                            r->0.units(),
                        );
                    }
                }
                r
            },
            None => None,
        },
        _ => Some(qty),
    }
}

/// A trade that was made: its size, with a minus for a sale, its price, and its value.
#[derive(Clone, Copy, Debug)]
pub struct Fill {
    pub trade_qty: Dec,
    pub price: Dec,
    pub value: Option<Dec>,
}

/// What the strategy of the symbol is told of a trade that was made.
pub fn trade_message(fill: Fill) -> (r: ControlMessage)
    ensures
        r == (ControlMessage::TradeExecuted { trade_qty: fill.trade_qty, fill_price: fill.price }),
{
    ControlMessage::TradeExecuted { trade_qty: fill.trade_qty, fill_price: fill.price }
}

/// What a trade was: at the price that the exchange reports where it reports one, else at the price
/// that was expected. Any side but `BUY` is a sale.
pub fn execute_trade(side: &str, qty: Dec, reported: Dec, expected: Dec) -> (r: Fill)
    ensures
        r.price == (if reported.units() > 0 { reported } else { expected }),
        r.trade_qty == (if side@ == "BUY"@ { qty } else { opposite(qty) }),
        r.trade_qty.units() == (if side@ == "BUY"@ { qty.units() } else { -qty.units() }),
        r.value is Some ==> rounded(r.value, qty.units() * r.price.units(), unit()),
        r.value == product(Some(qty), Some(r.price)),
{
    let price = if reported.is_positive() { reported } else { expected };
    proof {
        lemma_opposite(qty);
    }
    Fill {
        trade_qty: if same(side, "BUY") { qty } else { opposite(qty) },
        price,
        value: product(Some(qty), Some(price)),
    }
}

/// The money for one position is three tenths of the wallet where that much is free, else nineteen twentieths of
/// what is free. Said where these parts are decimals.
pub proof fn margin_is_part_of_funds(funds: Funds, third: Dec, rest: Dec, m: Dec)
    requires
        arithmetic(),
        funds.wallet.wf() && funds.available.wf() && third.wf() && rest.wf(),
        10 * third.units() == 3 * funds.wallet.units(),
        100 * rest.units() == 95 * funds.available.units(),
        funds.margin() == Some(m),
    ensures
        m.wf(),
        m.units() == (if funds.available.units() >= third.units() { third.units() } else { rest.units() }),
{
    lemma_lit(30, 2);
    lemma_lit_units(30, 2);
    lemma_lit(95, 2);
    lemma_lit_units(95, 2);
    lemma_product(funds.wallet, lit(30, 2));
    lemma_product(funds.available, lit(95, 2));
    let (w, a, t, r) = (funds.wallet.units(), funds.available.units(), third.units(), rest.units());
    assert(t * unit() == w * lit(30, 2).units()) by (nonlinear_arith)
        requires
            10 * t == 3 * w,
            lit(30, 2).units() == 30 * (unit() / 100),
    ;
    assert(r * unit() == a * lit(95, 2).units()) by (nonlinear_arith)
        requires
            100 * r == 95 * a,
            lit(95, 2).units() == 95 * (unit() / 100),
    ;
}

/// What becomes of a signal, said outright: a symbol that is held takes none but one to average down; another
/// waits for two seconds after the last opening and needs room under the limit; less than five are not worth it;
/// else it is traded for ten times the money for one position.
pub proof fn signal_is_decided(
    active: Seq<Seq<char>>,
    symbol: Seq<char>,
    strength: Seq<char>,
    funds: Funds,
    limit: usize,
    last: Option<u64>,
    now: u64,
    margin: Dec,
)
    requires
        arithmetic(),
        margin.wf(),
        funds.margin() == Some(margin),
    ensures
        ({
            let d = decided(active, symbol, strength, funds, limit, last, now);
            let held = active.contains(symbol);
            let soon = last matches Some(t) && (now < t || now - t < 2000000000);
            let goes_on = if held { strength == "DCA"@ } else { !soon && active.len() < limit };
            &&& d is AlreadyHeld <==> held && strength != "DCA"@
            &&& d is TooSoon <==> !held && soon
            &&& d is Full <==> !held && !soon && active.len() >= limit
            &&& d matches Decision::Full { held, limit: l } ==> l == limit && (active.len() <= usize::MAX ==> held
                == active.len())
            &&& d is TooLittle <==> goes_on && margin.units() < 5 * unit()
            &&& d matches Decision::Trade { notional } ==> goes_on && margin.units() >= 5 * unit() && rounded(
                Some(notional),
                margin.units() * (10 * unit()),
                unit(),
            )
            &&& goes_on && 5 * unit() <= margin.units() < (magnitude_limit() - 1) * unit() / 10 ==> d is Trade
        }),
{
    lemma_lit_units(50, 1);
    lemma_lit(LEVERAGE, 0);
    lemma_lit_units(LEVERAGE, 0);
    lemma_product(margin, lit(LEVERAGE, 0));
    let m = margin.units();
    assert(m * lit(LEVERAGE, 0).units() == m * (10 * unit()));
    assert(5 * unit() <= m < (magnitude_limit() - 1) * unit() / 10 ==> distance(m * (10 * unit())) < (
    magnitude_limit() - 1) * unit() * unit()) by (nonlinear_arith);
}

/// How much is bought for an amount at a price: the amount over the price; and where there is a step, the whole
/// number of steps below that, less than one short of it, but for rounding.
pub proof fn size_is_amount_over_price(notional: Dec, price: Dec, step: Option<Dec>, q: Dec)
    requires
        arithmetic(),
        notional.wf() && price.wf(),
        notional.units() >= 0,
        price.units() > 0,
        step is Some ==> step->0.wf(),
        sized(notional, price, step) == Some(q),
    ensures
        step is None || step->0.units() <= 0 ==> rounded(Some(q), notional.units() * unit(), price.units()),
        step matches Some(s) && s.units() > 0 ==> exists|all: Dec| #[trigger]
            rounded(Some(all), notional.units() * unit(), price.units()) && within_tick(
                true,
                q.units(),
                all.units(),
                step->0.units(),
            ) && (fits(2 * (all.units() + step->0.units()), step->0.places()) ==> on_grid(
                true,
                q.units(),
                all.units(),
                step->0.units(),
            )),
{
    lemma_quotient(notional, price);
    let all = quotient_of(notional, price)->0;
    lemma_rounded_sign(all, notional.units() * unit(), price.units());
    if step is Some && step->0.units() > 0 {
        let s = step->0;
        lemma_quotient(all, s);
        let steps = quotient_of(all, s)->0;
        let n = floor(steps);
        assert(is_floor(n, steps) && n.wf()) by {
            reveal(arithmetic);
        }
        lemma_product(n, s);
        lemma_within_tick(true, all.units(), s.units(), steps.units(), n.units(), q.units());
        if fits(2 * (all.units() + s.units()), s.places()) {
            lemma_on_grid(true, all.units(), s, steps.units(), n, q);
        }
        assert(rounded(Some(all), notional.units() * unit(), price.units()));
    }
}

/// The most positions is one unless a number was set, and then that number.
pub proof fn limit_is_set(raw: &str, n: int)
    ensures
        position_limit(None) == 1,
        bounded_natural(raw@, usize::MAX as int) is None ==> position_limit(Some(raw)) == 1,
        bounded_natural(raw@, usize::MAX as int) == Some(n) && n >= 0 ==> position_limit(Some(raw)) == n,
{
}

/// The funds are the wallet and what is free of it, as the exchange writes them; none where the wallet is not above
/// zero.
pub proof fn funds_are_read(text: Seq<char>, j: JsonView)
    requires
        json_of_text(text) == Some(j),
    ensures
        funds_of(text) is Some <==> (j.dec_field("totalWalletBalance"@) matches Some(d) && d.units() > 0),
        funds_of(text) matches Some(f) ==> Some(f.wallet) == j.dec_field("totalWalletBalance"@) && (match j.dec_field(
            "availableBalance"@,
        ) {
            Some(d) => f.available == d,
            None => f.available.units() == 0,
        }),
{
    lemma_lit(0, 0);
    lemma_units_sign(zero());
}

/// An order that opens at the market is a market order of its side that is not held to reducing a position, and its
/// quantity is written without zeros at the end.
pub proof fn market_orders_may_open(r: OrderAsk, side: Seq<char>, qty: Dec)
    requires
        opens_at_market(r, side, qty),
    ensures
        r matches OrderAsk::Market { side: s, qty: q, reduce_only } && s@ == side && !reduce_only && q@ == text_of_dec(
            normal(qty),
        ),
{
}

/// The symbols that count as held are those of the open positions in the exchange's list, each once.
pub proof fn held_symbols_are_live(positions: Seq<char>, i: int)
    requires
        0 <= i < active_of(positions).len(),
    ensures
        ({
            let items = items_of_text(positions);
            let live = live_of(items, items.len() as int);
            &&& active_of(positions).len() == live.len()
            &&& active_of(positions)[i] == live[i].0
        }),
        forall|j: int|
            0 <= j < active_of(positions).len() && j != i ==> #[trigger] active_of(positions)[j]
                != active_of(positions)[i],
{
    let items = items_of_text(positions);
    live_symbols_differ(items, items.len() as int);
}

} // verus!
