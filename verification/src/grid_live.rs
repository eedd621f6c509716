//! Spot grids with real orders: a ladder of prices, each step of which waits to buy and then to sell
//! one step higher. Prices and quantities are doubles, held by their bits.

use vstd::prelude::*;

use crate::bits::{at_most, below};
use crate::guardian::switch;
use crate::spot::OrderStatus;
use crate::text::{
    bounded_natural, padded, padded_text, parse_usize, same, strip_suffixes, stripped_end,
    texts,
};

verus! {

/// The seconds between two rounds.
pub const POLL_SECS: u64 = 20;

/// The seconds for which a symbol is left alone after its grid has failed.
pub const AUTO_COOLDOWN_SECS: u64 = 21600;

/// The most steps of a grid that buy.
pub const MAX_BUY_LINES: usize = 8;

/// The fewest steps of a grid that buy.
pub const MIN_BUY_LINES: usize = 2;

/// A step of a grid that has an order, or coins that were bought.
#[derive(Clone, Copy, Debug, PartialEq, Eq, Structural)]
pub enum LineState {
    /// An order to buy is open.
    WaitBuy { order_id: u64 },
    /// Coins were bought, and an order to sell them is open; the number zero stands for an order that
    /// is yet to be placed.
    WaitSell { order_id: u64, qty: u64, buy_quote: u64 },
}

/// A grid: its prices from the lowest up, what each step buys for, the state of each step, and what it
/// has brought.
pub struct LiveGrid {
    pub symbol: String,
    pub base_asset: String,
    pub lines: Vec<u64>,
    pub per_grid_quote: u64,
    pub line_states: Vec<Option<LineState>>,
    pub realized_total: u64,
    pub round_trips: u32,
    pub tick_size: u64,
    pub step_size: u64,
    pub min_notional: u64,
}

/// The coins that a step holds and what they cost.
pub open spec fn held(line: Option<LineState>) -> Option<(u64, u64)> {
    match line {
        Some(LineState::WaitSell { qty, buy_quote, .. }) => Some((qty, buy_quote)),
        _ => None,
    }
}

/// The open order of a step.
pub open spec fn open_order(line: Option<LineState>) -> Option<u64> {
    match line {
        Some(LineState::WaitBuy { order_id }) => if order_id > 0 { Some(order_id) } else { None },
        Some(LineState::WaitSell { order_id, .. }) => if order_id > 0 {
            Some(order_id)
        } else {
            None
        },
        None => None,
    }
}

/// The open orders of the first `n` steps.
pub open spec fn open_orders(lines: Seq<Option<LineState>>, n: int) -> Seq<u64>
    decreases n,
{
    if n <= 0 {
        Seq::empty()
    } else {
        match open_order(lines[n - 1]) {
            Some(id) => open_orders(lines, n - 1).push(id),
            None => open_orders(lines, n - 1),
        }
    }
}

/// The coins that the first `n` steps hold and what they cost.
pub open spec fn inventory(lines: Seq<Option<LineState>>, n: int) -> Seq<(u64, u64)>
    decreases n,
{
    if n <= 0 {
        Seq::empty()
    } else {
        match held(lines[n - 1]) {
            Some(h) => inventory(lines, n - 1).push(h),
            None => inventory(lines, n - 1),
        }
    }
}

/// A step once its grid is paused: an order to buy is forgotten, coins stay, to be offered again.
pub open spec fn paused_line(line: Option<LineState>) -> Option<LineState> {
    match line {
        Some(LineState::WaitSell { qty, buy_quote, .. }) => Some(
            LineState::WaitSell { order_id: 0, qty, buy_quote },
        ),
        _ => None,
    }
}

/// What a step asks for.
#[derive(Clone, Copy, Debug, PartialEq, Eq, Structural)]
pub enum LineAsk {
    /// Nothing.
    Nothing,
    /// Place an order to buy for the step's money at this price.
    Buy { price: u64 },
    /// Place an order to sell so much at this price.
    Sell { qty: u64, price: u64 },
    /// Read the report on this order.
    ReadOrder { order_id: u64 },
}

/// A step after the report on its order. What was bought is offered for sale, less the fee that was
/// taken from it; what was offered and ended otherwise is offered again.
pub open spec fn line_after(
    line: Option<LineState>,
    status: OrderStatus,
    executed: u64,
    sell_qty: u64,
    quote: u64,
) -> Option<LineState> {
    match (line, status) {
        (Some(LineState::WaitBuy { .. }), OrderStatus::Filled) => Some(
            LineState::WaitSell { order_id: 0, qty: sell_qty, buy_quote: quote },
        ),
        (Some(LineState::WaitSell { .. }), OrderStatus::Filled) => None,
        (Some(LineState::WaitBuy { .. }), OrderStatus::Ended) => if below(0, executed) {
            Some(LineState::WaitSell { order_id: 0, qty: sell_qty, buy_quote: quote })
        } else {
            None
        },
        (Some(LineState::WaitSell { qty, buy_quote, .. }), OrderStatus::Ended) => Some(
            LineState::WaitSell { order_id: 0, qty, buy_quote },
        ),
        _ => line,
    }
}

/// A step after an order for it was placed under a number, or refused.
pub open spec fn line_ordered(line: Option<LineState>, id: Option<u64>) -> Option<LineState> {
    match (line, id) {
        (None, Some(order_id)) => Some(LineState::WaitBuy { order_id }),
        (Some(LineState::WaitSell { order_id: 0, qty, buy_quote }), Some(order_id)) => Some(
            LineState::WaitSell { order_id, qty, buy_quote },
        ),
        _ => line,
    }
}

impl LiveGrid {
    /// Every price has a state, and the highest price none: nothing is sold above it.
    pub open spec fn wf(&self) -> bool {
        &&& self.line_states@.len() == self.lines@.len()
        &&& forall|i: int|
            0 <= i < self.line_states@.len() && #[trigger] self.line_states@[i] is Some ==> i + 1
                < self.lines@.len()
    }

    /// All but the states of the steps and the tally are the same.
    pub open spec fn same_plan(&self, other: &LiveGrid) -> bool {
        &&& self.symbol == other.symbol
        &&& self.base_asset == other.base_asset
        &&& self.lines == other.lines
        &&& self.per_grid_quote == other.per_grid_quote
        &&& self.tick_size == other.tick_size
        &&& self.step_size == other.step_size
        &&& self.min_notional == other.min_notional
    }

    /// A grid on these prices without an order yet.
    pub fn new(
        symbol: &str,
        lines: Vec<u64>,
        per_grid_quote: u64,
        tick_size: u64,
        step_size: u64,
        min_notional: u64,
    ) -> (r: LiveGrid)
        ensures
            r.wf(),
            r.symbol@ == symbol@,
            r.base_asset@ == stripped_end(symbol@, "USDT"@),
            r.lines == lines,
            r.per_grid_quote == per_grid_quote,
            r.line_states@ == Seq::new(lines@.len(), |i: int| None::<LineState>),
            r.realized_total == 0,
            r.round_trips == 0,
            r.tick_size == tick_size,
            r.step_size == step_size,
            r.min_notional == min_notional,
    {
        let mut states: Vec<Option<LineState>> = Vec::new();
        let mut i: usize = 0;
        while i < lines.len()
            invariant
                i <= lines.len(),
                states@ == Seq::new(i as nat, |k: int| None::<LineState>),
            decreases lines.len() - i,
        {
            states.push(None);
            assert(states@ =~= Seq::new((i + 1) as nat, |k: int| None::<LineState>));
            i = i + 1;
        }
        LiveGrid {
            symbol: symbol.to_string(),
            base_asset: strip_suffixes(symbol, "USDT"),
            lines,
            per_grid_quote,
            line_states: states,
            realized_total: 0,
            round_trips: 0,
            tick_size,
            step_size,
            min_notional,
        }
    }

    /// How many steps buy.
    pub fn n_buy_lines(&self) -> (r: usize)
        ensures
            r == (if self.lines@.len() == 0 { 0 } else { self.lines@.len() - 1 }),
    {
        if self.lines.len() == 0 { 0 } else { self.lines.len() - 1 }
    }

    /// The numbers of the open orders.
    pub fn open_order_ids(&self) -> (r: Vec<u64>)
        ensures
            r@ == open_orders(self.line_states@, self.line_states@.len() as int),
    {
        let mut ids: Vec<u64> = Vec::new();
        let mut n: usize = 0;
        while n < self.line_states.len()
            invariant
                n <= self.line_states.len(),
                ids@ == open_orders(self.line_states@, n as int),
            decreases self.line_states.len() - n,
        {
            match self.line_states[n] {
                Some(LineState::WaitBuy { order_id }) => {
                    if order_id > 0 {
                        ids.push(order_id);
                    }
                },
                Some(LineState::WaitSell { order_id, .. }) => {
                    if order_id > 0 {
                        ids.push(order_id);
                    }
                },
                None => {},
            }
            n = n + 1;
        }
        ids
    }

    /// The coins that the steps hold and what they cost.
    pub fn holdings(&self) -> (r: Vec<(u64, u64)>)
        ensures
            r@ == inventory(self.line_states@, self.line_states@.len() as int),
    {
        let mut out: Vec<(u64, u64)> = Vec::new();
        let mut n: usize = 0;
        while n < self.line_states.len()
            invariant
                n <= self.line_states.len(),
                out@ == inventory(self.line_states@, n as int),
            decreases self.line_states.len() - n,
        {
            if let Some(LineState::WaitSell { qty, buy_quote, .. }) = self.line_states[n] {
                out.push((qty, buy_quote));
            }
            n = n + 1;
        }
        out
    }

    /// Pauses the grid once its orders are cancelled: the coins stay, to be offered again. Whether
    /// there was an order to cancel; without one nothing changes.
    pub fn pause(&mut self) -> (r: bool)
        ensures
            final(self).same_plan(&*old(self)),
            final(self).realized_total == old(self).realized_total,
            final(self).round_trips == old(self).round_trips,
            r == (open_orders(old(self).line_states@, old(self).line_states@.len() as int).len()
                > 0),
            final(self).line_states@ == (if r {
                old(self).line_states@.map_values(|l: Option<LineState>| paused_line(l))
            } else {
                old(self).line_states@
            }),
            old(self).wf() ==> final(self).wf(),
    {
        if self.open_order_ids().len() == 0 {
            return false;
        }
        let mut states: Vec<Option<LineState>> = Vec::new();
        let mut i: usize = 0;
        while i < self.line_states.len()
            invariant
                i <= self.line_states.len(),
                *self == *old(self),
                states@.len() == i,
                forall|k: int|
                    0 <= k < i ==> #[trigger] states@[k] == paused_line(self.line_states@[k]),
            decreases self.line_states.len() - i,
        {
            let next = match self.line_states[i] {
                Some(LineState::WaitSell { qty, buy_quote, .. }) => Some(
                    LineState::WaitSell { order_id: 0, qty, buy_quote },
                ),
                _ => None,
            };
            states.push(next);
            i = i + 1;
        }
        assert(states@ =~= self.line_states@.map_values(|l: Option<LineState>| paused_line(l)));
        self.line_states = states;
        true
    }

    /// What a step asks for at a price, given the orders that are open.
    pub open spec fn line_asks(&self, i: int, px: u64, open_ids: Seq<u64>) -> LineAsk {
        match self.line_states@[i] {
            None => if i + 1 < self.lines@.len() && below(self.lines@[i], px) {
                LineAsk::Buy { price: self.lines@[i] }
            } else {
                LineAsk::Nothing
            },
            Some(LineState::WaitSell { order_id: 0, qty, .. }) => LineAsk::Sell {
                qty,
                price: self.lines@[i + 1],
            },
            Some(LineState::WaitBuy { order_id }) => if open_ids.contains(order_id) {
                LineAsk::Nothing
            } else {
                LineAsk::ReadOrder { order_id }
            },
            Some(LineState::WaitSell { order_id, .. }) => if open_ids.contains(order_id) {
                LineAsk::Nothing
            } else {
                LineAsk::ReadOrder { order_id }
            },
        }
    }

    /// What a step asks for at a price, given the orders that are open.
    pub fn line_ask(&self, i: usize, px: u64, open_ids: &Vec<u64>) -> (r: LineAsk)
        requires
            self.wf(),
            i < self.line_states@.len(),
        ensures
            r == self.line_asks(i as int, px, open_ids@),
    {
        let n: usize = self.lines.len();
        assert(i < n);
        match self.line_states[i] {
            None => if i + 1 < n && below(self.lines[i], px) {
                LineAsk::Buy { price: self.lines[i] }
            } else {
                LineAsk::Nothing
            },
            Some(LineState::WaitSell { order_id: 0, qty, .. }) => LineAsk::Sell {
                qty,
                price: self.lines[i + 1],
            },
            Some(LineState::WaitBuy { order_id }) => if is_open(open_ids, order_id) {
                LineAsk::Nothing
            } else {
                LineAsk::ReadOrder { order_id }
            },
            Some(LineState::WaitSell { order_id, .. }) => if is_open(open_ids, order_id) {
                LineAsk::Nothing
            } else {
                LineAsk::ReadOrder { order_id }
            },
        }
    }

    /// Takes note of an order that was placed for a step under a number, or refused.
    pub fn line_placed(&mut self, i: usize, id: Option<u64>)
        requires
            old(self).wf(),
            i + 1 < old(self).lines@.len(),
        ensures
            final(self).wf(),
            final(self).same_plan(&*old(self)),
            final(self).realized_total == old(self).realized_total,
            final(self).round_trips == old(self).round_trips,
            final(self).line_states@ == old(self).line_states@.update(
                i as int,
                line_ordered(old(self).line_states@[i as int], id),
            ),
    {
        let next = match (self.line_states[i], id) {
            (None, Some(order_id)) => Some(LineState::WaitBuy { order_id }),
            (Some(LineState::WaitSell { order_id: 0, qty, buy_quote }), Some(order_id)) => Some(
                LineState::WaitSell { order_id, qty, buy_quote },
            ),
            (line, _) => line,
        };
        self.line_states.set(i, next);
    }

    /// Takes the report on the order of a step: what was executed, that less the fee, for how much, and
    /// the tally of the grid if the step has sold. What the step asks for next.
    pub fn line_read(
        &mut self,
        i: usize,
        status: OrderStatus,
        executed: u64,
        sell_qty: u64,
        quote: u64,
        realized: u64,
    ) -> (r: LineAsk)
        requires
            old(self).wf(),
            i + 1 < old(self).lines@.len(),
        ensures
            final(self).wf(),
            final(self).same_plan(&*old(self)),
            ({
                let line = old(self).line_states@[i as int];
                let bought = line matches Some(LineState::WaitBuy { .. }) && status
                    == OrderStatus::Filled;
                let sold = line matches Some(LineState::WaitSell { .. }) && status
                    == OrderStatus::Filled;
                &&& final(self).line_states@ == old(self).line_states@.update(
                    i as int,
                    line_after(line, status, executed, sell_qty, quote),
                )
                &&& r == if bought {
                    LineAsk::Sell { qty: sell_qty, price: old(self).lines@[i + 1] }
                } else if sold {
                    LineAsk::Buy { price: old(self).lines@[i as int] }
                } else {
                    LineAsk::Nothing
                }
                &&& final(self).realized_total == if sold {
                    realized
                } else {
                    old(self).realized_total
                }
                &&& final(self).round_trips == if sold {
                    (old(self).round_trips + 1) % 0x1_0000_0000
                } else {
                    old(self).round_trips as int
                }
            }),
    {
        let line = self.line_states[i];
        let n: usize = self.lines.len();
        assert(i < n);
        match (line, status) {
            (Some(LineState::WaitBuy { .. }), OrderStatus::Filled) => {
                self.line_states.set(
                    i,
                    Some(LineState::WaitSell { order_id: 0, qty: sell_qty, buy_quote: quote }),
                );
                LineAsk::Sell { qty: sell_qty, price: self.lines[i + 1] }
            },
            (Some(LineState::WaitSell { .. }), OrderStatus::Filled) => {
                self.line_states.set(i, None);
                self.realized_total = realized;
                self.round_trips = self.round_trips.wrapping_add(1);
                LineAsk::Buy { price: self.lines[i] }
            },
            (Some(LineState::WaitBuy { .. }), OrderStatus::Ended) => {
                let next = if below(0, executed) {
                    Some(LineState::WaitSell { order_id: 0, qty: sell_qty, buy_quote: quote })
                } else {
                    None
                };
                self.line_states.set(i, next);
                LineAsk::Nothing
            },
            (Some(LineState::WaitSell { qty, buy_quote, .. }), OrderStatus::Ended) => {
                self.line_states.set(
                    i,
                    Some(LineState::WaitSell { order_id: 0, qty, buy_quote }),
                );
                LineAsk::Nothing
            },
            _ => {
                assert(self.line_states@ =~= old(self).line_states@.update(i as int, line));
                LineAsk::Nothing
            },
        }
    }
}

/// What came back on what a step asked for.
#[derive(Clone, Copy, Debug, PartialEq, Eq, Structural)]
pub enum GridReply {
    /// The order was placed under this number, or refused.
    Placed(Option<u64>),
    /// The report on the order: its state, what was executed, that less the fee, for how much, and the
    /// tally of the grid if the step has sold.
    Report { status: OrderStatus, executed: u64, sell_qty: u64, quote: u64, realized: u64 },
    /// Nothing is known.
    Unknown,
}

/// A step after a reply.
pub open spec fn line_replied(line: Option<LineState>, ask: LineAsk, reply: GridReply) -> Option<
    LineState,
> {
    match (ask, reply) {
        (LineAsk::Buy { .. }, GridReply::Placed(id)) => line_ordered(line, id),
        (LineAsk::Sell { .. }, GridReply::Placed(id)) => line_ordered(line, id),
        (LineAsk::ReadOrder { .. }, GridReply::Report { status, executed, sell_qty, quote, .. }) =>
            line_after(line, status, executed, sell_qty, quote),
        _ => line,
    }
}

/// Whether a reply says that a step has sold.
pub open spec fn is_sale(line: Option<LineState>, ask: LineAsk, reply: GridReply) -> bool {
    &&& ask is ReadOrder
    &&& line matches Some(LineState::WaitSell { .. })
    &&& reply matches GridReply::Report { status, .. } && status == OrderStatus::Filled
}

/// A round through the steps of a grid: the price, the orders that are open, the step that it is at, what
/// that step asks for, whether the report on its order was read, and how many steps have sold.
pub struct GridPatrol {
    pub px: u64,
    pub open_ids: Vec<u64>,
    pub place: usize,
    pub ask: LineAsk,
    pub was_read: bool,
    pub sold: usize,
}

impl GridPatrol {
    /// What a step asks for once the report on its order was read: coins that were bought are offered one
    /// step up, and a step that has sold buys again.
    pub open spec fn asks_again(&self, grid: &LiveGrid) -> LineAsk {
        let i = self.place as int;
        match grid.line_states@[i] {
            Some(LineState::WaitSell { qty, .. }) => LineAsk::Sell { qty, price: grid.lines@[i + 1] },
            _ => LineAsk::Buy { price: grid.lines@[i] },
        }
    }

    /// The round and the grid belong together: it asks for what the step that it is at asks for, and only a
    /// step below the highest price asks for anything.
    pub open spec fn fits(&self, grid: &LiveGrid) -> bool {
        &&& grid.wf()
        &&& self.place <= grid.lines@.len()
        &&& self.sold <= self.place + if self.was_read { 1int } else { 0 }
        &&& self.was_read ==> self.place + 1 < grid.lines@.len() && !(
        grid.line_states@[self.place as int] matches Some(LineState::WaitBuy { .. }))
        &&& self.ask == if self.place == grid.lines@.len() {
            LineAsk::Nothing
        } else if self.was_read {
            self.asks_again(grid)
        } else {
            grid.line_asks(self.place as int, self.px, self.open_ids@)
        }
    }

    /// The tally of the grid is that of before the round, and one for each step that has sold.
    pub open spec fn tallies(&self, grid: &LiveGrid, before: int) -> bool {
        grid.round_trips == (before + self.sold) % 0x1_0000_0000
    }

    /// Starts a round with the lowest step.
    pub fn begin(grid: &LiveGrid, px: u64, open_ids: Vec<u64>) -> (r: GridPatrol)
        requires
            grid.wf(),
        ensures
            r.fits(grid),
            r.tallies(grid, grid.round_trips as int),
            r.px == px,
            r.open_ids == open_ids,
            r.place == 0,
            !r.was_read,
            r.sold == 0,
            r.ask == (if grid.lines@.len() > 0 {
                grid.line_asks(0, px, open_ids@)
            } else {
                LineAsk::Nothing
            }),
    {
        let ask = if grid.lines.len() > 0 {
            grid.line_ask(0, px, &open_ids)
        } else {
            LineAsk::Nothing
        };
        GridPatrol { px, open_ids, place: 0, ask, was_read: false, sold: 0 }
    }

    /// Whether all steps have been looked at.
    pub fn is_over(&self, grid: &LiveGrid) -> (r: bool)
        ensures
            r == (self.place >= grid.lines@.len()),
    {
        self.place >= grid.lines.len()
    }

    /// Goes on to the next step.
    fn pass(&mut self, grid: &LiveGrid)
        requires
            grid.wf(),
            old(self).place < grid.lines@.len(),
            old(self).sold <= old(self).place + 1,
        ensures
            final(self).fits(grid),
            final(self).place == old(self).place + 1,
            !final(self).was_read,
            final(self).sold == old(self).sold,
            final(self).px == old(self).px,
            final(self).open_ids == old(self).open_ids,
            final(self).ask == (if old(self).place + 1 < grid.lines@.len() {
                grid.line_asks(old(self).place + 1, old(self).px, old(self).open_ids@)
            } else {
                LineAsk::Nothing
            }),
    {
        let n: usize = grid.lines.len();
        self.place = self.place + 1;
        self.was_read = false;
        self.ask = if self.place < n {
            grid.line_ask(self.place, self.px, &self.open_ids)
        } else {
            LineAsk::Nothing
        };
    }

    /// Takes the reply to what the step has asked for. A step whose order was filled asks once more, to
    /// offer what it bought one step up or to buy again what it sold; after any other reply the round goes
    /// on to the next step.
    pub fn advance(&mut self, grid: &mut LiveGrid, reply: GridReply)
        requires
            old(self).fits(old(grid)),
            old(self).place < old(grid).lines@.len(),
        ensures
            final(self).fits(final(grid)),
            final(grid).same_plan(&*old(grid)),
            final(self).px == old(self).px,
            final(self).open_ids == old(self).open_ids,
            ({
                let i = old(self).place as int;
                let line = old(grid).line_states@[i];
                let next = line_replied(line, old(self).ask, reply);
                let sale = is_sale(line, old(self).ask, reply);
                &&& final(grid).line_states@ == old(grid).line_states@.update(i, next)
                &&& final(self).sold == old(self).sold + if sale { 1int } else { 0 }
                &&& final(grid).realized_total == if sale {
                    reply->realized
                } else {
                    old(grid).realized_total
                }
                &&& final(grid).round_trips == if sale {
                    (old(grid).round_trips + 1) % 0x1_0000_0000
                } else {
                    old(grid).round_trips as int
                }
                &&& final(self).place == if final(self).was_read { i } else { i + 1 }
                &&& final(self).was_read == (old(self).ask is ReadOrder && line is Some && (
                reply matches GridReply::Report { status, .. } && status == OrderStatus::Filled))
                &&& final(self).ask == if final(self).was_read {
                    if line matches Some(LineState::WaitBuy { .. }) {
                        LineAsk::Sell { qty: reply->sell_qty, price: old(grid).lines@[i + 1] }
                    } else {
                        LineAsk::Buy { price: old(grid).lines@[i] }
                    }
                } else if i + 1 < old(grid).lines@.len() {
                    final(grid).line_asks(i + 1, old(self).px, old(self).open_ids@)
                } else {
                    LineAsk::Nothing
                }
            }),
            forall|before: int| #[trigger]
                old(self).tallies(old(grid), before) ==> final(self).tallies(final(grid), before),
    {
        let n: usize = grid.lines.len();
        let i: usize = self.place;
        let ghost line = grid.line_states@[i as int];
        match (self.ask, reply) {
            (LineAsk::Buy { .. }, GridReply::Placed(id)) => grid.line_placed(i, id),
            (LineAsk::Sell { .. }, GridReply::Placed(id)) => grid.line_placed(i, id),
            (
                LineAsk::ReadOrder { .. },
                GridReply::Report { status, executed, sell_qty, quote, realized },
            ) => {
                let was_selling = match grid.line_states[i] {
                    Some(LineState::WaitSell { .. }) => true,
                    _ => false,
                };
                let next = grid.line_read(i, status, executed, sell_qty, quote, realized);
                if was_selling && status == OrderStatus::Filled {
                    self.sold = self.sold + 1;
                }
                match next {
                    LineAsk::Nothing => {},
                    ask => {
                        self.ask = ask;
                        self.was_read = true;
                        return;
                    },
                }
            },
            _ => {
                assert(grid.line_states@ =~= old(grid).line_states@.update(i as int, line));
            },
        }
        self.pass(grid);
    }
}

/// The highest price never buys, nor does it ask for anything else: whatever a round asks for is for a step
/// below it.
pub proof fn top_never_buys(patrol: &GridPatrol, grid: &LiveGrid)
    requires
        patrol.fits(grid),
        patrol.ask is Buy || patrol.ask is Sell || patrol.ask is ReadOrder,
    ensures
        patrol.place + 1 < grid.lines@.len(),
{
}

/// A filled order to buy leads to one order to sell, for what was bought less the fee, at the next price up:
/// the step holds the coins, and the tally gains nothing from it.
pub proof fn bought_is_offered(
    line: Option<LineState>,
    ask: LineAsk,
    executed: u64,
    sell_qty: u64,
    quote: u64,
    realized: u64,
    id: Option<u64>,
    price: u64,
)
    requires
        line matches Some(LineState::WaitBuy { .. }),
        ask is ReadOrder,
    ensures
        ({
            let reply = GridReply::Report {
                status: OrderStatus::Filled,
                executed,
                sell_qty,
                quote,
                realized,
            };
            let bought = line_replied(line, ask, reply);
            let offered = line_replied(
                bought,
                LineAsk::Sell { qty: sell_qty, price },
                GridReply::Placed(id),
            );
            &&& !is_sale(line, ask, reply)
            &&& offered == Some(
                LineState::WaitSell {
                    order_id: match id {
                        Some(n) => n,
                        None => 0,
                    },
                    qty: sell_qty,
                    buy_quote: quote,
                },
            )
        }),
{
}

/// What the start of a grid asks for.
#[derive(Clone, Debug, PartialEq, Eq)]
pub enum StartAsk {
    /// Place an order to buy for the step at this place, at this price.
    Buy { place: usize, price: u64 },
    /// Nothing more: every step that buys has its order.
    Done,
    /// Cancel these orders: the grid is not started.
    Undo { ids: Vec<u64> },
}

/// What the start of a grid asks for at a place.
pub open spec fn start_asks(grid: &LiveGrid, place: int, r: StartAsk) -> bool {
    if place + 1 < grid.lines@.len() {
        r == (StartAsk::Buy { place: place as usize, price: grid.lines@[place] })
    } else {
        r is Done
    }
}

/// Starts a grid: what it asks for first.
pub fn start_grid(grid: &LiveGrid) -> (r: StartAsk)
    ensures
        start_asks(grid, 0, r),
{
    if grid.lines.len() > 1 {
        StartAsk::Buy { place: 0, price: grid.lines[0] }
    } else {
        StartAsk::Done
    }
}

/// Takes the answer to the order for a step of a grid that is being started. Once it is placed the next step
/// is bought; where it was refused, all orders of the grid are to be cancelled.
pub fn start_step(grid: &mut LiveGrid, place: usize, placed: Option<u64>) -> (r: StartAsk)
    requires
        old(grid).wf(),
        place + 1 < old(grid).lines@.len(),
        old(grid).line_states@[place as int] is None,
    ensures
        final(grid).wf(),
        final(grid).same_plan(&*old(grid)),
        final(grid).realized_total == old(grid).realized_total,
        final(grid).round_trips == old(grid).round_trips,
        match placed {
            Some(order_id) => final(grid).line_states@ == old(grid).line_states@.update(
                place as int,
                Some(LineState::WaitBuy { order_id }),
            ) && start_asks(&*final(grid), place + 1, r),
            None => final(grid).line_states@ == old(grid).line_states@ && (r matches StartAsk::Undo {
                ids,
            } && ids@ == open_orders(
                old(grid).line_states@,
                old(grid).line_states@.len() as int,
            )),
        },
{
    if placed.is_none() {
        return StartAsk::Undo { ids: grid.open_order_ids() };
    }
    grid.line_placed(place, placed);
    let n: usize = grid.lines.len();
    let next: usize = place + 1;
    if n - next > 1 {
        StartAsk::Buy { place: next, price: grid.lines[next] }
    } else {
        StartAsk::Done
    }
}

/// No half-open grid stays: where the order for a step is refused, the orders to be cancelled are all those
/// that were placed for the steps before it.
pub proof fn refused_start_is_undone(states: Seq<Option<LineState>>, ids: Seq<u64>, n: int)
    requires
        ids.len() <= n <= states.len(),
        forall|i: int| 0 <= i < ids.len() ==> #[trigger] ids[i] > 0,
        forall|i: int|
            0 <= i < states.len() ==> #[trigger] states[i] == if i < ids.len() {
                Some(LineState::WaitBuy { order_id: ids[i] })
            } else {
                None
            },
    ensures
        open_orders(states, n) == ids,
{
    lemma_first_orders(states, ids, ids.len() as int);
    lemma_later_orders(states, ids, n);
    assert(ids.take(ids.len() as int) =~= ids);
}

proof fn lemma_first_orders(states: Seq<Option<LineState>>, ids: Seq<u64>, k: int)
    requires
        0 <= k <= ids.len() <= states.len(),
        forall|i: int| 0 <= i < ids.len() ==> #[trigger] ids[i] > 0,
        forall|i: int|
            0 <= i < ids.len() ==> #[trigger] states[i] == Some(LineState::WaitBuy { order_id: ids[i] }),
    ensures
        open_orders(states, k) == ids.take(k),
    decreases k,
{
    if k > 0 {
        lemma_first_orders(states, ids, k - 1);
        assert(open_order(states[k - 1]) == Some(ids[k - 1]));
        assert(ids.take(k) =~= ids.take(k - 1).push(ids[k - 1]));
    } else {
        assert(ids.take(0) =~= Seq::empty());
    }
}

proof fn lemma_later_orders(states: Seq<Option<LineState>>, ids: Seq<u64>, n: int)
    requires
        ids.len() <= n <= states.len(),
        forall|i: int| ids.len() <= i < states.len() ==> #[trigger] states[i] is None,
    ensures
        open_orders(states, n) == open_orders(states, ids.len() as int),
    decreases n,
{
    if n > ids.len() {
        lemma_later_orders(states, ids, n - 1);
        assert(states[n - 1] is None);
    }
}

fn is_open(ids: &Vec<u64>, id: u64) -> (r: bool)
    ensures
        r == ids@.contains(id),
{
    let mut i: usize = 0;
    while i < ids.len()
        invariant
            i <= ids.len(),
            forall|k: int| 0 <= k < i ==> #[trigger] ids@[k] != id,
        decreases ids.len() - i,
    {
        if ids[i] == id {
            return true;
        }
        i = i + 1;
    }
    false
}

/// The key under which the grid of a symbol is stored.
pub fn state_key(sym: &str) -> (r: String)
    ensures
        r@ == "GRID_LIVE_STATE_"@ + sym@,
{
    "GRID_LIVE_STATE_".to_string().concat(sym)
}

/// Coins are never lost sight of: a step that holds some gives them up only when they were sold, and a
/// step that was buying holds what was bought.
pub proof fn coins_are_kept(
    line: Option<LineState>,
    status: OrderStatus,
    executed: u64,
    sell_qty: u64,
    quote: u64,
    id: Option<u64>,
)
    ensures
        held(line) is Some && status != OrderStatus::Filled ==> held(
            line_after(line, status, executed, sell_qty, quote),
        ) == held(line),
        line matches Some(LineState::WaitBuy { .. }) && (status == OrderStatus::Filled || status
            == OrderStatus::Ended && below(0, executed)) ==> held(
            line_after(line, status, executed, sell_qty, quote),
        ) == Some((sell_qty, quote)),
        held(line_ordered(line, id)) == held(line),
        held(paused_line(line)) == held(line),
{
}

/// A pause gives up no coins and leaves no order open.
pub proof fn pause_keeps_coins(lines: Seq<Option<LineState>>, n: int)
    requires
        0 <= n <= lines.len(),
    ensures
        inventory(lines.map_values(|l: Option<LineState>| paused_line(l)), n) == inventory(lines, n),
        open_orders(lines.map_values(|l: Option<LineState>| paused_line(l)), n).len() == 0,
    decreases n,
{
    if n > 0 {
        pause_keeps_coins(lines, n - 1);
    }
}

/// What a round does.
#[derive(Clone, Copy, Debug, PartialEq, Eq, Structural)]
pub enum RoundKind {
    /// Cancel all orders, sell all coins at the market, and switch off.
    SellAll,
    /// Cancel the orders that are open. The coins stay.
    Pause,
    /// Start grids where there is room, and look after those that run.
    Run,
}

/// What follows a failure.
#[derive(Clone, Copy, Debug, PartialEq, Eq, Structural)]
pub enum AfterFailure {
    /// The symbol is left alone for a while, and another one takes its place.
    CoolDown,
    /// Nothing is traded any more.
    SwitchOff,
}

/// A grid's set-up: whether it runs, whether all is to be sold, how many may run at once, whether the
/// symbols are chosen automatically, and if so, whether others than the pinned ones are chosen.
pub struct GridSettings {
    pub enabled: bool,
    pub liquidate: bool,
    pub max_active: usize,
    pub is_auto: bool,
    pub fills: bool,
}

/// A number brought between two others.
pub open spec fn clamped(n: int, low: int, high: int) -> int {
    if n < low {
        low
    } else if n > high {
        high
    } else {
        n
    }
}

/// Whether a switch was set to `1`.
pub open spec fn switched_on(raw: Option<&str>) -> bool {
    raw is Some && raw->0@ == "1"@
}

/// How many grids may run at once: two unless set otherwise, and one to six in any case.
pub open spec fn active_limit(raw: Option<&str>) -> int {
    match raw {
        None => 2,
        Some(s) => match bounded_natural(s@, usize::MAX as int) {
            Some(n) => clamped(n, 1, 6),
            None => 2,
        },
    }
}

/// Whether the symbols are chosen automatically: unless one was set.
pub open spec fn chooses_itself(raw: Option<&str>) -> bool {
    raw matches Some(s) ==> s@.len() == 0 || s@ == "AUTO"@
}

fn is_one(raw: Option<&str>) -> (r: bool)
    ensures
        r == switched_on(raw),
{
    match raw {
        Some(s) => same(s, "1"),
        None => false,
    }
}

impl GridSettings {
    /// Reads the stored settings.
    pub fn read(
        enabled: Option<&str>,
        liquidate: Option<&str>,
        max_active: Option<&str>,
        symbol: Option<&str>,
        fills: Option<&str>,
    ) -> (r: GridSettings)
        ensures
            r.enabled == switched_on(enabled),
            r.liquidate == switched_on(liquidate),
            r.max_active == active_limit(max_active),
            1 <= r.max_active <= 6,
            r.is_auto == chooses_itself(symbol),
            r.fills == switch(fills),
    {
        let limit: usize = match max_active {
            Some(s) => match parse_usize(s) {
                Some(n) => if n < 1 {
                    1
                } else if n > 6 {
                    6
                } else {
                    n
                },
                None => 2,
            },
            None => 2,
        };
        GridSettings {
            enabled: is_one(enabled),
            liquidate: is_one(liquidate),
            max_active: limit,
            is_auto: match symbol {
                Some(s) => s.is_empty() || same(s, "AUTO"),
                None => true,
            },
            fills: switch(fills),
        }
    }

    /// What a round does.
    pub open spec fn round_kind_spec(&self) -> RoundKind {
        if self.liquidate {
            RoundKind::SellAll
        } else if self.enabled {
            RoundKind::Run
        } else {
            RoundKind::Pause
        }
    }

    /// What a round does: to sell all comes first, and nothing runs that was not switched on.
    pub fn round_kind(&self) -> (r: RoundKind)
        ensures
            r == self.round_kind_spec(),
    {
        if self.liquidate {
            RoundKind::SellAll
        } else if self.enabled {
            RoundKind::Run
        } else {
            RoundKind::Pause
        }
    }

    /// What follows where a grid could not be started or its price has left it: its symbol is left
    /// alone for a while where symbols are chosen automatically, else all is switched off.
    pub fn on_failure(&self) -> (r: AfterFailure)
        ensures
            r == (if self.is_auto { AfterFailure::CoolDown } else { AfterFailure::SwitchOff }),
    {
        if self.is_auto { AfterFailure::CoolDown } else { AfterFailure::SwitchOff }
    }

    /// How many grids run at once: one where a symbol was set.
    pub fn slots(&self) -> (r: usize)
        ensures
            r == (if self.is_auto { self.max_active } else { 1 }),
    {
        if self.is_auto { self.max_active } else { 1 }
    }
}

/// Nothing is traded unless it was switched on: without the stored switch a round does not run grids.
pub proof fn off_unless_switched_on(settings: &GridSettings, enabled: Option<&str>)
    requires
        settings.enabled == switched_on(enabled),
        settings.round_kind_spec() is Run,
    ensures
        enabled is Some,
        enabled->0@ == "1"@,
        !settings.liquidate,
{
}

/// Whether another grid can be started: one more may run, and the money for its budget is known to be
/// free.
pub fn may_start(running: usize, slots: usize, free: Option<u64>, budget: u64) -> (r: bool)
    ensures
        r == (running < slots && free is Some && at_most(budget, free->0)),
{
    match free {
        Some(f) => running < slots && at_most(budget, f),
        None => false,
    }
}

/// How many steps of a grid buy, from how many the budget is enough for.
pub fn buy_lines(affordable: usize) -> (r: usize)
    ensures
        r == clamped(affordable as int, MIN_BUY_LINES as int, MAX_BUY_LINES as int),
        2 <= r <= 8,
{
    if affordable < MIN_BUY_LINES {
        MIN_BUY_LINES
    } else if affordable > MAX_BUY_LINES {
        MAX_BUY_LINES
    } else {
        affordable
    }
}

/// Why a grid is not started.
#[derive(Clone, Copy, Debug, PartialEq, Eq, Structural)]
pub enum InitError {
    /// There is less money than its budget.
    TooLittleMoney,
    /// A step would trade less than the exchange takes.
    StepTooSmall,
}

/// Whether a grid can be started: with the money that is free, its budget, what a step trades, and the
/// least that the exchange takes.
pub fn check_init(free: u64, budget: u64, per_grid: u64, min_notional: u64) -> (r: Result<
    (),
    InitError,
>)
    ensures
        match r {
            Err(InitError::TooLittleMoney) => below(free, budget),
            Err(InitError::StepTooSmall) => !below(free, budget) && below(per_grid, min_notional),
            Ok(()) => !below(free, budget) && !below(per_grid, min_notional),
        },
{
    if below(free, budget) {
        Err(InitError::TooLittleMoney)
    } else if below(per_grid, min_notional) {
        Err(InitError::StepTooSmall)
    } else {
        Ok(())
    }
}

/// How a price has left a grid.
#[derive(Clone, Copy, Debug, PartialEq, Eq, Structural)]
pub enum Bust {
    /// The grid goes on.
    No,
    /// The price is above it.
    Above,
    /// The price is below it.
    Below,
}

/// Whether a price has left a grid: at the upper limit or above, or at the lower limit or below.
pub fn check_bust(px: u64, low: u64, high: u64) -> (r: Bust)
    ensures
        r == (if at_most(high, px) {
            Bust::Above
        } else if at_most(px, low) {
            Bust::Below
        } else {
            Bust::No
        }),
{
    if at_most(high, px) {
        Bust::Above
    } else if at_most(px, low) {
        Bust::Below
    } else {
        Bust::No
    }
}

/// Whether all grids are to be given up: some run, and together they have lost the limit.
pub fn breaker_trips(total: u64, limit: u64, running: usize) -> (r: bool)
    ensures
        r == (running > 0 && at_most(total, limit)),
{
    running > 0 && at_most(total, limit)
}

/// Whether a symbol is on a list.
fn is_listed(list: &Vec<String>, sym: &str) -> (r: bool)
    ensures
        r == texts(list@).contains(sym@),
{
    let mut i: usize = 0;
    while i < list.len()
        invariant
            i <= list.len(),
            forall|k: int| 0 <= k < i ==> (#[trigger] list@[k])@ != sym@,
        decreases list.len() - i,
    {
        if same(list[i].as_str(), sym) {
            assert(texts(list@)[i as int] == sym@);
            return true;
        }
        i = i + 1;
    }
    assert(!texts(list@).contains(sym@)) by {
        if texts(list@).contains(sym@) {
            let k = choose|k: int| 0 <= k < texts(list@).len() && texts(list@)[k] == sym@;
            assert(list@[k]@ == sym@);
        }
    }
    false
}

/// Whether the grid of a symbol was asked to stop: it is until the symbol is pinned again.
pub open spec fn stopped(stop: Option<&str>, sym: Seq<char>, pins: Seq<Seq<char>>) -> bool {
    switched_on(stop) && !pins.contains(sym)
}

/// Whether the grid of a symbol was asked to stop. It is paused then: its orders are cancelled, and its
/// coins stay.
pub fn is_stopped(stop: Option<&str>, sym: &str, pins: &Vec<String>) -> (r: bool)
    ensures
        r == stopped(stop, sym@, texts(pins@)),
{
    is_one(stop) && !is_listed(pins, sym)
}

/// Whether no grid is started on a symbol for now: one has failed a while ago, or it was asked to stop.
pub fn is_left_alone(
    cooldown: Option<&str>,
    stop: Option<&str>,
    sym: &str,
    pins: &Vec<String>,
) -> (r: bool)
    ensures
        r == (cooldown is Some || stopped(stop, sym@, texts(pins@))),
{
    cooldown.is_some() || is_stopped(stop, sym, pins)
}

/// The symbols to start grids on, in their order: the pinned ones first, then the candidates, unless only
/// pinned ones are wanted.
pub open spec fn starting_order(
    pins: Seq<Seq<char>>,
    candidates: Seq<Seq<char>>,
    fills: bool,
) -> Seq<Seq<char>> {
    if fills { pins + candidates } else { pins }
}

/// The symbols to start grids on, in their order.
pub fn start_order(pins: &Vec<String>, candidates: &Vec<String>, fills: bool) -> (r: Vec<String>)
    ensures
        texts(r@) == starting_order(texts(pins@), texts(candidates@), fills),
{
    let mut out: Vec<String> = Vec::new();
    assert(texts(out@) =~= texts(pins@).take(0));
    let mut i: usize = 0;
    while i < pins.len()
        invariant
            i <= pins.len(),
            texts(out@) == texts(pins@).take(i as int),
        decreases pins.len() - i,
    {
        let ghost before = texts(out@);
        out.push(pins[i].clone());
        assert(texts(out@) =~= before.push(pins@[i as int]@));
        assert(texts(pins@).take(i + 1) =~= texts(pins@).take(i as int).push(texts(pins@)[i as int]));
        i = i + 1;
    }
    assert(texts(pins@).take(i as int) =~= texts(pins@));
    if !fills {
        return out;
    }
    assert(texts(out@) =~= texts(pins@) + texts(candidates@).take(0));
    let mut j: usize = 0;
    while j < candidates.len()
        invariant
            j <= candidates.len(),
            texts(out@) == texts(pins@) + texts(candidates@).take(j as int),
        decreases candidates.len() - j,
    {
        let ghost before = texts(out@);
        out.push(candidates[j].clone());
        assert(texts(out@) =~= before.push(candidates@[j as int]@));
        assert(before.push(candidates@[j as int]@) =~= texts(pins@) + texts(candidates@).take(j + 1));
        j = j + 1;
    }
    assert(texts(candidates@).take(j as int) =~= texts(candidates@));
    out
}

/// Whether a grid can be started on the symbol at a place: it has none, and it is not left alone.
pub open spec fn startable(
    order: Seq<Seq<char>>,
    known: Seq<Seq<char>>,
    left_alone: Seq<bool>,
    i: int,
) -> bool {
    &&& 0 <= i < order.len()
    &&& i < left_alone.len()
    &&& !left_alone[i]
    &&& !known.contains(order[i])
}

/// The place of the symbol to start the next grid on: the first one that can be started, while there is
/// room and money for one.
pub fn next_start(
    order: &Vec<String>,
    known: &Vec<String>,
    left_alone: &Vec<bool>,
    running: usize,
    slots: usize,
    free: Option<u64>,
    budget: u64,
) -> (r: Option<usize>)
    ensures
        match r {
            Some(i) => running < slots && free is Some && at_most(budget, free->0) && startable(
                texts(order@),
                texts(known@),
                left_alone@,
                i as int,
            ) && forall|k: int|
                0 <= k < i ==> !#[trigger] startable(texts(order@), texts(known@), left_alone@, k),
            None => running < slots && free is Some && at_most(budget, free->0) ==> forall|k: int|
                !#[trigger] startable(texts(order@), texts(known@), left_alone@, k),
        },
{
    if !may_start(running, slots, free, budget) {
        return None;
    }
    let mut i: usize = 0;
    while i < order.len() && i < left_alone.len()
        invariant
            i <= order.len(),
            i <= left_alone.len(),
            running < slots,
            free is Some,
            at_most(budget, free->0),
            forall|k: int|
                0 <= k < i ==> !#[trigger] startable(texts(order@), texts(known@), left_alone@, k),
        decreases order.len() - i,
    {
        if !left_alone[i] && !is_listed(known, order[i].as_str()) {
            assert(texts(order@)[i as int] == order@[i as int]@);
            return Some(i);
        }
        assert(texts(order@)[i as int] == order@[i as int]@);
        i = i + 1;
    }
    None
}

/// The symbols were started one after the other, each where there was still room and none had a grid: with
/// so many grids at first.
pub open spec fn filling(
    known: Seq<Seq<char>>,
    started: Seq<Seq<char>>,
    first: int,
    slots: int,
) -> bool
    decreases started.len(),
{
    started.len() == 0 || {
        let front = started.drop_last();
        &&& filling(known, front, first, slots)
        &&& first + front.len() < slots
        &&& !(known + front).contains(started.last())
    }
}

/// Filling never takes the grids beyond the number that may run, starts no symbol twice, and none that has a
/// grid.
pub proof fn filling_keeps_to_the_slots(
    known: Seq<Seq<char>>,
    started: Seq<Seq<char>>,
    first: int,
    slots: int,
)
    requires
        filling(known, started, first, slots),
    ensures
        started.len() > 0 ==> first + started.len() <= slots,
        forall|i: int| 0 <= i < started.len() ==> !known.contains(#[trigger] started[i]),
        forall|i: int, j: int|
            0 <= i < j < started.len() ==> #[trigger] started[i] != #[trigger] started[j],
    decreases started.len(),
{
    if started.len() > 0 {
        let front = started.drop_last();
        let last = started.last();
        filling_keeps_to_the_slots(known, front, first, slots);
        assert(forall|i: int| 0 <= i < front.len() ==> started[i] == front[i]);
        assert(!known.contains(last)) by {
            if known.contains(last) {
                let k = choose|k: int| 0 <= k < known.len() && known[k] == last;
                assert((known + front)[k] == last);
            }
        }
        assert forall|i: int| 0 <= i < front.len() implies front[i] != last by {
            assert((known + front)[known.len() + i] == front[i]);
        }
        assert forall|i: int| 0 <= i < started.len() implies !known.contains(
            #[trigger] started[i],
        ) by {
            if i < front.len() {
                assert(started[i] == front[i]);
            }
        }
    }
}

/// A start that was chosen carries a filling on.
pub proof fn chosen_start_fills(
    order: Seq<Seq<char>>,
    known: Seq<Seq<char>>,
    left_alone: Seq<bool>,
    started: Seq<Seq<char>>,
    first: int,
    slots: int,
    i: int,
)
    requires
        filling(known, started, first, slots),
        first + started.len() < slots,
        startable(order, known + started, left_alone, i),
    ensures
        filling(known, started.push(order[i]), first, slots),
        !left_alone[i],
{
    assert(started.push(order[i]).drop_last() =~= started);
}

/// Pinned symbols come first, and alone where the others are not wanted.
pub proof fn pins_come_first(
    pins: Seq<Seq<char>>,
    candidates: Seq<Seq<char>>,
    fills: bool,
    i: int,
)
    requires
        0 <= i < starting_order(pins, candidates, fills).len(),
    ensures
        i < pins.len() ==> starting_order(pins, candidates, fills)[i] == pins[i],
        !fills ==> pins.contains(starting_order(pins, candidates, fills)[i]),
{
}

/// The name of an hour: year, month, day and hour.
pub fn hour_bucket(year: u32, month: u32, day: u32, hour: u32) -> (r: String)
    ensures
        r@ == padded(year as nat, 4) + "-"@ + padded(month as nat, 2) + "-"@ + padded(day as nat, 2)
            + "-"@ + padded(hour as nat, 2),
{
    let mut s = padded_text(year as u128, 4);
    s.append("-");
    s.append(padded_text(month as u128, 2).as_str());
    s.append("-");
    s.append(padded_text(day as u128, 2).as_str());
    s.append("-");
    s.append(padded_text(hour as u128, 2).as_str());
    s
}

/// Whether the report of an hour is due: it was not sent, and a grid runs.
pub fn report_due(sent: &str, bucket: &str, running: usize) -> (r: bool)
    ensures
        r == (sent@ != bucket@ && running > 0),
{
    running > 0 && !same(sent, bucket)
}

/// What a step asks for, said outright: one without an order buys exactly where the price is above its own and it is
/// not the highest; one that holds coins without an order offers them one step up; one whose order is gone has it
/// looked up; any other waits.
pub proof fn steps_ask_in_turn(grid: &LiveGrid, i: int, px: u64, open_ids: Seq<u64>)
    requires
        grid.wf(),
        0 <= i < grid.lines@.len(),
    ensures
        ({
            let ask = grid.line_asks(i, px, open_ids);
            let line = grid.line_states@[i];
            &&& line is None && i + 1 < grid.lines@.len() && below(grid.lines@[i], px) ==> ask == (LineAsk::Buy {
                price: grid.lines@[i],
            })
            &&& ask is Buy ==> line is None && below(grid.lines@[i], px) && i + 1 < grid.lines@.len()
            &&& line matches Some(LineState::WaitSell { order_id, qty, .. }) ==> {
                &&& order_id == 0 ==> ask == (LineAsk::Sell { qty, price: grid.lines@[i + 1] })
                &&& order_id != 0 && open_ids.contains(order_id) ==> ask is Nothing
                &&& order_id != 0 && !open_ids.contains(order_id) ==> ask == (LineAsk::ReadOrder { order_id })
            }
            &&& line matches Some(LineState::WaitBuy { order_id }) ==> if open_ids.contains(order_id) {
                ask is Nothing
            } else {
                ask == (LineAsk::ReadOrder { order_id })
            }
        }),
{
}

/// What a report makes of a step: a purchase that was filled, or that ended with something bought, holds the coins
/// less the fee for what was paid; one that ended with nothing leaves the step free, as does a sale that was filled;
/// a sale that ended is to be offered again; and any other report changes nothing.
pub proof fn reports_are_booked(
    line: LineState,
    status: OrderStatus,
    executed: u64,
    sell_qty: u64,
    quote: u64,
)
    ensures
        ({
            let next = line_after(Some(line), status, executed, sell_qty, quote);
            let bought = Some(LineState::WaitSell { order_id: 0, qty: sell_qty, buy_quote: quote });
            &&& line is WaitBuy && status == OrderStatus::Filled ==> next == bought
            &&& line is WaitBuy && status == OrderStatus::Ended && below(0, executed) ==> next == bought
            &&& line is WaitBuy && status == OrderStatus::Ended && !below(0, executed) ==> next is None
            &&& line is WaitSell && status == OrderStatus::Filled ==> next is None
            &&& line matches LineState::WaitSell { qty, buy_quote, .. } ==> (status == OrderStatus::Ended ==> next
                == Some(LineState::WaitSell { order_id: 0, qty, buy_quote }))
            &&& status != OrderStatus::Filled && status != OrderStatus::Ended ==> next == Some(line)
        }),
{
}

/// An order that was placed is noted under its number: a purchase for a free step, a sale for coins without an
/// order. One that was refused changes nothing, nor does one for a step that has an order.
pub proof fn orders_are_noted(line: Option<LineState>, id: u64)
    ensures
        line is None ==> line_ordered(line, Some(id)) == Some(LineState::WaitBuy { order_id: id }),
        line matches Some(LineState::WaitSell { order_id, qty, buy_quote }) ==> line_ordered(line, Some(id))
            == Some(
            LineState::WaitSell { order_id: if order_id == 0 { id } else { order_id }, qty, buy_quote },
        ),
        line matches Some(LineState::WaitBuy { .. }) ==> line_ordered(line, Some(id)) == line,
        line_ordered(line, None) == line,
{
}

/// The open orders of a grid are those of all its steps that have one, purchases and sales, and no others; and its
/// holdings are the coins of all its steps that hold some.
pub proof fn orders_and_coins_are_all(lines: Seq<Option<LineState>>, n: int)
    requires
        0 <= n <= lines.len(),
    ensures
        forall|i: int|
            0 <= i < n ==> (#[trigger] lines[i] matches Some(LineState::WaitBuy { order_id }) ==> order_id > 0
                ==> open_orders(lines, n).contains(order_id)),
        forall|i: int|
            0 <= i < n ==> (#[trigger] lines[i] matches Some(LineState::WaitSell { order_id, qty, buy_quote }) ==> (
            order_id > 0 ==> open_orders(lines, n).contains(order_id)) && inventory(lines, n).contains(
                (qty, buy_quote),
            )),
        forall|k: int|
            #![trigger open_orders(lines, n)[k]]
            0 <= k < open_orders(lines, n).len() ==> open_orders(lines, n)[k] > 0 && exists|i: int|
                0 <= i < n && (match #[trigger] lines[i] {
                    Some(LineState::WaitBuy { order_id }) => order_id == open_orders(lines, n)[k],
                    Some(LineState::WaitSell { order_id, .. }) => order_id == open_orders(lines, n)[k],
                    None => false,
                }),
        open_orders(lines, n).len() <= n,
        inventory(lines, n).len() <= n,
    decreases n,
{
    if n > 0 {
        orders_and_coins_are_all(lines, n - 1);
        let (a, b) = (open_orders(lines, n - 1), open_orders(lines, n));
        let (c, d) = (inventory(lines, n - 1), inventory(lines, n));
        assert forall|x: u64| a.contains(x) implies #[trigger] b.contains(x) by {
            let k = choose|k: int| 0 <= k < a.len() && a[k] == x;
            assert(b[k] == x);
        }
        assert forall|x: (u64, u64)| c.contains(x) implies #[trigger] d.contains(x) by {
            let k = choose|k: int| 0 <= k < c.len() && c[k] == x;
            assert(d[k] == x);
        }
        assert(open_order(lines[n - 1]) is Some ==> b[a.len() as int] == open_order(lines[n - 1])->0);
        assert(held(lines[n - 1]) is Some ==> d[c.len() as int] == held(lines[n - 1])->0);
        assert forall|k: int| #![trigger b[k]] 0 <= k < b.len() implies b[k] > 0 && exists|i: int|
            0 <= i < n && (match #[trigger] lines[i] {
                Some(LineState::WaitBuy { order_id }) => order_id == b[k],
                Some(LineState::WaitSell { order_id, .. }) => order_id == b[k],
                None => false,
            }) by {
            if k < a.len() {
                assert(b[k] == a[k]);
                let i = choose|i: int|
                    0 <= i < n - 1 && (match #[trigger] lines[i] {
                        Some(LineState::WaitBuy { order_id }) => order_id == a[k],
                        Some(LineState::WaitSell { order_id, .. }) => order_id == a[k],
                        None => false,
                    });
                assert(lines[i] == lines[i]);
            } else {
                assert(lines[n - 1] == lines[n - 1]);
            }
        }
    }
}

/// How the grids are set up: two at a time unless a number from one to six was set, the nearest of them for any
/// other number; a symbol of their own choice unless one was set; and a round sells all where that was asked for,
/// runs where it was switched on, and pauses else.
pub proof fn grid_settings_are_read(settings: &GridSettings, raw: &str, n: int)
    ensures
        active_limit(None) == 2,
        bounded_natural(raw@, usize::MAX as int) is None ==> active_limit(Some(raw)) == 2,
        bounded_natural(raw@, usize::MAX as int) == Some(n) ==> {
            &&& 1 <= n <= 6 ==> active_limit(Some(raw)) == n
            &&& n < 1 ==> active_limit(Some(raw)) == 1
            &&& n > 6 ==> active_limit(Some(raw)) == 6
        },
        chooses_itself(None),
        chooses_itself(Some(raw)) <==> raw@.len() == 0 || raw@ == "AUTO"@,
        !switched_on(None),
        switched_on(Some(raw)) <==> raw@ == "1"@,
        settings.liquidate <==> settings.round_kind_spec() is SellAll,
        !settings.liquidate && settings.enabled <==> settings.round_kind_spec() is Run,
        !settings.liquidate && !settings.enabled <==> settings.round_kind_spec() is Pause,
{
}

/// A grid that was asked to stop stays stopped until its symbol is pinned again; one that was not asked is not.
pub proof fn stop_lasts_until_pinned(stop: Option<&str>, sym: Seq<char>, pins: Seq<Seq<char>>)
    ensures
        stop is None ==> !stopped(stop, sym, pins),
        pins.contains(sym) ==> !stopped(stop, sym, pins),
        stop matches Some(s) ==> (s@ == "1"@ && !pins.contains(sym) <==> stopped(stop, sym, pins)),
{
}

/// After the pinned symbols come the candidates, in their order, where others than pinned ones are wanted.
pub proof fn candidates_follow(pins: Seq<Seq<char>>, candidates: Seq<Seq<char>>, i: int)
    requires
        0 <= i < candidates.len(),
    ensures
        starting_order(pins, candidates, true).len() == pins.len() + candidates.len(),
        starting_order(pins, candidates, true)[pins.len() + i] == candidates[i],
        starting_order(pins, candidates, false) == pins,
{
}

/// A number that is brought between two others is itself between them, and else the nearer one.
pub proof fn clamping_is_nearest(n: int, low: int, high: int)
    requires
        low <= high,
    ensures
        low <= clamped(n, low, high) <= high,
        low <= n <= high ==> clamped(n, low, high) == n,
        n < low ==> clamped(n, low, high) == low,
        n > high ==> clamped(n, low, high) == high,
{
}

/// A sale is counted exactly where the report on an order to sell says that it was filled; and a reply that does not
/// answer what the step asked for changes nothing.
pub proof fn sales_are_counted(line: Option<LineState>, ask: LineAsk, reply: GridReply)
    ensures
        is_sale(line, ask, reply) <==> (ask matches LineAsk::ReadOrder { .. }) && (line matches Some(
            LineState::WaitSell { .. },
        )) && (reply matches GridReply::Report { status, .. } && status == OrderStatus::Filled),
        is_sale(line, ask, reply) ==> line_replied(line, ask, reply) is None,
        reply is Unknown ==> line_replied(line, ask, reply) == line,
        ask is Nothing ==> line_replied(line, ask, reply) == line,
        ask is ReadOrder && reply is Placed ==> line_replied(line, ask, reply) == line,
        (ask is Buy || ask is Sell) && reply is Report ==> line_replied(line, ask, reply) == line,
        ask is Buy && line is None ==> (reply matches GridReply::Placed(Some(id)) ==> line_replied(line, ask, reply)
            == Some(LineState::WaitBuy { order_id: id })),
{
}

} // verus!
