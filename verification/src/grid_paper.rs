//! Grids on paper: a ladder of prices, each of which is bought when the price falls to it and sold when
//! the price has risen to the next. Prices are doubles, held by their bits.

use vstd::prelude::*;

use crate::bits::{at_most, below};
use crate::text::{same, texts};

verus! {

/// The seconds between two rounds.
pub const SCAN_SECS: u64 = 60;

/// How many grids run at once.
pub const MAX_ACTIVE: usize = 3;

/// How many steps a grid has.
pub const N_GRIDS: usize = 20;

/// The seconds for which a symbol is left alone after its grid has failed.
pub const COOLDOWN_SECS: u64 = 21600;

/// A grid on paper: its prices from the lowest up, which of them were bought, and for how much.
pub struct GridPos {
    pub sym: String,
    pub lines: Vec<u64>,
    pub holding: Vec<bool>,
    pub entry_price: Vec<u64>,
    pub opened_ms: u64,
    pub last_checked_ms: u64,
}

/// A step that was sold: its place, what it was bought and sold at.
#[derive(Clone, Copy, Debug, PartialEq, Eq, Structural)]
pub struct Sale {
    pub step: usize,
    pub bought: u64,
    pub sold: u64,
}

/// What a candle did to a grid.
pub enum BarOutcome {
    /// The price has left the grid, at its upper end or at its lower: all that was held is sold at the
    /// close.
    Bust { above: bool, sales: Vec<Sale> },
    /// The steps that were sold.
    Traded(Vec<Sale>),
}

impl GridPos {
    /// There is a price, and every price is bought or not.
    pub open spec fn wf(&self) -> bool {
        &&& self.lines@.len() > 0
        &&& self.holding@.len() == self.lines@.len()
        &&& self.entry_price@.len() == self.lines@.len()
    }

    /// A grid on these prices with nothing bought.
    pub fn new(sym: &str, lines: Vec<u64>, now_ms: u64) -> (r: GridPos)
        requires
            lines@.len() > 0,
        ensures
            r.wf(),
            r.sym@ == sym@,
            r.lines == lines,
            r.holding@ == Seq::new(lines@.len(), |i: int| false),
            r.entry_price@ == Seq::new(lines@.len(), |i: int| 0u64),
            r.opened_ms == now_ms,
            r.last_checked_ms == now_ms,
    {
        let mut holding: Vec<bool> = Vec::new();
        let mut entry_price: Vec<u64> = Vec::new();
        let mut i: usize = 0;
        while i < lines.len()
            invariant
                i <= lines.len(),
                holding@ == Seq::new(i as nat, |k: int| false),
                entry_price@ == Seq::new(i as nat, |k: int| 0u64),
            decreases lines.len() - i,
        {
            holding.push(false);
            entry_price.push(0);
            assert(holding@ =~= Seq::new((i + 1) as nat, |k: int| false));
            assert(entry_price@ =~= Seq::new((i + 1) as nat, |k: int| 0u64));
            i = i + 1;
        }
        GridPos {
            sym: sym.to_string(),
            lines,
            holding,
            entry_price,
            opened_ms: now_ms,
            last_checked_ms: now_ms,
        }
    }

    /// Whether a step is held once the price has been down to `low`.
    pub open spec fn held_after_fall(&self, low: u64, i: int) -> bool {
        self.holding@[i] || at_most(low, self.lines@[i])
    }

    /// What a step was bought at once the price has been down to `low`.
    pub open spec fn entry_after_fall(&self, low: u64, i: int) -> u64 {
        if !self.holding@[i] && at_most(low, self.lines@[i]) {
            self.lines@[i]
        } else {
            self.entry_price@[i]
        }
    }

    /// Whether a step is sold by a candle: it is held, and the price has been up to the next step.
    pub open spec fn sells(&self, high: u64, low: u64, i: int) -> bool {
        &&& i + 1 < self.lines@.len()
        &&& self.held_after_fall(low, i)
        &&& at_most(self.lines@[i + 1], high)
    }

    /// The sales of the first `n` steps by a candle.
    pub open spec fn sales(&self, high: u64, low: u64, n: int) -> Seq<Sale>
        decreases n,
    {
        if n <= 0 {
            Seq::empty()
        } else if self.sells(high, low, n - 1) {
            self.sales(high, low, n - 1).push(
                Sale {
                    step: (n - 1) as usize,
                    bought: self.entry_after_fall(low, n - 1),
                    sold: self.lines@[n],
                },
            )
        } else {
            self.sales(high, low, n - 1)
        }
    }

    /// The sales of the first `n` steps where all that is held is sold at a price.
    pub open spec fn clearance(&self, price: u64, n: int) -> Seq<Sale>
        decreases n,
    {
        if n <= 0 {
            Seq::empty()
        } else if self.holding@[n - 1] {
            self.clearance(price, n - 1).push(
                Sale { step: (n - 1) as usize, bought: self.entry_price@[n - 1], sold: price },
            )
        } else {
            self.clearance(price, n - 1)
        }
    }

    /// Takes a candle: its highest, its lowest and its closing price, and the prices at which the grid
    /// has failed.
    pub fn take_bar(
        &mut self,
        high: u64,
        low: u64,
        close: u64,
        bust_low: u64,
        bust_high: u64,
    ) -> (r: BarOutcome)
        requires
            old(self).wf(),
        ensures
            final(self).wf(),
            final(self).sym == old(self).sym,
            final(self).lines == old(self).lines,
            final(self).opened_ms == old(self).opened_ms,
            final(self).last_checked_ms == old(self).last_checked_ms,
            ({
                let n = old(self).lines@.len() as int;
                let busts = at_most(low, bust_low) || at_most(bust_high, high);
                match r {
                    BarOutcome::Bust { above, sales } => busts && above == at_most(bust_high, high)
                        && sales@ == old(self).clearance(close, n) && final(self).entry_price
                        == old(self).entry_price && forall|i: int|
                        0 <= i < n ==> !#[trigger] final(self).holding@[i],
                    BarOutcome::Traded(sales) => !busts && sales@ == old(self).sales(high, low, n)
                        && (forall|i: int|
                        0 <= i < n ==> #[trigger] final(self).holding@[i] == (old(self).held_after_fall(low, i)
                            && !old(self).sells(high, low, i))) && (forall|i: int|
                        0 <= i < n ==> #[trigger] final(self).entry_price@[i] == old(self).entry_after_fall(low, i)),
                }
            }),
    {
        let n: usize = self.lines.len();
        let mut sold: Vec<Sale> = Vec::new();
        let mut holding: Vec<bool> = Vec::new();
        let above = at_most(bust_high, high);
        if at_most(low, bust_low) || above {
            let mut i: usize = 0;
            while i < n
                invariant
                    i <= n,
                    n == self.lines@.len(),
                    *self == *old(self),
                    self.wf(),
                    holding@.len() == i,
                    forall|k: int| 0 <= k < i ==> !#[trigger] holding@[k],
                    sold@ == self.clearance(close, i as int),
                decreases n - i,
            {
                if self.holding[i] {
                    sold.push(Sale { step: i, bought: self.entry_price[i], sold: close });
                }
                holding.push(false);
                i = i + 1;
            }
            self.holding = holding;
            return BarOutcome::Bust { above, sales: sold };
        }
        let mut entries: Vec<u64> = Vec::new();
        let mut i: usize = 0;
        while i < n
            invariant
                i <= n,
                n == self.lines@.len(),
                *self == *old(self),
                self.wf(),
                holding@.len() == i,
                entries@.len() == i,
                forall|k: int|
                    0 <= k < i ==> #[trigger] holding@[k] == (self.held_after_fall(low, k)
                        && !self.sells(high, low, k)),
                forall|k: int|
                    0 <= k < i ==> #[trigger] entries@[k] == self.entry_after_fall(low, k),
                sold@ == self.sales(high, low, i as int),
            decreases n - i,
        {
            let reached = at_most(low, self.lines[i]);
            let entry: u64 = if !self.holding[i] && reached {
                self.lines[i]
            } else {
                self.entry_price[i]
            };
            let held = self.holding[i] || reached;
            let sells = i + 1 < n && held && at_most(self.lines[i + 1], high);
            if sells {
                sold.push(Sale { step: i, bought: entry, sold: self.lines[i + 1] });
            }
            holding.push(held && !sells);
            entries.push(entry);
            i = i + 1;
        }
        self.holding = holding;
        self.entry_price = entries;
        BarOutcome::Traded(sold)
    }

    /// Takes note of the moment up to which the candles were taken.
    pub fn checked(&mut self, now_ms: u64)
        ensures
            final(self).last_checked_ms == now_ms,
            final(self).sym == old(self).sym,
            final(self).lines == old(self).lines,
            final(self).holding == old(self).holding,
            final(self).entry_price == old(self).entry_price,
            final(self).opened_ms == old(self).opened_ms,
    {
        self.last_checked_ms = now_ms;
    }
}

/// Every step that a candle sells goes at the price of the next step up, and was bought at the price
/// that the grid remembers for it or at its own.
pub proof fn sales_go_one_step_up(grid: &GridPos, high: u64, low: u64, n: int, k: int)
    requires
        0 <= n <= grid.lines@.len(),
        grid.lines@.len() <= usize::MAX,
        0 <= k < grid.sales(high, low, n).len(),
    ensures
        ({
            let sale = grid.sales(high, low, n)[k];
            &&& sale.step + 1 < grid.lines@.len()
            &&& sale.sold == grid.lines@[sale.step + 1]
            &&& sale.bought == grid.entry_after_fall(low, sale.step as int)
            &&& at_most(sale.sold, high)
        }),
    decreases n,
{
    if n > 0 {
        let before = grid.sales(high, low, n - 1);
        if k < before.len() {
            sales_go_one_step_up(grid, high, low, n - 1, k);
        }
    }
}

/// The tally: the sum of all results, of the profits and of the losses, how many steps were sold, how
/// many of them at a profit, and how many grids have failed.
#[derive(Clone, Copy, Debug)]
pub struct GridStats {
    pub total_net: u64,
    pub gross_win: u64,
    pub gross_loss: u64,
    pub trades: u32,
    pub wins: u32,
    pub busts: u32,
}

impl GridStats {
    /// The sums with a result counted in: they are given as they become with it, and only the one that
    /// it belongs to is taken.
    pub open spec fn adds(
        &self,
        before: &GridStats,
        net: u64,
        total_net: u64,
        gross_win: u64,
        gross_loss: u64,
    ) -> bool {
        &&& self.total_net == total_net
        &&& self.gross_win == if below(0, net) { gross_win } else { before.gross_win }
        &&& self.gross_loss == if below(0, net) { before.gross_loss } else { gross_loss }
    }

    /// Counts a step that was sold.
    pub fn book_sale(&mut self, net: u64, total_net: u64, gross_win: u64, gross_loss: u64)
        ensures
            final(self).adds(old(self), net, total_net, gross_win, gross_loss),
            final(self).trades == (old(self).trades + 1) % 0x1_0000_0000,
            final(self).wins == (if below(0, net) {
                (old(self).wins + 1) % 0x1_0000_0000
            } else {
                old(self).wins as int
            }),
            final(self).busts == old(self).busts,
    {
        self.total_net = total_net;
        self.trades = self.trades.wrapping_add(1);
        if below(0, net) {
            self.wins = self.wins.wrapping_add(1);
            self.gross_win = gross_win;
        } else {
            self.gross_loss = gross_loss;
        }
    }

    /// Counts a grid that has failed, with what selling all that it held has brought. That is no sale of
    /// a step.
    pub fn book_bust(&mut self, net: u64, total_net: u64, gross_win: u64, gross_loss: u64)
        ensures
            final(self).adds(old(self), net, total_net, gross_win, gross_loss),
            final(self).trades == old(self).trades,
            final(self).wins == old(self).wins,
            final(self).busts == (old(self).busts + 1) % 0x1_0000_0000,
    {
        self.total_net = total_net;
        self.busts = self.busts.wrapping_add(1);
        if below(0, net) {
            self.gross_win = gross_win;
        } else {
            self.gross_loss = gross_loss;
        }
    }
}

/// Whether a candidate gets a grid: there is room, it has none, and it is not left alone.
pub fn wants_grid(candidate: &str, active: &Vec<String>, cooling: bool) -> (r: bool)
    ensures
        r == (active@.len() < MAX_ACTIVE && !texts(active@).contains(candidate@) && !cooling),
{
    if active.len() >= MAX_ACTIVE || cooling {
        return false;
    }
    let mut i: usize = 0;
    while i < active.len()
        invariant
            i <= active.len(),
            forall|k: int| 0 <= k < i ==> (#[trigger] active@[k])@ != candidate@,
        decreases active.len() - i,
    {
        if same(active[i].as_str(), candidate) {
            assert(texts(active@)[i as int] == candidate@);
            return false;
        }
        i = i + 1;
    }
    assert(!texts(active@).contains(candidate@)) by {
        if texts(active@).contains(candidate@) {
            let k = choose|k: int| 0 <= k < texts(active@).len() && texts(active@)[k] == candidate@;
            assert(active@[k]@ == candidate@);
        }
    }
    true
}

/// What a candle does to a step, said outright: one that is not held is bought at its own price exactly where the
/// lowest price has come down to it, one that is held keeps what it was bought at; and one that is held by now is
/// sold at the price of the next exactly where the highest price has come up to that, in one sale. The highest step
/// is never sold by a candle.
pub proof fn candle_trades_each_step(grid: &GridPos, high: u64, low: u64, n: int, i: int)
    requires
        grid.wf(),
        0 <= i < n <= grid.lines@.len() <= usize::MAX,
    ensures
        ({
            let reached = at_most(low, grid.lines@[i]);
            let has = grid.holding@[i] || reached;
            let sold = i + 1 < grid.lines@.len() && has && at_most(grid.lines@[i + 1], high);
            let paid = if grid.holding@[i] {
                grid.entry_price@[i]
            } else if reached {
                grid.lines@[i]
            } else {
                grid.entry_price@[i]
            };
            &&& grid.held_after_fall(low, i) == has
            &&& grid.entry_after_fall(low, i) == paid
            &&& grid.sells(high, low, i) == sold
            &&& sold ==> grid.sales(high, low, n).contains(
                Sale { step: i as usize, bought: paid, sold: grid.lines@[i + 1] },
            )
            &&& !sold ==> forall|k: int|
                0 <= k < grid.sales(high, low, n).len() ==> (#[trigger] grid.sales(high, low, n)[k]).step != i
            &&& forall|j: int, k: int|
                0 <= j < k < grid.sales(high, low, n).len() ==> (#[trigger] grid.sales(high, low, n)[j]).step < (
                #[trigger] grid.sales(high, low, n)[k]).step
        }),
    decreases n,
{
    lemma_sales_rise(grid, high, low, n);
    let before = grid.sales(high, low, n - 1);
    let now = grid.sales(high, low, n);
    let sale = Sale {
        step: i as usize,
        bought: grid.entry_after_fall(low, i),
        sold: grid.lines@[i + 1],
    };
    if i < n - 1 {
        candle_trades_each_step(grid, high, low, n - 1, i);
        if grid.sells(high, low, i) {
            let k = choose|k: int| 0 <= k < before.len() && before[k] == sale;
            assert(now[k] == sale);
        } else {
            assert forall|k: int| 0 <= k < now.len() implies (#[trigger] now[k]).step != i by {
                if k < before.len() {
                    assert(now[k] == before[k]);
                }
            }
        }
    } else {
        lemma_sales_rise(grid, high, low, n - 1);
        if grid.sells(high, low, i) {
            assert(now[before.len() as int] == sale);
        }
    }
}

proof fn lemma_sales_rise(grid: &GridPos, high: u64, low: u64, n: int)
    requires
        0 <= n <= grid.lines@.len() <= usize::MAX,
    ensures
        forall|k: int|
            0 <= k < grid.sales(high, low, n).len() ==> (#[trigger] grid.sales(high, low, n)[k]).step < n,
        forall|j: int, k: int|
            0 <= j < k < grid.sales(high, low, n).len() ==> (#[trigger] grid.sales(high, low, n)[j]).step < (
            #[trigger] grid.sales(high, low, n)[k]).step,
    decreases n,
{
    if n > 0 {
        lemma_sales_rise(grid, high, low, n - 1);
        let before = grid.sales(high, low, n - 1);
        let now = grid.sales(high, low, n);
        assert forall|k: int| 0 <= k < now.len() implies (#[trigger] now[k]).step < n by {
            if k < before.len() {
                assert(now[k] == before[k]);
            }
        }
        assert forall|j: int, k: int| 0 <= j < k < now.len() implies (#[trigger] now[j]).step < (
        #[trigger] now[k]).step by {
            assert(now[j] == before[j]);
            if k < before.len() {
                assert(now[k] == before[k]);
            }
        }
    }
}

/// Where a grid has failed, every step that was held is sold at the closing price, and nothing else is.
pub proof fn failure_clears_each_step(grid: &GridPos, price: u64, n: int, i: int)
    requires
        grid.wf(),
        0 <= i < n <= grid.lines@.len() <= usize::MAX,
    ensures
        grid.holding@[i] ==> grid.clearance(price, n).contains(
            Sale { step: i as usize, bought: grid.entry_price@[i], sold: price },
        ),
        !grid.holding@[i] ==> forall|k: int|
            0 <= k < grid.clearance(price, n).len() ==> (#[trigger] grid.clearance(price, n)[k]).step != i,
        forall|k: int|
            0 <= k < grid.clearance(price, n).len() ==> (#[trigger] grid.clearance(price, n)[k]).step < n,
    decreases n,
{
    let before = grid.clearance(price, n - 1);
    let now = grid.clearance(price, n);
    let sale = Sale { step: i as usize, bought: grid.entry_price@[i], sold: price };
    if i < n - 1 {
        failure_clears_each_step(grid, price, n - 1, i);
        if grid.holding@[i] {
            let k = choose|k: int| 0 <= k < before.len() && before[k] == sale;
            assert(now[k] == sale);
        }
        assert forall|k: int| 0 <= k < now.len() implies (#[trigger] now[k]).step < n && (!grid.holding@[i]
            ==> now[k].step != i) by {
            if k < before.len() {
                assert(now[k] == before[k]);
            }
        }
    } else {
        if n > 1 {
            failure_clears_each_step(grid, price, n - 1, 0);
        }
        if grid.holding@[i] {
            assert(now[before.len() as int] == sale);
        }
    }
}

/// The gains and losses of a result are kept apart: one above zero goes to the gains, any other to the losses, and
/// the sum takes both.
pub proof fn results_are_kept_apart(
    now: &GridStats,
    before: &GridStats,
    net: u64,
    total_net: u64,
    gross_win: u64,
    gross_loss: u64,
)
    requires
        now.adds(before, net, total_net, gross_win, gross_loss),
    ensures
        now.total_net == total_net,
        below(0, net) ==> now.gross_win == gross_win && now.gross_loss == before.gross_loss,
        !below(0, net) ==> now.gross_loss == gross_loss && now.gross_win == before.gross_win,
{
}

} // verus!
