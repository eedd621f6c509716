//! The book of open orders of one symbol: what is bid and what is asked, level by level.

use vstd::prelude::*;

use crate::decimal::{dec_of_text, or_else, parse_dec, zero, Dec};

verus! {

/// A price and the quantity on offer at it.
#[derive(Clone, Copy, Debug)]
pub struct Level {
    pub price: Dec,
    pub qty: Dec,
}

/// The two sides of a book. Each is sorted by price, lowest first: the best bid is the last of the
/// bids, the best ask the first of the asks.
#[derive(Debug)]
pub struct OrderBook {
    pub bids: Vec<Level>,
    pub asks: Vec<Level>,
}

/// The book of a symbol.
#[derive(Debug)]
pub struct OrderBookManager {
    pub symbol: String,
    pub book: OrderBook,
}

/// Prices go up from level to level and no level is empty.
pub open spec fn sorted(levels: Seq<Level>) -> bool {
    &&& forall|i: int, j: int|
        0 <= i < j < levels.len() ==> (#[trigger] levels[i]).price.units() < (
        #[trigger] levels[j]).price.units()
    &&& forall|i: int| 0 <= i < levels.len() ==> (#[trigger] levels[i]).qty.units() != 0
}

/// The entry at `i` counts and has this price.
pub open spec fn counts_at(entries: Seq<Level>, price: int, i: int) -> bool {
    &&& 0 <= i < entries.len()
    &&& entries[i].qty.units() != 0
    &&& entries[i].price.units() == price
}

/// Entry `first` is the first, entry `last` the last, that counts at the price of the level. The
/// level shows the price as the first writes it, and the quantity of the last.
pub open spec fn spans(entries: Seq<Level>, level: Level, first: int, last: int) -> bool {
    let price = level.price.units();
    &&& counts_at(entries, price, first)
    &&& counts_at(entries, price, last)
    &&& forall|k: int| #[trigger] counts_at(entries, price, k) ==> first <= k <= last
    &&& level.price == entries[first].price
    &&& level.qty == entries[last].qty
}

/// The level is what the entries at its price make.
pub open spec fn shows(entries: Seq<Level>, level: Level) -> bool {
    exists|first: int, last: int| spans(entries, level, first, last)
}

/// There is a level at this price.
pub open spec fn priced(levels: Seq<Level>, price: int) -> bool {
    exists|i: int| 0 <= i < levels.len() && (#[trigger] levels[i]).price.units() == price
}

/// The side of a book that a list of entries makes: one level for each price at which a quantity is
/// listed, in the order of the prices.
pub open spec fn is_side(levels: Seq<Level>, entries: Seq<Level>) -> bool {
    &&& sorted(levels)
    &&& forall|i: int| 0 <= i < levels.len() ==> shows(entries, #[trigger] levels[i])
    &&& forall|k: int|
        0 <= k < entries.len() && (#[trigger] entries[k]).qty.units() != 0 ==> priced(
            levels,
            entries[k].price.units(),
        )
}

/// The entry that a pair of texts writes: a price and a quantity.
pub open spec fn entry_of(pair: [String; 2]) -> Level {
    Level { price: or_else(dec_of_text(pair@[0]@), zero()), qty: or_else(dec_of_text(pair@[1]@), zero()) }
}

/// The entries that a list of pairs writes.
pub open spec fn entries_of(pairs: Seq<[String; 2]>) -> Seq<Level> {
    pairs.map_values(|p: [String; 2]| entry_of(p))
}

proof fn lemma_spans_push(entries: Seq<Level>, e: Level, level: Level, first: int, last: int)
    requires
        spans(entries, level, first, last),
        e.qty.units() == 0 || e.price.units() != level.price.units(),
    ensures
        spans(entries.push(e), level, first, last),
{
    let all = entries.push(e);
    let price = level.price.units();
    assert forall|k: int| #[trigger] counts_at(all, price, k) implies first <= k <= last by {
        if k < entries.len() {
            assert(counts_at(entries, price, k));
        }
    }
}

/// An entry without a quantity changes nothing.
proof fn lemma_skip(levels: Seq<Level>, entries: Seq<Level>, e: Level)
    requires
        is_side(levels, entries),
        e.qty.units() == 0,
    ensures
        is_side(levels, entries.push(e)),
{
    let all = entries.push(e);
    assert forall|i: int| 0 <= i < levels.len() implies shows(
        all,
        #[trigger] levels[i],
    ) by {
        let (first, last) = choose|first: int, last: int| spans(entries, levels[i], first, last);
        lemma_spans_push(entries, e, levels[i], first, last);
    }
    assert forall|k: int| 0 <= k < all.len() && (#[trigger] all[k]).qty.units() != 0 implies priced(
        levels,
        all[k].price.units(),
    ) by {
        assert(all[k] == entries[k]);
    }
}

/// An entry at a new price becomes a level of its own.
proof fn lemma_insert(levels: Seq<Level>, entries: Seq<Level>, e: Level, at: int)
    requires
        is_side(levels, entries),
        e.qty.units() != 0,
        0 <= at <= levels.len(),
        forall|i: int| 0 <= i < at ==> (#[trigger] levels[i]).price.units() < e.price.units(),
        forall|i: int| at <= i < levels.len() ==> e.price.units() < (
        #[trigger] levels[i]).price.units(),
    ensures
        is_side(levels.insert(at, e), entries.push(e)),
{
    let all = entries.push(e);
    let n = entries.len() as int;
    let after = levels.insert(at, e);
    assert forall|i: int| 0 <= i < after.len() implies shows(
        all,
        #[trigger] after[i],
    ) by {
        if i == at {
            assert forall|k: int| #[trigger] counts_at(all, e.price.units(), k) implies n <= k <= n by {
                if k < n {
                    assert(entries[k] == all[k]);
                }
            }
            assert(counts_at(all, e.price.units(), n));
            assert(spans(all, e, n, n));
        } else {
            let j = if i < at { i } else { i - 1 };
            assert(after[i] == levels[j]);
            let (first, last) = choose|first: int, last: int|
                spans(entries, levels[j], first, last);
            lemma_spans_push(entries, e, levels[j], first, last);
        }
    }
    assert forall|k: int| 0 <= k < all.len() && (#[trigger] all[k]).qty.units() != 0 implies priced(
        after,
        all[k].price.units(),
    ) by {
        if k == n {
            assert(after[at] == e);
        } else {
            assert(all[k] == entries[k]);
            let j = choose|j: int|
                0 <= j < levels.len() && (#[trigger] levels[j]).price.units()
                    == entries[k].price.units();
            if j < at {
                assert(after[j] == levels[j]);
            } else {
                assert(after[j + 1] == levels[j]);
            }
        }
    }
}

/// An entry at a known price brings its quantity.
proof fn lemma_replace(levels: Seq<Level>, entries: Seq<Level>, e: Level, at: int)
    requires
        is_side(levels, entries),
        e.qty.units() != 0,
        0 <= at < levels.len(),
        levels[at].price.units() == e.price.units(),
    ensures
        is_side(levels.update(at, Level { price: levels[at].price, qty: e.qty }), entries.push(e)),
{
    let all = entries.push(e);
    let n = entries.len() as int;
    let new = Level { price: levels[at].price, qty: e.qty };
    let after = levels.update(at, new);
    let price = e.price.units();
    assert forall|i: int| 0 <= i < after.len() implies shows(
        all,
        #[trigger] after[i],
    ) by {
        let (first, last) = choose|first: int, last: int| spans(entries, levels[i], first, last);
        if i == at {
            assert forall|k: int| #[trigger] counts_at(all, price, k) implies first <= k <= n by {
                if k < n {
                    assert(counts_at(entries, price, k));
                }
            }
            assert(counts_at(all, price, n));
            assert(counts_at(entries, price, first));
            assert(counts_at(all, price, first));
            assert(spans(all, new, first, n));
        } else {
            lemma_spans_push(entries, e, levels[i], first, last);
        }
    }
    assert forall|k: int| 0 <= k < all.len() && (#[trigger] all[k]).qty.units() != 0 implies priced(
        after,
        all[k].price.units(),
    ) by {
        if k == n {
            assert(after[at] == new);
        } else {
            assert(all[k] == entries[k]);
            let j = choose|j: int|
                0 <= j < levels.len() && (#[trigger] levels[j]).price.units()
                    == entries[k].price.units();
            assert(after[j].price == levels[j].price);
        }
    }
}

/// The side of a book that a list of pairs makes.
fn build_side(pairs: &[[String; 2]]) -> (levels: Vec<Level>)
    ensures
        is_side(levels@, entries_of(pairs@)),
{
    let mut levels: Vec<Level> = Vec::new();
    let mut n: usize = 0;
    let ghost entries = entries_of(pairs@);
    while n < pairs.len()
        invariant
            n <= pairs.len(),
            entries == entries_of(pairs@),
            is_side(levels@, entries.take(n as int)),
        decreases pairs.len() - n,
    {
        let price = or_else(parse_dec(pairs[n][0].as_str()), zero());
        let qty = or_else(parse_dec(pairs[n][1].as_str()), zero());
        let ghost e = Level { price, qty };
        let ghost before = levels@;
        assert(entries[n as int] == e);
        assert(entries.take(n + 1) =~= entries.take(n as int).push(e));
        if qty.is_zero() {
            proof {
                lemma_skip(before, entries.take(n as int), e);
            }
        } else {
            let mut at: usize = 0;
            while at < levels.len() && levels[at].price.below(price)
                invariant
                    at <= levels.len(),
                    forall|i: int|
                        0 <= i < at ==> (#[trigger] levels@[i]).price.units() < price.units(),
                decreases levels.len() - at,
            {
                at = at + 1;
            }
            if at < levels.len() && levels[at].price.equals(price) {
                let old_price = levels[at].price;
                levels.set(at, Level { price: old_price, qty });
                proof {
                    lemma_replace(before, entries.take(n as int), e, at as int);
                }
            } else {
                assert forall|i: int| at <= i < before.len() implies price.units() < (
                #[trigger] before[i]).price.units() by {
                    assert(before[at as int].price.units() <= before[i].price.units());
                }
                levels.insert(at, Level { price, qty });
                proof {
                    lemma_insert(before, entries.take(n as int), e, at as int);
                }
            }
        }
        n = n + 1;
    }
    assert(entries.take(n as int) =~= entries);
    levels
}


/// Entry `i` is the first with the largest quantity, a quantity above zero.
pub open spec fn is_thickest(levels: Seq<Level>, i: int) -> bool {
    &&& 0 <= i < levels.len()
    &&& levels[i].qty.units() > 0
    &&& forall|j: int|
        0 <= j < levels.len() ==> (#[trigger] levels[j]).qty.units() <= levels[i].qty.units()
    &&& forall|j: int| 0 <= j < i ==> (#[trigger] levels[j]).qty.units() < levels[i].qty.units()
}

/// The first levels of a side.
pub open spec fn nearest(side: Seq<Level>, levels: int) -> Seq<Level> {
    if levels < side.len() { side.take(levels) } else { side }
}

/// The price of the thickest level; none where no level has a quantity above zero.
pub open spec fn is_wall(side: Seq<Level>, r: Option<Dec>) -> bool {
    match r {
        Some(price) => exists|i: int| #[trigger] is_thickest(side, i) && side[i].price == price,
        None => forall|i: int| 0 <= i < side.len() ==> (#[trigger] side[i]).qty.units() <= 0,
    }
}

impl OrderBook {
    /// Both sides are sorted.
    pub open spec fn wf(self) -> bool {
        sorted(self.bids@) && sorted(self.asks@)
    }

    /// A side of the book from its best level on.
    pub open spec fn best_first(self, is_bid: bool) -> Seq<Level> {
        if is_bid { self.bids@.reverse() } else { self.asks@ }
    }

    /// A book without an order.
    pub fn empty() -> (r: OrderBook)
        ensures
            r.bids@ == Seq::<Level>::empty(),
            r.asks@ == Seq::<Level>::empty(),
            r.wf(),
    {
        OrderBook { bids: Vec::new(), asks: Vec::new() }
    }

    /// The best bid: the highest price that is bid.
    pub open spec fn top_bid(self) -> Option<Level> {
        if self.bids@.len() == 0 { None } else { Some(self.bids@.last()) }
    }

    /// The best ask: the lowest price that is asked.
    pub open spec fn top_ask(self) -> Option<Level> {
        if self.asks@.len() == 0 { None } else { Some(self.asks@.first()) }
    }

    /// The best bid. No bid of a sorted book is higher.
    pub fn best_bid(&self) -> (r: Option<Level>)
        ensures
            r == self.top_bid(),
            self.wf() ==> (r matches Some(top) ==> forall|i: int|
                0 <= i < self.bids@.len() ==> (#[trigger] self.bids@[i]).price.units()
                    <= top.price.units()),
    {
        if self.bids.len() == 0 { None } else { Some(self.bids[self.bids.len() - 1]) }
    }

    /// The best ask. No ask of a sorted book is lower.
    pub fn best_ask(&self) -> (r: Option<Level>)
        ensures
            r == self.top_ask(),
            self.wf() ==> (r matches Some(top) ==> forall|i: int|
                0 <= i < self.asks@.len() ==> (#[trigger] self.asks@[i]).price.units()
                    >= top.price.units()),
    {
        if self.asks.len() == 0 { None } else { Some(self.asks[0]) }
    }

    /// The side of the book at a distance from its best level.
    pub fn level(&self, is_bid: bool, i: usize) -> (r: Option<Level>)
        ensures
            ({
                let side = self.best_first(is_bid);
                r == if i < side.len() { Some(side[i as int]) } else { None }
            }),
    {
        if is_bid {
            if i < self.bids.len() { Some(self.bids[self.bids.len() - 1 - i]) } else { None }
        } else {
            if i < self.asks.len() { Some(self.asks[i]) } else { None }
        }
    }
}

impl OrderBookManager {
    /// An empty book for a symbol.
    pub fn new(symbol: &str) -> (r: OrderBookManager)
        ensures
            r.symbol@ == symbol@,
            r.book.bids@ == Seq::<Level>::empty(),
            r.book.asks@ == Seq::<Level>::empty(),
            r.book.wf(),
    {
        OrderBookManager { symbol: symbol.to_string(), book: OrderBook::empty() }
    }

    /// Puts what is listed in the place of the whole book. An entry without a quantity is passed
    /// over, of several entries at one price the last quantity stands.
    pub fn apply_update(&mut self, bids: &[[String; 2]], asks: &[[String; 2]])
        ensures
            final(self).symbol == old(self).symbol,
            is_side(final(self).book.bids@, entries_of(bids@)),
            is_side(final(self).book.asks@, entries_of(asks@)),
            final(self).book.wf(),
    {
        let new_bids = build_side(bids);
        let new_asks = build_side(asks);
        self.book = OrderBook { bids: new_bids, asks: new_asks };
    }

    /// The price with the largest quantity among the best `levels` of a side, the one nearest to
    /// the top where several have it.
    pub fn get_thickest_wall(&self, is_bid: bool, levels: usize) -> (r: Option<Dec>)
        ensures
            is_wall(nearest(self.book.best_first(is_bid), levels as int), r),
    {
        let ghost side = self.book.best_first(is_bid);
        let len: usize = if is_bid { self.book.bids.len() } else { self.book.asks.len() };
        let n: usize = if levels < len { levels } else { len };
        let mut best: Option<Level> = None;
        let ghost mut at: int = 0;
        let mut i: usize = 0;
        while i < n
            invariant
                i <= n <= len,
                len == side.len(),
                side == self.book.best_first(is_bid),
                match best {
                    Some(l) => is_thickest(side.take(i as int), at) && side[at] == l,
                    None => forall|j: int| 0 <= j < i ==> (#[trigger] side[j]).qty.units() <= 0,
                },
            decreases n - i,
        {
            let next = match self.book.level(is_bid, i) {
                Some(l) => l,
                None => return None,
            };
            assert(side[i as int] == next);
            let thicker = match best {
                Some(l) => next.qty.above(l.qty),
                None => next.qty.is_positive(),
            };
            assert(forall|j: int| 0 <= j < i ==> side.take(i + 1)[j] == side.take(i as int)[j]);
            if thicker {
                proof {
                    at = i as int;
                }
                best = Some(next);
            }
            i = i + 1;
        }
        assert(side.take(n as int) =~= nearest(side, levels as int));
        match best {
            Some(l) => {
                assert(is_thickest(nearest(side, levels as int), at));
                Some(l.price)
            },
            None => None,
        }
    }

    /// The two sides' best levels, once both sides have one.
    pub fn print_top_of_book(&self) -> (r: Option<(Level, Level)>)
        ensures
            r == (match (self.book.top_bid(), self.book.top_ask()) {
                (Some(bid), Some(ask)) => Some((bid, ask)),
                _ => None,
            }),
    {
        match (self.book.best_bid(), self.book.best_ask()) {
            (Some(bid), Some(ask)) => Some((bid, ask)),
            _ => None,
        }
    }
}

proof fn lemma_listed_price(levels: Seq<Level>, entries: Seq<Level>, i: int)
    requires
        is_side(levels, entries),
        0 <= i < levels.len(),
    ensures
        exists|k: int| counts_at(entries, levels[i].price.units(), k),
{
    assert(shows(entries, levels[i]));
    let (first, last) = choose|first: int, last: int| spans(entries, levels[i], first, last);
    assert(counts_at(entries, levels[i].price.units(), first));
}

proof fn lemma_finds_price(a: Seq<Level>, b: Seq<Level>, entries: Seq<Level>, i: int) -> (j: int)
    requires
        is_side(a, entries),
        is_side(b, entries),
        0 <= i < a.len(),
    ensures
        0 <= j < b.len(),
        b[j].price.units() == a[i].price.units(),
{
    lemma_listed_price(a, entries, i);
    let k = choose|k: int| counts_at(entries, a[i].price.units(), k);
    assert(priced(b, entries[k].price.units()));
    choose|j: int| 0 <= j < b.len() && (#[trigger] b[j]).price.units() == a[i].price.units()
}

proof fn lemma_same_level(a: Seq<Level>, b: Seq<Level>, entries: Seq<Level>, i: int)
    requires
        is_side(a, entries),
        is_side(b, entries),
        0 <= i < a.len(),
        i <= b.len(),
        a.take(i) == b.take(i),
    ensures
        i < b.len(),
        a[i] == b[i],
{
    assert forall|k: int| 0 <= k < i implies #[trigger] a[k] == b[k] by {
        assert(a.take(i)[k] == a[k]);
        assert(b.take(i)[k] == b[k]);
    }
    let j = lemma_finds_price(a, b, entries, i);
    if j < i {
        assert(a[j] == b[j]);
        assert(a[j].price.units() < a[i].price.units());
    }
    let k = lemma_finds_price(b, a, entries, i);
    if k < i {
        assert(a[k] == b[k]);
        assert(b[k].price.units() < b[i].price.units());
    }
    if k > i {
        assert(a[i].price.units() < a[k].price.units());
    }
    if j > i {
        assert(b[i].price.units() < b[j].price.units());
    }
    assert(a[i].price.units() == b[i].price.units());
    assert(shows(entries, a[i]) && shows(entries, b[i]));
    let (f1, l1) = choose|first: int, last: int| spans(entries, a[i], first, last);
    let (f2, l2) = choose|first: int, last: int| spans(entries, b[i], first, last);
    let price = a[i].price.units();
    assert(counts_at(entries, price, f1) && counts_at(entries, price, l1));
    assert(counts_at(entries, price, f2) && counts_at(entries, price, l2));
}

proof fn lemma_same_levels(a: Seq<Level>, b: Seq<Level>, entries: Seq<Level>, n: int)
    requires
        is_side(a, entries),
        is_side(b, entries),
        0 <= n <= a.len(),
    ensures
        n <= b.len(),
        a.take(n) == b.take(n),
    decreases n,
{
    if n > 0 {
        lemma_same_levels(a, b, entries, n - 1);
        lemma_same_level(a, b, entries, n - 1);
        assert(a.take(n) =~= a.take(n - 1).push(a[n - 1]));
        assert(b.take(n) =~= b.take(n - 1).push(b[n - 1]));
    }
}

/// A list of entries makes one side of a book and no other.
pub proof fn side_is_determined(a: Seq<Level>, b: Seq<Level>, entries: Seq<Level>)
    requires
        is_side(a, entries),
        is_side(b, entries),
    ensures
        a == b,
{
    lemma_same_levels(a, b, entries, a.len() as int);
    lemma_same_levels(b, a, entries, b.len() as int);
    assert(a.take(a.len() as int) =~= a);
    assert(b.take(a.len() as int) =~= b);
}

/// From its best level on, the prices of a sorted side fall where it bids and rise where it asks; and it holds all
/// levels of the side. So the best bid is the highest price that is bid, the best ask the lowest that is asked.
pub proof fn best_comes_first(book: OrderBook)
    requires
        book.wf(),
    ensures
        forall|i: int, j: int|
            0 <= i < j < book.best_first(true).len() ==> (#[trigger] book.best_first(true)[i]).price.units() > (
            #[trigger] book.best_first(true)[j]).price.units(),
        forall|i: int, j: int|
            0 <= i < j < book.best_first(false).len() ==> (#[trigger] book.best_first(false)[i]).price.units() < (
            #[trigger] book.best_first(false)[j]).price.units(),
        forall|i: int| 0 <= i < book.bids@.len() ==> book.best_first(true).contains(#[trigger] book.bids@[i]),
        forall|i: int| 0 <= i < book.asks@.len() ==> book.best_first(false).contains(#[trigger] book.asks@[i]),
        book.best_first(true).len() == book.bids@.len(),
        book.best_first(false).len() == book.asks@.len(),
        book.top_bid() is None <==> book.bids@.len() == 0,
        book.top_ask() is None <==> book.asks@.len() == 0,
        book.top_bid() matches Some(top) ==> top == book.best_first(true)[0] && forall|i: int|
            0 <= i < book.bids@.len() ==> (#[trigger] book.bids@[i]).price.units() <= top.price.units(),
        book.top_ask() matches Some(top) ==> top == book.best_first(false)[0] && forall|i: int|
            0 <= i < book.asks@.len() ==> (#[trigger] book.asks@[i]).price.units() >= top.price.units(),
{
    let (b, n) = (book.best_first(true), book.bids@.len() as int);
    assert forall|i: int| 0 <= i < n implies b.contains(#[trigger] book.bids@[i]) by {
        assert(b[n - 1 - i] == book.bids@[i]);
    }
    assert forall|i: int| 0 <= i < book.asks@.len() implies book.best_first(false).contains(
        #[trigger] book.asks@[i],
    ) by {
        assert(book.best_first(false)[i] == book.asks@[i]);
    }
}

/// Of a pair of texts the first is the price and the second the quantity, each zero where it cannot be read.
pub proof fn pairs_are_read(pair: [String; 2])
    ensures
        entry_of(pair).price == (match dec_of_text(pair@[0]@) {
            Some(d) => d,
            None => zero(),
        }),
        entry_of(pair).qty == (match dec_of_text(pair@[1]@) {
            Some(d) => d,
            None => zero(),
        }),
{
}

/// What a level of a side shows: of several entries at one price that have a quantity, the quantity of the last; every
/// price with a quantity has a level, and an entry without one makes none.
pub proof fn last_quantity_stands(levels: Seq<Level>, entries: Seq<Level>, k: int)
    requires
        is_side(levels, entries),
        0 <= k < entries.len(),
        entries[k].qty.units() != 0,
        forall|j: int|
            k < j < entries.len() && (#[trigger] entries[j]).price.units() == entries[k].price.units()
                ==> entries[j].qty.units() == 0,
    ensures
        exists|i: int|
            0 <= i < levels.len() && (#[trigger] levels[i]).price.units() == entries[k].price.units() && levels[i].qty
                == entries[k].qty,
        forall|i: int|
            0 <= i < levels.len() ==> exists|j: int|
                0 <= j < entries.len() && (#[trigger] entries[j]).qty.units() != 0 && entries[j].price.units() == (
                #[trigger] levels[i]).price.units(),
{
    let price = entries[k].price.units();
    assert(priced(levels, price));
    let i = choose|i: int| 0 <= i < levels.len() && (#[trigger] levels[i]).price.units() == price;
    assert(shows(entries, levels[i]));
    let (first, last) = choose|first: int, last: int| spans(entries, levels[i], first, last);
    assert(counts_at(entries, price, k));
    assert(counts_at(entries, price, last));
    assert(last == k);
    assert forall|m: int| 0 <= m < levels.len() implies exists|j: int|
        0 <= j < entries.len() && (#[trigger] entries[j]).qty.units() != 0 && entries[j].price.units() == (
        #[trigger] levels[m]).price.units() by {
        lemma_listed_price(levels, entries, m);
        let j = choose|j: int| counts_at(entries, levels[m].price.units(), j);
        assert(entries[j].qty.units() != 0);
    }
}

/// The thickest level among the nearest so many of a side is one of them, has a quantity above zero, and none of them
/// has more; of several with as much it is the one nearest to the top.
pub proof fn wall_is_thickest(side: Seq<Level>, levels: int, price: Dec)
    requires
        0 <= levels,
        is_wall(nearest(side, levels), Some(price)),
    ensures
        exists|i: int|
            0 <= i < side.len() && i < levels && (#[trigger] side[i]).price == price && side[i].qty.units() > 0 && (
            forall|j: int|
                0 <= j < side.len() && j < levels ==> (#[trigger] side[j]).qty.units() <= side[i].qty.units()) && (
            forall|j: int| 0 <= j < i ==> (#[trigger] side[j]).qty.units() < side[i].qty.units()),
{
    let near = nearest(side, levels);
    let i = choose|i: int| #[trigger] is_thickest(near, i) && near[i].price == price;
    assert(side[i] == near[i]);
    assert forall|j: int| 0 <= j < side.len() && j < levels implies (#[trigger] side[j]).qty.units()
        <= side[i].qty.units() by {
        assert(near[j] == side[j]);
    }
    assert forall|j: int| 0 <= j < i implies (#[trigger] side[j]).qty.units() < side[i].qty.units() by {
        assert(near[j] == side[j]);
    }
}

/// There is no thickest level only where none of the nearest has a quantity above zero.
pub proof fn no_wall_is_bare(side: Seq<Level>, levels: int)
    requires
        0 <= levels,
        is_wall(nearest(side, levels), None),
    ensures
        forall|j: int| 0 <= j < side.len() && j < levels ==> (#[trigger] side[j]).qty.units() <= 0,
{
    let near = nearest(side, levels);
    assert forall|j: int| 0 <= j < side.len() && j < levels implies (#[trigger] side[j]).qty.units() <= 0 by {
        assert(near[j] == side[j]);
    }
}

} // verus!
