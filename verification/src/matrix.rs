//! What holds the symbols together: the list of symbols, the breaker for falling markets, the rotation
//! of symbols, and the figures of the market report.

use vstd::prelude::*;

use crate::bits::below;
use crate::decimal::{
    absolute, arithmetic, dec_of_text, difference, difference_of, distance, lemma_absolute,
    lemma_difference, lemma_lit, lemma_lit_units, lemma_opposite, lemma_product, lemma_quotient,
    lemma_rounded_sign, lemma_sum, lit, opposite, or_else, parse_dec, precision, product,
    product_of, quotient, quotient_of, rounded, sum, unit, zero, Dec,
};
use crate::json::{items_of_text, parse_items, views, Json, JsonView};
use crate::order::{comes_before, is_order, order_is_sorted, ranks, sort_places};
use crate::profit::{amounts_to, gain_pct, gains_are_percentages, whole};
use crate::screen::{coin_usdt, is_coin_usdt, is_plain_usdt, place_or_zero, plain_usdt};
use crate::telegram::{listed, midnight_before, pin, text_or};
use crate::text::{same, starts, texts};

verus! {

/// The list of symbols with the three large ones on it, which the breaker watches.
pub fn require_majors(symbols: Vec<String>) -> (r: Vec<String>)
    ensures
        texts(r@) == listed(
            listed(listed(texts(symbols@), "BTCUSDT"@), "ETHUSDT"@),
            "BNBUSDT"@,
        ),
{
    pin(pin(pin(symbols, "BTCUSDT"), "ETHUSDT"), "BNBUSDT")
}

/// The three large symbols are always on the list, whatever was on it.
pub proof fn majors_are_listed(v: Seq<Seq<char>>)
    ensures
        ({
            let r = listed(listed(listed(v, "BTCUSDT"@), "ETHUSDT"@), "BNBUSDT"@);
            &&& r.contains("BTCUSDT"@)
            &&& r.contains("ETHUSDT"@)
            &&& r.contains("BNBUSDT"@)
            &&& forall|i: int| 0 <= i < v.len() ==> #[trigger] r[i] == v[i]
        }),
{
    let a = listed(v, "BTCUSDT"@);
    let b = listed(a, "ETHUSDT"@);
    let r = listed(b, "BNBUSDT"@);
    lemma_listed_keeps(v, "BTCUSDT"@, "BTCUSDT"@);
    lemma_listed_keeps(a, "ETHUSDT"@, "BTCUSDT"@);
    lemma_listed_keeps(a, "ETHUSDT"@, "ETHUSDT"@);
    lemma_listed_keeps(b, "BNBUSDT"@, "BTCUSDT"@);
    lemma_listed_keeps(b, "BNBUSDT"@, "ETHUSDT"@);
    lemma_listed_keeps(b, "BNBUSDT"@, "BNBUSDT"@);
}

proof fn lemma_listed_keeps(v: Seq<Seq<char>>, s: Seq<char>, t: Seq<char>)
    ensures
        v.contains(t) || s == t ==> listed(v, s).contains(t),
        v.len() <= listed(v, s).len(),
        forall|i: int| 0 <= i < v.len() ==> #[trigger] listed(v, s)[i] == v[i],
{
    if !v.contains(s) {
        let w = v.push(s);
        assert(w[v.len() as int] == s);
        if v.contains(t) {
            let k = choose|k: int| 0 <= k < v.len() && v[k] == t;
            assert(w[k] == t);
        }
    }
}

/// The prices of the last fifteen looks, with a new one.
pub open spec fn windowed(window: Seq<Dec>, price: Dec) -> Seq<Dec> {
    let all = window.push(price);
    if all.len() > 15 { all.drop_first() } else { all }
}

/// The highest of the first `n` prices, the last of several.
pub open spec fn last_highest(prices: Seq<Dec>, n: int) -> Dec
    decreases n,
{
    if n <= 1 {
        prices[0]
    } else {
        let top = last_highest(prices, n - 1);
        if prices[n - 1].units() >= top.units() { prices[n - 1] } else { top }
    }
}

/// The fall of a price from the highest of the window, in percent and with a minus.
pub open spec fn fall_of(window: Seq<Dec>, price: Dec) -> Option<Dec> {
    gain_pct(true, price, last_highest(window, window.len() as int))
}

/// What the looks at the large symbols have shown so far: the deepest fall, which symbol has it, and
/// whether all have recovered.
#[derive(Clone, Copy, Debug)]
pub struct Looks {
    pub deepest: Dec,
    pub worst: Option<Major>,
    pub recovered: bool,
}

/// A large symbol.
#[derive(Clone, Copy, Debug, PartialEq, Eq, Structural)]
pub enum Major {
    Btc,
    Eth,
    Bnb,
}

/// A look at a symbol: its window after it, and what has been shown so far. A symbol without a price
/// shows nothing.
pub open spec fn looked(window: Seq<Dec>, price: Option<Dec>, which: Major, looks: Looks) -> Option<
    (Seq<Dec>, Looks),
> {
    if price is None || price->0.units() <= 0 {
        Some((window, looks))
    } else {
        let next = windowed(window, price->0);
        match fall_of(next, price->0) {
            None => None,
            Some(fall) => Some(
                (
                    next,
                    Looks {
                        deepest: if fall.units() < looks.deepest.units() {
                            fall
                        } else {
                            looks.deepest
                        },
                        worst: if fall.units() < looks.deepest.units() {
                            Some(which)
                        } else {
                            looks.worst
                        },
                        recovered: looks.recovered && fall.units() >= opposite(lit(4, 1)).units(),
                    },
                ),
            ),
        }
    }
}

/// A price is the highest of some: one of them, and no lower than any.
pub open spec fn is_highest(top: Dec, prices: Seq<Dec>) -> bool {
    prices.contains(top) && forall|i: int| 0 <= i < prices.len() ==> (#[trigger] prices[i]).units()
        <= top.units()
}

/// The price that a fall is measured from is the highest of the window.
pub proof fn fall_is_from_highest(prices: Seq<Dec>, n: int)
    requires
        0 < n <= prices.len(),
    ensures
        is_highest(last_highest(prices, n), prices.take(n)),
    decreases n,
{
    let now = prices.take(n);
    if n == 1 {
        assert(now[0] == prices[0]);
    } else {
        fall_is_from_highest(prices, n - 1);
        let before = prices.take(n - 1);
        let top = last_highest(prices, n - 1);
        let k = choose|k: int| 0 <= k < before.len() && before[k] == top;
        assert(now[k] == top && now[n - 1] == prices[n - 1]);
        assert forall|i: int| 0 <= i < n implies (#[trigger] now[i]).units() <= last_highest(
            prices,
            n,
        ).units() by {
            if i < n - 1 {
                assert(before[i] == now[i]);
            }
        }
    }
}

/// By how much a fall from one price to another is more than so many tenths of a percent, in thousandths of
/// the price that it falls from.
pub open spec fn falls_beyond(from: int, to: int, tenths: int) -> int {
    1000 * (from - to) - tenths * from
}

/// How far rounding can carry that, times the precision.
pub open spec fn fall_blur(from: int) -> int {
    7000 * from + 4000 * precision()
}

/// A change in percent is below so many tenths where the price has fallen by that much, but for rounding.
proof fn lemma_fall(from: int, to: int, fall: int, tenths: int)
    requires
        0 < to <= from,
        amounts_to(true, to, from, fall),
        tenths == 4 || tenths == 12,
    ensures
        falls_beyond(from, to, tenths) * precision() > fall_blur(from) ==> 10 * fall < -tenths * unit(),
        10 * fall <= -tenths * unit() ==> falls_beyond(from, to, tenths) * precision() > -fall_blur(from),
        from == to ==> falls_beyond(from, to, tenths) <= 0,
{
    let ff = from * fall;
    if 10 * fall <= -tenths * unit() {
        let g = from - to;
        assert(precision() * (ff + whole() * g) >= -(4 * (whole() * g)) - precision() * (500 * from + 300
            * unit()));
        if tenths == 4 {
            assert(10 * ff <= -4 * (unit() * from)) by (nonlinear_arith)
                requires
                    ff == from * fall,
                    10 * fall <= -4 * unit(),
                    from > 0,
            ;
            assert(falls_beyond(from, to, 4) * precision() > -fall_blur(from));
        } else {
            assert(10 * ff <= -12 * (unit() * from)) by (nonlinear_arith)
                requires
                    ff == from * fall,
                    10 * fall <= -12 * unit(),
                    from > 0,
            ;
            assert(falls_beyond(from, to, 12) * precision() > -fall_blur(from));
        }
    }
    if 10 * fall >= -tenths * unit() {
        let g = from - to;
        assert(precision() * (ff + whole() * g) <= 4 * (whole() * g) + precision() * (500 * from + 300
            * unit()));
        if tenths == 4 {
            assert(10 * ff >= -4 * (unit() * from)) by (nonlinear_arith)
                requires
                    ff == from * fall,
                    10 * fall >= -4 * unit(),
                    from > 0,
            ;
            assert(falls_beyond(from, to, 4) * precision() <= fall_blur(from));
        } else {
            assert(10 * ff >= -12 * (unit() * from)) by (nonlinear_arith)
                requires
                    ff == from * fall,
                    10 * fall >= -12 * unit(),
                    from > 0,
            ;
            assert(falls_beyond(from, to, 12) * precision() <= fall_blur(from));
        }
    }
}

/// A look at a symbol with a price: the window ends with the price and holds the last ones before it, and the
/// fall is that of the price from the highest of the window. It counts where it is the deepest so far, and a
/// symbol that is down by more than four tenths of a percent has not recovered.
pub open spec fn sees_fall(
    window: Seq<Dec>,
    price: Dec,
    which: Major,
    looks: Looks,
    next: Seq<Dec>,
    l: Looks,
) -> bool {
    &&& next.len() == (if window.len() < 15 { window.len() + 1 } else { window.len() })
    &&& next.len() > 0 && next.last() == price
    &&& next.drop_last() == window.skip(window.len() + 1 - next.len())
    &&& exists|top: Dec, fall: Dec| #[trigger]
        is_highest(top, next) && #[trigger] amounts_to(true, price.units(), top.units(), fall.units()) && (if fall.units()
            < looks.deepest.units() {
            l.deepest == fall && l.worst == Some(which)
        } else {
            l.deepest == looks.deepest && l.worst == looks.worst
        }) && (l.recovered <==> looks.recovered && 10 * fall.units() >= -4 * unit())
}

fn look(window: &Vec<Dec>, price: Option<Dec>, which: Major, looks: Looks) -> (r: Option<
    (Vec<Dec>, Looks),
>)
    ensures
        match r {
            Some((w, l)) => looked(window@, price, which, looks) == Some((w@, l)),
            None => looked(window@, price, which, looks) is None,
        },
        match (r, price) {
            (Some((w, l)), Some(p)) => if p.units() > 0 {
                sees_fall(window@, p, which, looks, w@, l)
            } else {
                w@ == window@ && l == looks
            },
            (Some((w, l)), None) => w@ == window@ && l == looks,
            _ => true,
        },
{
    proof {
        lemma_lit_units(4, 1);
        lemma_opposite(lit(4, 1));
    }
    let mut next: Vec<Dec> = Vec::new();
    let mut i: usize = 0;
    while i < window.len()
        invariant
            i <= window.len(),
            next@ == window@.take(i as int),
        decreases window.len() - i,
    {
        next.push(window[i]);
        assert(window@.take(i + 1) =~= window@.take(i as int).push(window@[i as int]));
        i = i + 1;
    }
    assert(window@.take(i as int) =~= window@);
    let p = match price {
        Some(p) => if p.is_positive() { p } else { return Some((next, looks)) },
        None => return Some((next, looks)),
    };
    next.push(p);
    if next.len() > 15 {
        let ghost all = next@;
        let _oldest = next.remove(0);
        assert(next@ =~= all.drop_first());
    }
    assert(next@ == windowed(window@, p));
    let mut top = next[0];
    let mut k: usize = 1;
    while k < next.len()
        invariant
            1 <= k <= next.len(),
            top == last_highest(next@, k as int),
        decreases next.len() - k,
    {
        if !next[k].below(top) {
            top = next[k];
        }
        k = k + 1;
    }
    proof {
        fall_is_from_highest(next@, next@.len() as int);
        assert(next@.take(next@.len() as int) =~= next@);
        assert(next@.last() == p && next@[next@.len() - 1] == p);
        assert(next@.drop_last() =~= window@.skip(window@.len() + 1 - next@.len()));
        assert(is_highest(top, next@));
    }
    match gain_pct(true, p, top) {
        None => None,
        Some(fall) => {
            assert(amounts_to(true, p.units(), top.units(), fall.units()));
            let deeper = fall.below(looks.deepest);
            let calm = !fall.below(opposite(lit(4, 1)));
            Some(
                (
                    next,
                    Looks {
                        deepest: if deeper { fall } else { looks.deepest },
                        worst: if deeper { Some(which) } else { looks.worst },
                        recovered: looks.recovered && calm,
                    },
                ),
            )
        },
    }
}

/// The breaker: the last prices of the large symbols, and whether trading is paused.
pub struct CircuitBreaker {
    pub btc: Vec<Dec>,
    pub eth: Vec<Dec>,
    pub bnb: Vec<Dec>,
    pub panic_mode: bool,
}

/// What the breaker has to tell.
#[derive(Clone, Copy, Debug)]
pub enum Alarm {
    /// A figure is out of range.
    OutOfRange,
    /// Nothing.
    Quiet,
    /// Trading is to be paused: the symbol that fell the most, and by how much.
    Pause { worst: Option<Major>, fall: Dec },
    /// Trading is to go on.
    Resume,
}

/// What three looks in a row have shown.
pub open spec fn three_looks(
    btc: Seq<Dec>,
    eth: Seq<Dec>,
    bnb: Seq<Dec>,
    prices: (Option<Dec>, Option<Dec>, Option<Dec>),
) -> Option<(Seq<Dec>, Seq<Dec>, Seq<Dec>, Looks)> {
    let start = Looks { deepest: lit(0, 1), worst: None, recovered: true };
    match looked(btc, prices.0, Major::Btc, start) {
        None => None,
        Some((b, l1)) => match looked(eth, prices.1, Major::Eth, l1) {
            None => None,
            Some((e, l2)) => match looked(bnb, prices.2, Major::Bnb, l2) {
                None => None,
                Some((n, l3)) => Some((b, e, n, l3)),
            },
        },
    }
}

/// What the breaker does after the looks: it pauses at a fall of 1.2 percent, and ends the pause when no
/// symbol is down by more than 0.4 percent.
pub open spec fn alarm_of(paused: bool, looks: Looks) -> (bool, Alarm) {
    if looks.deepest.units() <= opposite(lit(12, 1)).units() {
        if paused {
            (true, Alarm::Quiet)
        } else {
            (true, Alarm::Pause { worst: looks.worst, fall: looks.deepest })
        }
    } else if looks.recovered && paused {
        (false, Alarm::Resume)
    } else {
        (paused, Alarm::Quiet)
    }
}

/// The breaker minds the falls of a symbol: trading is paused where its price has fallen by 1.2 percent or more from
/// any price of its window, and does not go on where it has fallen by more than 0.4 percent from any, but for
/// rounding.
pub open spec fn minds_falls(price: Option<Dec>, window: Seq<Dec>, paused: bool, alarm: Alarm) -> bool {
    price matches Some(p) ==> p.units() > 0 ==> forall|i: int|
        0 <= i < window.len() ==> {
            let q = (#[trigger] window[i]).units();
            &&& falls_beyond(q, p.units(), 12) * precision() > fall_blur(q) ==> paused
            &&& falls_beyond(q, p.units(), 4) * precision() > fall_blur(q) ==> !(alarm is Resume)
        }
}

/// What a look at a symbol, with a price or without, leads to.
proof fn lemma_looks(
    window: Seq<Dec>,
    price: Option<Dec>,
    which: Major,
    looks: Looks,
    next: Seq<Dec>,
    l: Looks,
)
    requires
        price matches Some(p) ==> if p.units() > 0 {
            sees_fall(window, p, which, looks, next, l)
        } else {
            next == window && l == looks
        },
        price is None ==> next == window && l == looks,
    ensures
        l.deepest.units() <= looks.deepest.units(),
        l.recovered ==> looks.recovered,
        price matches Some(p) ==> p.units() > 0 ==> forall|i: int|
            0 <= i < next.len() ==> {
                let q = (#[trigger] next[i]).units();
                &&& falls_beyond(q, p.units(), 12) * precision() > fall_blur(q) ==> 10 * l.deepest.units() < -12
                    * unit()
                &&& falls_beyond(q, p.units(), 4) * precision() > fall_blur(q) ==> !l.recovered
            },
{
    if let Some(p) = price {
        if p.units() > 0 {
            lemma_fall_counts(window, p, which, looks, next, l, 0);
            assert forall|i: int| 0 <= i < next.len() implies {
                let q = (#[trigger] next[i]).units();
                &&& falls_beyond(q, p.units(), 12) * precision() > fall_blur(q) ==> 10 * l.deepest.units() < -12
                    * unit()
                &&& falls_beyond(q, p.units(), 4) * precision() > fall_blur(q) ==> !l.recovered
            } by {
                lemma_fall_counts(window, p, which, looks, next, l, i);
            }
        }
    }
}

impl CircuitBreaker {
    /// A breaker that has not looked yet.
    pub fn new() -> (r: CircuitBreaker)
        ensures
            r.btc@ == Seq::<Dec>::empty(),
            r.eth@ == Seq::<Dec>::empty(),
            r.bnb@ == Seq::<Dec>::empty(),
            !r.panic_mode,
    {
        CircuitBreaker { btc: Vec::new(), eth: Vec::new(), bnb: Vec::new(), panic_mode: false }
    }

    /// Takes the prices of the large symbols, those that are on the list. Where a figure is out of range
    /// nothing changes.
    pub fn take_prices(
        &mut self,
        btc: Option<Dec>,
        eth: Option<Dec>,
        bnb: Option<Dec>,
    ) -> (r: Alarm)
        ensures
            match three_looks(old(self).btc@, old(self).eth@, old(self).bnb@, (btc, eth, bnb)) {
                None => r == Alarm::OutOfRange && final(self).btc == old(self).btc && final(self).eth
                    == old(self).eth && final(self).bnb == old(self).bnb && final(self).panic_mode
                    == old(self).panic_mode,
                Some((b, e, n, looks)) => final(self).btc@ == b && final(self).eth@ == e && final(
                    self).bnb@ == n && (final(self).panic_mode, r) == alarm_of(
                    old(self).panic_mode,
                    looks,
                ),
            },
            !(r is OutOfRange) ==> minds_falls(btc, final(self).btc@, final(self).panic_mode, r) && minds_falls(
                eth,
                final(self).eth@,
                final(self).panic_mode,
                r,
            ) && minds_falls(bnb, final(self).bnb@, final(self).panic_mode, r),
            r is Pause ==> !old(self).panic_mode && final(self).panic_mode,
            r is Resume ==> old(self).panic_mode && !final(self).panic_mode,
            r is Quiet || r is OutOfRange ==> final(self).panic_mode == old(self).panic_mode,
    {
        let start = Looks { deepest: lit(0, 1), worst: None, recovered: true };
        let (b, l1) = match look(&self.btc, btc, Major::Btc, start) {
            Some(x) => x,
            None => return Alarm::OutOfRange,
        };
        let (e, l2) = match look(&self.eth, eth, Major::Eth, l1) {
            Some(x) => x,
            None => return Alarm::OutOfRange,
        };
        let (n, looks) = match look(&self.bnb, bnb, Major::Bnb, l2) {
            Some(x) => x,
            None => return Alarm::OutOfRange,
        };
        proof {
            lemma_lit_units(12, 1);
            lemma_opposite(lit(12, 1));
            lemma_looks(self.btc@, btc, Major::Btc, start, b@, l1);
            lemma_looks(self.eth@, eth, Major::Eth, l1, e@, l2);
            lemma_looks(self.bnb@, bnb, Major::Bnb, l2, n@, looks);
        }
        self.btc = b;
        self.eth = e;
        self.bnb = n;
        if !looks.deepest.above(opposite(lit(12, 1))) {
            if self.panic_mode {
                Alarm::Quiet
            } else {
                self.panic_mode = true;
                Alarm::Pause { worst: looks.worst, fall: looks.deepest }
            }
        } else if looks.recovered && self.panic_mode {
            self.panic_mode = false;
            Alarm::Resume
        } else {
            Alarm::Quiet
        }
    }
}

/// The breaker does not flutter: it pauses only at a fall of 1.2 percent or more and only once, it goes
/// on only where no symbol is down by more than 0.4 percent, and between the two it stays as it is.
pub proof fn breaker_holds(paused: bool, looks: Looks)
    ensures
        ({
            let (next, alarm) = alarm_of(paused, looks);
            &&& alarm is Pause ==> !paused && next && looks.deepest.units() <= opposite(
                lit(12, 1),
            ).units()
            &&& alarm is Resume ==> paused && !next && looks.recovered && looks.deepest.units()
                > opposite(lit(12, 1)).units()
            &&& next != paused ==> alarm is Pause || alarm is Resume
            &&& !looks.recovered && paused ==> next
        }),
{
}

/// The alarm, said outright: a pause starts where the deepest fall is 1.2 percent or more, and it ends where it
/// is less and all have recovered; nothing else changes it or is told.
pub proof fn alarm_is_exact(paused: bool, looks: Looks)
    ensures
        ({
            let (next, alarm) = alarm_of(paused, looks);
            let falling = 10 * looks.deepest.units() <= -12 * unit();
            &&& falling ==> next
            &&& falling && !paused ==> alarm == (Alarm::Pause { worst: looks.worst, fall: looks.deepest })
            &&& falling && paused ==> alarm is Quiet
            &&& !falling && paused && looks.recovered ==> !next && alarm is Resume
            &&& !falling && !(paused && looks.recovered) ==> next == paused && alarm is Quiet
        }),
{
    lemma_lit_units(12, 1);
    lemma_opposite(lit(12, 1));
}

/// A look at a symbol with a price sees its fall from the highest price of the window.
pub proof fn look_sees_fall(window: Seq<Dec>, price: Dec, which: Major, looks: Looks, next: Seq<Dec>, l: Looks)
    requires
        arithmetic(),
        price.wf(),
        price.units() > 0,
        forall|i: int| 0 <= i < window.len() ==> (#[trigger] window[i]).wf(),
        looked(window, Some(price), which, looks) == Some((next, l)),
    ensures
        sees_fall(window, price, which, looks, next, l),
        forall|i: int| 0 <= i < next.len() ==> (#[trigger] next[i]).wf(),
{
    lemma_lit_units(4, 1);
    lemma_opposite(lit(4, 1));
    let all = window.push(price);
    assert(next == windowed(window, price));
    assert(next.len() > 0 && next.last() == price);
    assert(next[next.len() - 1] == price);
    assert(next.drop_last() =~= window.skip(window.len() + 1 - next.len()));
    assert forall|i: int| 0 <= i < next.len() implies (#[trigger] next[i]).wf() by {
        if all.len() > 15 {
            assert(next[i] == all[i + 1]);
        } else {
            assert(next[i] == all[i]);
        }
    }
    let top = last_highest(next, next.len() as int);
    fall_is_from_highest(next, next.len() as int);
    assert(next.take(next.len() as int) =~= next);
    let k = choose|k: int| 0 <= k < next.len() && next[k] == top;
    assert(top.wf() && top.units() >= price.units());
    let fall = gain_pct(true, price, top)->0;
    gains_are_percentages(true, price, top, fall);
    assert(is_highest(top, next) && amounts_to(true, price.units(), top.units(), fall.units()));
}

/// What the breaker does after a look at one symbol, with the other two out of sight: it pauses where the price
/// has fallen by 1.2 percent or more from any price of the window, wherever in the window that price is, and
/// only where it has; and it does not go on where it is down by more than 0.4 percent from any of them. Where
/// the price is the highest of the window there is no fall.
pub proof fn fall_pauses(
    window: Seq<Dec>,
    price: Dec,
    which: Major,
    looks: Looks,
    next: Seq<Dec>,
    l: Looks,
    i: int,
    paused: bool,
)
    requires
        arithmetic(),
        price.wf(),
        price.units() > 0,
        forall|j: int| 0 <= j < window.len() ==> (#[trigger] window[j]).wf(),
        looked(window, Some(price), which, looks) == Some((next, l)),
        0 <= i < next.len(),
    ensures
        falls_beyond(next[i].units(), price.units(), 12) * precision() > fall_blur(next[i].units())
            ==> alarm_of(paused, l).0 && (!paused ==> alarm_of(paused, l).1 is Pause),
        falls_beyond(next[i].units(), price.units(), 4) * precision() > fall_blur(next[i].units())
            ==> !(alarm_of(paused, l).1 is Resume),
        l.deepest.units() <= looks.deepest.units(),
        looks.deepest.units() == 0 && alarm_of(paused, l).1 is Pause ==> exists|j: int|
            0 <= j < next.len() && falls_beyond((#[trigger] next[j]).units(), price.units(), 12) * precision()
                > -fall_blur(next[j].units()),
{
    look_sees_fall(window, price, which, looks, next, l);
    lemma_fall_counts(window, price, which, looks, next, l, i);
    alarm_is_exact(paused, l);
}

/// What a look that has seen a fall leads to.
proof fn lemma_fall_counts(
    window: Seq<Dec>,
    price: Dec,
    which: Major,
    looks: Looks,
    next: Seq<Dec>,
    l: Looks,
    i: int,
)
    requires
        price.units() > 0,
        sees_fall(window, price, which, looks, next, l),
        0 <= i < next.len(),
    ensures
        falls_beyond(next[i].units(), price.units(), 12) * precision() > fall_blur(next[i].units()) ==> 10
            * l.deepest.units() < -12 * unit(),
        falls_beyond(next[i].units(), price.units(), 4) * precision() > fall_blur(next[i].units())
            ==> !l.recovered,
        l.deepest.units() <= looks.deepest.units(),
        l.recovered ==> looks.recovered,
        l.deepest != looks.deepest && 10 * l.deepest.units() <= -12 * unit() ==> exists|j: int|
            0 <= j < next.len() && falls_beyond((#[trigger] next[j]).units(), price.units(), 12) * precision()
                > -fall_blur(next[j].units()),
{
    let (top, fall) = choose|top: Dec, fall: Dec| #[trigger]
        is_highest(top, next) && #[trigger] amounts_to(true, price.units(), top.units(), fall.units()) && (if fall.units()
            < looks.deepest.units() {
            l.deepest == fall && l.worst == Some(which)
        } else {
            l.deepest == looks.deepest && l.worst == looks.worst
        }) && (l.recovered <==> looks.recovered && 10 * fall.units() >= -4 * unit());
    assert(next[next.len() - 1] == price);
    lemma_fall(top.units(), price.units(), fall.units(), 12);
    lemma_fall(top.units(), price.units(), fall.units(), 4);
    let k = choose|k: int| 0 <= k < next.len() && next[k] == top;
    let (q, t, p) = (next[i].units(), top.units(), price.units());
    assert(q <= t);
    assert(falls_beyond(t, p, 12) * precision() - fall_blur(t) >= falls_beyond(q, p, 12) * precision()
        - fall_blur(q));
    assert(falls_beyond(t, p, 4) * precision() - fall_blur(t) >= falls_beyond(q, p, 4) * precision()
        - fall_blur(q));
    assert(next[k].units() == t);
}

/// A look takes nothing back: what the looks before it have shown stays, and so three looks in a row, at BTC,
/// ETH and BNB, show the deepest of the three falls and have recovered only where all three have.
pub proof fn looks_add_up(
    windows: (Seq<Dec>, Seq<Dec>, Seq<Dec>),
    prices: (Option<Dec>, Option<Dec>, Option<Dec>),
    next: (Seq<Dec>, Seq<Dec>, Seq<Dec>),
    looks: Looks,
)
    requires
        three_looks(windows.0, windows.1, windows.2, prices) == Some((next.0, next.1, next.2, looks)),
    ensures
        ({
            let none = Looks { deepest: lit(0, 1), worst: None, recovered: true };
            let b = looked(windows.0, prices.0, Major::Btc, none);
            let e = looked(windows.1, prices.1, Major::Eth, none);
            let n = looked(windows.2, prices.2, Major::Bnb, none);
            &&& b matches Some((w, l)) && w == next.0 && looks.deepest.units() <= l.deepest.units() && (
            looks.recovered ==> l.recovered)
            &&& e matches Some((w, l)) && w == next.1 && looks.deepest.units() <= l.deepest.units() && (
            looks.recovered ==> l.recovered)
            &&& n matches Some((w, l)) && w == next.2 && looks.deepest.units() <= l.deepest.units() && (
            looks.recovered ==> l.recovered)
            &&& ({
                let (_, lb) = b->0;
                let (_, le) = e->0;
                let (_, ln) = n->0;
                &&& looks.recovered <==> lb.recovered && le.recovered && ln.recovered
                &&& looks.deepest == lb.deepest || looks.deepest == le.deepest || looks.deepest == ln.deepest
                &&& looks.worst == Some(Major::Btc) ==> looks.deepest == lb.deepest
                &&& looks.worst == Some(Major::Eth) ==> looks.deepest == le.deepest
                &&& looks.worst == Some(Major::Bnb) ==> looks.deepest == ln.deepest
                &&& looks.deepest.units() < 0 ==> looks.worst is Some
            })
        }),
{
    lemma_lit_units(0, 1);
}

/// The windows hold fifteen prices at most, the newest last.
pub proof fn window_is_short(window: Seq<Dec>, price: Dec)
    requires
        window.len() <= 15,
    ensures
        windowed(window, price).len() <= 15,
        windowed(window, price).last() == price,
{
}

/// A symbol of the exchange's list: its change in percent and its turnover, as bits.
pub struct Ticker {
    pub sym: String,
    pub change: u64,
    pub volume: u64,
}

/// Whether a symbol is one of the large ones.
pub open spec fn is_core(s: Seq<char>) -> bool {
    s == "BTCUSDT"@ || s == "ETHUSDT"@ || s == "BNBUSDT"@
}

/// Whether a symbol is taken on: a coin against USDT, up by more than fifteen percent on a turnover of
/// more than fifty million, that is not on the list.
pub open spec fn takes_on(t: Ticker, listed: Seq<Seq<char>>) -> bool {
    coin_usdt(t.sym@) && below(0x402e_0000_0000_0000, t.change) && below(
        0x4187_d784_0000_0000,
        t.volume,
    ) && !listed.contains(t.sym@)
}

/// Whether a symbol is dropped: a coin against USDT on the list, down by more than five percent, that is
/// neither a large one nor held.
pub open spec fn drops(t: Ticker, listed: Seq<Seq<char>>, held: Seq<Seq<char>>) -> bool {
    coin_usdt(t.sym@) && below(t.change, 0xc014_0000_0000_0000) && listed.contains(t.sym@)
        && !is_core(t.sym@) && !held.contains(t.sym@)
}

fn is_among(v: &Vec<String>, s: &str) -> (r: bool)
    ensures
        r == texts(v@).contains(s@),
{
    let mut i: usize = 0;
    while i < v.len()
        invariant
            i <= v.len(),
            forall|k: int| 0 <= k < i ==> (#[trigger] v@[k])@ != s@,
        decreases v.len() - i,
    {
        if same(v[i].as_str(), s) {
            assert(texts(v@)[i as int] == s@);
            return true;
        }
        i = i + 1;
    }
    assert(!texts(v@).contains(s@)) by {
        if texts(v@).contains(s@) {
            let k = choose|k: int| 0 <= k < texts(v@).len() && texts(v@)[k] == s@;
            assert(v@[k]@ == s@);
        }
    }
    false
}

/// The places of the first `n` symbols that are taken on.
pub open spec fn taken_on(t: Seq<Ticker>, listed: Seq<Seq<char>>, n: int) -> Seq<usize>
    decreases n,
{
    if n <= 0 {
        Seq::empty()
    } else if takes_on(t[n - 1], listed) {
        taken_on(t, listed, n - 1).push((n - 1) as usize)
    } else {
        taken_on(t, listed, n - 1)
    }
}

/// The places of the first `n` symbols that are dropped.
pub open spec fn dropped(t: Seq<Ticker>, listed: Seq<Seq<char>>, held: Seq<Seq<char>>, n: int) -> Seq<
    usize,
>
    decreases n,
{
    if n <= 0 {
        Seq::empty()
    } else if drops(t[n - 1], listed, held) {
        dropped(t, listed, held, n - 1).push((n - 1) as usize)
    } else {
        dropped(t, listed, held, n - 1)
    }
}

/// Chooses the symbols that are taken on and those that are dropped, by their places in the exchange's
/// list.
pub fn rotate(tickers: &Vec<Ticker>, subscribed: &Vec<String>, held: &Vec<String>) -> (r: (
    Vec<usize>,
    Vec<usize>,
))
    ensures
        r.0@ == taken_on(tickers@, texts(subscribed@), tickers@.len() as int),
        r.1@ == dropped(tickers@, texts(subscribed@), texts(held@), tickers@.len() as int),
{
    let mut add: Vec<usize> = Vec::new();
    let mut gone: Vec<usize> = Vec::new();
    let mut n: usize = 0;
    while n < tickers.len()
        invariant
            n <= tickers.len(),
            add@ == taken_on(tickers@, texts(subscribed@), n as int),
            gone@ == dropped(tickers@, texts(subscribed@), texts(held@), n as int),
        decreases tickers.len() - n,
    {
        let t = &tickers[n];
        let s = t.sym.as_str();
        if is_coin_usdt(s) {
            let on_list = is_among(subscribed, s);
            if below(0x402e_0000_0000_0000, t.change) && below(0x4187_d784_0000_0000, t.volume)
                && !on_list {
                add.push(n);
            }
            let core = same(s, "BTCUSDT") || same(s, "ETHUSDT") || same(s, "BNBUSDT");
            if below(t.change, 0xc014_0000_0000_0000) && on_list && !core && !is_among(held, s) {
                gone.push(n);
            }
        }
        n = n + 1;
    }
    (add, gone)
}

/// A rotation drops no large symbol and none with a position, and takes on none that is on the list; no
/// symbol is both taken on and dropped.
pub proof fn rotation_is_safe(t: Ticker, listed: Seq<Seq<char>>, held: Seq<Seq<char>>)
    ensures
        drops(t, listed, held) ==> !is_core(t.sym@) && !held.contains(t.sym@) && listed.contains(
            t.sym@,
        ),
        takes_on(t, listed) ==> !listed.contains(t.sym@),
        !(takes_on(t, listed) && drops(t, listed, held)),
{
}

/// The places of the first `n` symbols that trade against USDT without an expiry.
pub open spec fn plain_places(t: Seq<Ticker>, n: int) -> Seq<usize>
    decreases n,
{
    if n <= 0 {
        Seq::empty()
    } else if plain_usdt(t[n - 1].sym@) {
        plain_places(t, n - 1).push((n - 1) as usize)
    } else {
        plain_places(t, n - 1)
    }
}

/// The symbols with the largest turnover among those that trade against USDT, the largest first: so many
/// of them, by their places in the exchange's list.
pub open spec fn are_top(r: Seq<usize>, t: Seq<Ticker>, limit: int) -> bool {
    let kept = plain_places(t, t.len() as int);
    let volumes = kept.map_values(|i: usize| place_or_zero(t[i as int].volume));
    exists|order: Seq<usize>| #[trigger]
        is_order(order, volumes, true) && r == order.map_values(|k: usize| kept[k as int]).take(
            if limit < kept.len() { limit } else { kept.len() as int },
        )
}

/// The symbols with the largest turnover among those that trade against USDT.
pub fn top_symbols(tickers: &Vec<Ticker>, limit: usize) -> (r: Vec<usize>)
    ensures
        are_top(r@, tickers@, limit as int),
{
    let mut kept: Vec<usize> = Vec::new();
    let mut keys: Vec<i64> = Vec::new();
    let mut n: usize = 0;
    while n < tickers.len()
        invariant
            n <= tickers.len(),
            kept@ == plain_places(tickers@, n as int),
            keys@.len() == kept@.len(),
            forall|k: int| 0 <= k < kept@.len() ==> #[trigger] kept@[k] < n,
            forall|k: int|
                0 <= k < keys@.len() ==> #[trigger] keys@[k] == place_or_zero(
                    tickers@[kept@[k] as int].volume,
                ),
        decreases tickers.len() - n,
    {
        if is_plain_usdt(tickers[n].sym.as_str()) {
            kept.push(n);
            let key: i64 = match crate::bits::double_place(tickers[n].volume) {
                Some(k) => k,
                None => 0,
            };
            keys.push(key);
        }
        n = n + 1;
    }
    let order = sort_places(&keys, true);
    let ghost volumes = kept@.map_values(|i: usize| place_or_zero(tickers@[i as int].volume));
    assert(ranks(keys@) =~= volumes);
    let count: usize = if limit < kept.len() { limit } else { kept.len() };
    let mut out: Vec<usize> = Vec::new();
    let mut k: usize = 0;
    while k < count
        invariant
            k <= count <= order@.len(),
            order@.len() == kept@.len(),
            forall|j: int| 0 <= j < order@.len() ==> #[trigger] order@[j] < kept@.len(),
            out@.len() == k,
            forall|j: int| 0 <= j < k ==> #[trigger] out@[j] == kept@[order@[j] as int],
        decreases count - k,
    {
        out.push(kept[order[k]]);
        k = k + 1;
    }
    assert(out@ =~= order@.map_values(|j: usize| kept@[j as int]).take(count as int));
    assert(is_order(order@, volumes, true));
    out
}

/// The symbols to start with where the exchange's list cannot be read.
pub fn fallback_symbols() -> (r: Vec<String>)
    ensures
        texts(r@) == seq!["BTCUSDT"@, "ETHUSDT"@, "BNBUSDT"@, "DOGEUSDT"@],
{
    let mut v: Vec<String> = Vec::new();
    v.push("BTCUSDT".to_string());
    v.push("ETHUSDT".to_string());
    v.push("BNBUSDT".to_string());
    v.push("DOGEUSDT".to_string());
    assert(texts(v@) =~= seq!["BTCUSDT"@, "ETHUSDT"@, "BNBUSDT"@, "DOGEUSDT"@]);
    v
}

/// A position as the exchange reports it, to set the strategy's own right.
pub struct Report {
    pub symbol: String,
    pub amt: Dec,
    pub entry: Dec,
}

/// What an entry of the exchange's list of positions reports.
pub open spec fn report_of(item: JsonView) -> (Seq<char>, Dec, Dec) {
    (
        text_or(item.text_field("symbol"@), ""@),
        or_else(item.dec_field("positionAmt"@), zero()),
        or_else(item.dec_field("entryPrice"@), zero()),
    )
}

/// What the exchange's list of positions reports of each symbol, open or not.
pub fn position_reports(positions: &str) -> (r: Vec<Report>)
    ensures
        r@.map_values(|p: Report| (p.symbol@, p.amt, p.entry)) == items_of_text(
            positions@,
        ).map_values(|j: JsonView| report_of(j)),
{
    let items = parse_items(positions);
    let ghost all = items_of_text(positions@);
    let mut out: Vec<Report> = Vec::new();
    let mut n: usize = 0;
    while n < items.len()
        invariant
            n <= items.len(),
            all == views(items@),
            out@.len() == n,
            forall|k: int|
                0 <= k < n ==> ((#[trigger] out@[k]).symbol@, out@[k].amt, out@[k].entry)
                    == report_of(all[k]),
        decreases items.len() - n,
    {
        assert(all[n as int] == items@[n as int]@);
        let symbol = match items[n].text_field("symbol") {
            Some(s) => s,
            None => "",
        };
        out.push(
            Report {
                symbol: symbol.to_string(),
                amt: or_else(items[n].dec_field("positionAmt"), zero()),
                entry: or_else(items[n].dec_field("entryPrice"), zero()),
            },
        );
        n = n + 1;
    }
    assert(out@.map_values(|p: Report| (p.symbol@, p.amt, p.entry)) =~= all.map_values(
        |j: JsonView| report_of(j),
    ));
    out
}

/// The mood of the whole market: how many symbols went up and down, the changes weighted by turnover,
/// and the turnover.
#[derive(Clone, Copy, Debug)]
pub struct Mood {
    pub up: u64,
    pub down: u64,
    pub weighted: Dec,
    pub volume: Dec,
    pub valid: u64,
}

/// What the mood is called.
#[derive(Clone, Copy, Debug, PartialEq, Eq, Structural)]
pub enum Sentiment {
    Frenzy,
    Optimistic,
    Panic,
    Pessimistic,
    Mixed,
}

/// The mood with a symbol added, that went from one price to another on a turnover.
pub open spec fn mood_with(m: Mood, price: Dec, last: Dec, volume: Dec) -> Option<Mood> {
    if last.units() <= 0 {
        Some(m)
    } else {
        match gain_pct(true, price, last) {
            None => None,
            Some(pct) => match (
                sum(Some(m.weighted), product(Some(pct), Some(volume))),
                sum(Some(m.volume), Some(volume)),
            ) {
                (Some(weighted), Some(total)) => Some(
                    Mood {
                        up: if pct.units() > 0 { (m.up + 1) as u64 } else { m.up },
                        down: if pct.units() < 0 { (m.down + 1) as u64 } else { m.down },
                        weighted,
                        volume: total,
                        valid: (m.valid + 1) as u64,
                    },
                ),
                _ => None,
            },
        }
    }
}

impl Mood {
    /// No symbol yet.
    pub fn new() -> (r: Mood)
        ensures
            r == (Mood { up: 0, down: 0, weighted: zero(), volume: zero(), valid: 0 }),
    {
        Mood { up: 0, down: 0, weighted: zero(), volume: zero(), valid: 0 }
    }

    /// The counts fit together and leave room for another symbol.
    pub open spec fn wf(self) -> bool {
        self.up <= self.valid && self.down <= self.valid && self.valid < u64::MAX
    }

    /// Adds a symbol. Nothing where a figure is out of range.
    pub fn add_symbol(self, price: Dec, last: Dec, volume: Dec) -> (r: Option<Mood>)
        requires
            self.wf(),
        ensures
            r == mood_with(self, price, last, volume),
            r matches Some(m) ==> last.units() > 0 ==> rounded(
                Some(m.volume),
                self.volume.units() + volume.units(),
                1,
            ) && m.valid == self.valid + 1 && m.up - self.up + m.down - self.down <= 1,
            r matches Some(m) ==> m.up <= m.valid && m.down <= m.valid && m.valid <= self.valid + 1,
    {
        if !last.is_positive() {
            return Some(self);
        }
        let pct = match gain_pct(true, price, last) {
            Some(d) => d,
            None => return None,
        };
        let weighted = match sum(Some(self.weighted), product(Some(pct), Some(volume))) {
            Some(d) => d,
            None => return None,
        };
        let total = match sum(Some(self.volume), Some(volume)) {
            Some(d) => d,
            None => return None,
        };
        Some(
            Mood {
                up: if pct.is_positive() { self.up + 1 } else { self.up },
                down: if pct.is_negative() { self.down + 1 } else { self.down },
                weighted,
                volume: total,
                valid: self.valid + 1,
            },
        )
    }

    /// What the mood is called, and the change of the market that it rests on. Nothing where no symbol
    /// was counted or the turnover is not above zero.
    pub open spec fn named(self) -> Option<(Sentiment, Dec)> {
        if self.valid == 0 || self.volume.units() <= 0 {
            None
        } else {
            match quotient(Some(self.weighted), Some(self.volume)) {
                None => None,
                Some(avg) => Some(
                    (
                        if avg.units() > lit(2, 1).units() {
                            Sentiment::Frenzy
                        } else if avg.units() > lit(5, 2).units() && self.up > self.down {
                            Sentiment::Optimistic
                        } else if avg.units() < opposite(lit(2, 1)).units() {
                            Sentiment::Panic
                        } else if avg.units() < opposite(lit(5, 2)).units() && self.down > self.up {
                            Sentiment::Pessimistic
                        } else {
                            Sentiment::Mixed
                        },
                        avg,
                    ),
                ),
            }
        }
    }

    /// What the mood is called, and the change of the market that it rests on.
    pub fn sentiment(&self) -> (r: Option<(Sentiment, Dec)>)
        ensures
            r == self.named(),
            r matches Some((name, avg)) ==> rounded(Some(avg), self.weighted.units() * unit(), self.volume.units())
                && (name == Sentiment::Frenzy <==> 10 * avg.units() > 2 * unit()) && (name == Sentiment::Panic <==> 10
                * avg.units() < -2 * unit()),
    {
        proof {
            lemma_lit_units(2, 1);
            lemma_lit_units(5, 2);
            lemma_opposite(lit(2, 1));
            lemma_opposite(lit(5, 2));
        }
        if self.valid == 0 || !self.volume.is_positive() {
            return None;
        }
        let avg = match quotient(Some(self.weighted), Some(self.volume)) {
            Some(d) => d,
            None => return None,
        };
        let name = if avg.above(lit(2, 1)) {
            Sentiment::Frenzy
        } else if avg.above(lit(5, 2)) && self.up > self.down {
            Sentiment::Optimistic
        } else if avg.below(opposite(lit(2, 1))) {
            Sentiment::Panic
        } else if avg.below(opposite(lit(5, 2))) && self.down > self.up {
            Sentiment::Pessimistic
        } else {
            Sentiment::Mixed
        };
        Some((name, avg))
    }
}

/// A figure of a stored position: a text, or a number as it was written.
pub open spec fn stored_figure(j: JsonView, key: Seq<char>) -> Option<Dec> {
    match j.field(key) {
        Some(JsonView::Text(s)) => dec_of_text(s),
        Some(JsonView::Number { text, .. }) => dec_of_text(text),
        _ => dec_of_text("0"@),
    }
}

/// A figure of a stored position.
pub fn read_stored(j: &Json, key: &str) -> (r: Option<Dec>)
    ensures
        r == stored_figure(j@, key@),
{
    match j.field(key) {
        Some(Json::Text(s)) => parse_dec(s.as_str()),
        Some(Json::Number { text, .. }) => parse_dec(text.as_str()),
        _ => parse_dec("0"),
    }
}

/// A position in the market report: its open profit, its value, and the price at which it is expected to
/// be closed.
#[derive(Clone, Copy, Debug)]
pub struct PositionLine {
    pub unrealized: Dec,
    pub value: Dec,
    pub stop: Dec,
}

/// The price at which a position is expected to be closed: 0.8 percent behind its best price from a gain
/// of 1.5 percent on, 0.15 percent in profit from one percent on, before that 2.4 percent in loss.
pub open spec fn expected_stop(long: bool, entry: Dec, best: Dec) -> Option<Dec> {
    match gain_pct(long, best, entry) {
        None => None,
        Some(gain) => if gain.units() >= lit(15, 1).units() {
            product(
                Some(best),
                if long {
                    difference(Some(lit(1, 0)), Some(lit(8, 3)))
                } else {
                    sum(Some(lit(1, 0)), Some(lit(8, 3)))
                },
            )
        } else if gain.units() >= lit(10, 1).units() {
            let part = quotient(Some(lit(15, 2)), Some(lit(100, 0)));
            product(
                Some(entry),
                if long {
                    sum(Some(lit(1, 0)), part)
                } else {
                    difference(Some(lit(1, 0)), part)
                },
            )
        } else {
            product(
                Some(entry),
                if long {
                    difference(Some(lit(1, 0)), Some(lit(24, 3)))
                } else {
                    sum(Some(lit(1, 0)), Some(lit(24, 3)))
                },
            )
        },
    }
}

/// A position in the market report, by its size, its entry price, its best price and the best prices of
/// the book. Nothing where a figure is out of range.
pub fn position_line(amt: Dec, entry: Dec, best: Dec, bid: Dec, ask: Dec) -> (r: Option<PositionLine>)
    ensures
        ({
            let long = amt.units() > 0;
            let price = if long { bid } else { ask };
            let unrealized = product(difference(Some(price), Some(entry)), Some(amt));
            let value = product(Some(absolute(amt)), Some(price));
            let stop = expected_stop(long, entry, best);
            r == if unrealized is Some && value is Some && stop is Some {
                Some(
                    PositionLine { unrealized: unrealized->0, value: value->0, stop: stop->0 },
                )
            } else {
                None
            }
        }),
        r matches Some(l) ==> {
            let price = if amt.units() > 0 { bid.units() } else { ask.units() };
            let won = if amt.units() > 0 { price - entry.units() } else { entry.units() - price };
            &&& won >= 0 ==> l.unrealized.units() >= 0
            &&& won <= 0 ==> l.unrealized.units() <= 0
            &&& rounded(Some(l.value), distance(amt.units()) * price, unit())
        },
{
    proof {
        lemma_absolute(amt);
    }
    let long = amt.is_positive();
    let price = if long { bid } else { ask };
    let moved = difference(Some(price), Some(entry));
    let unrealized = product(moved, Some(amt));
    proof {
        if unrealized is Some {
            lemma_won(price.units() - entry.units(), moved->0, amt.units(), unrealized->0);
        }
    }
    let value = product(Some(absolute(amt)), Some(price));
    let stop = match gain_pct(long, best, entry) {
        None => None,
        Some(gain) => if !gain.below(lit(15, 1)) {
            let factor = if long {
                difference(Some(lit(1, 0)), Some(lit(8, 3)))
            } else {
                sum(Some(lit(1, 0)), Some(lit(8, 3)))
            };
            product(Some(best), factor)
        } else if !gain.below(lit(10, 1)) {
            let part = quotient(Some(lit(15, 2)), Some(lit(100, 0)));
            let factor = if long {
                sum(Some(lit(1, 0)), part)
            } else {
                difference(Some(lit(1, 0)), part)
            };
            product(Some(entry), factor)
        } else {
            let factor = if long {
                difference(Some(lit(1, 0)), Some(lit(24, 3)))
            } else {
                sum(Some(lit(1, 0)), Some(lit(24, 3)))
            };
            product(Some(entry), factor)
        },
    };
    match (unrealized, value, stop) {
        (Some(unrealized), Some(value), Some(stop)) => Some(
            PositionLine { unrealized, value, stop },
        ),
        _ => None,
    }
}

/// A move of the price times a size has the sign of the two.
proof fn lemma_won(to: int, moved: Dec, amt: int, won: Dec)
    requires
        rounded(Some(moved), to, 1),
        rounded(Some(won), moved.units() * amt, unit()),
    ensures
        to >= 0 && amt >= 0 || to <= 0 && amt <= 0 ==> won.units() >= 0,
        to >= 0 && amt <= 0 || to <= 0 && amt >= 0 ==> won.units() <= 0,
{
    let m = moved.units();
    let x = m * amt;
    lemma_rounded_sign(moved, to, 1);
    lemma_rounded_sign(won, x, unit());
    assert(m >= 0 && amt >= 0 || m <= 0 && amt <= 0 ==> x >= 0) by (nonlinear_arith)
        requires
            x == m * amt,
    ;
    assert(m >= 0 && amt <= 0 || m <= 0 && amt >= 0 ==> x <= 0) by (nonlinear_arith)
        requires
            x == m * amt,
    ;
}

/// The whole seconds until the next midnight, eight hours ahead of Greenwich, from a moment in seconds
/// and whether part of another second has passed.
pub fn seconds_to_midnight(now: u64, part: bool) -> (r: u64)
    requires
        now <= 0xff_ffff_ffff,
    ensures
        r == midnight_before(now as int) + 86400 - now - (if part { 1int } else { 0int }),
        r <= 86400,
{
    let passed: u64 = (now + 28800) % 86400;
    assert(midnight_before(now as int) == now - passed);
    if part { 86400 - passed - 1 } else { 86400 - passed }
}

/// A rotation takes on exactly the coins against USDT that are up by more than fifteen percent on a turnover of
/// more than fifty million and not on the list, and drops exactly those on the list that are down by more than
/// five percent, not held and not one of the three large ones; both in the order of the exchange's list.
pub proof fn rotation_is_complete(
    t: Seq<Ticker>,
    listed: Seq<Seq<char>>,
    held: Seq<Seq<char>>,
    n: int,
)
    requires
        0 <= n <= t.len() <= usize::MAX,
    ensures
        forall|i: int|
            0 <= i < n ==> (taken_on(t, listed, n).contains(i as usize) <==> plain_usdt((#[trigger] t[i]).sym@)
                && !starts(t[i].sym@, "XAU"@) && !starts(t[i].sym@, "XAG"@) && below(
                0x402e_0000_0000_0000,
                t[i].change,
            ) && below(0x4187_d784_0000_0000, t[i].volume) && !listed.contains(t[i].sym@)),
        forall|i: int|
            0 <= i < n ==> (dropped(t, listed, held, n).contains(i as usize) <==> plain_usdt(
                (#[trigger] t[i]).sym@,
            ) && !starts(t[i].sym@, "XAU"@) && !starts(t[i].sym@, "XAG"@) && below(
                t[i].change,
                0xc014_0000_0000_0000,
            ) && listed.contains(t[i].sym@) && t[i].sym@ != "BTCUSDT"@ && t[i].sym@ != "ETHUSDT"@ && t[i].sym@
                != "BNBUSDT"@ && !held.contains(t[i].sym@)),
        forall|k: int| 0 <= k < taken_on(t, listed, n).len() ==> #[trigger] taken_on(t, listed, n)[k] < n,
        forall|k: int|
            0 <= k < dropped(t, listed, held, n).len() ==> #[trigger] dropped(t, listed, held, n)[k] < n,
    decreases n,
{
    if n > 0 {
        rotation_is_complete(t, listed, held, n - 1);
        let (a, b) = (taken_on(t, listed, n - 1), taken_on(t, listed, n));
        let (c, d) = (dropped(t, listed, held, n - 1), dropped(t, listed, held, n));
        let last = (n - 1) as usize;
        assert(takes_on(t[n - 1], listed) ==> b[a.len() as int] == last);
        assert(drops(t[n - 1], listed, held) ==> d[c.len() as int] == last);
        assert forall|i: int| 0 <= i < n implies (b.contains(i as usize) <==> takes_on(#[trigger] t[i], listed)) by {
            if i < n - 1 {
                if a.contains(i as usize) {
                    let k = choose|k: int| 0 <= k < a.len() && a[k] == i as usize;
                    assert(b[k] == i as usize);
                }
                if b.contains(i as usize) {
                    let k = choose|k: int| 0 <= k < b.len() && b[k] == i as usize;
                    assert(k < a.len());
                    assert(a[k] == i as usize);
                }
            } else if b.contains(last) && !takes_on(t[n - 1], listed) {
                let k = choose|k: int| 0 <= k < b.len() && b[k] == last;
                assert(a[k] < n - 1);
            }
        }
        assert forall|i: int| 0 <= i < n implies (d.contains(i as usize) <==> drops(#[trigger] t[i], listed, held)) by {
            if i < n - 1 {
                if c.contains(i as usize) {
                    let k = choose|k: int| 0 <= k < c.len() && c[k] == i as usize;
                    assert(d[k] == i as usize);
                }
                if d.contains(i as usize) {
                    let k = choose|k: int| 0 <= k < d.len() && d[k] == i as usize;
                    assert(k < c.len());
                    assert(c[k] == i as usize);
                }
            } else if d.contains(last) && !drops(t[n - 1], listed, held) {
                let k = choose|k: int| 0 <= k < d.len() && d[k] == last;
                assert(c[k] < n - 1);
            }
        }
    }
}

/// A change in percent is not above zero where the price has not risen, and not below it where it has not fallen.
proof fn lemma_change_sign(price: Dec, last: Dec, pct: Dec)
    requires
        arithmetic(),
        price.wf() && last.wf(),
        last.units() > 0,
        gain_pct(true, price, last) == Some(pct),
    ensures
        pct.wf(),
        price.units() >= last.units() ==> pct.units() >= 0,
        price.units() <= last.units() ==> pct.units() <= 0,
{
    lemma_lit(100, 0);
    lemma_lit_units(100, 0);
    lemma_difference(price, last);
    let d = difference_of(price, last)->0;
    lemma_rounded_sign(d, price.units() - last.units(), 1);
    lemma_quotient(d, last);
    let q = quotient_of(d, last)->0;
    lemma_rounded_sign(q, d.units() * unit(), last.units());
    lemma_product(q, lit(100, 0));
    assert(q.units() >= 0 ==> q.units() * lit(100, 0).units() >= 0) by (nonlinear_arith)
        requires
            lit(100, 0).units() > 0,
    ;
    assert(q.units() <= 0 ==> q.units() * lit(100, 0).units() <= 0) by (nonlinear_arith)
        requires
            lit(100, 0).units() > 0,
    ;
    lemma_rounded_sign(pct, q.units() * lit(100, 0).units(), unit());
}

/// A symbol that is added to the mood counts once, as one that went up only where its price has risen and as one
/// that went down only where it has fallen, never as both; its turnover is added, and its change weighted with
/// its turnover. One without a price before does not count.
pub proof fn mood_counts_symbols(m: Mood, price: Dec, last: Dec, volume: Dec, next: Mood)
    requires
        arithmetic(),
        m.wf(),
        m.weighted.wf() && m.volume.wf(),
        price.wf() && last.wf() && volume.wf(),
        mood_with(m, price, last, volume) == Some(next),
    ensures
        last.units() <= 0 ==> next == m,
        last.units() > 0 ==> {
            &&& next.valid == m.valid + 1
            &&& price.units() <= last.units() ==> next.up == m.up
            &&& price.units() >= last.units() ==> next.down == m.down
            &&& next.up - m.up + next.down - m.down <= 1
            &&& next.up >= m.up && next.down >= m.down
            &&& rounded(Some(next.volume), m.volume.units() + volume.units(), 1)
            &&& exists|pct: Dec, part: Dec|
                #![trigger amounts_to(true, price.units(), last.units(), pct.units()), part.units()]
                amounts_to(true, price.units(), last.units(), pct.units()) && rounded(
                    Some(part),
                    pct.units() * volume.units(),
                    unit(),
                ) && rounded(Some(next.weighted), m.weighted.units() + part.units(), 1) && (next.up > m.up
                    <==> pct.units() > 0) && (next.down > m.down <==> pct.units() < 0)
        },
{
    if last.units() > 0 {
        let pct = gain_pct(true, price, last)->0;
        lemma_change_sign(price, last, pct);
        gains_are_percentages(true, price, last, pct);
        lemma_product(pct, volume);
        let part = product_of(pct, volume)->0;
        lemma_sum(m.weighted, part);
        lemma_sum(m.volume, volume);
        assert(amounts_to(true, price.units(), last.units(), pct.units()));
        assert(rounded(Some(part), pct.units() * volume.units(), unit()));
    }
}

/// What the mood is called: by the weighted changes over the turnover, more than 0.2 percent is a frenzy, less
/// than minus 0.2 a panic; more than 0.05 with more symbols up than down is optimistic, less than minus 0.05 with
/// more down than up pessimistic; all else is mixed.
pub proof fn mood_has_its_name(m: Mood, name: Sentiment, avg: Dec)
    requires
        arithmetic(),
        m.weighted.wf() && m.volume.wf(),
        m.named() == Some((name, avg)),
    ensures
        m.valid > 0 && m.volume.units() > 0,
        rounded(Some(avg), m.weighted.units() * unit(), m.volume.units()),
        name == Sentiment::Frenzy <==> 10 * avg.units() > 2 * unit(),
        name == Sentiment::Panic <==> 10 * avg.units() < -2 * unit(),
        name == Sentiment::Optimistic <==> 100 * avg.units() > 5 * unit() && 10 * avg.units() <= 2 * unit() && m.up
            > m.down,
        name == Sentiment::Pessimistic <==> 100 * avg.units() < -5 * unit() && 10 * avg.units() >= -2 * unit()
            && m.down > m.up,
{
    lemma_lit_units(2, 1);
    lemma_lit_units(5, 2);
    lemma_opposite(lit(2, 1));
    lemma_opposite(lit(5, 2));
    lemma_quotient(m.weighted, m.volume);
}

/// The price at which a position is expected to be closed: from a gain of 1.5 percent on 0.8 percent behind the
/// best price, from one percent on 0.15 percent in profit, before that 2.4 percent in loss; in profit is above the
/// entry price for a long position and below it for a short one.
pub proof fn expected_stop_stands(long: bool, entry: Dec, best: Dec, gained: Dec, stop: Dec)
    requires
        arithmetic(),
        entry.wf() && best.wf(),
        gain_pct(long, best, entry) == Some(gained),
        expected_stop(long, entry, best) == Some(stop),
    ensures
        ({
            let part = unit() / 10000;
            let (e, b) = (entry.units(), best.units());
            &&& 10 * gained.units() >= 15 * unit() ==> rounded(
                Some(stop),
                b * ((if long { 9920int } else { 10080 }) * part),
                unit(),
            )
            &&& 10 * unit() <= 10 * gained.units() < 15 * unit() ==> rounded(
                Some(stop),
                e * ((if long { 10015int } else { 9985 }) * part),
                unit(),
            )
            &&& gained.units() < unit() ==> rounded(
                Some(stop),
                e * ((if long { 9760int } else { 10240 }) * part),
                unit(),
            )
        }),
{
    lemma_lit_units(15, 1);
    lemma_lit_units(10, 1);
    lemma_part(8, 3, 80, long);
    lemma_part(24, 3, 240, long);
    lemma_lit(15, 2);
    lemma_lit_units(15, 2);
    lemma_lit(100, 0);
    lemma_lit_units(100, 0);
    lemma_lit(15, 4);
    lemma_lit_units(15, 4);
    lemma_quotient(lit(15, 2), lit(100, 0));
    if let Some(part) = quotient(Some(lit(15, 2)), Some(lit(100, 0))) {
        assert(lit(15, 4).units() * lit(100, 0).units() == lit(15, 2).units() * unit()) by (nonlinear_arith)
            requires
                lit(15, 4).units() == 15 * (unit() / 10000),
                lit(100, 0).units() == 100 * unit(),
                lit(15, 2).units() == 15 * (unit() / 100),
        ;
        assert(part.units() == lit(15, 4).units());
        lemma_near_one(part, 15);
    }
    let f = stop_factor(long, lit(8, 3));
    let g = stop_factor(!long, quotient_of(lit(15, 2), lit(100, 0))->0);
    let h = stop_factor(long, lit(24, 3));
    if let Some(x) = f {
        lemma_product(best, x);
    }
    if let Some(x) = g {
        lemma_product(entry, x);
    }
    if let Some(x) = h {
        lemma_product(entry, x);
    }
}

/// One less a part, or one and a part.
spec fn stop_factor(less: bool, part: Dec) -> Option<Dec> {
    if less { difference(Some(lit(1, 0)), Some(part)) } else { sum(Some(lit(1, 0)), Some(part)) }
}

proof fn lemma_part(digits: u32, places: u32, parts: u32, long: bool)
    requires
        arithmetic(),
        places == 3,
        parts == 10 * digits,
        parts < 1000,
    ensures
        lit(digits, places).wf(),
        difference(Some(lit(1, 0)), Some(lit(digits, places))) matches Some(f) ==> f.wf() && f.units() == (10000
            - parts) * (unit() / 10000),
        sum(Some(lit(1, 0)), Some(lit(digits, places))) matches Some(f) ==> f.wf() && f.units() == (10000 + parts)
            * (unit() / 10000),
{
    lemma_lit(digits, places);
    lemma_lit_units(digits, places);
    assert(lit(digits, places).units() == parts * (unit() / 10000));
    lemma_near_one(lit(digits, places), parts);
}

proof fn lemma_near_one(part: Dec, parts: u32)
    requires
        arithmetic(),
        part.wf(),
        part.units() == parts * (unit() / 10000),
        parts < 1000,
    ensures
        difference(Some(lit(1, 0)), Some(part)) matches Some(f) ==> f.wf() && f.units() == (10000 - parts) * (unit()
            / 10000),
        sum(Some(lit(1, 0)), Some(part)) matches Some(f) ==> f.wf() && f.units() == (10000 + parts) * (unit()
            / 10000),
{
    lemma_lit(1, 0);
    lemma_lit_units(1, 0);
    lemma_difference(lit(1, 0), part);
    lemma_sum(lit(1, 0), part);
    let (a, b) = ((10000 - parts) as u32, (10000 + parts) as u32);
    lemma_lit(a, 4);
    lemma_lit_units(a, 4);
    lemma_lit(b, 4);
    lemma_lit_units(b, 4);
    assert(lit(a, 4).units() * 1 == lit(1, 0).units() - part.units());
    assert(lit(b, 4).units() * 1 == lit(1, 0).units() + part.units());
}

/// The symbols with the largest turnover come in falling order of it, and none that is left out has more than one
/// that is chosen; all trade against USDT.
pub proof fn top_is_largest(r: Seq<usize>, t: Seq<Ticker>, limit: int)
    requires
        are_top(r, t, limit),
        0 <= limit,
        t.len() <= usize::MAX,
    ensures
        forall|i: int, j: int|
            #![trigger r[i], r[j]]
            0 <= i < j < r.len() ==> place_or_zero(t[r[i] as int].volume) >= place_or_zero(t[r[j] as int].volume),
        r.len() <= limit,
        r.len() == if limit < plain_places(t, t.len() as int).len() {
            limit
        } else {
            plain_places(t, t.len() as int).len() as int
        },
        forall|i: int|
            #![trigger r[i]]
            0 <= i < r.len() ==> r[i] < t.len() && plain_usdt(t[r[i] as int].sym@),
        forall|i: int, k: int|
            #![trigger t[i], r[k]]
            0 <= i < t.len() && plain_usdt(t[i].sym@) && !r.contains(i as usize) && 0 <= k < r.len()
                ==> place_or_zero(t[r[k] as int].volume) >= place_or_zero(t[i].volume),
{
    let kept = plain_places(t, t.len() as int);
    let volumes = kept.map_values(|i: usize| place_or_zero(t[i as int].volume));
    let order = choose|order: Seq<usize>| #[trigger]
        is_order(order, volumes, true) && r == order.map_values(|k: usize| kept[k as int]).take(
            if limit < kept.len() { limit } else { kept.len() as int },
        );
    lemma_plain_places(t, t.len() as int);
    assert forall|i: int, j: int| #![trigger r[i], r[j]] 0 <= i < j < r.len() implies place_or_zero(
        t[r[i] as int].volume,
    ) >= place_or_zero(t[r[j] as int].volume) by {
        assert(r[i] == kept[order[i] as int] && r[j] == kept[order[j] as int]);
        assert(comes_before(volumes, true, order[i], order[j]));
    }
    lemma_few_plain(t, t.len() as int);
    order_is_sorted(order, volumes, true);
    assert forall|i: int, k: int|
        #![trigger t[i], r[k]]
        0 <= i < t.len() && plain_usdt(t[i].sym@) && !r.contains(i as usize) && 0 <= k < r.len() implies place_or_zero(
        t[r[k] as int].volume,
    ) >= place_or_zero(t[i].volume) by {
        let q = choose|q: int| 0 <= q < kept.len() && kept[q] == i as usize;
        assert(order.contains(q as usize));
        let p = choose|p: int| 0 <= p < order.len() && order[p] == q as usize;
        if p < r.len() {
            assert(r[p] == i as usize);
        }
        assert(r[k] == kept[order[k] as int]);
        assert(comes_before(volumes, true, order[k], order[p]));
    }
    assert forall|i: int| #![trigger r[i]] 0 <= i < r.len() implies r[i] < t.len() && plain_usdt(
        t[r[i] as int].sym@,
    ) by {
        assert(order[i] < volumes.len());
        assert(r[i] == kept[order[i] as int]);
    }
}

proof fn lemma_few_plain(t: Seq<Ticker>, n: int)
    requires
        0 <= n <= t.len(),
    ensures
        plain_places(t, n).len() <= n,
    decreases n,
{
    if n > 0 {
        lemma_few_plain(t, n - 1);
    }
}

proof fn lemma_plain_places(t: Seq<Ticker>, n: int)
    requires
        0 <= n <= t.len() <= usize::MAX,
    ensures
        forall|k: int|
            0 <= k < plain_places(t, n).len() ==> #[trigger] plain_places(t, n)[k] < n && plain_usdt(
                t[plain_places(t, n)[k] as int].sym@,
            ),
        forall|i: int|
            0 <= i < n && plain_usdt((#[trigger] t[i]).sym@) ==> plain_places(t, n).contains(i as usize),
    decreases n,
{
    if n > 0 {
        lemma_plain_places(t, n - 1);
        let before = plain_places(t, n - 1);
        let now = plain_places(t, n);
        assert forall|k: int| 0 <= k < now.len() implies #[trigger] now[k] < n && plain_usdt(
            t[now[k] as int].sym@,
        ) by {
            if k < before.len() {
                assert(now[k] == before[k]);
            }
        }
        assert forall|i: int| 0 <= i < n && plain_usdt((#[trigger] t[i]).sym@) implies now.contains(i as usize) by {
            if i < n - 1 {
                let k = choose|k: int| 0 <= k < before.len() && before[k] == i as usize;
                assert(now[k] == i as usize);
            } else {
                assert(now[before.len() as int] == i as usize);
            }
        }
    }
}

/// Every symbol that trades against USDT without an expiry is ranked.
pub proof fn all_plain_are_ranked(t: Seq<Ticker>, i: int)
    requires
        0 <= i < t.len() <= usize::MAX,
        plain_usdt(t[i].sym@),
    ensures
        plain_places(t, t.len() as int).contains(i as usize),
{
    lemma_plain_places(t, t.len() as int);
}

/// A report of a position has the symbol, the size and the entry price of its entry, zero where one is missing.
pub proof fn reports_are_read(item: JsonView)
    ensures
        ({
            let (symbol, amt, entry) = report_of(item);
            &&& item.text_field("symbol"@) matches Some(s) ==> symbol == s
            &&& item.dec_field("positionAmt"@) matches Some(d) ==> amt == d
            &&& item.dec_field("entryPrice"@) matches Some(d) ==> entry == d
            &&& item.dec_field("positionAmt"@) is None ==> amt == zero()
            &&& item.dec_field("entryPrice"@) is None ==> entry == zero()
        }),
{
}

/// A stored figure is read from a text or a number, and is zero where there is neither.
pub proof fn stored_figures_are_read(j: JsonView, key: Seq<char>)
    ensures
        j.field(key) matches Some(JsonView::Text(s)) ==> stored_figure(j, key) == dec_of_text(s),
        j.field(key) matches Some(JsonView::Number { text, .. }) ==> stored_figure(j, key) == dec_of_text(text),
        j.field(key) is None ==> stored_figure(j, key) == dec_of_text("0"@),
{
}

} // verus!
