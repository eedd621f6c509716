//! Percentages of prices: the gain of a price over an entry price, the price at a distance from
//! another, how far rounding can carry the two, and what they say of a profit once it was reached.
//! Figures without a type of their own are counted in steps of ten to the power -28.

use vstd::arithmetic::div_mod::{lemma_fundamental_div_mod, lemma_mod_multiples_basic};
use vstd::arithmetic::mul::lemma_mul_is_associative;
use vstd::prelude::*;

use crate::decimal::{
    arithmetic, difference, difference_of, distance, fits, lemma_difference, lemma_lit,
    lemma_lit_units, lemma_multiple, lemma_product, lemma_quotient, lemma_sum, lemma_unit,
    lemma_whole, lit, magnitude_limit, precision, product, quotient, quotient_of, rounded, sum,
    unit, Dec,
};

verus! {

/// A hundred percent.
#[verifier::inline]
pub open spec fn whole() -> int {
    1000000000000000000000000000000int
}

/// The gain of a price over an entry price, in favour of the position.
pub open spec fn gain(long: bool, price: int, entry: int) -> int {
    if long { price - entry } else { entry - price }
}

/// The gain of the price over the entry price is `pct` percent of the entry price or more, but for
/// rounding.
pub open spec fn reached(long: bool, price: int, entry: int, pct: int) -> bool {
    whole() * gain(long, price, entry) * (precision() + 4) + precision() * (500 * entry + 300
        * unit()) >= precision() * (entry * pct)
}

/// The gain of the price over the entry price is `pct` percent of the entry price, but for rounding: no less
/// and no more.
pub open spec fn amounts_to(long: bool, price: int, entry: int, pct: int) -> bool {
    let g = gain(long, price, entry);
    precision() * distance(entry * pct - whole() * g) <= 4 * (whole() * distance(g)) + precision() * (500
        * entry + 300 * unit())
}

/// The line lies `pct` percent of its base away from it, on the side of a loss: below it for a long position,
/// above it for a short one, but for rounding.
pub open spec fn lies_behind(long: bool, line: int, base: int, pct: int) -> bool {
    distance(whole() * line - (if long {
        base * whole() - base * pct
    } else {
        base * whole() + base * pct
    })) <= 4000 * base + whole()
}

/// The line is no further than `pct` percent from its base, but for rounding.
pub open spec fn near(long: bool, line: int, base: int, pct: int) -> bool {
    if long {
        whole() * line + 1250 * base + whole() >= base * whole() - base * pct
    } else {
        whole() * line <= base * whole() + base * pct + 4000 * base + whole()
    }
}

/// The line lies on the entry price or on its profitable side, but for rounding: it is short of it by
/// forty steps at most, and one part in ten to the power 26 of the entry price (or `pct` percent of
/// that, where this is more).
pub open spec fn keeps_profit(long: bool, line: int, entry: int, pct: int) -> bool {
    keeps_profit_by(long, line, entry, entry * pct)
}

/// The same, for the product of the entry price and the percentage.
pub open spec fn keeps_profit_by(long: bool, line: int, entry: int, v: int) -> bool {
    let slack = 40 * (whole() * whole()) + 10000 * (entry * whole()) + 5000 * v;
    if long {
        whole() * whole() * line + slack >= entry * (whole() * whole())
    } else {
        whole() * whole() * line <= entry * (whole() * whole()) + slack
    }
}

/// Giving back `trail` percent of a price that has gained `arm` percent leaves no loss: for a short
/// position where the first is no more than the second, for a long one where the product of the two
/// factors is no less than one.
pub open spec fn leaves_no_loss(long: bool, arm: int, trail: int) -> bool {
    &&& 0 <= trail <= arm
    &&& long ==> trail <= whole() && (whole() - trail) * (whole() + arm) >= whole() * whole()
}

proof fn lemma_gain_linear(g: int, e: int, d: int, qe: int, pe: int)
    requires
        e > 0,
        pe >= 0,
        distance(d - g) * precision() <= precision() + distance(g),
        distance(qe - d * unit()) * precision() <= e * precision() + distance(d) * unit(),
        distance(pe - 100 * qe) * precision() <= e * precision() + 100 * distance(qe),
    ensures
        whole() * g * (precision() + 4) + precision() * (500 * e + 300 * unit()) >= precision()
            * pe,
{
}

proof fn lemma_gain_above(g: int, e: int, d: int, qe: int, pe: int)
    requires
        e > 0,
        distance(d - g) * precision() <= precision() + distance(g),
        distance(qe - d * unit()) * precision() <= e * precision() + distance(d) * unit(),
        distance(pe - 100 * qe) * precision() <= e * precision() + 100 * distance(qe),
    ensures
        precision() * (pe - whole() * g) <= 4 * (whole() * distance(g)) + precision() * (500 * e + 300
            * unit()),
{
}

/// A percentage that was computed as a gain over an entry price is what the gain amounts to.
pub proof fn lemma_amounts_to(long: bool, price: int, e: int, d: int, q: int, p: int)
    requires
        e > 0,
        distance(d - gain(long, price, e)) * precision() <= precision() + distance(
            gain(long, price, e),
        ),
        distance(q * e - d * unit()) * precision() <= e * precision() + distance(d * unit()),
        distance(p * unit() - q * whole()) * precision() <= unit() * precision() + distance(
            q * whole(),
        ),
    ensures
        amounts_to(long, price, e, p),
{
    let c = precision();
    assert(distance(p - 100 * q) * c <= c + 100 * distance(q));
    let pe = e * p;
    let qe = q * e;
    assert(distance(pe - 100 * qe) * c <= e * c + 100 * distance(qe)) by (nonlinear_arith)
        requires
            distance(p - 100 * q) * c <= c + 100 * distance(q),
            pe == e * p,
            qe == q * e,
            e > 0,
            c > 0,
    ;
    let g = gain(long, price, e);
    lemma_gain_above(g, e, d, qe, pe);
    lemma_gain_above(-g, e, -d, -qe, -pe);
}

/// A line that was computed a percentage away from its base lies there.
pub proof fn lemma_lies_behind(long: bool, k: int, t: int, part: int, f: int, line: int)
    requires
        k > 0,
        0 <= t <= 5 * whole(),
        distance(part * whole() - t * unit()) * precision() <= whole() * precision() + distance(
            t * unit(),
        ),
        long ==> distance(f - (unit() - part)) * precision() <= precision() + distance(
            unit() - part,
        ),
        !long ==> distance(f - (unit() + part)) * precision() <= precision() + distance(
            unit() + part,
        ),
        distance(line * unit() - k * f) * precision() <= unit() * precision() + distance(k * f),
    ensures
        lies_behind(long, line, k, t),
{
    let kf = k * f;
    let kt = k * t;
    let to = if long { whole() - t } else { whole() + t };
    let kto = if long { k * whole() - kt } else { k * whole() + kt };
    if long {
        assert(distance(100 * f - (whole() - t)) <= 2500);
    } else {
        assert(distance(100 * f - (whole() + t)) <= 2500);
    }
    assert(distance(f) <= 6 * unit() + 100);
    assert(kto == k * to) by (nonlinear_arith)
        requires
            to == (if long { whole() - t } else { whole() + t }),
            kto == (if long { k * whole() - kt } else { k * whole() + kt }),
            kt == k * t,
    ;
    assert(distance(100 * kf - kto) <= 2500 * k) by (nonlinear_arith)
        requires
            distance(100 * f - to) <= 2500,
            kf == k * f,
            kto == k * to,
            k > 0,
    ;
    assert(distance(kf) <= 6 * (k * unit()) + 100 * k) by (nonlinear_arith)
        requires
            distance(f) <= 6 * unit() + 100,
            kf == k * f,
            k > 0,
    ;
}

/// A percentage that was computed as a gain over an entry price is reached.
pub proof fn lemma_reached(long: bool, price: int, e: int, d: int, q: int, p: int)
    requires
        e > 0,
        p >= 0,
        distance(d - gain(long, price, e)) * precision() <= precision() + distance(
            gain(long, price, e),
        ),
        distance(q * e - d * unit()) * precision() <= e * precision() + distance(d * unit()),
        distance(p * unit() - q * whole()) * precision() <= unit() * precision() + distance(
            q * whole(),
        ),
    ensures
        reached(long, price, e, p),
{
    let c = precision();
    assert(distance(p - 100 * q) * c <= c + 100 * distance(q));
    let pe = e * p;
    let qe = q * e;
    assert(distance(pe - 100 * qe) * c <= e * c + 100 * distance(qe)) by (nonlinear_arith)
        requires
            distance(p - 100 * q) * c <= c + 100 * distance(q),
            pe == e * p,
            qe == q * e,
            e > 0,
            c > 0,
    ;
    assert(pe >= 0) by (nonlinear_arith)
        requires
            pe == e * p,
            e > 0,
            p >= 0,
    ;
    lemma_gain_linear(gain(long, price, e), e, d, qe, pe);
}

/// A line that was computed a percentage away from its base is near.
pub proof fn lemma_near(long: bool, k: int, t: int, part: int, f: int, line: int)
    requires
        k > 0,
        0 <= t <= 5 * whole(),
        long ==> t <= whole(),
        distance(part * whole() - t * unit()) * precision() <= whole() * precision() + distance(
            t * unit(),
        ),
        long ==> distance(f - (unit() - part)) * precision() <= precision() + distance(
            unit() - part,
        ),
        !long ==> distance(f - (unit() + part)) * precision() <= precision() + distance(
            unit() + part,
        ),
        distance(line * unit() - k * f) * precision() <= unit() * precision() + distance(k * f),
    ensures
        near(long, line, k, t),
{
    let kf = k * f;
    let kt = k * t;
    if long {
        assert(100 * f >= whole() - t - 1000);
        assert(-100 <= f <= unit() + 100);
        assert(100 * kf >= k * whole() - kt - 1000 * k) by (nonlinear_arith)
            requires
                100 * f >= whole() - t - 1000,
                kf == k * f,
                kt == k * t,
                k > 0,
        ;
        assert(distance(kf) <= k * unit() + 100 * k) by (nonlinear_arith)
            requires
                -100 <= f <= unit() + 100,
                kf == k * f,
                k > 0,
        ;
    } else {
        assert(100 * f <= whole() + t + 2500);
        assert(0 <= f <= 6 * unit() + 100);
        assert(100 * kf <= k * whole() + kt + 2500 * k) by (nonlinear_arith)
            requires
                100 * f <= whole() + t + 2500,
                kf == k * f,
                kt == k * t,
                k > 0,
        ;
        assert(distance(kf) <= 6 * (k * unit()) + 100 * k) by (nonlinear_arith)
            requires
                0 <= f <= 6 * unit() + 100,
                kf == k * f,
                k > 0,
        ;
    }
}

/// An inequality between figures, with each figure multiplied by one that is not negative.
proof fn lemma_scaled(k: int, e: int, v: int, y: int, a: int, b: int, n: int, c: int)
    requires
        y >= 0,
        a * k - a * e + b * e + n >= c * v,
    ensures
        a * (k * y) - a * (e * y) + b * (e * y) + n * y >= c * (v * y),
{
    let p = a * k;
    let q = a * e;
    let r = b * e;
    let s = c * v;
    let l = p - q + r + n - s;
    assert(l * y >= 0) by (nonlinear_arith)
        requires
            l >= 0,
            y >= 0,
    ;
    assert(l * y == p * y - q * y + r * y + n * y - s * y) by (nonlinear_arith)
        requires
            l == p - q + r + n - s,
    ;
    lemma_mul_is_associative(a, k, y);
    lemma_mul_is_associative(a, e, y);
    lemma_mul_is_associative(b, e, y);
    lemma_mul_is_associative(c, v, y);
}

proof fn lemma_room(trail: int, arm: int)
    requires
        0 <= trail <= arm,
        trail <= whole(),
        (whole() - trail) * (whole() + arm) >= whole() * whole(),
        arm < 793000000000000000000000000000000000000000000000000000000int,
    ensures
        whole() - trail >= 1250,
{
    let n = whole() - trail;
    let s = whole() + arm;
    if n < 1250 {
        assert(n * s <= 1250 * s) by (nonlinear_arith)
            requires
                0 <= n < 1250,
                s >= 0,
        ;
    }
}

proof fn lemma_long_linear(line: int, a: int, b: int, w: int, e: int, v: int, y: int)
    requires
        whole() * line + whole() >= a,
        4951760157141521099596496900000000000000000000000000000000int * a
            - 4951760157141521099596496900000000000000000000000000000000int * b
            + 2475880078570760549798248448000int * b
            + 14855280471424563298789490688000000000000000000000000000000int * y >= precision() * w,
        whole() * b + w >= e * (whole() * whole()) - 1250 * (e * whole()) - 1250 * v,
        0 <= b <= e * whole(),
        y <= whole(),
        e > 0,
        v >= 0,
    ensures
        keeps_profit_by(true, line, e, v),
{
    let goal = whole() * whole() * line + 40 * (whole() * whole()) + 10000 * (e * whole()) + 5000 * v
        - e * (whole() * whole());
    assert(4951760157141521099596496900int * goal >= 0);
    assert(goal >= 0);
}

proof fn lemma_short_linear(line: int, a: int, b: int, w: int, e: int, v: int, et: int, z: int)
    requires
        whole() * line <= a + whole(),
        4951760157141521099596496900000000000000000000000000000000int * b
            - 4951760157141521099596496900000000000000000000000000000000int * a
            + 2475880078570760549798248448000int * b
            + 14855280471424563298789490688000000000000000000000000000000int * z >= precision() * w,
        w >= v * whole(),
        b == e * whole() + et + 4000 * e,
        0 <= et <= v,
        z <= 6 * whole() + 4000,
        e > 0,
        v >= 0,
    ensures
        keeps_profit_by(false, line, e, v),
{
    let goal = e * (whole() * whole()) + 40 * (whole() * whole()) + 10000 * (e * whole()) + 5000 * v
        - whole() * whole() * line;
    assert(4951760157141521099596496900int * goal >= 0);
    assert(goal >= 0);
}

/// A line `trail` percent behind a price that has gained `arm` percent keeps the profit.
pub proof fn lemma_keeps_profit(long: bool, k: int, e: int, arm: int, trail: int, line: int)
    requires
        e > 0,
        k > 0,
        reached(long, k, e, arm),
        near(long, line, k, trail),
        leaves_no_loss(long, arm, trail),
        arm < 793000000000000000000000000000000000000000000000000000000int,
    ensures
        keeps_profit(long, line, e, arm),
{
    let x = whole();
    let v = e * arm;
    let kt = k * trail;
    assert(v >= 0) by (nonlinear_arith)
        requires
            v == e * arm,
            e > 0,
            arm >= 0,
    ;
    if long {
        lemma_room(trail, arm);
        let y = x - trail - 1250;
        let a = k * y;
        let b = e * y;
        let w = v * y;
        assert(a == k * x - kt - 1250 * k) by (nonlinear_arith)
            requires
                a == k * y,
                kt == k * trail,
                y == x - trail - 1250,
        ;
        lemma_scaled(
            k,
            e,
            v,
            y,
            4951760157141521099596496900000000000000000000000000000000int,
            2475880078570760549798248448000,
            14855280471424563298789490688000000000000000000000000000000int,
            precision(),
        );
        assert(x * b + w >= e * (x * x) - 1250 * (e * x) - 1250 * v) by {
            let n = x - trail;
            let s = x + arm;
            let ns = n * s;
            assert(e * ns >= e * (x * x)) by (nonlinear_arith)
                requires
                    ns >= x * x,
                    e > 0,
            ;
            let es = e * s;
            assert(es == e * x + v) by (nonlinear_arith)
                requires
                    es == e * s,
                    s == x + arm,
                    v == e * arm,
            ;
            assert(x * b + w == es * y) by (nonlinear_arith)
                requires
                    b == e * y,
                    w == v * y,
                    es == e * x + v,
            ;
            assert(es * y == es * n - 1250 * es) by (nonlinear_arith)
                requires
                    y == n - 1250,
            ;
            assert(es * n == e * ns) by (nonlinear_arith)
                requires
                    es == e * s,
                    ns == n * s,
            ;
        }
        assert(0 <= b <= e * x) by (nonlinear_arith)
            requires
                b == e * y,
                0 <= y <= x,
                e > 0,
        ;
        lemma_long_linear(line, a, b, w, e, v, y);
    } else {
        let z = x + trail + 4000;
        let a = k * z;
        let b = e * z;
        let w = v * z;
        let et = e * trail;
        assert(et >= 0 && et <= v) by (nonlinear_arith)
            requires
                v == e * arm,
                et == e * trail,
                e > 0,
                0 <= trail <= arm,
        ;
        assert(w >= v * x) by (nonlinear_arith)
            requires
                w == v * z,
                v >= 0,
                z >= x,
        ;
        assert(b == e * x + et + 4000 * e) by (nonlinear_arith)
            requires
                b == e * z,
                et == e * trail,
                z == x + trail + 4000,
        ;
        assert(a == k * x + kt + 4000 * k) by (nonlinear_arith)
            requires
                a == k * z,
                kt == k * trail,
                z == x + trail + 4000,
        ;
        lemma_scaled(
            -k,
            -e,
            v,
            z,
            4951760157141521099596496900000000000000000000000000000000int,
            -2475880078570760549798248448000,
            14855280471424563298789490688000000000000000000000000000000int,
            precision(),
        );
        assert((-k) * z == -a && (-e) * z == -b) by (nonlinear_arith)
            requires
                a == k * z,
                b == e * z,
        ;
        assert(arm <= 5 * x) by {
            assert(v <= 2 * (e * x) + 3 * x);
            if arm > 5 * x {
                assert(v >= 5 * (e * x) + e) by (nonlinear_arith)
                    requires
                        v == e * arm,
                        arm >= 5 * x + 1,
                        e > 0,
                ;
            }
        }
        lemma_short_linear(line, a, b, w, e, v, et, z);
    }
}

/// What one price has reached, a better one has too, and a smaller percentage with it.
pub proof fn lemma_reached_further(
    long: bool,
    price: int,
    better: int,
    e: int,
    pct: int,
    smaller: int,
)
    requires
        e > 0,
        reached(long, price, e, pct),
        gain(long, better, e) >= gain(long, price, e),
        smaller <= pct,
    ensures
        reached(long, better, e, smaller),
{
    assert(e * smaller <= e * pct) by (nonlinear_arith)
        requires
            e > 0,
            smaller <= pct,
    ;
}

/// A price above zero cannot have gained more than about its whole for a short position.
pub proof fn lemma_reached_bounds(long: bool, price: int, e: int, pct: int)
    requires
        e > 0,
        price > 0,
        reached(long, price, e, pct),
    ensures
        !long ==> pct <= 5 * whole(),
{
    let v = e * pct;
    if !long && pct > 5 * whole() {
        assert(v >= 5 * (e * whole()) + e) by (nonlinear_arith)
            requires
                v == e * pct,
                pct >= 5 * whole() + 1,
                e > 0,
        ;
    }
}

/// A price on the grid of ticks is away from the price that it was made of by one tick, on the side
/// of a loss, but for rounding.
pub open spec fn within_tick(long: bool, aligned: int, price: int, tick: int) -> bool {
    let away = if long { price - aligned } else { aligned - price };
    precision() * away <= precision() * (tick + 3) + 4 * (price + tick)
}

/// A price that was brought to the grid of ticks is within a tick.
pub proof fn lemma_within_tick(long: bool, price: int, tick: int, steps: int, n: int, aligned: int)
    requires
        price >= 0,
        tick > 0,
        distance(steps * tick - price * unit()) * precision() <= tick * precision() + distance(
            price * unit(),
        ),
        long ==> n <= steps < n + unit(),
        !long ==> n - unit() < steps <= n,
        distance(aligned * unit() - n * tick) * precision() <= unit() * precision() + distance(
            n * tick,
        ),
    ensures
        within_tick(long, aligned, price, tick),
{
    let st = steps * tick;
    let nt = n * tick;
    if long {
        assert(st - unit() * tick <= nt <= st) by (nonlinear_arith)
            requires
                st == steps * tick,
                nt == n * tick,
                n <= steps < n + unit(),
                tick > 0,
        ;
    } else {
        assert(st <= nt <= st + unit() * tick) by (nonlinear_arith)
            requires
                st == steps * tick,
                nt == n * tick,
                n - unit() < steps <= n,
                tick > 0,
        ;
    }
}

/// A value is a whole number of steps, and it is no more than the value that it was made of, or no less
/// where it was brought up, but for rounding.
pub open spec fn on_grid(down: bool, value: int, made_of: int, step: int) -> bool {
    &&& value % step == 0
    &&& precision() * (if down { value - made_of } else { made_of - value }) <= made_of + step
}

/// A value that was divided by a step, brought to a whole number and multiplied again is on the grid of
/// steps.
pub proof fn lemma_on_grid(down: bool, value: int, step: Dec, steps: int, n: Dec, r: Dec)
    requires
        value >= 0,
        step.wf(),
        step.units() > 0,
        distance(steps * step.units() - value * unit()) * precision() <= step.units() * precision()
            + distance(value * unit()),
        n.places() == 0,
        down ==> n.units() <= steps < n.units() + unit(),
        !down ==> n.units() - unit() < steps <= n.units(),
        rounded(Some(r), n.units() * step.units(), unit()),
        fits(2 * (value + step.units()), step.places()),
    ensures
        on_grid(down, r.units(), value, step.units()),
{
    let t = step.units();
    let k = if n.minus() { -(n.magnitude() as int) } else { n.magnitude() as int };
    assert(n.units() == k * unit()) by {
        reveal(Dec::units);
        lemma_unit();
    }
    let kt = k * t;
    let st = steps * t;
    assert(n.units() * t == kt * unit()) by (nonlinear_arith)
        requires
            n.units() == k * unit(),
            kt == k * t,
    ;
    let nt = kt * unit();
    if down {
        assert(st - unit() * t <= nt <= st) by (nonlinear_arith)
            requires
                st == steps * t,
                nt == n.units() * t,
                n.units() <= steps < n.units() + unit(),
                t > 0,
        ;
    } else {
        assert(st <= nt <= st + unit() * t) by (nonlinear_arith)
            requires
                st == steps * t,
                nt == n.units() * t,
                n.units() - unit() < steps <= n.units(),
                t > 0,
        ;
    }
    assert(precision() * (if down { kt - value } else { value - kt }) <= value + t);
    assert(distance(kt) <= 2 * (value + t));
    let e = lemma_multiple(step, k);
    assert(e.units() * unit() == n.units() * t);
    lemma_mod_multiples_basic(k, t);
}

/// A value lies between the one that it was brought to and the next step, both without rounding.
pub open spec fn next_to(down: bool, value: int, made_of: int, step: int) -> bool {
    if down { value <= made_of < value + step } else { value - step < made_of <= value }
}

/// Where the number of steps is a decimal, a value is brought to the step next to it; and where the value
/// is a whole number of steps, it stays.
pub proof fn lemma_next_to(down: bool, value: int, step: Dec, steps: Dec, n: Dec, r: Dec)
    requires
        value >= 0,
        step.wf(),
        step.units() > 0,
        rounded(Some(steps), value * unit(), step.units()),
        n.places() == 0,
        down ==> n.units() <= steps.units() < n.units() + unit(),
        !down ==> n.units() - unit() < steps.units() <= n.units(),
        rounded(Some(r), n.units() * step.units(), unit()),
        fits(2 * (value + step.units()), step.places()),
    ensures
        steps.units() * step.units() == value * unit() ==> next_to(
            down,
            r.units(),
            value,
            step.units(),
        ),
        value % step.units() == 0 && value < magnitude_limit() * step.units() ==> r.units() == value,
{
    let t = step.units();
    let k = if n.minus() { -(n.magnitude() as int) } else { n.magnitude() as int };
    assert(n.units() == k * unit()) by {
        reveal(Dec::units);
        lemma_unit();
    }
    let st = steps.units() * t;
    let kt = k * t;
    assert(n.units() * t == kt * unit()) by (nonlinear_arith)
        requires
            n.units() == k * unit(),
            kt == k * t,
    ;
    let nt = kt * unit();
    if down {
        assert(st - unit() * t < nt <= st) by (nonlinear_arith)
            requires
                st == steps.units() * t,
                nt == n.units() * t,
                n.units() <= steps.units() < n.units() + unit(),
                t > 0,
        ;
    } else {
        assert(st <= nt < st + unit() * t) by (nonlinear_arith)
            requires
                st == steps.units() * t,
                nt == n.units() * t,
                n.units() - unit() < steps.units() <= n.units(),
                t > 0,
        ;
    }
    assert(distance(kt) <= 2 * (value + t));
    let e = lemma_multiple(step, k);
    assert(e.units() * unit() == n.units() * t);
    assert(r.units() == kt);
    if value % t == 0 && value < magnitude_limit() * t {
        let j = value / t;
        lemma_fundamental_div_mod(value, t);
        assert(value == j * t) by (nonlinear_arith)
            requires
                value == t * j,
        ;
        assert(0 <= j < magnitude_limit()) by (nonlinear_arith)
            requires
                value == j * t,
                0 <= value < magnitude_limit() * t,
                t > 0,
        ;
        let w = lemma_whole(j);
        assert(w.units() * t == value * unit()) by (nonlinear_arith)
            requires
                w.units() == j * unit(),
                value == j * t,
        ;
        assert(steps.units() == j * unit());
        assert(k == j);
    }
}

/// The change from the entry price to a price, in percent and in favour of the position.
pub open spec fn gain_pct_spec(long: bool, price: Dec, entry: Dec) -> Option<Dec> {
    let gain = if long {
        difference(Some(price), Some(entry))
    } else {
        difference(Some(entry), Some(price))
    };
    product(quotient(gain, Some(entry)), Some(lit(100, 0)))
}

/// What a price is multiplied with to come to a distance in percent from it, on the side of a loss.
pub open spec fn line_factor(long: bool, pct: Dec) -> Option<Dec> {
    let part = quotient(Some(pct), Some(lit(100, 0)));
    if long { difference(Some(lit(1, 0)), part) } else { sum(Some(lit(1, 0)), part) }
}

/// The price at a distance in percent from a base, on the side of a loss.
pub open spec fn line_spec(long: bool, base: Dec, pct: Dec) -> Option<Dec> {
    product(Some(base), line_factor(long, pct))
}

/// Two prices that were multiplied with one factor stand as the prices do, but for rounding; where both
/// products are decimals, exactly.
pub proof fn lemma_products_follow(low: int, high: int, factor: int, below: Dec, above: Dec)
    requires
        0 <= low <= high,
        0 <= factor,
        rounded(Some(below), low * factor, unit()),
        rounded(Some(above), high * factor, unit()),
    ensures
        unit() * precision() * (below.units() - above.units()) <= 2 * unit() * precision() + factor * (low
            + high),
        forall|e: Dec, f: Dec|
            e.wf() && f.wf() && #[trigger] e.units() * unit() == low * factor && #[trigger] f.units()
                * unit() == high * factor ==> below.units() <= above.units(),
{
    let lf = low * factor;
    let hf = high * factor;
    assert(0 <= lf <= hf && factor * (low + high) == lf + hf) by (nonlinear_arith)
        requires
            lf == low * factor,
            hf == high * factor,
            0 <= low <= high,
            0 <= factor,
    ;
}

/// The change from the entry price to a price, in percent and in favour of the position.
#[verifier::when_used_as_spec(gain_pct_spec)]
pub fn gain_pct(long: bool, price: Dec, entry: Dec) -> (r: Option<Dec>)
    ensures
        r == gain_pct_spec(long, price, entry),
        r matches Some(p) ==> entry.units() > 0 && p.units() >= 0 ==> reached(
            long,
            price.units(),
            entry.units(),
            p.units(),
        ),
        r matches Some(p) ==> entry.units() > 0 ==> amounts_to(
            long,
            price.units(),
            entry.units(),
            p.units(),
        ),
        entry.units() == 0 ==> r is None,
{
    let gain = if long {
        difference(Some(price), Some(entry))
    } else {
        difference(Some(entry), Some(price))
    };
    let part = quotient(gain, Some(entry));
    let r = product(part, Some(lit(100, 0)));
    proof {
        lemma_lit_units(100, 0);
        if r is Some && entry.units() > 0 {
            lemma_amounts_to(
                long,
                price.units(),
                entry.units(),
                gain->0.units(),
                part->0.units(),
                r->0.units(),
            );
        }
        if r is Some && entry.units() > 0 && r->0.units() >= 0 {
            lemma_reached(
                long,
                price.units(),
                entry.units(),
                gain->0.units(),
                part->0.units(),
                r->0.units(),
            );
        }
    }
    r
}

/// The price at a distance in percent from a base, on the side of a loss.
#[verifier::when_used_as_spec(line_spec)]
pub fn line(long: bool, base: Dec, pct: Dec) -> (r: Option<Dec>)
    ensures
        r == line_spec(long, base, pct),
        r is Some ==> rounded(r, base.units() * line_factor(long, pct)->0.units(), unit()),
        r matches Some(l) ==> base.units() > 0 && 0 <= pct.units() <= 5 * whole() && (
        long ==> pct.units() <= whole()) ==> near(long, l.units(), base.units(), pct.units()),
        r matches Some(l) ==> base.units() > 0 && 0 <= pct.units() <= 5 * whole() ==> lies_behind(
            long,
            l.units(),
            base.units(),
            pct.units(),
        ),
{
    let part = quotient(Some(pct), Some(lit(100, 0)));
    let factor = if long {
        difference(Some(lit(1, 0)), part)
    } else {
        sum(Some(lit(1, 0)), part)
    };
    let r = product(Some(base), factor);
    proof {
        lemma_lit_units(100, 0);
        lemma_lit_units(1, 0);
        if r is Some && base.units() > 0 && 0 <= pct.units() <= 5 * whole() {
            lemma_lies_behind(
                long,
                base.units(),
                pct.units(),
                part->0.units(),
                factor->0.units(),
                r->0.units(),
            );
        }
        if r is Some && base.units() > 0 && 0 <= pct.units() <= 5 * whole() && (long
            ==> pct.units() <= whole()) {
            lemma_near(
                long,
                base.units(),
                pct.units(),
                part->0.units(),
                factor->0.units(),
                r->0.units(),
            );
        }
    }
    r
}

/// The percentage that a price has gained is what the gain amounts to, for a long and for a short position.
pub proof fn gains_are_percentages(long: bool, price: Dec, entry: Dec, pct: Dec)
    requires
        arithmetic(),
        price.wf(),
        entry.wf(),
        entry.units() > 0,
        gain_pct(long, price, entry) == Some(pct),
    ensures
        pct.wf(),
        amounts_to(long, price.units(), entry.units(), pct.units()),
{
    lemma_lit(100, 0);
    lemma_lit_units(100, 0);
    lemma_difference(price, entry);
    lemma_difference(entry, price);
    let d = if long { difference_of(price, entry)->0 } else { difference_of(entry, price)->0 };
    lemma_quotient(d, entry);
    let q = quotient_of(d, entry)->0;
    lemma_product(q, lit(100, 0));
    lemma_amounts_to(long, price.units(), entry.units(), d.units(), q.units(), pct.units());
}

/// The line of a stop lies behind its base by the percentage.
pub proof fn lines_lie_behind(long: bool, base: Dec, pct: Dec, at: Dec)
    requires
        arithmetic(),
        base.wf(),
        pct.wf(),
        base.units() > 0,
        0 <= pct.units() <= 5 * whole(),
        line(long, base, pct) == Some(at),
    ensures
        at.wf(),
        lies_behind(long, at.units(), base.units(), pct.units()),
{
    lemma_lit(100, 0);
    lemma_lit_units(100, 0);
    lemma_lit(1, 0);
    lemma_lit_units(1, 0);
    lemma_quotient(pct, lit(100, 0));
    let part = quotient_of(pct, lit(100, 0))->0;
    lemma_difference(lit(1, 0), part);
    lemma_sum(lit(1, 0), part);
    let f = line_factor(long, pct)->0;
    lemma_product(base, f);
    lemma_lies_behind(long, base.units(), pct.units(), part.units(), f.units(), at.units());
}

} // verus!
