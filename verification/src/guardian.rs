//! The guardian of open positions. It sees to it that every position has a stop order on the
//! exchange, lets the stop follow the price once a profit is large enough, and speaks up when a
//! position is held too long. It places closing orders only.
//!
//! Thresholds are given as return on equity (price change in percent times leverage) and brought to
//! price distances with the leverage of each position.

use vstd::arithmetic::div_mod::lemma_fundamental_div_mod;
use vstd::arithmetic::power::pow;
use vstd::prelude::*;

use crate::decimal::{
    absolute, arithmetic, ceiling, dec_of_text, difference, difference_of, distance, fits, floor,
    is_ceiling, is_floor, is_rounded_to, larger, lemma_absolute, lemma_difference, lemma_lands,
    lemma_lit, lemma_lit_units, lemma_normal, lemma_opposite, lemma_product, lemma_quotient,
    lemma_sum, lemma_units_sign, lit, magnitude_limit, normal, opposite, or_else, parse_dec,
    precision, product, product_of, quotient, round, rounded, shown, smaller, sum, sum_of, unit,
    zero, Dec,
};
use crate::json::{items_of_text, parse_items, views, Json, JsonView};
use crate::execution::amount_of;
use crate::profit::{
    amounts_to, gain, gain_pct, gains_are_percentages, lemma_next_to, lemma_on_grid,
    lemma_products_follow, lemma_reached_further, lemma_within_tick, lies_behind, line, line_factor,
    lines_lie_behind, next_to, on_grid, reached, whole, within_tick,
};
use crate::side::{closing_side, Side};
use crate::text::{bounded_natural, parse_u64, same};

verus! {

/// What the guardian remembers of a position.
#[derive(Clone, Copy, Debug)]
pub struct GuardState {
    /// The stop order that it minds.
    pub own_stop_id: Option<u64>,
    /// The entry price for which that order was placed.
    pub entry_used: Dec,
    /// The trigger price of that order.
    pub stop_price: Dec,
    /// The best mark price so far: the highest for a long position, the lowest for a short one.
    pub peak: Dec,
    /// Whether the stop follows the price.
    pub trail_armed: bool,
    /// The highest milestone that was announced.
    pub last_milestone_roe: i32,
    /// Whether the first move of the stop was confirmed.
    pub trail_confirm_sent: bool,
    /// For how many rounds the stop on the exchange has been behind.
    pub ratchet_stuck_cycles: u32,
    /// The minute of the last reminder.
    pub last_hold_alert_min: u64,
    /// Whether a failure to place a stop was reported.
    pub stop_error_notified: bool,
    /// Whether the position was asked to be closed for its age.
    pub auto_close_attempted: bool,
}

/// How the guardian is set up.
#[derive(Clone, Copy, Debug)]
pub struct GuardConfig {
    pub enabled: bool,
    pub stop_roe: Dec,
    pub alert_min: u64,
    pub auto_close_min: u64,
    pub trail_on: bool,
    pub arm_roe: Dec,
    pub trail_roe: Dec,
}

/// The thresholds of one position, as price distances in percent.
#[derive(Clone, Copy, Debug)]
pub struct Thresholds {
    pub lev: Dec,
    pub stop_pct: Dec,
    pub arm_pct: Dec,
    pub trail_pct: Dec,
}

/// A position: its size, its entry price, its unrealised profit, the mark price and the leverage.
#[derive(Clone, Copy, Debug)]
pub struct Held {
    pub amt: Dec,
    pub entry: Dec,
    pub upnl: Dec,
    pub mark: Dec,
    pub lev: Dec,
}

/// What the guardian has to tell.
#[derive(Clone, Copy, Debug)]
pub enum Notice {
    /// The best return so far has passed a milestone.
    Milestone { level: i32 },
    /// The stop follows the price from now on.
    Armed { profit_roe: Dec, floor: Dec },
    /// A stop order stands on the exchange.
    Protected { stop: Dec, est_loss: Dec },
    /// The stop order was moved for the first time.
    StopMoved { stop: Dec, locked: Dec },
    /// No stop order could be placed.
    Unprotected,
    /// The stop order has been behind for some rounds.
    RatchetStuck { trigger: Dec, desired: Dec, cycles: u32 },
    /// The position has been held for long.
    HeldTooLong { minutes: u64, upnl: Dec },
    /// The position was closed for its age.
    AutoClosed { minutes: u64, upnl: Dec },
    /// The position could not be closed for its age.
    AutoCloseFailed,
}

impl GuardState {
    /// Nothing known of the position yet.
    pub open spec fn fresh() -> GuardState {
        GuardState {
            own_stop_id: None,
            entry_used: zero(),
            stop_price: zero(),
            peak: zero(),
            trail_armed: false,
            last_milestone_roe: 0,
            trail_confirm_sent: false,
            ratchet_stuck_cycles: 0,
            last_hold_alert_min: 0,
            stop_error_notified: false,
            auto_close_attempted: false,
        }
    }

    /// The state of a position of which nothing is known yet.
    pub fn new() -> (r: GuardState)
        ensures
            r == GuardState::fresh(),
    {
        GuardState {
            own_stop_id: None,
            entry_used: zero(),
            stop_price: zero(),
            peak: zero(),
            trail_armed: false,
            last_milestone_roe: 0,
            trail_confirm_sent: false,
            ratchet_stuck_cycles: 0,
            last_hold_alert_min: 0,
            stop_error_notified: false,
            auto_close_attempted: false,
        }
    }
}

/// Whether a switch is on: it is unless it was set to something else than `1`.
pub open spec fn switch_spec(raw: Option<&str>) -> bool {
    match raw {
        Some(s) => s@ == "1"@,
        None => true,
    }
}

/// A setting that holds a decimal, or its default.
pub open spec fn dec_setting_spec(raw: Option<&str>, other: Dec) -> Dec {
    match raw {
        Some(s) => or_else(dec_of_text(s@), other),
        None => other,
    }
}

/// A setting that holds a number, or its default.
pub open spec fn u64_setting_spec(raw: Option<&str>, other: u64) -> u64 {
    match raw {
        Some(s) => match bounded_natural(s@, u64::MAX as int) {
            Some(n) => n as u64,
            None => other,
        },
        None => other,
    }
}

/// Whether a switch is on: it is unless it was set to something else than `1`.
#[verifier::when_used_as_spec(switch_spec)]
pub fn switch(raw: Option<&str>) -> (r: bool)
    ensures
        r == switch_spec(raw),
{
    match raw {
        Some(s) => same(s, "1"),
        None => true,
    }
}

/// A setting that holds a decimal, or its default.
#[verifier::when_used_as_spec(dec_setting_spec)]
pub fn dec_setting(raw: Option<&str>, other: Dec) -> (r: Dec)
    ensures
        r == dec_setting_spec(raw, other),
{
    match raw {
        Some(s) => or_else(parse_dec(s), other),
        None => other,
    }
}

/// A setting that holds a number, or its default.
#[verifier::when_used_as_spec(u64_setting_spec)]
pub fn u64_setting(raw: Option<&str>, other: u64) -> (r: u64)
    ensures
        r == u64_setting_spec(raw, other),
{
    match raw {
        Some(s) => match parse_u64(s) {
            Some(n) => n,
            None => other,
        },
        None => other,
    }
}

impl GuardConfig {
    /// The set-up that the stored settings make.
    pub fn read(
        enabled: Option<&str>,
        stop_roe: Option<&str>,
        alert_min: Option<&str>,
        auto_close_min: Option<&str>,
        trail_on: Option<&str>,
        arm_roe: Option<&str>,
        trail_roe: Option<&str>,
    ) -> (r: GuardConfig)
        ensures
            r == (GuardConfig {
                enabled: switch(enabled),
                stop_roe: dec_setting(stop_roe, lit(50, 0)),
                alert_min: u64_setting(alert_min, 30),
                auto_close_min: u64_setting(auto_close_min, 0),
                trail_on: switch(trail_on),
                arm_roe: dec_setting(arm_roe, lit(20, 0)),
                trail_roe: dec_setting(trail_roe, lit(15, 0)),
            }),
    {
        GuardConfig {
            enabled: switch(enabled),
            stop_roe: dec_setting(stop_roe, lit(50, 0)),
            alert_min: u64_setting(alert_min, 30),
            auto_close_min: u64_setting(auto_close_min, 0),
            trail_on: switch(trail_on),
            arm_roe: dec_setting(arm_roe, lit(20, 0)),
            trail_roe: dec_setting(trail_roe, lit(15, 0)),
        }
    }
}

/// The thresholds of a position: each return divided by the leverage, which counts as one at least.
pub open spec fn thresholds_of(cfg: GuardConfig, lev: Dec) -> Option<Thresholds> {
    let l = larger(lev, lit(1, 0));
    match (
        quotient(Some(cfg.stop_roe), Some(l)),
        quotient(Some(cfg.arm_roe), Some(l)),
        quotient(Some(cfg.trail_roe), Some(l)),
    ) {
        (Some(stop_pct), Some(arm_pct), Some(trail_pct)) => Some(
            Thresholds { lev: l, stop_pct, arm_pct, trail_pct },
        ),
        _ => None,
    }
}

impl Thresholds {
    /// The thresholds of a position; nothing where one of them is out of range.
    pub fn new(cfg: GuardConfig, lev: Dec) -> (r: Option<Thresholds>)
        ensures
            r == thresholds_of(cfg, lev),
            r matches Some(th) ==> th.lev.units() == (if lev.units() > unit() { lev.units() } else { unit() })
                && rounded(Some(th.stop_pct), cfg.stop_roe.units() * unit(), th.lev.units()) && rounded(
                Some(th.arm_pct),
                cfg.arm_roe.units() * unit(),
                th.lev.units(),
            ) && rounded(Some(th.trail_pct), cfg.trail_roe.units() * unit(), th.lev.units()),
    {
        proof {
            lemma_lit_units(1, 0);
        }
        let l = larger(lev, lit(1, 0));
        let stop = quotient(Some(cfg.stop_roe), Some(l));
        let arm = quotient(Some(cfg.arm_roe), Some(l));
        let trail = quotient(Some(cfg.trail_roe), Some(l));
        match (stop, arm, trail) {
            (Some(stop_pct), Some(arm_pct), Some(trail_pct)) => Some(
                Thresholds { lev: l, stop_pct, arm_pct, trail_pct },
            ),
            _ => None,
        }
    }
}

impl Held {
    /// Whether the position is long.
    pub open spec fn long(self) -> bool {
        self.amt.units() > 0
    }

    /// Whether the position is long.
    pub fn is_long(&self) -> (r: bool)
        ensures
            r == self.long(),
    {
        self.amt.is_positive()
    }
}

/// The best mark price once a new one is known.
pub open spec fn best_price(long: bool, peak: Dec, mark: Dec, entry: Dec) -> Dec {
    let base = if peak.units() <= 0 { mark } else { peak };
    let other = if peak.units() <= 0 { entry } else { mark };
    if long { larger(base, other) } else { smaller(base, other) }
}

/// The returns that are announced, lowest first.
pub open spec fn milestones() -> Seq<u32> {
    seq![10u32, 15, 20, 25, 30, 40, 50, 100]
}

/// The highest milestone announced, and what is announced, once the first `n` have been looked at.
pub open spec fn passed(roe: Dec, last: i32, n: nat) -> (i32, Seq<Notice>)
    decreases n,
{
    if n == 0 {
        (last, Seq::empty())
    } else {
        let (l, notices) = passed(roe, last, (n - 1) as nat);
        let level = milestones()[n - 1];
        if roe.units() >= lit(level, 0).units() && l < level {
            (level as i32, notices.push(Notice::Milestone { level: level as i32 }))
        } else {
            (l, notices)
        }
    }
}

/// The milestone at a place of the list.
fn milestone(i: usize) -> (r: u32)
    requires
        i < 8,
    ensures
        r == milestones()[i as int],
        r <= 100,
{
    if i == 0 {
        10
    } else if i == 1 {
        15
    } else if i == 2 {
        20
    } else if i == 3 {
        25
    } else if i == 4 {
        30
    } else if i == 5 {
        40
    } else if i == 6 {
        50
    } else {
        100
    }
}

/// Looks at all the milestones.
fn pass_milestones(roe: Dec, last: i32) -> (r: (i32, Vec<Notice>))
    ensures
        passed(roe, last, 8) == (r.0, r.1@),
{
    let mut top: i32 = last;
    let mut notices: Vec<Notice> = Vec::new();
    let mut i: usize = 0;
    while i < 8
        invariant
            i <= 8,
            passed(roe, last, i as nat) == (top, notices@),
        decreases 8 - i,
    {
        let level: u32 = milestone(i);
        if !roe.below(lit(level, 0)) && top < level as i32 {
            top = level as i32;
            notices.push(Notice::Milestone { level: level as i32 });
        }
        i = i + 1;
    }
    (top, notices)
}

/// The better of two stop prices: the higher one for a long position, the lower one for a short one.
pub open spec fn better_of(long: bool, a: Dec, b: Dec) -> Dec {
    if long { larger(a, b) } else { smaller(a, b) }
}

fn pick_better(long: bool, a: Dec, b: Dec) -> (r: Dec)
    ensures
        r == better_of(long, a, b),
{
    if long { larger(a, b) } else { smaller(a, b) }
}

impl GuardConfig {
    /// Whether the stop starts to follow the price above what it gives back, so that no profit turns into a
    /// loss.
    pub open spec fn arms_above_trail(&self) -> bool {
        self.arm_roe.units() > self.trail_roe.units()
    }
}

/// A stop price that leaves no loss, where the set-up promises that.
pub open spec fn secured(cfg: GuardConfig, held: Held, stop: Dec) -> Dec {
    if cfg.arms_above_trail() { better_of(held.long(), stop, held.entry) } else { stop }
}

fn secure(cfg: GuardConfig, held: Held, stop: Dec) -> (r: Dec)
    ensures
        r == secured(cfg, held, stop),
{
    if cfg.arm_roe.above(cfg.trail_roe) {
        pick_better(held.is_long(), stop, held.entry)
    } else {
        stop
    }
}

/// The state, and what is told, once the mark price has been looked at.
pub open spec fn followed(cfg: GuardConfig, th: Thresholds, held: Held, st: GuardState) -> Option<
    (GuardState, Seq<Notice>),
> {
    let long = held.long();
    if held.mark.units() <= 0 {
        Some((st, Seq::empty()))
    } else {
        let peak = best_price(long, st.peak, held.mark, held.entry);
        let peak_roe = product(gain_pct(long, peak, held.entry), Some(th.lev));
        let profit = gain_pct(long, held.mark, held.entry);
        if peak_roe is None || profit is None {
            None
        } else {
            let (last, notices) = passed(peak_roe->0, st.last_milestone_roe, 8);
            let seen = GuardState { peak, last_milestone_roe: last, ..st };
            if cfg.trail_on && !st.trail_armed && profit->0.units() >= th.arm_pct.units() {
                let at = line(long, peak, th.trail_pct);
                let roe = product(profit, Some(th.lev));
                if at is None || roe is None {
                    None
                } else {
                    Some(
                        (
                            GuardState { trail_armed: true, ..seen },
                            notices.push(
                                Notice::Armed {
                                    profit_roe: shown(roe->0, 1),
                                    floor: shown(secured(cfg, held, at->0), 6),
                                },
                            ),
                        ),
                    )
                }
            } else {
                Some((seen, notices))
            }
        }
    }
}

/// The best price has gained the percentage from which on the stop follows it, but for rounding.
pub open spec fn armed_in_profit(th: Thresholds, held: Held, st: GuardState) -> bool {
    &&& st.peak.units() > 0
    &&& reached(held.long(), st.peak.units(), held.entry.units(), th.arm_pct.units())
}

/// The stop starts to follow the price where the gain of the mark price over the entry price is the arming
/// percentage or more, but for rounding: it does where the gain is more, and it does not where it is less.
pub open spec fn arms_in_profit(cfg: GuardConfig, th: Thresholds, held: Held, was: bool, is: bool) -> bool {
    let g = gain(held.amt.units() > 0, held.mark.units(), held.entry.units());
    let (e, arm) = (held.entry.units(), th.arm_pct.units());
    let slack = 4 * (whole() * distance(g)) + precision() * (500 * e + 300 * unit());
    &&& was ==> is
    &&& cfg.trail_on && held.mark.units() > 0 && precision() * (whole() * g - e * arm) > slack ==> is
    &&& is && !was ==> cfg.trail_on && held.mark.units() > 0 && precision() * (whole() * g - e * arm) >= -slack
}

/// A gain that amounts to a percentage is at least another one where the percentages are so.
proof fn lemma_arms(long: bool, mark: int, entry: int, profit: int, arm: int)
    requires
        entry > 0,
        amounts_to(long, mark, entry, profit),
    ensures
        ({
            let g = gain(long, mark, entry);
            let slack = 4 * (whole() * distance(g)) + precision() * (500 * entry + 300 * unit());
            &&& precision() * (whole() * g - entry * arm) > slack ==> profit >= arm
            &&& profit >= arm ==> precision() * (whole() * g - entry * arm) >= -slack
        }),
{
    if profit < arm {
        assert(entry * profit <= entry * arm) by (nonlinear_arith)
            requires
                entry > 0,
                profit < arm,
        ;
    } else {
        assert(entry * profit >= entry * arm) by (nonlinear_arith)
            requires
                entry > 0,
                profit >= arm,
        ;
    }
}

/// Follows the mark price: the best price so far, the milestones, and whether the stop is to follow
/// the price from now on. Nothing where a figure is out of range.
pub fn follow(cfg: GuardConfig, th: Thresholds, held: Held, st: GuardState) -> (r: Option<
    (GuardState, Vec<Notice>),
>)
    ensures
        match r {
            Some((next, notices)) => followed(cfg, th, held, st) == Some((next, notices@)),
            None => followed(cfg, th, held, st) is None,
        },
        r matches Some((next, _)) ==> held.entry.units() > 0 && th.arm_pct.units() >= 0 && (
        st.trail_armed ==> armed_in_profit(th, held, st)) && next.trail_armed ==> armed_in_profit(
            th,
            held,
            next,
        ),
        r matches Some((next, _)) ==> held.entry.units() > 0 ==> arms_in_profit(
            cfg,
            th,
            held,
            st.trail_armed,
            next.trail_armed,
        ),
{
    let long = held.is_long();
    if !held.mark.is_positive() {
        return Some((st, Vec::new()));
    }
    let base = if st.peak.is_positive() { st.peak } else { held.mark };
    let other = if st.peak.is_positive() { held.mark } else { held.entry };
    let peak = if long { larger(base, other) } else { smaller(base, other) };
    let peak_roe = match product(gain_pct(long, peak, held.entry), Some(th.lev)) {
        Some(d) => d,
        None => return None,
    };
    let profit = match gain_pct(long, held.mark, held.entry) {
        Some(d) => d,
        None => return None,
    };
    let (last, mut notices) = pass_milestones(peak_roe, st.last_milestone_roe);
    let mut next = st;
    next.peak = peak;
    next.last_milestone_roe = last;
    proof {
        if held.entry.units() > 0 {
            lemma_arms(long, held.mark.units(), held.entry.units(), profit.units(), th.arm_pct.units());
        }
        if held.entry.units() > 0 && th.arm_pct.units() >= 0 {
            if st.trail_armed && armed_in_profit(th, held, st) {
                lemma_reached_further(
                    long,
                    st.peak.units(),
                    peak.units(),
                    held.entry.units(),
                    th.arm_pct.units(),
                    th.arm_pct.units(),
                );
            } else if profit.units() >= th.arm_pct.units() {
                lemma_reached_further(
                    long,
                    held.mark.units(),
                    peak.units(),
                    held.entry.units(),
                    profit.units(),
                    th.arm_pct.units(),
                );
            }
        }
    }
    if cfg.trail_on && !st.trail_armed && !profit.below(th.arm_pct) {
        let at = match line(long, peak, th.trail_pct) {
            Some(d) => d,
            None => return None,
        };
        let roe = match product(Some(profit), Some(th.lev)) {
            Some(d) => d,
            None => return None,
        };
        next.trail_armed = true;
        let floor = secure(cfg, held, at);
        notices.push(Notice::Armed { profit_roe: shown(roe, 1), floor: shown(floor, 6) });
    }
    Some((next, notices))
}

/// A price brought to a whole number of ticks, down or up; without a tick, to six places.
pub open spec fn aligned(px: Dec, tick: Option<Dec>, round_down: bool) -> Option<Dec> {
    if tick is Some && tick->0.units() > 0 {
        match quotient(Some(px), tick) {
            Some(steps) => product(
                Some(if round_down { floor(steps) } else { ceiling(steps) }),
                tick,
            ),
            None => None,
        }
    } else {
        Some(round(px, 6))
    }
}

/// Brings a stop price to a whole number of ticks, so that no order is refused for its precision: a
/// long position's stop down, a short one's up. It is a whole number of them unless the price has more
/// digits than a decimal holds, the one next to the price where the number of ticks is a decimal, and a
/// price that is a whole number of ticks stays: a second time changes nothing.
pub fn align_to_tick(px: Dec, tick: Option<Dec>, round_down: bool) -> (r: Option<Dec>)
    ensures
        r == aligned(px, tick, round_down),
        (r matches Some(a) && tick matches Some(t) && t.units() > 0 && px.units() >= 0)
            ==> within_tick(round_down, r->0.units(), px.units(), tick->0.units()),
        (r is Some && tick is Some && tick->0.units() > 0 && px.units() >= 0 && fits(
            2 * (px.units() + tick->0.units()),
            tick->0.places(),
        )) ==> on_grid(round_down, r->0.units(), px.units(), tick->0.units()) && ({
            let steps = quotient(Some(px), tick)->0.units();
            steps * tick->0.units() == px.units() * unit() ==> next_to(
                round_down,
                r->0.units(),
                px.units(),
                tick->0.units(),
            )
        }) && (px.units() % tick->0.units() == 0 && px.units() < magnitude_limit() * tick->0.units()
            ==> r->0.units() == px.units()),
{
    match tick {
        Some(t) if t.is_positive() => match quotient(Some(px), Some(t)) {
            Some(steps) => {
                let n = if round_down { floor(steps) } else { ceiling(steps) };
                let r = product(Some(n), Some(t));
                proof {
                    if r is Some && px.units() >= 0 {
                        lemma_within_tick(
                            round_down,
                            px.units(),
                            t.units(),
                            steps.units(),
                            n.units(),
                            r->0.units(),
                        );
                        if fits(2 * (px.units() + t.units()), t.places()) {
                            use_type_invariant(&t);
                            lemma_on_grid(round_down, px.units(), t, steps.units(), n, r->0);
                            lemma_next_to(round_down, px.units(), t, steps, n, r->0);
                        }
                    }
                }
                r
            },
            None => None,
        },
        _ => Some(round(px, 6)),
    }
}

/// The line of a stop: the line of the largest loss, or, once the stop follows the price, the better of
/// that line and the line behind the best price; no worse than the entry price, where the stop starts to
/// follow above what it gives back.
pub open spec fn stop_line(cfg: GuardConfig, th: Thresholds, held: Held, st: GuardState) -> Option<Dec> {
    let long = held.long();
    match line(long, held.entry, th.stop_pct) {
        None => None,
        Some(disaster) => if cfg.trail_on && st.trail_armed {
            match line(long, st.peak, th.trail_pct) {
                None => None,
                Some(trail) => Some(secured(cfg, held, better_of(long, disaster, trail))),
            }
        } else {
            Some(disaster)
        },
    }
}

/// The stop price that a position should have: its line on the grid of prices.
pub open spec fn desired_stop(
    cfg: GuardConfig,
    th: Thresholds,
    held: Held,
    st: GuardState,
    tick: Option<Dec>,
) -> Option<Dec> {
    match stop_line(cfg, th, held, st) {
        Some(px) => aligned(px, tick, held.long()),
        None => None,
    }
}

/// Whether a stop at this price leaves no loss: at the entry price or on the profitable side of it.
pub open spec fn leaves_entry(long: bool, stop: Dec, entry: Dec) -> bool {
    if long { stop.units() >= entry.units() } else { stop.units() <= entry.units() }
}

/// The stop price that a position should have. Once the stop follows the price, its line leaves no loss,
/// where it starts to follow above what it gives back; and the stop price is away from the line by a tick
/// at most.
pub fn desire(
    cfg: GuardConfig,
    th: Thresholds,
    held: Held,
    st: GuardState,
    tick: Option<Dec>,
) -> (r: Option<Dec>)
    ensures
        r == desired_stop(cfg, th, held, st, tick),
        r is Some && cfg.trail_on && st.trail_armed && cfg.arms_above_trail() ==> leaves_entry(
            held.long(),
            stop_line(cfg, th, held, st)->0,
            held.entry,
        ),
        ({
            let at = stop_line(cfg, th, held, st)->0.units();
            r is Some && tick is Some && tick->0.units() > 0 && at >= 0 ==> within_tick(
                held.long(),
                r->0.units(),
                at,
                tick->0.units(),
            ) && (fits(2 * (at + tick->0.units()), tick->0.places()) ==> on_grid(
                held.amt.units() > 0,
                r->0.units(),
                at,
                tick->0.units(),
            ))
        }),
        r is Some && cfg.trail_on && st.trail_armed ==> rounded(
            line(held.long(), st.peak, th.trail_pct),
            st.peak.units() * line_factor(held.long(), th.trail_pct)->0.units(),
            unit(),
        ),
        r is Some && held.entry.units() > 0 && 0 <= th.stop_pct.units() <= 5 * whole() && !(cfg.trail_on
            && st.trail_armed) ==> lies_behind(
            held.amt.units() > 0,
            stop_line(cfg, th, held, st)->0.units(),
            held.entry.units(),
            th.stop_pct.units(),
        ),
        r is Some && st.peak.units() > 0 && 0 <= th.trail_pct.units() <= 5 * whole() && cfg.trail_on
            && st.trail_armed ==> {
            let near = line(held.long(), st.peak, th.trail_pct)->0;
            &&& lies_behind(held.amt.units() > 0, near.units(), st.peak.units(), th.trail_pct.units())
            &&& leaves_entry(held.amt.units() > 0, stop_line(cfg, th, held, st)->0, near)
        },
{
    let long = held.is_long();
    let disaster = match line(long, held.entry, th.stop_pct) {
        Some(d) => d,
        None => return None,
    };
    let at = if cfg.trail_on && st.trail_armed {
        match line(long, st.peak, th.trail_pct) {
            Some(trail) => secure(cfg, held, pick_better(long, disaster, trail)),
            None => return None,
        }
    } else {
        disaster
    };
    align_to_tick(at, tick, long)
}

/// A stop order that stands on the exchange: its number and its trigger price, as far as known.
#[derive(Clone, Copy, Debug)]
pub struct ExistingStop {
    pub id: Option<u64>,
    pub trigger: Option<Dec>,
}

/// Whether an open order is a stop order for the whole position.
pub open spec fn is_close_stop(order: JsonView) -> bool {
    order.bool_field("closePosition"@) == Some(true) && order.text_field("orderType"@) == Some(
        "STOP_MARKET"@,
    )
}

/// The first stop order for the whole position among the orders from `i` on.
pub open spec fn first_stop(orders: Seq<JsonView>, i: int) -> Option<ExistingStop>
    decreases orders.len() - i,
{
    if i < 0 || i >= orders.len() {
        None
    } else if is_close_stop(orders[i]) {
        Some(
            ExistingStop {
                id: orders[i].u64_field("algoId"@),
                trigger: orders[i].dec_field("triggerPrice"@),
            },
        )
    } else {
        first_stop(orders, i + 1)
    }
}

/// Whether an open order is a stop order for the whole position.
fn check_close_stop(order: &Json) -> (r: bool)
    ensures
        r == is_close_stop(order@),
{
    let whole = match order.bool_field("closePosition") {
        Some(b) => b,
        None => false,
    };
    whole && match order.text_field("orderType") {
        Some(s) => same(s, "STOP_MARKET"),
        None => false,
    }
}

/// The first stop order for the whole position in a list of open orders.
pub fn find_stop(orders: &str) -> (r: Option<ExistingStop>)
    ensures
        r == first_stop(items_of_text(orders@), 0),
{
    let items = parse_items(orders);
    let ghost all = items_of_text(orders@);
    let mut i: usize = 0;
    while i < items.len()
        invariant
            i <= items.len(),
            all == items_of_text(orders@),
            all == views(items@),
            first_stop(all, 0) == first_stop(all, i as int),
        decreases items.len() - i,
    {
        assert(all[i as int] == items@[i as int]@);
        if check_close_stop(&items[i]) {
            return Some(
                ExistingStop {
                    id: items[i].u64_field("algoId"),
                    trigger: items[i].dec_field("triggerPrice"),
                },
            );
        }
        i = i + 1;
    }
    None
}

/// The numbers of the stop orders for the whole position among the first `n` orders.
pub open spec fn stop_ids(orders: Seq<JsonView>, n: int) -> Seq<u64>
    decreases n,
{
    if n <= 0 {
        Seq::empty()
    } else {
        let before = stop_ids(orders, n - 1);
        let order = orders[n - 1];
        if is_close_stop(order) && order.u64_field("algoId"@) is Some {
            before.push(order.u64_field("algoId"@)->0)
        } else {
            before
        }
    }
}

/// The stop orders that a closed position has left behind.
pub fn leftover_stops(orders: &str) -> (r: Vec<u64>)
    ensures
        r@ == stop_ids(items_of_text(orders@), items_of_text(orders@).len() as int),
{
    let items = parse_items(orders);
    let ghost all = items_of_text(orders@);
    let mut ids: Vec<u64> = Vec::new();
    let mut i: usize = 0;
    while i < items.len()
        invariant
            i <= items.len(),
            all == items_of_text(orders@),
            all == views(items@),
            ids@ == stop_ids(all, i as int),
        decreases items.len() - i,
    {
        assert(all[i as int] == items@[i as int]@);
        if check_close_stop(&items[i]) {
            if let Some(id) = items[i].u64_field("algoId") {
                ids.push(id);
            }
        }
        i = i + 1;
    }
    ids
}

/// The state once the stop order that stands on the exchange has been taken over.
pub open spec fn adopted(st: GuardState, stop: ExistingStop, entry: Dec) -> GuardState {
    if stop.id is Some && stop.trigger is Some && st.own_stop_id != stop.id {
        GuardState {
            own_stop_id: stop.id,
            stop_price: stop.trigger->0,
            entry_used: if st.entry_used.units() <= 0 { entry } else { st.entry_used },
            ..st
        }
    } else {
        st
    }
}

/// Whether the stop price that a position should have is better by a thousandth than the one it has.
pub open spec fn improves(long: bool, desired: Dec, stop_price: Dec) -> Option<bool> {
    if stop_price.units() <= 0 {
        Some(false)
    } else {
        match product(Some(stop_price), Some(if long { lit(1001, 3) } else { lit(999, 3) })) {
            Some(limit) => Some(
                if long {
                    desired.units() > limit.units()
                } else {
                    desired.units() < limit.units()
                },
            ),
            None => None,
        }
    }
}

/// Whether the entry price is more than half a percent away from the one that the stop was placed
/// for, while the stop does not follow the price.
pub open spec fn drifts(st: GuardState, entry: Dec) -> Option<bool> {
    if st.trail_armed || st.entry_used.units() <= 0 {
        Some(false)
    } else {
        match difference(Some(entry), Some(st.entry_used)) {
            Some(d) => match quotient(Some(absolute(d)), Some(entry)) {
                Some(q) => Some(q.units() > lit(5, 3).units()),
                None => None,
            },
            None => None,
        }
    }
}

/// What is to be done about the stop order.
#[derive(Clone, Copy, Debug)]
pub struct StopPlan {
    /// The state with the order on the exchange taken over.
    pub state: GuardState,
    /// The stop price that the position should have.
    pub desired: Dec,
    /// Whether an order is to be placed.
    pub place: bool,
    /// The order that it takes the place of.
    pub replace: Option<u64>,
    /// The trigger price of the order on the exchange.
    pub trigger: Option<Dec>,
}

/// What is to be done about the stop order: place one where there is none, and a new one where the
/// own one is no longer good enough.
pub open spec fn planned(
    cfg: GuardConfig,
    th: Thresholds,
    held: Held,
    st: GuardState,
    tick: Option<Dec>,
    stop: Option<ExistingStop>,
) -> Option<StopPlan> {
    let long = held.long();
    match (desired_stop(cfg, th, held, st, tick), stop) {
        (None, _) => None,
        (Some(desired), None) => Some(
            StopPlan { state: st, desired, place: true, replace: None, trigger: None },
        ),
        (Some(desired), Some(ex)) => {
            let state = adopted(st, ex, held.entry);
            let keep = StopPlan {
                state,
                desired,
                place: false,
                replace: None,
                trigger: ex.trigger,
            };
            if state.own_stop_id is Some && state.own_stop_id == ex.id {
                match (improves(long, desired, state.stop_price), drifts(state, held.entry)) {
                    (Some(better), Some(moved)) => if better || moved {
                        Some(StopPlan { place: true, replace: ex.id, ..keep })
                    } else {
                        Some(keep)
                    },
                    _ => None,
                }
            } else {
                Some(keep)
            }
        },
    }
}

/// A thousandth more than a price is no lower than the price, a thousandth less no higher.
proof fn lemma_beyond(long: bool, price: Dec, factor: Dec, limit: Dec)
    requires
        price.units() > 0,
        factor == (if long { lit(1001, 3) } else { lit(999, 3) }),
        rounded(Some(limit), price.units() * factor.units(), unit()),
    ensures
        long ==> limit.units() >= price.units(),
        !long ==> limit.units() <= price.units(),
{
    lemma_lit_units(if long { 1001 } else { 999 }, 3);
    let x = price.units();
    let r = limit.units();
    let u = unit();
    let p = precision();
    let f = factor.units();
    assert(long ==> f == 10010000000000000000000000000);
    assert(!long ==> f == 9990000000000000000000000000);
    let e = distance(r * u - x * f);
    if long {
        assert(r >= x) by (nonlinear_arith)
            requires
                x > 0,
                f == 10010000000000000000000000000,
                u == 10000000000000000000000000000,
                p == 4951760157141521099596496896,
                (x * f - r * u) * p <= u * p + x * f,
        ;
    } else {
        assert(r <= x) by (nonlinear_arith)
            requires
                x > 0,
                f == 9990000000000000000000000000,
                u == 10000000000000000000000000000,
                p == 4951760157141521099596496896,
                (r * u - x * f) * p <= u * p + x * f,
        ;
    }
}

/// Whether a price is better for a stop than another: higher for a long position, lower for a short
/// one.
pub open spec fn better_stop(long: bool, a: Dec, b: Dec) -> bool {
    if long { a.units() > b.units() } else { a.units() < b.units() }
}

/// By how much a stop price is better than another and a thousandth of it, in thousandths: more than nothing
/// where it is higher than it by more than a thousandth for a long position, lower for a short one.
pub open spec fn beyond(long: bool, price: int, stop: int) -> int {
    if long { 1000 * price - 1001 * stop } else { 999 * stop - 1000 * price }
}

/// How far rounding can carry the limit that a better stop price has to pass, in thousandths and times the
/// precision.
pub open spec fn blur(stop: int) -> int {
    1000 * precision() + 1001 * stop
}

/// The limit that a better stop price has to pass is a thousandth away from the old one.
proof fn lemma_limit(long: bool, price: Dec, desired: int, limit: Dec)
    requires
        price.units() > 0,
        rounded(
            Some(limit),
            price.units() * (if long { lit(1001, 3) } else { lit(999, 3) }).units(),
            unit(),
        ),
    ensures
        ({
            let passes = if long { desired > limit.units() } else { desired < limit.units() };
            let by = beyond(long, desired, price.units());
            &&& by * precision() > blur(price.units()) ==> passes
            &&& passes ==> by * precision() > -blur(price.units())
            &&& forall|e: Dec|
                e.wf() && #[trigger] e.units() * 1000 == price.units() * (if long { 1001int } else { 999 })
                    ==> (passes <==> by > 0)
        }),
{
    lemma_lit_units(1001, 3);
    lemma_lit_units(999, 3);
    let x = price.units();
    let k = if long { 1001int } else { 999 };
    let f = (if long { lit(1001, 3) } else { lit(999, 3) }).units();
    assert(f == k * (unit() / 1000));
    assert(x * f == (unit() / 1000) * (k * x)) by (nonlinear_arith)
        requires
            f == k * (unit() / 1000),
    ;
    let kx = k * x;
    assert(kx == if long { 1001 * x } else { 999 * x });
    assert(distance(1000 * limit.units() - kx) * precision() <= 1000 * precision() + kx);
    assert forall|e: Dec|
        e.wf() && #[trigger] e.units() * 1000 == price.units() * k implies limit.units()
        == e.units() by {
        assert(e.units() * unit() == x * f);
    }
}

/// Whether the stop price that a position should have is better by a thousandth than the one it has.
/// If so it is better; and where it is better by more than a thousandth, rounding left aside, the answer is
/// yes, and only there.
fn check_improves(long: bool, desired: Dec, stop_price: Dec) -> (r: Option<bool>)
    ensures
        r == improves(long, desired, stop_price),
        r == Some(true) ==> better_stop(long, desired, stop_price),
        stop_price.units() <= 0 ==> r == Some(false),
        ({
            let s = stop_price.units();
            let by = beyond(long, desired.units(), s);
            s > 0 ==> {
                &&& 1001 * s < 1000 * (magnitude_limit() - 1) * unit() ==> r is Some
                &&& by * precision() > blur(s) ==> r != Some(false)
                &&& r == Some(true) ==> by * precision() > -blur(s)
                &&& forall|e: Dec|
                    e.wf() && #[trigger] e.units() * 1000 == s * (if long { 1001int } else { 999 }) ==> (r
                        is Some ==> (r == Some(true) <==> by > 0))
            }
        }),
{
    if !stop_price.is_positive() {
        return Some(false);
    }
    let factor = if long { lit(1001, 3) } else { lit(999, 3) };
    match product(Some(stop_price), Some(factor)) {
        Some(limit) => {
            proof {
                lemma_beyond(long, stop_price, factor, limit);
                lemma_limit(long, stop_price, desired.units(), limit);
            }
            Some(if long { desired.above(limit) } else { desired.below(limit) })
        },
        None => {
            proof {
                lemma_lit_units(1001, 3);
                lemma_lit_units(999, 3);
                let x = stop_price.units();
                let k = if long { 1001int } else { 999 };
                assert(x * factor.units() == (unit() / 1000) * (k * x)) by (nonlinear_arith)
                    requires
                        factor.units() == k * (unit() / 1000),
                ;
            }
            None
        },
    }
}

/// By how much an entry price is further from another than half a percent of it, in thousandths.
pub open spec fn strays(entry: int, used: int) -> int {
    1000 * distance(entry - used) - 5 * entry
}

/// How far rounding can carry that, times the precision.
pub open spec fn stray_blur(entry: int, used: int) -> int {
    3000 * distance(entry - used) + 2000 * precision() + 1000 * entry
}

/// A part of an entry price that was computed from a distance is more than half a percent where the distance
/// is, but for rounding.
proof fn lemma_strays(entry: int, used: int, d: int, q: int)
    requires
        entry > 0,
        distance(d - (entry - used)) * precision() <= precision() + distance(entry - used),
        distance(q * entry - distance(d) * unit()) * precision() <= entry * precision() + distance(d)
            * unit(),
    ensures
        strays(entry, used) * precision() > stray_blur(entry, used) ==> q > 5 * (unit() / 1000),
        q > 5 * (unit() / 1000) ==> strays(entry, used) * precision() > -stray_blur(entry, used),
{
    let m = distance(entry - used);
    let a = distance(d);
    let qe = q * entry;
    assert(5 * (unit() / 1000) == 50000000000000000000000000);
    assert(a * precision() >= m * precision() - precision() - m);
    assert(a * precision() <= m * precision() + precision() + m);
    assert(distance(qe - a * unit()) * precision() <= entry * precision() + a * unit());
    if q > 50000000000000000000000000 {
        assert(qe >= 50000000000000000000000000 * entry) by (nonlinear_arith)
            requires
                qe == q * entry,
                q > 50000000000000000000000000,
                entry > 0,
        ;
        assert(a * unit() * (precision() + 1) >= qe * precision() - entry * precision());
    } else {
        assert(qe <= 50000000000000000000000000 * entry) by (nonlinear_arith)
            requires
                qe == q * entry,
                q <= 50000000000000000000000000,
                entry > 0,
        ;
        assert(a * unit() * (precision() - 1) <= qe * precision() + entry * precision());
    }
}

/// Whether the entry price has moved away from the one that the stop was placed for: by more than half a
/// percent of it, rounding left aside, and only while the stop does not follow the price.
fn check_drifts(st: GuardState, entry: Dec) -> (r: Option<bool>)
    ensures
        r == drifts(st, entry),
        st.trail_armed || st.entry_used.units() <= 0 ==> r == Some(false),
        ({
            let (e, used) = (entry.units(), st.entry_used.units());
            !st.trail_armed && used > 0 && e > 0 ==> {
                &&& distance(e - used) < (magnitude_limit() - 1) * unit() && 2 * distance(e - used) + 1 < (
                magnitude_limit() - 1) * e ==> r is Some
                &&& strays(e, used) * precision() > stray_blur(e, used) ==> r != Some(false)
                &&& r == Some(true) ==> strays(e, used) * precision() > -stray_blur(e, used)
            }
        }),
{
    if st.trail_armed || !st.entry_used.is_positive() {
        return Some(false);
    }
    proof {
        lemma_lit_units(5, 3);
    }
    match difference(Some(entry), Some(st.entry_used)) {
        Some(d) => {
            proof {
                lemma_absolute(d);
            }
            match quotient(Some(absolute(d)), Some(entry)) {
                Some(q) => {
                    proof {
                        if entry.units() > 0 {
                            lemma_strays(entry.units(), st.entry_used.units(), d.units(), q.units());
                        }
                    }
                    Some(q.above(lit(5, 3)))
                },
                None => {
                    proof {
                        let (e, a) = (entry.units(), distance(d.units()));
                        if e > 0 {
                            assert(a >= (magnitude_limit() - 1) * e) by (nonlinear_arith)
                                requires
                                    a * unit() >= (magnitude_limit() - 1) * unit() * e,
                            ;
                        }
                    }
                    None
                },
            }
        },
        None => None,
    }
}

/// A stop order that stands is moved where it should be, for long and for short positions. It is the one that
/// is known, or one that is taken over with its trigger price. It gives way to an order at the price that the
/// stop should have where that is better by more than a thousandth, or where the entry price has moved by
/// more than half a percent while the stop does not follow the price; otherwise it stays. A position without
/// a stop order gets one.
pub open spec fn moves_when_better(
    held: Held,
    st: GuardState,
    stop: Option<ExistingStop>,
    plan: StopPlan,
) -> bool {
    match stop {
        None => plan.place && plan.replace is None,
        Some(ex) => {
            let known = ex.id is Some && st.own_stop_id == ex.id;
            let found = ex.id is Some && st.own_stop_id != ex.id && ex.trigger is Some;
            let s = if known { st.stop_price.units() } else { ex.trigger->0.units() };
            let (e, used) = (
                held.entry.units(),
                if found && st.entry_used.units() <= 0 { held.entry.units() } else { st.entry_used.units() },
            );
            let by = beyond(held.amt.units() > 0, plan.desired.units(), s);
            &&& plan.place ==> plan.replace is Some && plan.replace == ex.id
            &&& (known || found) && s > 0 && by * precision() > blur(s) ==> plan.place
            &&& (known || found) && !st.trail_armed && used > 0 && e > 0 && strays(e, used) * precision()
                > stray_blur(e, used) ==> plan.place
            &&& plan.place ==> (known || found) && ((s > 0 && by * precision() > -blur(s)) || (
            !st.trail_armed && used > 0 && (e > 0 ==> strays(e, used) * precision() > -stray_blur(e, used))))
        },
    }
}

/// Decides what is to be done about the stop order. Once the stop follows the price, an own order
/// gives way to a better one only. Nothing where a figure is out of range.
pub fn plan_stop(
    cfg: GuardConfig,
    th: Thresholds,
    held: Held,
    st: GuardState,
    tick: Option<Dec>,
    stop: Option<ExistingStop>,
) -> (r: Option<StopPlan>)
    ensures
        r == planned(cfg, th, held, st, tick, stop),
        r matches Some(plan) ==> plan.replace is Some && st.trail_armed ==> better_stop(
            held.long(),
            plan.desired,
            plan.state.stop_price,
        ),
        r matches Some(plan) ==> moves_when_better(held, st, stop, plan),
{
    let long = held.is_long();
    let desired = match desire(cfg, th, held, st, tick) {
        Some(d) => d,
        None => return None,
    };
    let ex = match stop {
        Some(ex) => ex,
        None => {
            return Some(
                StopPlan { state: st, desired, place: true, replace: None, trigger: None },
            );
        },
    };
    let mut state = st;
    if let (Some(id), Some(trigger)) = (ex.id, ex.trigger) {
        let known = match st.own_stop_id {
            Some(own) => own == id,
            None => false,
        };
        if !known {
            state.own_stop_id = Some(id);
            state.stop_price = trigger;
            if !st.entry_used.is_positive() {
                state.entry_used = held.entry;
            }
        }
    }
    assert(state == adopted(st, ex, held.entry));
    let mut plan = StopPlan { state, desired, place: false, replace: None, trigger: ex.trigger };
    let ours = match (state.own_stop_id, ex.id) {
        (Some(own), Some(id)) => own == id,
        _ => false,
    };
    if ours {
        let better = check_improves(long, desired, state.stop_price);
        let moved = check_drifts(state, held.entry);
        match (better, moved) {
            (Some(b), Some(m)) => {
                if b || m {
                    plan.place = true;
                    plan.replace = ex.id;
                }
            },
            _ => return None,
        }
    }
    Some(plan)
}

/// The state, and what is told, once the planned stop order stands under its number.
pub open spec fn placed(held: Held, plan: StopPlan, id: u64) -> Option<(GuardState, Seq<Notice>)> {
    let stop = plan.desired;
    let state = GuardState {
        own_stop_id: Some(id),
        entry_used: held.entry,
        stop_price: stop,
        stop_error_notified: false,
        ratchet_stuck_cycles: 0,
        ..plan.state
    };
    if state.trail_armed {
        let sign = if held.long() { lit(1, 0) } else { opposite(lit(1, 0)) };
        let locked = product(
            product(Some(absolute(held.amt)), difference(Some(stop), Some(held.entry))),
            Some(sign),
        );
        match locked {
            None => None,
            Some(l) => if state.trail_confirm_sent {
                Some((state, Seq::empty()))
            } else {
                Some(
                    (
                        GuardState { trail_confirm_sent: true, ..state },
                        seq![Notice::StopMoved { stop: normal(stop), locked: shown(l, 2) }],
                    ),
                )
            },
        }
    } else {
        let loss = match difference(Some(held.entry), Some(stop)) {
            Some(d) => product(Some(absolute(held.amt)), Some(absolute(d))),
            None => None,
        };
        match loss {
            None => None,
            Some(l) => Some(
                (state, seq![Notice::Protected { stop: normal(stop), est_loss: shown(l, 2) }]),
            ),
        }
    }
}

/// Takes note of a stop order that was placed. Nothing where a figure is out of range.
pub fn stop_placed(held: Held, plan: StopPlan, id: u64) -> (r: Option<(GuardState, Vec<Notice>)>)
    ensures
        match r {
            Some((next, notices)) => placed(held, plan, id) == Some((next, notices@)),
            None => placed(held, plan, id) is None,
        },
{
    let stop = plan.desired;
    let mut state = plan.state;
    state.own_stop_id = Some(id);
    state.entry_used = held.entry;
    state.stop_price = stop;
    state.stop_error_notified = false;
    state.ratchet_stuck_cycles = 0;
    let mut notices: Vec<Notice> = Vec::new();
    if state.trail_armed {
        let sign = if held.is_long() { lit(1, 0) } else { opposite(lit(1, 0)) };
        let gain = difference(Some(stop), Some(held.entry));
        let locked = match product(product(Some(absolute(held.amt)), gain), Some(sign)) {
            Some(l) => l,
            None => return None,
        };
        if !state.trail_confirm_sent {
            state.trail_confirm_sent = true;
            notices.push(Notice::StopMoved { stop: normal(stop), locked: shown(locked, 2) });
        }
    } else {
        let d = match difference(Some(held.entry), Some(stop)) {
            Some(d) => d,
            None => return None,
        };
        let loss = match product(Some(absolute(held.amt)), Some(absolute(d))) {
            Some(l) => l,
            None => return None,
        };
        notices.push(Notice::Protected { stop: normal(stop), est_loss: shown(loss, 2) });
    }
    Some((state, notices))
}

/// The state, and what is told, once the planned stop order was refused. An order that was to be
/// replaced still stands, so nothing is told then.
pub open spec fn refused(plan: StopPlan) -> (GuardState, Seq<Notice>) {
    if plan.replace is None && !plan.state.stop_error_notified {
        (GuardState { stop_error_notified: true, ..plan.state }, seq![Notice::Unprotected])
    } else {
        (plan.state, Seq::empty())
    }
}

/// Takes note of a stop order that was refused.
pub fn stop_refused(plan: StopPlan) -> (r: (GuardState, Vec<Notice>))
    ensures
        refused(plan) == (r.0, r.1@),
{
    let mut state = plan.state;
    let mut notices: Vec<Notice> = Vec::new();
    if plan.replace.is_none() && !state.stop_error_notified {
        state.stop_error_notified = true;
        notices.push(Notice::Unprotected);
    }
    (state, notices)
}

/// Whether the stop order on the exchange is behind by more than half a percent.
pub open spec fn lags(long: bool, desired: Dec, trigger: Option<Dec>) -> Option<bool> {
    match trigger {
        None => Some(false),
        Some(t) => match product(Some(t), Some(if long { lit(1005, 3) } else { lit(995, 3) })) {
            Some(limit) => Some(
                if long {
                    desired.units() > limit.units()
                } else {
                    desired.units() < limit.units()
                },
            ),
            None => None,
        },
    }
}

/// The state, and what is told, after a round in which no stop order was placed: how long the order
/// on the exchange has been behind, told in the third round and then in every ninetieth.
pub open spec fn watched(cfg: GuardConfig, long: bool, plan: StopPlan, st: GuardState) -> Option<
    (GuardState, Seq<Notice>),
> {
    if !cfg.trail_on || !st.trail_armed {
        Some((st, Seq::empty()))
    } else {
        match lags(long, plan.desired, plan.trigger) {
            None => None,
            Some(false) => Some((GuardState { ratchet_stuck_cycles: 0, ..st }, Seq::empty())),
            Some(true) => if st.ratchet_stuck_cycles == u32::MAX {
                None
            } else {
                let cycles = (st.ratchet_stuck_cycles + 1) as u32;
                let next = GuardState { ratchet_stuck_cycles: cycles, ..st };
                if cycles == 3 || cycles % 90 == 0 {
                    Some(
                        (
                            next,
                            seq![
                                Notice::RatchetStuck {
                                    trigger: normal(or_else(plan.trigger, zero())),
                                    desired: normal(plan.desired),
                                    cycles,
                                },
                            ],
                        ),
                    )
                } else {
                    Some((next, Seq::empty()))
                }
            },
        }
    }
}

/// Counts the rounds for which the stop order on the exchange has been behind. Nothing where a figure
/// is out of range.
pub fn watch_ratchet(cfg: GuardConfig, long: bool, plan: StopPlan, st: GuardState) -> (r: Option<
    (GuardState, Vec<Notice>),
>)
    ensures
        match r {
            Some((next, notices)) => watched(cfg, long, plan, st) == Some((next, notices@)),
            None => watched(cfg, long, plan, st) is None,
        },
{
    let mut next = st;
    let mut notices: Vec<Notice> = Vec::new();
    if !cfg.trail_on || !st.trail_armed {
        return Some((next, notices));
    }
    let lagging = match plan.trigger {
        None => false,
        Some(t) => {
            let factor = if long { lit(1005, 3) } else { lit(995, 3) };
            match product(Some(t), Some(factor)) {
                Some(limit) => if long {
                    plan.desired.above(limit)
                } else {
                    plan.desired.below(limit)
                },
                None => return None,
            }
        },
    };
    if !lagging {
        next.ratchet_stuck_cycles = 0;
        return Some((next, notices));
    }
    if st.ratchet_stuck_cycles == u32::MAX {
        return None;
    }
    let cycles: u32 = st.ratchet_stuck_cycles + 1;
    next.ratchet_stuck_cycles = cycles;
    if cycles == 3 || cycles % 90 == 0 {
        notices.push(
            Notice::RatchetStuck {
                trigger: normal(or_else(plan.trigger, zero())),
                desired: normal(plan.desired),
                cycles,
            },
        );
    }
    Some((next, notices))
}

/// Whether a reminder is due: at the set age, and again each time that age has passed since the last.
pub open spec fn alert_due(cfg: GuardConfig, st: GuardState, minutes: u64) -> bool {
    &&& cfg.alert_min > 0
    &&& minutes >= cfg.alert_min
    &&& st.last_hold_alert_min == 0 || minutes >= st.last_hold_alert_min + cfg.alert_min
}

/// Whether the position is to be closed for its age.
pub open spec fn close_due(cfg: GuardConfig, st: GuardState, minutes: u64) -> bool {
    &&& cfg.auto_close_min > 0
    &&& minutes >= cfg.auto_close_min
    &&& !st.auto_close_attempted
}

/// For how many minutes a position has been held.
pub open spec fn held_minutes_spec(opened_at: u64, now_ms: u64) -> u64 {
    if now_ms >= opened_at { ((now_ms - opened_at) / 60000) as u64 } else { 0 }
}

/// For how many minutes a position has been held, from the milliseconds of two moments.
#[verifier::when_used_as_spec(held_minutes_spec)]
pub fn held_minutes(opened_at: u64, now_ms: u64) -> (r: u64)
    ensures
        r == held_minutes_spec(opened_at, now_ms),
{
    if now_ms >= opened_at { (now_ms - opened_at) / 60000 } else { 0 }
}

/// Where a round through one position stands.
#[derive(Clone, Copy, Debug)]
pub enum Phase {
    /// The open orders are to be read.
    Reading,
    /// The planned stop order is to be placed.
    Placing(StopPlan),
    /// The order that it took the place of is to be cancelled.
    Cancelling(u64),
    /// The position is to be closed for its age.
    Closing,
    /// The round is over.
    Finished,
}

/// What the round asks for next.
#[derive(Clone, Copy, Debug)]
pub enum Ask {
    /// Read the open orders of the symbol.
    ReadOrders,
    /// Place a stop order that closes the whole position.
    PlaceStop { side: Side, price: Dec },
    /// Cancel an order.
    Cancel { id: u64 },
    /// Close the position at the market, with an order that can only reduce it.
    ClosePosition { side: Side, qty: Dec },
    /// Nothing more: store the state.
    Store,
}

/// What came back.
#[derive(Clone, Copy, Debug)]
pub enum Reply {
    /// The open orders could not be read.
    OrdersUnknown,
    /// The open orders hold this stop order, or none.
    Orders(Option<ExistingStop>),
    /// The stop order stands under this number.
    Placed(u64),
    /// The order was refused.
    Refused,
    /// The order was accepted, or the cancellation was answered one way or the other.
    Done,
}

/// A round of the guardian through one position.
#[derive(Clone, Copy, Debug)]
pub struct Patrol {
    pub cfg: GuardConfig,
    pub th: Thresholds,
    pub held: Held,
    pub tick: Option<Dec>,
    pub minutes: u64,
    pub state: GuardState,
    pub phase: Phase,
}

impl Patrol {
    /// What the phase asks for.
    pub open spec fn asks(self) -> Ask {
        let side = closing_side(self.held.long());
        match self.phase {
            Phase::Reading => Ask::ReadOrders,
            Phase::Placing(plan) => Ask::PlaceStop { side, price: normal(plan.desired) },
            Phase::Cancelling(id) => Ask::Cancel { id },
            Phase::Closing => Ask::ClosePosition { side, qty: normal(absolute(self.held.amt)) },
            Phase::Finished => Ask::Store,
        }
    }

    /// What the round asks for next.
    pub fn ask(&self) -> (r: Ask)
        ensures
            r == self.asks(),
            r matches Ask::PlaceStop { price, .. } ==> (self.phase matches Phase::Placing(plan)
                && price.units() == plan.desired.units()),
            r matches Ask::ClosePosition { qty, .. } ==> qty.units() == distance(
                self.held.amt.units(),
            ),
    {
        proof {
            lemma_absolute(self.held.amt);
        }
        let side = closing_side(self.held.is_long());
        match self.phase {
            Phase::Reading => Ask::ReadOrders,
            Phase::Placing(plan) => Ask::PlaceStop { side, price: normal(plan.desired) },
            Phase::Cancelling(id) => Ask::Cancel { id },
            Phase::Closing => Ask::ClosePosition { side, qty: normal(absolute(self.held.amt)) },
            Phase::Finished => Ask::Store,
        }
    }

    /// The round with the age of the position looked at: a reminder, and the order to close it.
    pub open spec fn aged(self) -> (Patrol, Seq<Notice>) {
        let due = alert_due(self.cfg, self.state, self.minutes);
        let state = if due {
            GuardState { last_hold_alert_min: self.minutes, ..self.state }
        } else {
            self.state
        };
        let notices = if due {
            seq![Notice::HeldTooLong { minutes: self.minutes, upnl: shown(self.held.upnl, 2) }]
        } else {
            Seq::empty()
        };
        if close_due(self.cfg, state, self.minutes) {
            (
                Patrol {
                    state: GuardState { auto_close_attempted: true, ..state },
                    phase: Phase::Closing,
                    ..self
                },
                notices,
            )
        } else {
            (Patrol { state, phase: Phase::Finished, ..self }, notices)
        }
    }

    fn age(self) -> (r: (Patrol, Vec<Notice>))
        ensures
            self.aged() == (r.0, r.1@),
    {
        let mut next = self;
        let mut notices: Vec<Notice> = Vec::new();
        let last: u128 = self.state.last_hold_alert_min as u128;
        let wait: u128 = self.cfg.alert_min as u128;
        if wait > 0 && self.minutes >= self.cfg.alert_min && (last == 0 || self.minutes as u128
            >= last + wait) {
            next.state.last_hold_alert_min = self.minutes;
            notices.push(
                Notice::HeldTooLong { minutes: self.minutes, upnl: shown(self.held.upnl, 2) },
            );
        }
        if self.cfg.auto_close_min > 0 && self.minutes >= self.cfg.auto_close_min
            && !next.state.auto_close_attempted {
            next.state.auto_close_attempted = true;
            next.phase = Phase::Closing;
        } else {
            next.phase = Phase::Finished;
        }
        (next, notices)
    }

    /// The round after the orders were read.
    pub open spec fn after_orders(self, stop: Option<ExistingStop>) -> Option<
        (Patrol, Seq<Notice>),
    > {
        match planned(self.cfg, self.th, self.held, self.state, self.tick, stop) {
            None => None,
            Some(plan) => if plan.place {
                Some(
                    (
                        Patrol { state: plan.state, phase: Phase::Placing(plan), ..self },
                        Seq::empty(),
                    ),
                )
            } else {
                self.settled(plan, plan.state, Seq::empty())
            },
        }
    }

    /// The round after it is known that no stop order was placed in it.
    pub open spec fn settled(self, plan: StopPlan, st: GuardState, told: Seq<Notice>) -> Option<
        (Patrol, Seq<Notice>),
    > {
        match watched(self.cfg, self.held.long(), plan, st) {
            None => None,
            Some((state, stuck)) => {
                let (next, old) = Patrol { state, ..self }.aged();
                Some((next, told + stuck + old))
            },
        }
    }

    /// The round after a reply. A reply that does not fit the phase changes nothing.
    pub open spec fn after(self, reply: Reply) -> Option<(Patrol, Seq<Notice>)> {
        match (self.phase, reply) {
            (Phase::Reading, Reply::OrdersUnknown) => Some(self.aged()),
            (Phase::Reading, Reply::Orders(stop)) => self.after_orders(stop),
            (Phase::Placing(plan), Reply::Placed(id)) => match placed(self.held, plan, id) {
                None => None,
                Some((state, told)) => match plan.replace {
                    Some(old) => Some(
                        (Patrol { state, phase: Phase::Cancelling(old), ..self }, told),
                    ),
                    None => {
                        let (next, rest) = Patrol { state, ..self }.aged();
                        Some((next, told + rest))
                    },
                },
            },
            (Phase::Placing(plan), Reply::Refused) => {
                let (state, told) = refused(plan);
                self.settled(plan, state, told)
            },
            (Phase::Cancelling(_), Reply::Done) => Some(self.aged()),
            (Phase::Closing, Reply::Done) => Some(
                (
                    Patrol { phase: Phase::Finished, ..self },
                    seq![
                        Notice::AutoClosed {
                            minutes: self.minutes,
                            upnl: shown(self.held.upnl, 2),
                        },
                    ],
                ),
            ),
            (Phase::Closing, Reply::Refused) => Some(
                (
                    Patrol {
                        state: GuardState { auto_close_attempted: false, ..self.state },
                        phase: Phase::Finished,
                        ..self
                    },
                    seq![Notice::AutoCloseFailed],
                ),
            ),
            _ => Some((self, Seq::empty())),
        }
    }

    fn settle(self, plan: StopPlan, st: GuardState, told: Vec<Notice>) -> (r: Option<
        (Patrol, Vec<Notice>),
    >)
        ensures
            match r {
                Some((next, notices)) => self.settled(plan, st, told@) == Some((next, notices@)),
                None => self.settled(plan, st, told@) is None,
            },
    {
        let mut told = told;
        let (state, mut stuck) = match watch_ratchet(self.cfg, self.held.is_long(), plan, st) {
            Some(x) => x,
            None => return None,
        };
        let mut here = self;
        here.state = state;
        let (next, mut old_age) = here.age();
        told.append(&mut stuck);
        told.append(&mut old_age);
        Some((next, told))
    }

    /// A stop order that is about to take the place of another is better, where the stop follows
    /// the price.
    pub open spec fn ratchets(self) -> bool {
        self.phase matches Phase::Placing(plan) ==> {
            &&& plan.state == self.state
            &&& plan.replace is Some && self.state.trail_armed ==> better_stop(
                self.held.long(),
                plan.desired,
                self.state.stop_price,
            )
        }
    }

    /// Takes the reply to what the round asked for. Nothing where a figure is out of range.
    pub fn advance(self, reply: Reply) -> (r: Option<(Patrol, Vec<Notice>)>)
        ensures
            match r {
                Some((next, notices)) => self.after(reply) == Some((next, notices@)),
                None => self.after(reply) is None,
            },
            r matches Some((next, _)) ==> self.ratchets() ==> next.ratchets(),
            match (r, reply) {
                (Some((next, _)), Reply::Orders(stop)) if self.phase is Reading => exists|plan: StopPlan|
                    #[trigger]
                    moves_when_better(self.held, self.state, stop, plan) && desired_stop(
                        self.cfg,
                        self.th,
                        self.held,
                        self.state,
                        self.tick,
                    ) == Some(plan.desired) && (if plan.place {
                        next.phase == Phase::Placing(plan)
                    } else {
                        !(next.phase is Placing)
                    }),
                _ => true,
            },
    {
        match (self.phase, reply) {
            (Phase::Reading, Reply::OrdersUnknown) => Some(self.age()),
            (Phase::Reading, Reply::Orders(stop)) => {
                let plan = match plan_stop(
                    self.cfg,
                    self.th,
                    self.held,
                    self.state,
                    self.tick,
                    stop,
                ) {
                    Some(plan) => plan,
                    None => return None,
                };
                if plan.place {
                    let mut next = self;
                    next.state = plan.state;
                    next.phase = Phase::Placing(plan);
                    Some((next, Vec::new()))
                } else {
                    self.settle(plan, plan.state, Vec::new())
                }
            },
            (Phase::Placing(plan), Reply::Placed(id)) => {
                let (state, mut told) = match stop_placed(self.held, plan, id) {
                    Some(x) => x,
                    None => return None,
                };
                let mut here = self;
                here.state = state;
                match plan.replace {
                    Some(old) => {
                        here.phase = Phase::Cancelling(old);
                        Some((here, told))
                    },
                    None => {
                        let (next, mut rest) = here.age();
                        told.append(&mut rest);
                        Some((next, told))
                    },
                }
            },
            (Phase::Placing(plan), Reply::Refused) => {
                let (state, told) = stop_refused(plan);
                self.settle(plan, state, told)
            },
            (Phase::Cancelling(_), Reply::Done) => Some(self.age()),
            (Phase::Closing, Reply::Done) => {
                let mut next = self;
                next.phase = Phase::Finished;
                let mut notices: Vec<Notice> = Vec::new();
                notices.push(
                    Notice::AutoClosed { minutes: self.minutes, upnl: shown(self.held.upnl, 2) },
                );
                Some((next, notices))
            },
            (Phase::Closing, Reply::Refused) => {
                let mut next = self;
                next.state.auto_close_attempted = false;
                next.phase = Phase::Finished;
                let mut notices: Vec<Notice> = Vec::new();
                notices.push(Notice::AutoCloseFailed);
                Some((next, notices))
            },
            _ => Some((self, Vec::new())),
        }
    }
}

/// How a round through a position starts.
pub enum Start {
    /// The position has no entry price: it is passed over.
    Skipped,
    /// A figure is out of range.
    OutOfRange,
    /// The round, with what the mark price gave to tell.
    Round(Patrol, Vec<Notice>),
}

impl Patrol {
    /// The round that a position starts with.
    pub open spec fn started(
        cfg: GuardConfig,
        held: Held,
        tick: Option<Dec>,
        minutes: u64,
        st: GuardState,
    ) -> Option<(Patrol, Seq<Notice>)> {
        match thresholds_of(cfg, held.lev) {
            None => None,
            Some(th) => match followed(cfg, th, held, st) {
                None => None,
                Some((state, notices)) => Some(
                    (
                        Patrol { cfg, th, held, tick, minutes, state, phase: Phase::Reading },
                        notices,
                    ),
                ),
            },
        }
    }

    /// Starts the round through a position.
    pub fn begin(
        cfg: GuardConfig,
        held: Held,
        tick: Option<Dec>,
        minutes: u64,
        st: GuardState,
    ) -> (r: Start)
        ensures
            match r {
                Start::Skipped => held.entry.units() <= 0,
                Start::OutOfRange => held.entry.units() > 0 && Patrol::started(
                    cfg,
                    held,
                    tick,
                    minutes,
                    st,
                ) is None,
                Start::Round(patrol, notices) => held.entry.units() > 0 && Patrol::started(
                    cfg,
                    held,
                    tick,
                    minutes,
                    st,
                ) == Some((patrol, notices@)),
            },
    {
        if !held.entry.is_positive() {
            return Start::Skipped;
        }
        let th = match Thresholds::new(cfg, held.lev) {
            Some(th) => th,
            None => return Start::OutOfRange,
        };
        match follow(cfg, th, held, st) {
            Some((state, notices)) => Start::Round(
                Patrol { cfg, th, held, tick, minutes, state, phase: Phase::Reading },
                notices,
            ),
            None => Start::OutOfRange,
        }
    }
}

/// A position of a symbol.
pub struct LivePosition {
    pub symbol: String,
    pub held: Held,
}

impl View for LivePosition {
    type V = (Seq<char>, Held);

    open spec fn view(&self) -> (Seq<char>, Held) {
        (self.symbol@, self.held)
    }
}

/// Positions as symbols and what is held of them.
pub open spec fn position_views(v: Seq<LivePosition>) -> Seq<(Seq<char>, Held)> {
    v.map_values(|p: LivePosition| p@)
}

/// The position that an entry of the exchange's list writes; nothing where its size is zero.
pub open spec fn position_of(item: JsonView) -> Option<(Seq<char>, Held)> {
    let amt = or_else(item.dec_field("positionAmt"@), zero());
    if amt.units() == 0 {
        None
    } else {
        let symbol = match item.text_field("symbol"@) {
            Some(s) => s,
            None => ""@,
        };
        Some(
            (
                symbol,
                Held {
                    amt,
                    entry: or_else(item.dec_field("entryPrice"@), zero()),
                    upnl: or_else(item.dec_field("unRealizedProfit"@), zero()),
                    mark: or_else(item.dec_field("markPrice"@), zero()),
                    lev: or_else(item.dec_field("leverage"@), lit(10, 0)),
                },
            ),
        )
    }
}

/// The place of a symbol in a list, its length where it is not there.
pub open spec fn place_of(list: Seq<(Seq<char>, Held)>, symbol: Seq<char>, i: nat) -> nat
    decreases list.len() - i,
{
    if i >= list.len() {
        list.len()
    } else if list[i as int].0 == symbol {
        i
    } else {
        place_of(list, symbol, i + 1)
    }
}

/// A list with a position put in: in the place of one of the same symbol, else at the end.
pub open spec fn put(list: Seq<(Seq<char>, Held)>, p: (Seq<char>, Held)) -> Seq<
    (Seq<char>, Held),
> {
    let at = place_of(list, p.0, 0);
    if at < list.len() { list.update(at as int, p) } else { list.push(p) }
}

/// The positions that the first `n` entries of the exchange's list write.
pub open spec fn live_of(items: Seq<JsonView>, n: int) -> Seq<(Seq<char>, Held)>
    decreases n,
{
    if n <= 0 {
        Seq::empty()
    } else {
        match position_of(items[n - 1]) {
            Some(p) => put(live_of(items, n - 1), p),
            None => live_of(items, n - 1),
        }
    }
}

fn read_position(item: &Json) -> (r: Option<LivePosition>)
    ensures
        match r {
            Some(p) => position_of(item@) == Some(p@),
            None => position_of(item@) is None,
        },
{
    let amt = or_else(item.dec_field("positionAmt"), zero());
    if amt.is_zero() {
        return None;
    }
    let symbol = match item.text_field("symbol") {
        Some(s) => s.to_string(),
        None => "".to_string(),
    };
    Some(
        LivePosition {
            symbol,
            held: Held {
                amt,
                entry: or_else(item.dec_field("entryPrice"), zero()),
                upnl: or_else(item.dec_field("unRealizedProfit"), zero()),
                mark: or_else(item.dec_field("markPrice"), zero()),
                lev: or_else(item.dec_field("leverage"), lit(10, 0)),
            },
        },
    )
}

/// The open positions in the exchange's list, one for each symbol.
pub fn live_positions(text: &str) -> (r: Vec<LivePosition>)
    ensures
        position_views(r@) == live_of(items_of_text(text@), items_of_text(text@).len() as int),
{
    let items = parse_items(text);
    let ghost all = items_of_text(text@);
    let mut list: Vec<LivePosition> = Vec::new();
    let mut n: usize = 0;
    assert(position_views(list@) =~= Seq::empty());
    while n < items.len()
        invariant
            n <= items.len(),
            all == items_of_text(text@),
            all == views(items@),
            position_views(list@) == live_of(all, n as int),
        decreases items.len() - n,
    {
        assert(all[n as int] == items@[n as int]@);
        if let Some(p) = read_position(&items[n]) {
            let ghost before = position_views(list@);
            let mut at: usize = 0;
            while at < list.len() && !same(list[at].symbol.as_str(), p.symbol.as_str())
                invariant
                    at <= list.len(),
                    before == position_views(list@),
                    place_of(before, p@.0, 0) == place_of(before, p@.0, at as nat),
                decreases list.len() - at,
            {
                assert(before[at as int] == list@[at as int]@);
                at = at + 1;
            }
            if at < list.len() {
                assert(before[at as int] == list@[at as int]@);
                let ghost pv = p@;
                list.set(at, p);
                assert(position_views(list@) =~= before.update(at as int, pv));
            } else {
                let ghost pv = p@;
                list.push(p);
                assert(position_views(list@) =~= before.push(pv));
            }
        }
        n = n + 1;
    }
    list
}

/// Whether a symbol has a position.
pub fn is_live(list: &Vec<LivePosition>, symbol: &str) -> (r: bool)
    ensures
        r == exists|i: int| 0 <= i < list@.len() && (#[trigger] list@[i]).symbol@ == symbol@,
{
    let mut i: usize = 0;
    while i < list.len()
        invariant
            i <= list.len(),
            forall|j: int| 0 <= j < i ==> (#[trigger] list@[j]).symbol@ != symbol@,
        decreases list.len() - i,
    {
        if same(list[i].symbol.as_str(), symbol) {
            return true;
        }
        i = i + 1;
    }
    false
}

/// What a position has brought once it is closed.
#[derive(Clone, Copy, Debug)]
pub struct ClosedReport {
    /// For how many minutes it was held.
    pub minutes: u64,
    /// The realised profit, as shown.
    pub realized: Dec,
    /// Whether that is no loss.
    pub gain: bool,
    /// The fees paid in USDT, as shown, where there were any.
    pub fee: Option<Dec>,
    /// Whether the stop was following the price.
    pub trailed: bool,
}

/// The amount of an income record.
pub open spec fn income_amount(item: JsonView) -> Dec {
    or_else(item.dec_field("income"@), zero())
}

/// The realised profit and the fees in USDT of a symbol in the first `n` income records.
pub open spec fn closed_totals(items: Seq<JsonView>, symbol: Seq<char>, n: int) -> (
    Option<Dec>,
    Option<Dec>,
)
    decreases n,
{
    if n <= 0 {
        (Some(zero()), Some(zero()))
    } else {
        let (realized, fee) = closed_totals(items, symbol, n - 1);
        let item = items[n - 1];
        let kind = item.text_field("incomeType"@);
        if item.text_field("symbol"@) != Some(symbol) {
            (realized, fee)
        } else if kind == Some("REALIZED_PNL"@) {
            (sum(realized, Some(income_amount(item))), fee)
        } else if kind == Some("COMMISSION"@) && item.text_field("asset"@) == Some("USDT"@) {
            (realized, sum(fee, Some(income_amount(item))))
        } else {
            (realized, fee)
        }
    }
}

/// The report on a closed position, from the income records since it was opened.
pub open spec fn closed_report_of(
    items: Seq<JsonView>,
    symbol: Seq<char>,
    opened_at: u64,
    now_ms: u64,
    trailed: bool,
) -> Option<ClosedReport> {
    let (realized, fee) = closed_totals(items, symbol, items.len() as int);
    if realized is None || fee is None {
        None
    } else {
        Some(
            ClosedReport {
                minutes: held_minutes(opened_at, now_ms),
                realized: shown(realized->0, 2),
                gain: realized->0.units() >= 0,
                fee: if fee->0.units() != 0 { Some(round(fee->0, 2)) } else { None },
                trailed,
            },
        )
    }
}

fn text_is(item: &Json, key: &str, word: &str) -> (r: bool)
    ensures
        r == (item@.text_field(key@) == Some(word@)),
{
    match item.text_field(key) {
        Some(s) => same(s, word),
        None => false,
    }
}

/// Reports what a closed position has brought: nothing where the moment of its opening is not known,
/// the income records are no list or their sum is out of range.
pub fn closed_report(
    income: &str,
    symbol: &str,
    opened_at: u64,
    now_ms: u64,
    trailed: bool,
) -> (r: Option<ClosedReport>)
    ensures
        match crate::json::list_of_text(income@) {
            Some(items) if opened_at > 0 => r == closed_report_of(
                items,
                symbol@,
                opened_at,
                now_ms,
                trailed,
            ),
            _ => r is None,
        },
{
    if opened_at == 0 {
        return None;
    }
    let items = match crate::json::parse_list(income) {
        Some(v) => v,
        None => return None,
    };
    let ghost all = views(items@);
    let mut realized: Option<Dec> = Some(zero());
    let mut fee: Option<Dec> = Some(zero());
    let mut n: usize = 0;
    while n < items.len()
        invariant
            n <= items.len(),
            all == views(items@),
            (realized, fee) == closed_totals(all, symbol@, n as int),
        decreases items.len() - n,
    {
        let item = &items[n];
        assert(all[n as int] == item@);
        if text_is(item, "symbol", symbol) {
            let amount = or_else(item.dec_field("income"), zero());
            let profit = text_is(item, "incomeType", "REALIZED_PNL");
            let commission = text_is(item, "incomeType", "COMMISSION");
            let usdt = text_is(item, "asset", "USDT");
            if profit {
                realized = sum(realized, Some(amount));
            } else if commission && usdt {
                fee = sum(fee, Some(amount));
            }
        }
        n = n + 1;
    }
    match (realized, fee) {
        (Some(p), Some(f)) => Some(
            ClosedReport {
                minutes: held_minutes(opened_at, now_ms),
                realized: shown(p, 2),
                gain: !p.is_negative(),
                fee: if f.is_zero() { None } else { Some(round(f, 2)) },
                trailed,
            },
        ),
        _ => None,
    }
}

/// A round never opens a position: the orders that it asks for go against the position, a sale for a
/// long one and a purchase for any other.
pub proof fn round_only_closes(p: Patrol)
    ensures
        p.asks() matches Ask::PlaceStop { side, .. } ==> side == (if p.held.amt.units() > 0 {
            Side::Sell
        } else {
            Side::Buy
        }),
        p.asks() matches Ask::ClosePosition { side, .. } ==> side == (if p.held.amt.units() > 0 {
            Side::Sell
        } else {
            Side::Buy
        }),
{
}

/// A stop order is given up only after the one that takes its place stands: the position is at no
/// moment without one.
pub proof fn old_stop_goes_last(p: Patrol, reply: Reply, next: Patrol, notices: Seq<Notice>, id: u64)
    requires
        p.after(reply) == Some((next, notices)),
        next.asks() == (Ask::Cancel { id }),
        p.asks() != next.asks(),
    ensures
        p.phase matches Phase::Placing(plan) && plan.replace == Some(id),
        reply matches Reply::Placed(new) && next.state.own_stop_id == Some(new),
{
}

/// A stop order that was refused leaves the one that it was to replace in charge.
pub proof fn refusal_keeps_stop(p: Patrol, next: Patrol, notices: Seq<Notice>, plan: StopPlan)
    requires
        p.phase == Phase::Placing(plan),
        p.after(Reply::Refused) == Some((next, notices)),
    ensures
        next.state.own_stop_id == plan.state.own_stop_id,
        next.state.stop_price == plan.state.stop_price,
        next.state.entry_used == plan.state.entry_used,
{
}

/// Once the stop follows the price, replacing it moves its price in favour of the position.
pub proof fn stop_moves_in_favour(p: Patrol, id: u64, next: Patrol, notices: Seq<Notice>)
    requires
        p.ratchets(),
        p.state.trail_armed,
        p.phase matches Phase::Placing(plan) && plan.replace is Some,
        p.after(Reply::Placed(id)) == Some((next, notices)),
    ensures
        better_stop(p.held.long(), next.state.stop_price, p.state.stop_price),
{
}

/// Where the stop starts to follow the price above what it gives back, a position whose stop follows the
/// price cannot turn from a profit into a loss: the line of its stop is at the entry price or on the
/// profitable side of it.
pub proof fn armed_stop_leaves_no_loss(
    cfg: GuardConfig,
    th: Thresholds,
    held: Held,
    st: GuardState,
    at: Dec,
)
    requires
        cfg.trail_on,
        cfg.arms_above_trail(),
        st.trail_armed,
        stop_line(cfg, th, held, st) == Some(at),
    ensures
        leaves_entry(held.long(), at, held.entry),
{
}

/// The line of a stop that follows the price goes with the line behind the best price: where that line is
/// no worse, the stop's is no worse, whatever became of the order that stood before.
pub proof fn stop_follows_trail(
    cfg: GuardConfig,
    th: Thresholds,
    held: Held,
    mark: Dec,
    st: GuardState,
    next: GuardState,
)
    requires
        cfg.trail_on,
        st.trail_armed,
        next.trail_armed,
        stop_line(cfg, th, held, st) is Some,
        stop_line(cfg, th, Held { mark, ..held }, next) is Some,
        ({
            let before = line(held.long(), st.peak, th.trail_pct)->0.units();
            let after = line(held.long(), next.peak, th.trail_pct)->0.units();
            if held.long() { after >= before } else { after <= before }
        }),
    ensures
        ({
            let before = stop_line(cfg, th, held, st)->0.units();
            let after = stop_line(cfg, th, Held { mark, ..held }, next)->0.units();
            if held.long() { after >= before } else { after <= before }
        }),
{
}

/// A better best price moves the line behind it in favour of the position, but for rounding, and without
/// that where both lines are decimals. Of each line is asked what `desire` says of it.
pub proof fn trail_follows_peak(long: bool, pct: Dec, peak: Dec, later: Dec)
    requires
        line(long, peak, pct) is Some,
        line(long, later, pct) is Some,
        ({
            let f = line_factor(long, pct)->0.units();
            &&& rounded(line(long, peak, pct), peak.units() * f, unit())
            &&& rounded(line(long, later, pct), later.units() * f, unit())
            &&& f >= 0
        }),
        peak.units() > 0,
        later.units() > 0,
        if long { later.units() >= peak.units() } else { later.units() <= peak.units() },
    ensures
        ({
            let f = line_factor(long, pct)->0.units();
            let before = line(long, peak, pct)->0.units();
            let after = line(long, later, pct)->0.units();
            let back = if long { before - after } else { after - before };
            &&& unit() * precision() * back <= 2 * unit() * precision() + f * (peak.units()
                + later.units())
            &&& forall|d: Dec, e: Dec|
                d.wf() && e.wf() && #[trigger] d.units() * unit() == peak.units() * f
                    && #[trigger] e.units() * unit() == later.units() * f ==> back <= 0
        }),
{
    let f = line_factor(long, pct)->0.units();
    let before = line(long, peak, pct)->0;
    let after = line(long, later, pct)->0;
    if long {
        lemma_products_follow(peak.units(), later.units(), f, before, after);
    } else {
        lemma_products_follow(later.units(), peak.units(), f, after, before);
    }
}

/// Two multiples of a step that are less than a step apart are in order.
proof fn lemma_multiples(a: int, b: int, step: int)
    requires
        step > 0,
        a % step == 0,
        b % step == 0,
        a < b + step,
    ensures
        a <= b,
{
    let (k, j) = (a / step, b / step);
    lemma_fundamental_div_mod(a, step);
    lemma_fundamental_div_mod(b, step);
    assert(step * k <= step * j) by (nonlinear_arith)
        requires
            step * k < step * j + step,
            step > 0,
    ;
}

/// From round to round the stop price that a position should have does not move the wrong way while the
/// line behind the best price does not, whether or not the order of before still stands. Of each stop
/// price is asked what `align_to_tick` says of it where the number of ticks is a decimal.
pub proof fn stops_never_move_back(
    cfg: GuardConfig,
    th: Thresholds,
    held: Held,
    mark: Dec,
    st: GuardState,
    next: GuardState,
    tick: Dec,
    before: Dec,
    after: Dec,
)
    requires
        cfg.trail_on,
        st.trail_armed,
        next.trail_armed,
        tick.units() > 0,
        desired_stop(cfg, th, held, st, Some(tick)) == Some(before),
        desired_stop(cfg, th, Held { mark, ..held }, next, Some(tick)) == Some(after),
        ({
            let (long, t) = (held.long(), tick.units());
            let at = stop_line(cfg, th, held, st)->0.units();
            let later = stop_line(cfg, th, Held { mark, ..held }, next)->0.units();
            let trail = line(long, st.peak, th.trail_pct)->0.units();
            let trail_later = line(long, next.peak, th.trail_pct)->0.units();
            &&& before.units() % t == 0 && next_to(long, before.units(), at, t)
            &&& after.units() % t == 0 && next_to(long, after.units(), later, t)
            &&& if long { trail_later >= trail } else { trail_later <= trail }
        }),
    ensures
        if held.long() {
            after.units() >= before.units()
        } else {
            after.units() <= before.units()
        },
{
    stop_follows_trail(cfg, th, held, mark, st, next);
    if held.long() {
        lemma_multiples(before.units(), after.units(), tick.units());
    } else {
        lemma_multiples(after.units(), before.units(), tick.units());
    }
}

/// Once the stop follows the price, an order that still stands gives way only to one that is better by more
/// than a thousandth.
pub proof fn replaced_only_for_better(
    cfg: GuardConfig,
    th: Thresholds,
    held: Held,
    st: GuardState,
    tick: Option<Dec>,
    stop: ExistingStop,
    plan: StopPlan,
)
    requires
        st.trail_armed,
        planned(cfg, th, held, st, tick, Some(stop)) == Some(plan),
    ensures
        plan.place ==> plan.replace == stop.id && improves(
            held.long(),
            plan.desired,
            plan.state.stop_price,
        ) == Some(true),
{
}

/// The known stop order of a position, long or short, is moved in its favour wherever the price that it should
/// have is better by more than a thousandth: a new order is asked for at that price, in the place of the old
/// one. With `replaced_only_for_better` this says when a stop order that follows the price is moved.
pub proof fn better_stop_is_asked_for(
    p: Patrol,
    stop: ExistingStop,
    desired: Dec,
    next: Patrol,
    notices: Seq<Notice>,
)
    requires
        arithmetic(),
        p.state.stop_price.wf(),
        p.phase is Reading,
        stop.id is Some,
        p.state.own_stop_id == stop.id,
        p.state.stop_price.units() > 0,
        desired_stop(p.cfg, p.th, p.held, p.state, p.tick) == Some(desired),
        beyond(p.held.amt.units() > 0, desired.units(), p.state.stop_price.units()) * precision() > blur(
            p.state.stop_price.units(),
        ),
        p.after(Reply::Orders(Some(stop))) == Some((next, notices)),
    ensures
        next.asks() matches Ask::PlaceStop { side, price } && side == (if p.held.amt.units() > 0 {
            Side::Sell
        } else {
            Side::Buy
        }) && price == normal(desired),
        next.phase matches Phase::Placing(plan) && plan.replace == stop.id && plan.desired == desired,
{
    let s = p.state.stop_price;
    let factor = if p.held.long() { lit(1001, 3) } else { lit(999, 3) };
    lemma_lit(1001, 3);
    lemma_lit(999, 3);
    lemma_product(s, factor);
    if let Some(limit) = product(Some(s), Some(factor)) {
        lemma_limit(p.held.long(), s, desired.units(), limit);
    }
}

/// Within a round the stop does not stop following the price, and the best price and the milestones
/// stay.
pub proof fn round_keeps_marks(p: Patrol, reply: Reply, next: Patrol, notices: Seq<Notice>)
    requires
        p.ratchets(),
        p.after(reply) == Some((next, notices)),
    ensures
        next.state.trail_armed == p.state.trail_armed,
        next.state.peak == p.state.peak,
        next.state.last_milestone_roe == p.state.last_milestone_roe,
        next.held == p.held,
{
}

/// From round to round the best price only gets better, the highest milestone only higher, and a
/// stop that follows the price goes on doing so.
pub proof fn marks_only_improve(
    cfg: GuardConfig,
    th: Thresholds,
    held: Held,
    st: GuardState,
    next: GuardState,
    notices: Seq<Notice>,
)
    requires
        followed(cfg, th, held, st) == Some((next, notices)),
    ensures
        st.trail_armed ==> next.trail_armed,
        next.last_milestone_roe >= st.last_milestone_roe,
        st.peak.units() > 0 && held.long() ==> next.peak.units() >= st.peak.units(),
        st.peak.units() > 0 && !held.long() ==> next.peak.units() <= st.peak.units(),
        held.mark.units() > 0 && held.long() ==> next.peak.units() >= held.mark.units(),
        held.mark.units() > 0 && !held.long() ==> next.peak.units() <= held.mark.units(),
        next.own_stop_id == st.own_stop_id,
        next.stop_price == st.stop_price,
{
    if held.mark.units() > 0 {
        let peak = best_price(held.long(), st.peak, held.mark, held.entry);
        let roe = product(gain_pct(held.long(), peak, held.entry), Some(th.lev))->0;
        lemma_passed(roe, st.last_milestone_roe, 8);
    }
}

/// The best price after some mark prices were looked at one by one.
pub open spec fn peak_after(long: bool, peak: Dec, entry: Dec, marks: Seq<Dec>) -> Dec
    decreases marks.len(),
{
    if marks.len() == 0 {
        peak
    } else {
        best_price(long, peak_after(long, peak, entry, marks.drop_last()), marks.last(), entry)
    }
}

/// The best price is the best of the entry price and all the mark prices that were seen.
pub proof fn peak_is_best_seen(long: bool, peak: Dec, entry: Dec, marks: Seq<Dec>)
    requires
        peak.units() <= 0,
        entry.units() > 0,
        marks.len() > 0,
        forall|i: int| 0 <= i < marks.len() ==> (#[trigger] marks[i]).units() > 0,
    ensures
        ({
            let best = peak_after(long, peak, entry, marks);
            &&& best.units() > 0
            &&& leaves_entry(long, best, entry)
            &&& forall|i: int| 0 <= i < marks.len() ==> leaves_entry(long, best, #[trigger] marks[i])
            &&& best == entry || marks.contains(best)
        }),
    decreases marks.len(),
{
    let last = marks.last();
    let best = peak_after(long, peak, entry, marks);
    assert(last == marks[marks.len() - 1]);
    if marks.len() > 1 {
        let front = marks.drop_last();
        assert forall|i: int| 0 <= i < front.len() implies (#[trigger] front[i]).units() > 0 by {
            assert(front[i] == marks[i]);
        }
        peak_is_best_seen(long, peak, entry, front);
        let before = peak_after(long, peak, entry, front);
        assert forall|i: int| 0 <= i < marks.len() implies leaves_entry(
            long,
            best,
            #[trigger] marks[i],
        ) by {
            if i < front.len() {
                assert(leaves_entry(long, before, front[i]));
            }
        }
        if best != entry && best != last {
            let i = choose|i: int| 0 <= i < front.len() && front[i] == before;
            assert(marks[i] == best);
        }
    } else {
        assert(peak_after(long, peak, entry, marks.drop_last()) == peak);
    }
}

proof fn lemma_passed(roe: Dec, last: i32, n: nat)
    requires
        n <= 8,
    ensures
        passed(roe, last, n).0 >= last,
        passed(roe, last, n).0 > last ==> n > 0 && passed(roe, last, n).0 <= milestones()[n - 1],
        forall|i: int|
            0 <= i < n && roe.units() >= lit(#[trigger] milestones()[i], 0).units()
                ==> passed(roe, last, n).0 >= milestones()[i],
        forall|j: int|
            0 <= j < passed(roe, last, n).1.len() ==> (#[trigger] passed(
                roe,
                last,
                n,
            ).1[j] matches Notice::Milestone { level } && last < level <= passed(
                roe,
                last,
                n,
            ).0),
        forall|j: int, k: int|
            0 <= j < k < passed(roe, last, n).1.len() ==> (#[trigger] passed(roe, last, n).1[j])->level
                < (#[trigger] passed(roe, last, n).1[k])->level,
    decreases n,
{
    if n > 0 {
        lemma_passed(roe, last, (n - 1) as nat);
    }
}

/// Milestones are announced in rising order, only above the highest one announced before, and every
/// one that was reached is covered by the highest: none is announced twice.
pub proof fn milestones_once(roe: Dec, last: i32)
    ensures
        ({
            let (top, notices) = passed(roe, last, 8);
            &&& top >= last
            &&& forall|i: int|
                0 <= i < 8 && roe.units() >= lit(#[trigger] milestones()[i], 0).units() ==> top
                    >= milestones()[i]
            &&& forall|j: int|
                0 <= j < notices.len() ==> (#[trigger] notices[j] matches Notice::Milestone {
                    level,
                } && last < level <= top)
            &&& forall|j: int, k: int|
                0 <= j < k < notices.len() ==> (#[trigger] notices[j])->level < (
                #[trigger] notices[k])->level
        }),
{
    lemma_passed(roe, last, 8);
}

/// No symbol stands twice in the list of open positions.
pub proof fn live_symbols_differ(items: Seq<JsonView>, n: int)
    ensures
        forall|i: int, j: int|
            0 <= i < j < live_of(items, n).len() ==> (#[trigger] live_of(items, n)[i]).0 != (
            #[trigger] live_of(items, n)[j]).0,
    decreases n,
{
    if n > 0 {
        live_symbols_differ(items, n - 1);
        if let Some(p) = position_of(items[n - 1]) {
            lemma_place_of(live_of(items, n - 1), p.0, 0);
        }
    }
}

proof fn lemma_place_of(list: Seq<(Seq<char>, Held)>, symbol: Seq<char>, i: nat)
    requires
        i <= list.len(),
    ensures
        i <= place_of(list, symbol, i) <= list.len(),
        place_of(list, symbol, i) < list.len() ==> list[place_of(list, symbol, i) as int].0
            == symbol,
        forall|j: int| i <= j < place_of(list, symbol, i) ==> (#[trigger] list[j]).0 != symbol,
    decreases list.len() - i,
{
    if i < list.len() && list[i as int].0 != symbol {
        lemma_place_of(list, symbol, i + 1);
    }
}

/// A position without a stop order is given one.
pub proof fn bare_position_gets_stop(p: Patrol, next: Patrol, notices: Seq<Notice>)
    requires
        p.phase is Reading,
        p.after(Reply::Orders(None)) == Some((next, notices)),
    ensures
        next.asks() matches Ask::PlaceStop { side, .. } && side == closing_side(p.held.long()),
{
}

/// Reminders are apart by the set time at least, and none comes before it has passed once.
pub proof fn reminders_are_spaced(p: Patrol)
    ensures
        p.aged().1.len() > 0 ==> p.minutes >= p.cfg.alert_min && (p.state.last_hold_alert_min > 0
            ==> p.minutes >= p.state.last_hold_alert_min + p.cfg.alert_min),
        p.aged().1.len() > 0 ==> p.aged().0.state.last_hold_alert_min == p.minutes,
        p.cfg.alert_min == 0 ==> p.aged().1.len() == 0,
{
}

/// A position is closed for its age only where that was set, and only once unless the order was refused.
pub proof fn closes_once(p: Patrol)
    ensures
        p.aged().0.phase is Closing ==> p.cfg.auto_close_min > 0 && p.minutes >= p.cfg.auto_close_min
            && !p.state.auto_close_attempted && p.aged().0.state.auto_close_attempted,
{
}

/// The thresholds of a position are the returns that were set, divided by its leverage, which counts as one at
/// least.
pub proof fn thresholds_are_returns(cfg: GuardConfig, lev: Dec, th: Thresholds)
    requires
        arithmetic(),
        lev.wf() && cfg.stop_roe.wf() && cfg.arm_roe.wf() && cfg.trail_roe.wf(),
        thresholds_of(cfg, lev) == Some(th),
    ensures
        th.lev.units() == (if lev.units() > unit() { lev.units() } else { unit() }),
        rounded(Some(th.stop_pct), cfg.stop_roe.units() * unit(), th.lev.units()),
        rounded(Some(th.arm_pct), cfg.arm_roe.units() * unit(), th.lev.units()),
        rounded(Some(th.trail_pct), cfg.trail_roe.units() * unit(), th.lev.units()),
{
    lemma_lit(1, 0);
    lemma_lit_units(1, 0);
    let l = larger(lev, lit(1, 0));
    lemma_quotient(cfg.stop_roe, l);
    lemma_quotient(cfg.arm_roe, l);
    lemma_quotient(cfg.trail_roe, l);
}

/// The stop of a position, long or short, starts to follow the price where the gain of the mark price over the
/// entry price is the arming percentage or more, but for rounding, and goes on doing so; it does not start
/// where the gain is less, where following is switched off, or without a mark price.
pub proof fn profit_arms(
    cfg: GuardConfig,
    th: Thresholds,
    held: Held,
    st: GuardState,
    next: GuardState,
    notices: Seq<Notice>,
)
    requires
        arithmetic(),
        held.mark.wf() && held.entry.wf(),
        held.entry.units() > 0,
        followed(cfg, th, held, st) == Some((next, notices)),
    ensures
        arms_in_profit(cfg, th, held, st.trail_armed, next.trail_armed),
        next.trail_armed && !st.trail_armed <==> notices.len() > 0 && notices.last() is Armed,
{
    let long = held.long();
    if held.mark.units() > 0 {
        let profit = gain_pct(long, held.mark, held.entry)->0;
        gains_are_percentages(long, held.mark, held.entry, profit);
        lemma_arms(long, held.mark.units(), held.entry.units(), profit.units(), th.arm_pct.units());
        let peak = best_price(long, st.peak, held.mark, held.entry);
        let roe = product(gain_pct(long, peak, held.entry), Some(th.lev))->0;
        lemma_passed(roe, st.last_milestone_roe, 8);
        let told = passed(roe, st.last_milestone_roe, 8).1;
        assert(told.len() > 0 ==> told[told.len() - 1] is Milestone);
    }
}

/// The returns at which a milestone is told are 10, 15, 20, 25, 30, 40, 50 and 100 percent: once the best price
/// has brought one that was not told before, the highest that it has brought is remembered.
pub proof fn milestones_are_these(roe: Dec, last: i32)
    requires
        last >= 0,
    ensures
        milestones() =~= seq![10u32, 15, 20, 25, 30, 40, 50, 100],
        ({
            let top = passed(roe, last, 8).0;
            let brought = if roe.units() >= 100 * unit() {
                100int
            } else if roe.units() >= 50 * unit() {
                50
            } else if roe.units() >= 40 * unit() {
                40
            } else if roe.units() >= 30 * unit() {
                30
            } else if roe.units() >= 25 * unit() {
                25
            } else if roe.units() >= 20 * unit() {
                20
            } else if roe.units() >= 15 * unit() {
                15
            } else if roe.units() >= 10 * unit() {
                10
            } else {
                0
            };
            top == if brought > last { brought } else { last as int }
        }),
{
    reveal_with_fuel(passed, 9);
    lemma_lit_units(10, 0);
    lemma_lit_units(15, 0);
    lemma_lit_units(20, 0);
    lemma_lit_units(25, 0);
    lemma_lit_units(30, 0);
    lemma_lit_units(40, 0);
    lemma_lit_units(50, 0);
    lemma_lit_units(100, 0);
}

/// Every milestone above the last one told that the return has reached is told.
pub proof fn milestones_are_told(roe: Dec, last: i32, n: nat, i: int)
    requires
        0 <= i < n <= 8,
        roe.units() >= lit(milestones()[i], 0).units(),
        milestones()[i] > last,
    ensures
        passed(roe, last, n).1.contains(Notice::Milestone { level: milestones()[i] as i32 }),
    decreases n,
{
    lemma_passed(roe, last, (n - 1) as nat);
    let told = passed(roe, last, n).1;
    if i < n - 1 {
        milestones_are_told(roe, last, (n - 1) as nat, i);
        let before = passed(roe, last, (n - 1) as nat).1;
        let k = choose|k: int|
            0 <= k < before.len() && before[k] == (Notice::Milestone { level: milestones()[i] as i32 });
        assert(told[k] == before[k]);
    } else {
        assert(told[told.len() - 1] == (Notice::Milestone { level: milestones()[i] as i32 }));
    }
}

/// Where the line of a stop is. As long as it does not follow the price it is the stop percentage behind the
/// entry price, below it for a long position and above it for a short one. Once it follows the price it is no
/// worse than that line and the line the trailing percentage behind the best price, and it is one of the two,
/// or the entry price where the set-up keeps profits.
pub proof fn stop_line_stands(cfg: GuardConfig, th: Thresholds, held: Held, st: GuardState, at: Dec)
    requires
        arithmetic(),
        held.entry.wf() && st.peak.wf() && th.stop_pct.wf() && th.trail_pct.wf(),
        held.entry.units() > 0,
        st.peak.units() > 0,
        0 <= th.stop_pct.units() <= 5 * whole(),
        0 <= th.trail_pct.units() <= 5 * whole(),
        stop_line(cfg, th, held, st) == Some(at),
    ensures
        ({
            let long = held.amt.units() > 0;
            let (e, peak) = (held.entry.units(), st.peak.units());
            &&& !(cfg.trail_on && st.trail_armed) ==> lies_behind(long, at.units(), e, th.stop_pct.units())
            &&& cfg.trail_on && st.trail_armed ==> {
                let far = line(long, held.entry, th.stop_pct)->0;
                let near = line(long, st.peak, th.trail_pct)->0;
                &&& lies_behind(long, far.units(), e, th.stop_pct.units())
                &&& lies_behind(long, near.units(), peak, th.trail_pct.units())
                &&& leaves_entry(long, at, far) && leaves_entry(long, at, near)
                &&& at == far || at == near || (at == held.entry && cfg.arm_roe.units()
                    > cfg.trail_roe.units())
            }
        }),
{
    let long = held.long();
    let far = line(long, held.entry, th.stop_pct)->0;
    lines_lie_behind(long, held.entry, th.stop_pct, far);
    if cfg.trail_on && st.trail_armed {
        let near = line(long, st.peak, th.trail_pct)->0;
        lines_lie_behind(long, st.peak, th.trail_pct, near);
        assert(lies_behind(long, far.units(), held.entry.units(), th.stop_pct.units()));
        assert(lies_behind(long, near.units(), st.peak.units(), th.trail_pct.units()));
    }
}

/// Without a tick a stop price is the line itself to six places: no further from it than half of the last.
pub proof fn stop_without_tick(px: Dec, tick: Option<Dec>, round_down: bool, r: Dec)
    requires
        arithmetic(),
        px.wf(),
        tick is None || tick->0.units() <= 0,
        aligned(px, tick, round_down) == Some(r),
    ensures
        2 * distance(r.units() - px.units()) <= 10000000000000000000000,
{
    reveal(arithmetic);
    assert(pow(10, 22) == 10000000000000000000000) by {
        reveal_with_fuel(pow, 23);
    }
    assert(is_rounded_to(round(px, 6), px, 6));
}

/// A stop order that was placed is the one that is minded from now on, at its price and for the entry price of
/// the position; the one that it took the place of, if any, is cancelled next.
pub proof fn placed_stop_is_minded(p: Patrol, plan: StopPlan, id: u64, next: Patrol, notices: Seq<Notice>)
    requires
        p.phase == Phase::Placing(plan),
        p.after(Reply::Placed(id)) == Some((next, notices)),
    ensures
        next.state.own_stop_id == Some(id),
        next.state.stop_price == plan.desired,
        next.state.entry_used == p.held.entry,
        next.state.ratchet_stuck_cycles == 0,
        !next.state.stop_error_notified,
        next.state.trail_armed == plan.state.trail_armed,
        plan.replace matches Some(old) ==> next.asks() == (Ask::Cancel { id: old }),
        plan.replace is None ==> !(next.asks() is Cancel) && !(next.asks() is PlaceStop),
{
}

/// What is told of a stop that was placed, to the cent: what a stop that does not follow the price can lose, the
/// size times the distance to the entry price; and what one that does has locked in, the same above zero on the
/// profitable side of the entry price and below zero on the other, for long and for short positions. Said where
/// the figures are decimals: the stop price less the entry price, and that times the size.
pub proof fn placed_stop_is_told(
    held: Held,
    plan: StopPlan,
    id: u64,
    next: GuardState,
    notices: Seq<Notice>,
    apart: Dec,
    worth: Dec,
)
    requires
        arithmetic(),
        held.amt.wf() && held.entry.wf() && plan.desired.wf() && apart.wf() && worth.wf(),
        placed(held, plan, id) == Some((next, notices)),
        apart.units() == plan.desired.units() - held.entry.units(),
        worth.units() * unit() == distance(held.amt.units()) * apart.units(),
    ensures
        plan.state.trail_armed && plan.state.trail_confirm_sent ==> notices.len() == 0,
        plan.state.trail_armed && !plan.state.trail_confirm_sent ==> next.trail_confirm_sent && notices.len()
            == 1 && (notices[0] matches Notice::StopMoved { stop, locked } && stop.units()
            == plan.desired.units() && to_the_cent(
            locked.units(),
            if held.amt.units() > 0 { worth.units() } else { -worth.units() },
        )),
        !plan.state.trail_armed ==> notices.len() == 1 && (notices[0] matches Notice::Protected {
            stop,
            est_loss,
        } && stop.units() == plan.desired.units() && to_the_cent(est_loss.units(), distance(worth.units()))),
{
    let size = absolute(held.amt);
    let stop = plan.desired;
    lemma_absolute(held.amt);
    lemma_normal(stop);
    lemma_lit(1, 0);
    lemma_lit_units(1, 0);
    lemma_opposite(lit(1, 0));
    lemma_opposite(worth);
    if plan.state.trail_armed {
        lemma_difference(stop, held.entry);
        let d = difference_of(stop, held.entry)->0;
        assert(apart.units() * 1 == stop.units() - held.entry.units());
        lemma_product(size, d);
        let v = product_of(size, d)->0;
        assert(v.units() == worth.units());
        let sign = if held.long() { lit(1, 0) } else { opposite(lit(1, 0)) };
        lemma_product(v, sign);
        let signed = if held.long() { worth } else { opposite(worth) };
        assert(signed.units() * unit() == v.units() * sign.units()) by (nonlinear_arith)
            requires
                v.units() == worth.units(),
                sign.units() == (if held.long() { unit() } else { -unit() }),
                signed.units() == (if held.long() { worth.units() } else { -worth.units() }),
        ;
        lemma_shown_cents(product_of(v, sign)->0);
    } else {
        lemma_difference(held.entry, stop);
        let d = difference_of(held.entry, stop)->0;
        lemma_opposite(apart);
        assert(opposite(apart).units() * 1 == held.entry.units() - stop.units());
        lemma_absolute(d);
        lemma_absolute(worth);
        lemma_product(size, absolute(d));
        assert(absolute(worth).units() * unit() == size.units() * absolute(d).units()) by (nonlinear_arith)
            requires
                absolute(worth).units() == distance(worth.units()),
                absolute(d).units() == distance(apart.units()),
                size.units() >= 0,
                worth.units() * unit() == size.units() * apart.units(),
        ;
        lemma_shown_cents(product_of(size, absolute(d))->0);
    }
}

/// A figure is another one, rounded to two places.
pub open spec fn to_the_cent(shown: int, exact: int) -> bool {
    2 * distance(shown - exact) <= 100000000000000000000000000
}

pub proof fn lemma_shown_cents(a: Dec)
    requires
        arithmetic(),
        a.wf(),
    ensures
        to_the_cent(shown(a, 2).units(), a.units()),
        to_the_cent(round(a, 2).units(), a.units()),
{
    assert(is_rounded_to(round(a, 2), a, 2) && round(a, 2).wf()) by {
        reveal(arithmetic);
    }
    lemma_normal(round(a, 2));
    assert(pow(10, 26) == 100000000000000000000000000) by {
        reveal_with_fuel(pow, 27);
    }
}

/// A reminder is given exactly where one was set, its age has come and, after the first, has passed again since
/// the last; then the minute is remembered. The position is to be closed exactly where that was set, its age has
/// come and it was not tried yet; else the round is over.
pub proof fn age_is_minded(p: Patrol)
    ensures
        ({
            let (next, notices) = p.aged();
            let remind = p.cfg.alert_min > 0 && p.minutes >= p.cfg.alert_min && (p.state.last_hold_alert_min == 0
                || p.minutes >= p.state.last_hold_alert_min + p.cfg.alert_min);
            let close = p.cfg.auto_close_min > 0 && p.minutes >= p.cfg.auto_close_min
                && !p.state.auto_close_attempted;
            &&& remind ==> notices.len() == 1 && (notices[0] matches Notice::HeldTooLong { minutes, upnl } && minutes
                == p.minutes && upnl == shown(p.held.upnl, 2)) && next.state.last_hold_alert_min == p.minutes
            &&& !remind ==> notices.len() == 0 && next.state.last_hold_alert_min == p.state.last_hold_alert_min
            &&& close ==> next.asks() is ClosePosition && next.state.auto_close_attempted
            &&& !close ==> next.asks() is Store && next.state.auto_close_attempted == p.state.auto_close_attempted
            &&& next.state.own_stop_id == p.state.own_stop_id && next.state.stop_price == p.state.stop_price
                && next.state.peak == p.state.peak && next.state.trail_armed == p.state.trail_armed && next.held
                == p.held
        }),
{
}

/// The order that closes a position for its age takes it to nothing: it goes against the position and has its
/// whole size. Where it was refused it is tried again in a later round, else not.
pub proof fn age_closes_all(p: Patrol)
    requires
        arithmetic(),
        p.held.amt.wf(),
        p.phase is Closing,
        p.held.amt.units() != 0,
    ensures
        p.asks() matches Ask::ClosePosition { side, qty } && qty.units() > 0 && p.held.amt.units() + (if side
            == Side::Buy {
            qty.units()
        } else {
            -qty.units()
        }) == 0,
        p.after(Reply::Done) matches Some((next, told)) && next.state == p.state && told.len() == 1 && (
        told[0] matches Notice::AutoClosed { minutes, upnl } && minutes == p.minutes && upnl == shown(
            p.held.upnl,
            2,
        )) && next.asks() is Store,
        p.after(Reply::Refused) matches Some((next, told)) && !next.state.auto_close_attempted && told.len() == 1
            && (told[0] is AutoCloseFailed),
{
    lemma_absolute(p.held.amt);
    lemma_normal(absolute(p.held.amt));
}

/// Once the stop follows the price, a round that placed none counts whether the order on the exchange is behind
/// by more than half a percent: it is where the price that it should have is higher than it by that for a long
/// position, lower for a short one. Said where the limit is a decimal. The count starts again where it is not
/// behind, and the third round and every ninetieth are told.
pub proof fn stuck_stop_is_counted(
    cfg: GuardConfig,
    long: bool,
    plan: StopPlan,
    st: GuardState,
    next: GuardState,
    notices: Seq<Notice>,
    trigger: Dec,
    limit: Dec,
)
    requires
        arithmetic(),
        cfg.trail_on,
        st.trail_armed,
        trigger.wf() && plan.desired.wf(),
        plan.trigger == Some(trigger),
        limit.wf(),
        limit.units() * 1000 == trigger.units() * (if long { 1005int } else { 995 }),
        watched(cfg, long, plan, st) == Some((next, notices)),
    ensures
        ({
            let behind = if long {
                plan.desired.units() > limit.units()
            } else {
                plan.desired.units() < limit.units()
            };
            let n = next.ratchet_stuck_cycles;
            &&& n == if behind { st.ratchet_stuck_cycles + 1 } else { 0 }
            &&& behind && (n == 3 || n % 90 == 0) <==> notices.len() == 1
            &&& notices.len() == 1 ==> (notices[0] matches Notice::RatchetStuck { trigger: t, desired, cycles }
                && t.units() == trigger.units() && desired.units() == plan.desired.units() && cycles == n)
            &&& notices.len() <= 1
        }),
{
    let k: u32 = if long { 1005 } else { 995 };
    lemma_normal(trigger);
    lemma_normal(plan.desired);
    let factor = lit(k, 3);
    lemma_lit(k, 3);
    lemma_lit_units(k, 3);
    lemma_product(trigger, factor);
    let u = unit() / 1000;
    assert(unit() == 1000 * u);
    assert(limit.units() * unit() == trigger.units() * factor.units()) by (nonlinear_arith)
        requires
            unit() == 1000 * u,
            factor.units() == k * u,
            limit.units() * 1000 == trigger.units() * k,
    ;
}

/// A stop order that is found on the exchange and not known is taken over with its number and its price, and
/// with the entry price of the position where none was known; one that is known, or of which the number or the
/// price cannot be read, changes nothing.
pub proof fn found_stop_is_adopted(st: GuardState, stop: ExistingStop, entry: Dec)
    ensures
        ({
            let next = adopted(st, stop, entry);
            let found = stop.id is Some && stop.trigger is Some && st.own_stop_id != stop.id;
            &&& found ==> next.own_stop_id == stop.id && Some(next.stop_price) == stop.trigger && next.entry_used == (
            if st.entry_used.units() > 0 { st.entry_used } else { entry })
            &&& !found ==> next == st
            &&& next.peak == st.peak && next.trail_armed == st.trail_armed && next.last_milestone_roe
                == st.last_milestone_roe
        }),
{
}

/// The stop order that is read from the open orders is the first one that closes the whole position, with its
/// number and its trigger price.
pub proof fn first_stop_is_read(orders: Seq<JsonView>, i: int)
    requires
        0 <= i <= orders.len(),
    ensures
        first_stop(orders, i) is None <==> forall|j: int|
            i <= j < orders.len() ==> !closes_whole(#[trigger] orders[j]),
        first_stop(orders, i) matches Some(stop) ==> exists|j: int|
            i <= j < orders.len() && closes_whole(#[trigger] orders[j]) && stop.id == orders[j].u64_field(
                "algoId"@,
            ) && stop.trigger == orders[j].dec_field("triggerPrice"@) && forall|k: int|
                i <= k < j ==> !closes_whole(#[trigger] orders[k]),
    decreases orders.len() - i,
{
    if i < orders.len() {
        if is_close_stop(orders[i]) {
            assert(closes_whole(orders[i]));
        } else {
            first_stop_is_read(orders, i + 1);
            assert(!closes_whole(orders[i]));
            if let Some(stop) = first_stop(orders, i + 1) {
                let j = choose|j: int|
                    i + 1 <= j < orders.len() && closes_whole(#[trigger] orders[j]) && stop.id
                        == orders[j].u64_field("algoId"@) && stop.trigger == orders[j].dec_field(
                        "triggerPrice"@,
                    ) && forall|k: int| i + 1 <= k < j ==> !closes_whole(#[trigger] orders[k]);
                assert(closes_whole(orders[j]));
            } else {
                assert(forall|j: int|
                    i + 1 <= j < orders.len() ==> !closes_whole(#[trigger] orders[j]));
            }
        }
    }
}

/// An order on the exchange that closes the whole position at the market once its price is reached.
pub open spec fn closes_whole(order: JsonView) -> bool {
    order.text_field("orderType"@) == Some("STOP_MARKET"@) && order.bool_field("closePosition"@) == Some(true)
}

/// The stop orders that are left behind are all those that close a whole position and have a number, and no
/// others.
pub proof fn all_leftovers_are_found(orders: Seq<JsonView>, n: int)
    requires
        0 <= n <= orders.len(),
    ensures
        forall|i: int|
            0 <= i < n && closes_whole(#[trigger] orders[i]) && orders[i].u64_field("algoId"@) is Some
                ==> stop_ids(orders, n).contains(orders[i].u64_field("algoId"@)->0),
        forall|k: int|
            #![trigger stop_ids(orders, n)[k]]
            0 <= k < stop_ids(orders, n).len() ==> exists|i: int|
                0 <= i < n && closes_whole(#[trigger] orders[i]) && orders[i].u64_field("algoId"@) == Some(
                    stop_ids(orders, n)[k],
                ),
    decreases n,
{
    if n > 0 {
        all_leftovers_are_found(orders, n - 1);
        let before = stop_ids(orders, n - 1);
        let now = stop_ids(orders, n);
        let last = orders[n - 1];
        assert(is_close_stop(last) == closes_whole(last));
        assert forall|i: int|
            0 <= i < n && closes_whole(#[trigger] orders[i]) && orders[i].u64_field("algoId"@) is Some implies
            now.contains(orders[i].u64_field("algoId"@)->0) by {
            let id = orders[i].u64_field("algoId"@)->0;
            if i < n - 1 {
                let k = choose|k: int| 0 <= k < before.len() && before[k] == id;
                assert(now[k] == id);
            } else {
                assert(now[before.len() as int] == id);
            }
        }
        assert forall|k: int| #![trigger now[k]] 0 <= k < now.len() implies exists|i: int|
            0 <= i < n && closes_whole(#[trigger] orders[i]) && orders[i].u64_field("algoId"@) == Some(
                now[k],
            ) by {
            if k < before.len() {
                assert(now[k] == before[k]);
                let i = choose|i: int|
                    0 <= i < n - 1 && closes_whole(#[trigger] orders[i]) && orders[i].u64_field("algoId"@)
                        == Some(before[k]);
                assert(closes_whole(orders[i]));
            } else {
                assert(closes_whole(orders[n - 1]));
            }
        }
    }
}

/// Every entry of the exchange's list with a size has its symbol among the open positions, and the last entry of
/// a symbol is the one that counts, with its size, its prices and its leverage, ten where none is written.
pub proof fn every_position_is_live(items: Seq<JsonView>, n: int, i: int)
    requires
        0 <= i < n <= items.len(),
        or_else(items[i].dec_field("positionAmt"@), zero()).units() != 0,
        forall|j: int|
            i < j < n && or_else((#[trigger] items[j]).dec_field("positionAmt"@), zero()).units() != 0
                ==> text_word(items[j]) != text_word(items[i]),
    ensures
        exists|k: int|
            0 <= k < live_of(items, n).len() && ({
                let (symbol, held) = #[trigger] live_of(items, n)[k];
                &&& symbol == text_word(items[i])
                &&& Some(held.amt) == items[i].dec_field("positionAmt"@)
                &&& held.entry == or_else(items[i].dec_field("entryPrice"@), zero())
                &&& held.mark == or_else(items[i].dec_field("markPrice"@), zero())
                &&& held.upnl == or_else(items[i].dec_field("unRealizedProfit"@), zero())
                &&& held.lev == or_else(items[i].dec_field("leverage"@), lit(10, 0))
            }),
    decreases n,
{
    lemma_lit(0, 0);
    lemma_units_sign(zero());
    let p = position_of(items[i])->0;
    lemma_live_entry(items, n, i, p);
    let k = choose|k: int| 0 <= k < live_of(items, n).len() && #[trigger] live_of(items, n)[k] == p;
    assert(live_of(items, n)[k] == p);
}

/// The symbol of an entry of the exchange's list.
pub open spec fn text_word(item: JsonView) -> Seq<char> {
    match item.text_field("symbol"@) {
        Some(s) => s,
        None => ""@,
    }
}

proof fn lemma_live_entry(items: Seq<JsonView>, n: int, i: int, p: (Seq<char>, Held))
    requires
        0 <= i < n <= items.len(),
        position_of(items[i]) == Some(p),
        forall|j: int|
            i < j < n && or_else((#[trigger] items[j]).dec_field("positionAmt"@), zero()).units() != 0
                ==> text_word(items[j]) != text_word(items[i]),
    ensures
        exists|k: int| 0 <= k < live_of(items, n).len() && #[trigger] live_of(items, n)[k] == p,
    decreases n,
{
    let before = live_of(items, n - 1);
    let now = live_of(items, n);
    if i < n - 1 {
        lemma_live_entry(items, n - 1, i, p);
        let k = choose|k: int| 0 <= k < before.len() && #[trigger] before[k] == p;
        match position_of(items[n - 1]) {
            None => {
                assert(now[k] == p);
            },
            Some(q) => {
                lemma_place_of(before, q.0, 0);
                assert(or_else(items[n - 1].dec_field("positionAmt"@), zero()).units() != 0);
                assert(now[k] == p);
            },
        }
    } else {
        lemma_place_of(before, p.0, 0);
        let at = place_of(before, p.0, 0);
        if at < before.len() {
            assert(now[at as int] == p);
        } else {
            assert(now[before.len() as int] == p);
        }
    }
}

/// The realised profit and the fees of a closed position are the signed amounts of its records of these kinds
/// added up, of its symbol only and of the fees those in USDT only, where the sums are decimals of some step.
pub proof fn closed_position_adds_up(items: Seq<JsonView>, symbol: Seq<char>, n: int, step: Dec)
    requires
        arithmetic(),
        0 <= n <= items.len(),
        step.wf(),
        step.units() > 0,
        forall|i: int|
            0 <= i < items.len() && (#[trigger] items[i]).dec_field("income"@) is Some
                ==> items[i].dec_field("income"@)->0.wf(),
        forall|i: int|
            0 <= i <= n ==> #[trigger] profit_of(items, symbol, i) % step.units() == 0 && fits(
                distance(profit_of(items, symbol, i)),
                step.places(),
            ),
        forall|i: int|
            0 <= i <= n ==> #[trigger] fees_of(items, symbol, i) % step.units() == 0 && fits(
                distance(fees_of(items, symbol, i)),
                step.places(),
            ),
    ensures
        closed_totals(items, symbol, n).0 matches Some(d) ==> d.wf() && d.units() == profit_of(items, symbol, n),
        closed_totals(items, symbol, n).1 matches Some(d) ==> d.wf() && d.units() == fees_of(items, symbol, n),
    decreases n,
{
    lemma_lit(0, 0);
    lemma_units_sign(zero());
    reveal_strlit("REALIZED_PNL");
    reveal_strlit("COMMISSION");
    assert("REALIZED_PNL"@.len() == 12 && "COMMISSION"@.len() == 10);
    if n > 0 {
        closed_position_adds_up(items, symbol, n - 1, step);
        let item = items[n - 1];
        let amount = income_amount(item);
        let (realized, fee) = closed_totals(items, symbol, n - 1);
        if let Some(d) = realized {
            lemma_sum(d, amount);
            if let Some(r) = sum_of(d, amount) {
                lemma_lands(r, profit_of(items, symbol, n), step);
            }
        }
        if let Some(d) = fee {
            lemma_sum(d, amount);
            if let Some(r) = sum_of(d, amount) {
                lemma_lands(r, fees_of(items, symbol, n), step);
            }
        }
    }
}

/// The profit that the first `n` records realise for a symbol.
pub open spec fn profit_of(items: Seq<JsonView>, symbol: Seq<char>, n: int) -> int
    decreases n,
{
    if n <= 0 {
        0
    } else {
        let r = items[n - 1];
        profit_of(items, symbol, n - 1) + if r.text_field("symbol"@) == Some(symbol) && r.text_field("incomeType"@)
            == Some("REALIZED_PNL"@) {
            amount_of(r)
        } else {
            0
        }
    }
}

/// The fees in USDT that the first `n` records take for a symbol.
pub open spec fn fees_of(items: Seq<JsonView>, symbol: Seq<char>, n: int) -> int
    decreases n,
{
    if n <= 0 {
        0
    } else {
        let r = items[n - 1];
        fees_of(items, symbol, n - 1) + if r.text_field("symbol"@) == Some(symbol) && r.text_field("incomeType"@)
            == Some("COMMISSION"@) && r.text_field("asset"@) == Some("USDT"@) {
            amount_of(r)
        } else {
            0
        }
    }
}

/// The report on a closed position shows its profit and its fees to the cent, calls it a gain unless it is a
/// loss, and counts the whole minutes between two moments.
pub proof fn closed_report_is_true(
    items: Seq<JsonView>,
    symbol: Seq<char>,
    opened_at: u64,
    now_ms: u64,
    trailed: bool,
    profit: Dec,
    fee: Dec,
    r: ClosedReport,
)
    requires
        arithmetic(),
        profit.wf() && fee.wf(),
        closed_totals(items, symbol, items.len() as int) == (Some(profit), Some(fee)),
        closed_report_of(items, symbol, opened_at, now_ms, trailed) == Some(r),
    ensures
        to_the_cent(r.realized.units(), profit.units()),
        r.gain <==> profit.units() >= 0,
        r.fee is None <==> fee.units() == 0,
        r.fee matches Some(f) ==> to_the_cent(f.units(), fee.units()),
        r.trailed == trailed,
        now_ms >= opened_at ==> 60000 * r.minutes <= now_ms - opened_at < 60000 * (r.minutes + 1),
        now_ms < opened_at ==> r.minutes == 0,
{
    lemma_shown_cents(profit);
    lemma_shown_cents(fee);
}

/// A switch is on where it was not set or set to one, and off where it was set to anything else; a figure that
/// was not set, or cannot be read, is its default.
pub proof fn settings_have_defaults(raw: &str, other: Dec, n: u64)
    ensures
        switch(None),
        switch(Some(raw)) <==> raw@ == "1"@,
        dec_setting(None, other) == other,
        dec_of_text(raw@) is None ==> dec_setting(Some(raw), other) == other,
        dec_of_text(raw@) matches Some(d) ==> dec_setting(Some(raw), other) == d,
        u64_setting(None, n) == n,
{
}

/// While the open orders are not known, and after an order was cancelled, a round only minds the age of the
/// position: no order is placed or cancelled on a guess.
pub proof fn unknown_orders_place_nothing(p: Patrol, reply: Reply, next: Patrol, notices: Seq<Notice>)
    requires
        p.phase is Reading && reply is OrdersUnknown || p.phase is Cancelling && reply is Done,
        p.after(reply) == Some((next, notices)),
    ensures
        !(next.asks() is PlaceStop) && !(next.asks() is Cancel) && !(next.asks() is ReadOrders),
        next.state.own_stop_id == p.state.own_stop_id,
        next.state.stop_price == p.state.stop_price,
        next.state.trail_armed == p.state.trail_armed,
{
}

/// A position that is left without a stop order because the order was refused is told of, once until one stands;
/// where the order was to take the place of another, nothing is.
pub proof fn refusal_is_told_once(plan: StopPlan)
    ensures
        ({
            let (state, notices) = refused(plan);
            let bare = plan.replace is None && !plan.state.stop_error_notified;
            &&& bare ==> notices.len() == 1 && notices[0] is Unprotected && state.stop_error_notified
            &&& !bare ==> notices.len() == 0 && state == plan.state
            &&& state.own_stop_id == plan.state.own_stop_id && state.trail_armed == plan.state.trail_armed
        }),
{
}

/// A round starts from the settings, the position and what is remembered of it, and reads the open orders first. It
/// changes nothing of what is remembered but the best price, the milestones and whether the stop follows the price.
pub proof fn round_starts_with_reading(
    cfg: GuardConfig,
    held: Held,
    tick: Option<Dec>,
    minutes: u64,
    st: GuardState,
    p: Patrol,
    notices: Seq<Notice>,
)
    requires
        Patrol::started(cfg, held, tick, minutes, st) == Some((p, notices)),
    ensures
        p.asks() is ReadOrders,
        p.cfg == cfg && p.held == held && p.tick == tick && p.minutes == minutes,
        Some(p.th) == thresholds_of(cfg, held.lev),
        p.state.own_stop_id == st.own_stop_id && p.state.stop_price == st.stop_price && p.state.entry_used
            == st.entry_used,
        p.state.auto_close_attempted == st.auto_close_attempted && p.state.last_hold_alert_min
            == st.last_hold_alert_min && p.state.stop_error_notified == st.stop_error_notified,
        held.mark.units() <= 0 ==> p.state == st,
        held.mark.units() > 0 && st.peak.units() > 0 ==> p.state.peak.units() == (if held.amt.units() > 0 {
            if held.mark.units() > st.peak.units() { held.mark.units() } else { st.peak.units() }
        } else {
            if held.mark.units() < st.peak.units() { held.mark.units() } else { st.peak.units() }
        }),
        held.mark.units() > 0 && st.peak.units() <= 0 ==> p.state.peak.units() == (if held.amt.units() > 0 {
            if held.mark.units() > held.entry.units() { held.mark.units() } else { held.entry.units() }
        } else {
            if held.mark.units() < held.entry.units() { held.mark.units() } else { held.entry.units() }
        }),
{
}

/// A reply that does not fit where the round stands changes nothing.
pub proof fn strange_replies_change_nothing(p: Patrol, reply: Reply)
    ensures
        p.phase is Finished ==> p.after(reply) == Some((p, Seq::<Notice>::empty())),
        p.phase is Reading && !(reply is Orders || reply is OrdersUnknown) ==> p.after(reply) == Some(
            (p, Seq::<Notice>::empty()),
        ),
        p.phase is Placing && !(reply is Placed || reply is Refused) ==> p.after(reply) == Some(
            (p, Seq::<Notice>::empty()),
        ),
        p.phase is Cancelling && !(reply is Done) ==> p.after(reply) == Some((p, Seq::<Notice>::empty())),
        p.phase is Closing && !(reply is Done || reply is Refused) ==> p.after(reply) == Some(
            (p, Seq::<Notice>::empty()),
        ),
{
}

/// Of a new position nothing is remembered: no stop order, no best price, no milestone, and a stop that does not
/// follow the price.
pub proof fn new_position_is_fresh()
    ensures
        ({
            let st = GuardState::fresh();
            &&& st.own_stop_id is None && !st.trail_armed && !st.trail_confirm_sent
            &&& st.peak.units() == 0 && st.stop_price.units() == 0 && st.entry_used.units() == 0
            &&& st.last_milestone_roe == 0 && st.ratchet_stuck_cycles == 0 && st.last_hold_alert_min == 0
            &&& !st.stop_error_notified && !st.auto_close_attempted
        }),
{
    lemma_lit(0, 0);
    lemma_units_sign(zero());
}

/// A stop price is brought to the grid of ticks away from the price: down for a long position and up for a short one,
/// so that it gives no more than a tick to the price and none to the profit.
pub proof fn stop_gives_way(
    cfg: GuardConfig,
    th: Thresholds,
    held: Held,
    st: GuardState,
    tick: Dec,
    at: Dec,
    desired: Dec,
)
    requires
        arithmetic(),
        tick.wf(),
        tick.units() > 0,
        at.wf(),
        at.units() >= 0,
        stop_line(cfg, th, held, st) == Some(at),
        desired_stop(cfg, th, held, st, Some(tick)) == Some(desired),
        fits(2 * (at.units() + tick.units()), tick.places()),
    ensures
        desired.units() % tick.units() == 0,
        held.amt.units() > 0 ==> precision() * (desired.units() - at.units()) <= at.units() + tick.units(),
        held.amt.units() <= 0 ==> precision() * (at.units() - desired.units()) <= at.units() + tick.units(),
        within_tick(held.amt.units() > 0, desired.units(), at.units(), tick.units()),
{
    let long = held.amt.units() > 0;
    lemma_quotient(at, tick);
    let steps = quotient(Some(at), Some(tick))->0;
    let n = if long { floor(steps) } else { ceiling(steps) };
    assert(n.wf() && n.places() == 0 && (long ==> n.units() <= steps.units() < n.units() + unit()) && (!long
        ==> n.units() - unit() < steps.units() <= n.units())) by {
        reveal(arithmetic);
        assert(is_floor(floor(steps), steps) && is_ceiling(ceiling(steps), steps));
    }
    lemma_product(n, tick);
    lemma_within_tick(long, at.units(), tick.units(), steps.units(), n.units(), desired.units());
    lemma_on_grid(long, at.units(), tick, steps.units(), n, desired);
}

/// What is read of the open orders is remembered, whether or not an order is placed then: a stop order that was not
/// known is minded from now on, with its number and its price; else the one that was known stays.
pub proof fn read_stop_is_remembered(p: Patrol, stop: ExistingStop, next: Patrol, notices: Seq<Notice>)
    requires
        p.phase is Reading,
        p.after(Reply::Orders(Some(stop))) == Some((next, notices)),
    ensures
        ({
            let found = stop.id is Some && stop.trigger is Some && p.state.own_stop_id != stop.id;
            &&& found ==> next.state.own_stop_id == stop.id && Some(next.state.stop_price) == stop.trigger
            &&& !found ==> next.state.own_stop_id == p.state.own_stop_id && next.state.stop_price
                == p.state.stop_price && next.state.entry_used == p.state.entry_used
        }),
        next.asks() is PlaceStop || next.asks() is ClosePosition || next.asks() is Store,
{
}

/// A round that places no stop order counts whether the one on the exchange is behind, and then minds the age of the
/// position: the reminder and the order to close come from there, and all that is to be told is told, in this order.
/// Where the count is switched off, or the stop does not follow the price, it stays as it is.
pub proof fn quiet_round_minds_the_rest(p: Patrol, stop: Option<ExistingStop>, next: Patrol, notices: Seq<Notice>)
    requires
        p.phase is Reading,
        p.after(Reply::Orders(stop)) == Some((next, notices)),
        !(next.asks() is PlaceStop),
    ensures
        ({
            let plan = planned(p.cfg, p.th, p.held, p.state, p.tick, stop)->0;
            let close = p.cfg.auto_close_min > 0 && p.minutes >= p.cfg.auto_close_min
                && !p.state.auto_close_attempted;
            let remind = p.cfg.alert_min > 0 && p.minutes >= p.cfg.alert_min && (p.state.last_hold_alert_min == 0
                || p.minutes >= p.state.last_hold_alert_min + p.cfg.alert_min);
            &&& watched(p.cfg, p.held.amt.units() > 0, plan, plan.state) matches Some((counted, stuck))
                && next.state.ratchet_stuck_cycles == counted.ratchet_stuck_cycles && notices.take(
                stuck.len() as int,
            ) == stuck && notices.len() == stuck.len() + if remind { 1int } else { 0 }
            &&& close <==> next.asks() is ClosePosition
            &&& !close <==> next.asks() is Store
            &&& remind ==> notices.last() is HeldTooLong
            &&& !(p.cfg.trail_on && p.state.trail_armed) ==> next.state.ratchet_stuck_cycles
                == p.state.ratchet_stuck_cycles
        }),
{
    let plan = planned(p.cfg, p.th, p.held, p.state, p.tick, stop)->0;
    let (counted, stuck) = watched(p.cfg, p.held.long(), plan, plan.state)->0;
    let (_, old) = Patrol { state: counted, ..p }.aged();
    assert(notices =~= stuck + old);
    assert(notices.take(stuck.len() as int) =~= stuck);
}

/// After a first stop order stands, and after a stop order was refused, the round minds the age of the position too.
pub proof fn placed_round_minds_age(p: Patrol, plan: StopPlan, id: u64)
    requires
        p.phase == Phase::Placing(plan),
        plan.state == p.state,
    ensures
        ({
            let close = p.cfg.auto_close_min > 0 && p.minutes >= p.cfg.auto_close_min
                && !p.state.auto_close_attempted;
            &&& plan.replace is None ==> (p.after(Reply::Placed(id)) matches Some((next, _)) ==> (close
                <==> next.asks() is ClosePosition) && (!close <==> next.asks() is Store))
            &&& p.after(Reply::Refused) matches Some((next, _)) ==> (close <==> next.asks() is ClosePosition) && (!close
                <==> next.asks() is Store)
        }),
{
}

/// What is told where the stop starts to follow the price: the return on the money so far, to one place, and where
/// the stop stands from now on, to six: the trailing percentage behind the best price, no worse than the entry price
/// where the set-up keeps profits.
pub proof fn arming_is_told(
    cfg: GuardConfig,
    th: Thresholds,
    held: Held,
    st: GuardState,
    next: GuardState,
    notices: Seq<Notice>,
)
    requires
        arithmetic(),
        held.mark.wf() && held.entry.wf() && st.peak.wf() && th.lev.wf() && th.trail_pct.wf(),
        held.entry.units() > 0,
        0 <= th.trail_pct.units() <= 5 * whole(),
        followed(cfg, th, held, st) == Some((next, notices)),
        next.trail_armed && !st.trail_armed,
    ensures
        notices.last() matches Notice::Armed { profit_roe, floor } && ({
            let long = held.amt.units() > 0;
            let profit = gain_pct(long, held.mark, held.entry)->0;
            let near = line(long, next.peak, th.trail_pct)->0;
            let at = if cfg.arm_roe.units() > cfg.trail_roe.units() {
                better_of(long, near, held.entry)
            } else {
                near
            };
            &&& amounts_to(long, held.mark.units(), held.entry.units(), profit.units())
            &&& lies_behind(long, near.units(), next.peak.units(), th.trail_pct.units())
            &&& 2 * distance(floor.units() - at.units()) <= 10000000000000000000000
            &&& exists|roe: Dec| #[trigger]
                rounded(Some(roe), profit.units() * th.lev.units(), unit()) && 2 * distance(
                    profit_roe.units() - roe.units(),
                ) <= 1000000000000000000000000000
        }),
{
    let long = held.long();
    let peak = best_price(long, st.peak, held.mark, held.entry);
    let profit = gain_pct(long, held.mark, held.entry)->0;
    gains_are_percentages(long, held.mark, held.entry, profit);
    lemma_product(profit, th.lev);
    let roe = product_of(profit, th.lev)->0;
    let near = line(long, peak, th.trail_pct)->0;
    assert(peak.units() > 0);
    lines_lie_behind(long, peak, th.trail_pct, near);
    let at = secured(cfg, held, near);
    assert(is_rounded_to(round(roe, 1), roe, 1) && is_rounded_to(round(at, 6), at, 6) && round(roe, 1).wf() && round(
        at,
        6,
    ).wf()) by {
        reveal(arithmetic);
    }
    lemma_normal(round(roe, 1));
    lemma_normal(round(at, 6));
    assert(pow(10, 27) == 1000000000000000000000000000 && pow(10, 22) == 10000000000000000000000) by {
        reveal_with_fuel(pow, 28);
    }
    assert(rounded(Some(roe), profit.units() * th.lev.units(), unit()));
}

/// Milestones are those of the best price: the return that it has brought, its gain in percent times the leverage,
/// decides which are told and which is the highest from now on.
pub proof fn milestones_are_of_best_price(
    cfg: GuardConfig,
    th: Thresholds,
    held: Held,
    st: GuardState,
    next: GuardState,
    notices: Seq<Notice>,
)
    requires
        arithmetic(),
        held.mark.wf() && held.entry.wf() && st.peak.wf() && th.lev.wf(),
        held.entry.units() > 0,
        held.mark.units() > 0,
        followed(cfg, th, held, st) == Some((next, notices)),
    ensures
        ({
            let long = held.amt.units() > 0;
            let gained = gain_pct(long, next.peak, held.entry)->0;
            &&& amounts_to(long, next.peak.units(), held.entry.units(), gained.units())
            &&& exists|roe: Dec| #[trigger]
                rounded(Some(roe), gained.units() * th.lev.units(), unit()) && next.last_milestone_roe == passed(
                    roe,
                    st.last_milestone_roe,
                    8,
                ).0 && notices.take(passed(roe, st.last_milestone_roe, 8).1.len() as int) == passed(
                    roe,
                    st.last_milestone_roe,
                    8,
                ).1
        }),
        held.mark.units() > 0 ==> next.peak.units() > 0,
{
    let long = held.long();
    let peak = best_price(long, st.peak, held.mark, held.entry);
    let gained = gain_pct(long, peak, held.entry)->0;
    gains_are_percentages(long, peak, held.entry, gained);
    lemma_product(gained, th.lev);
    let roe = product_of(gained, th.lev)->0;
    let told = passed(roe, st.last_milestone_roe, 8).1;
    assert(notices.take(told.len() as int) =~= told);
    assert(rounded(Some(roe), gained.units() * th.lev.units(), unit()));
}

} // verus!
