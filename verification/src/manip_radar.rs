//! Signs that a coin's market is not clean. They warn, they never act. Figures are doubles, held by
//! their bits.

use vstd::prelude::*;

use crate::bits::below;

verus! {

/// The seconds between two scans.
pub const SCAN_SECS: u64 = 60;

/// The seconds within which a coin is not warned of twice.
pub const ALERT_COOLDOWN_SECS: u64 = 3600;

/// How many candles are needed.
pub const MIN_BARS: usize = 120;

/// A sign.
#[derive(Clone, Copy, Debug, PartialEq, Eq, Structural)]
pub enum Flag {
    /// Pulled up within an hour, and more than half of it given back.
    PumpAndDump,
    /// A sharp rise with an extreme turnover and an overheated funding rate.
    Overheated,
    /// Many candles with long wicks.
    Wicks { count: usize },
    /// A large turnover over a thin book.
    ThinBook,
}

/// The figures of the last hour: its lowest price, its rise in percent, and the part of the rise that
/// was given back.
#[derive(Clone, Copy, Debug)]
pub struct Hour {
    pub low: u64,
    pub rise: u64,
    pub retrace: u64,
}

/// Whether an hour looks like a pull-up that is being sold: more than eight percent up, more than half
/// of it given back.
pub open spec fn pumped(h: Hour) -> bool {
    below(0, h.low) && below(0x4020_0000_0000_0000, h.rise) && below(
        0x3fe0_0000_0000_0000,
        h.retrace,
    )
}

/// Whether the last five minutes call for a look at the funding rate: more than three percent up with
/// more than ten times the usual turnover.
pub open spec fn is_hot(ret5: u64, surge: u64) -> bool {
    below(0x4008_0000_0000_0000, ret5) && below(0x4024_0000_0000_0000, surge)
}

/// Whether the last five minutes call for a look at the funding rate.
#[verifier::when_used_as_spec(is_hot)]
pub fn needs_funding(ret5: u64, surge: u64) -> (r: bool)
    ensures
        r == is_hot(ret5, surge),
{
    below(0x4008_0000_0000_0000, ret5) && below(0x4024_0000_0000_0000, surge)
}

/// How many of the first `n` candles have a wick of more than 0.7 percent, up or down.
pub open spec fn wicks_of(up: Seq<u64>, down: Seq<u64>, n: int) -> nat
    decreases n,
{
    if n <= 0 {
        0
    } else {
        wicks_of(up, down, n - 1) + if below(0x3fe6_6666_6666_6666, up[n - 1]) || below(
            0x3fe6_6666_6666_6666,
            down[n - 1],
        ) {
            1nat
        } else {
            0nat
        }
    }
}

/// How many candles have a long wick.
pub fn count_wicks(up: &Vec<u64>, down: &Vec<u64>) -> (r: usize)
    requires
        up@.len() == down@.len(),
    ensures
        r == wicks_of(up@, down@, up@.len() as int),
        r <= up@.len(),
{
    let mut count: usize = 0;
    let mut n: usize = 0;
    while n < up.len()
        invariant
            n <= up.len(),
            up@.len() == down@.len(),
            count == wicks_of(up@, down@, n as int),
            count <= n,
        decreases up.len() - n,
    {
        if below(0x3fe6_6666_6666_6666, up[n]) || below(0x3fe6_6666_6666_6666, down[n]) {
            count = count + 1;
        }
        n = n + 1;
    }
    count
}

/// The signs of a coin, in their order.
pub open spec fn flags_of(
    hour: Hour,
    ret5: u64,
    surge: u64,
    funding: u64,
    wicks: usize,
    depth: u64,
    ratio: u64,
) -> Seq<Flag> {
    let a = if pumped(hour) { seq![Flag::PumpAndDump] } else { Seq::empty() };
    let b = if is_hot(ret5, surge) && below(0x4049_0000_0000_0000, funding) {
        seq![Flag::Overheated]
    } else {
        Seq::empty()
    };
    let c = if wicks >= 8 { seq![Flag::Wicks { count: wicks }] } else { Seq::empty() };
    let d = if below(0, depth) && below(0x40af_4000_0000_0000, ratio) {
        seq![Flag::ThinBook]
    } else {
        Seq::empty()
    };
    a + b + c + d
}

/// The signs of a coin: from the figures of its last hour and of its last five minutes, its funding by
/// the year, its long wicks, the money in its book within a percent of the price, and a day's turnover
/// over that money.
pub fn inspect(
    hour: Hour,
    ret5: u64,
    surge: u64,
    funding: u64,
    wicks: usize,
    depth: u64,
    ratio: u64,
) -> (r: Vec<Flag>)
    ensures
        r@ == flags_of(hour, ret5, surge, funding, wicks, depth, ratio),
{
    let mut out: Vec<Flag> = Vec::new();
    if below(0, hour.low) && below(0x4020_0000_0000_0000, hour.rise) && below(
        0x3fe0_0000_0000_0000,
        hour.retrace,
    ) {
        out.push(Flag::PumpAndDump);
    }
    if needs_funding(ret5, surge) && below(0x4049_0000_0000_0000, funding) {
        out.push(Flag::Overheated);
    }
    if wicks >= 8 {
        out.push(Flag::Wicks { count: wicks });
    }
    if below(0, depth) && below(0x40af_4000_0000_0000, ratio) {
        out.push(Flag::ThinBook);
    }
    assert(out@ =~= flags_of(hour, ret5, surge, funding, wicks, depth, ratio));
    out
}

/// Each sign is shown exactly where its figures say so: a rise of more than eight percent in an hour from a price
/// above zero with more than half of it given back; more than three percent in five minutes on more than ten times
/// the turnover with funding of more than fifty percent a year; eight long wicks or more; and a turnover of more
/// than four thousand times the money in the book. No sign is shown twice.
pub proof fn signs_are_shown(
    hour: Hour,
    ret5: u64,
    surge: u64,
    funding: u64,
    wicks: usize,
    depth: u64,
    ratio: u64,
)
    ensures
        ({
            let flags = flags_of(hour, ret5, surge, funding, wicks, depth, ratio);
            let pump = below(0, hour.low) && below(0x4020_0000_0000_0000, hour.rise) && below(
                0x3fe0_0000_0000_0000,
                hour.retrace,
            );
            let hot = below(0x4008_0000_0000_0000, ret5) && below(0x4024_0000_0000_0000, surge) && below(
                0x4049_0000_0000_0000,
                funding,
            );
            let thin = below(0, depth) && below(0x40af_4000_0000_0000, ratio);
            &&& flags.contains(Flag::PumpAndDump) <==> pump
            &&& flags.contains(Flag::Overheated) <==> hot
            &&& flags.contains(Flag::Wicks { count: wicks }) <==> wicks >= 8
            &&& flags.contains(Flag::ThinBook) <==> thin
            &&& flags.len() == (if pump { 1int } else { 0 }) + (if hot { 1int } else { 0 }) + (if wicks >= 8 {
                1int
            } else {
                0
            }) + (if thin { 1int } else { 0 })
        }),
{
    let flags = flags_of(hour, ret5, surge, funding, wicks, depth, ratio);
    let a = if pumped(hour) { 1int } else { 0 };
    let b = if is_hot(ret5, surge) && below(0x4049_0000_0000_0000, funding) { 1int } else { 0 };
    let c = if wicks >= 8 { 1int } else { 0 };
    if pumped(hour) {
        assert(flags[0] == Flag::PumpAndDump);
    }
    if b == 1 {
        assert(flags[a] == Flag::Overheated);
    }
    if c == 1 {
        assert(flags[a + b] == (Flag::Wicks { count: wicks }));
    }
    if below(0, depth) && below(0x40af_4000_0000_0000, ratio) {
        assert(flags[a + b + c] == Flag::ThinBook);
    }
}

/// A candle counts once where its upper or its lower wick is longer than 0.7 percent, and not else.
pub proof fn wicks_count_once(up: Seq<u64>, down: Seq<u64>, n: int)
    requires
        0 < n <= up.len(),
        up.len() == down.len(),
    ensures
        wicks_of(up, down, n) == wicks_of(up, down, n - 1) + 1 <==> below(0x3fe6_6666_6666_6666, up[n - 1]) || below(
            0x3fe6_6666_6666_6666,
            down[n - 1],
        ),
        wicks_of(up, down, n - 1) <= wicks_of(up, down, n) <= wicks_of(up, down, n - 1) + 1,
        wicks_of(up, down, 0) == 0,
{
}

} // verus!
