//! The model's view of a breakout: the figures that go into the prediction, turned so that a rise and a
//! fall look alike.

use std::collections::VecDeque;

use vstd::prelude::*;

use crate::decimal::{opposite, Dec};
use crate::text::same;

verus! {

/// The model.
pub struct MLEngine;

/// The figures of a breakout: the imbalance of the book towards it, the flow with it and the flow
/// against it where there is any, the funding that it would earn, and the first and the last price of
/// the window once it holds more than ten.
#[derive(Clone, Copy, Debug)]
pub struct Inputs {
    pub rises: bool,
    pub imbalance: Dec,
    pub flow: Dec,
    pub against: Option<Dec>,
    pub funding: Dec,
    pub span: Option<(Dec, Dec)>,
}

impl MLEngine {
    /// Turns the figures of a breakout to its side. Any side but `BUY` is a fall.
    pub fn inputs(
        obi: Dec,
        taker_buy: Dec,
        taker_sell: Dec,
        funding_rate: Dec,
        side: &str,
        mid_price_history: &VecDeque<Dec>,
    ) -> (r: Inputs)
        ensures
            r.rises == (side@ == "BUY"@),
            r.imbalance == (if r.rises { obi } else { opposite(obi) }),
            r.flow == (if r.rises { taker_buy } else { taker_sell }),
            ({
                let other = if r.rises { taker_sell } else { taker_buy };
                r.against == if other.units() > 0 { Some(other) } else { None }
            }),
            r.funding == (if r.rises { opposite(funding_rate) } else { funding_rate }),
            r.span == (if mid_price_history@.len() > 10 {
                Some((mid_price_history@.first(), mid_price_history@.last()))
            } else {
                None
            }),
    {
        let rises = same(side, "BUY");
        let other = if rises { taker_sell } else { taker_buy };
        let n: usize = mid_price_history.len();
        Inputs {
            rises,
            imbalance: if rises { obi } else { opposite(obi) },
            flow: if rises { taker_buy } else { taker_sell },
            against: if other.is_positive() { Some(other) } else { None },
            funding: if rises { opposite(funding_rate) } else { funding_rate },
            span: if n > 10 {
                Some((mid_price_history[0], mid_price_history[n - 1]))
            } else {
                None
            },
        }
    }
}

} // verus!
