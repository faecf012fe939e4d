//! Decision policy: a pure threshold comparison over fixed-point prices.

use vstd::prelude::*;
use crate::decimal::Price;

verus! {

/// What one poll of the market tells the loop to do.
#[derive(Clone, Copy, Debug, PartialEq, Eq, Structural)]
pub enum Action {
    Buy,
    Sell,
    Hold,
}

/// Threshold band of the static threshold policy, already scaled by its
/// base reference price, plus the fixed order quantity the policy uses.
#[derive(Clone, Copy, Debug, PartialEq, Eq, Structural)]
pub struct PolicyConfig {
    pub low: Price,
    pub high: Price,
    pub quantity: Price,
}

impl PolicyConfig {
    /// A config is well formed when the band is a real band.
    pub open spec fn wf(self) -> bool {
        self.low.units <= self.high.units
    }
}

/// The decision rule as a value: buy strictly below the band, sell strictly
/// above it, hold anywhere inside it.
pub open spec fn spec_decide(price: Price, cfg: PolicyConfig) -> Action {
    if price.units < cfg.low.units {
        Action::Buy
    } else if price.units > cfg.high.units {
        Action::Sell
    } else {
        Action::Hold
    }
}

/// The static threshold rule: buy strictly below the band, sell strictly
/// above it, hold anywhere inside it, boundaries included on the hold side.
pub fn decide(price: Price, cfg: &PolicyConfig) -> (r: Action)
    requires
        cfg.wf(),
    ensures
        r == spec_decide(price, *cfg),
        (r == Action::Buy) <==> price.units < cfg.low.units,
        (r == Action::Sell) <==> price.units > cfg.high.units,
        (r == Action::Hold) <==> (cfg.low.units <= price.units <= cfg.high.units),
{
    if price.units < cfg.low.units {
        Action::Buy
    } else if price.units > cfg.high.units {
        Action::Sell
    } else {
        Action::Hold
    }
}

} // verus!
