//! The per-instrument trading cycle as a pure state machine: poll, decide,
//! act, wait. The decisions live here, verified; the HTTP calls and the
//! sleeping are performed by the process around the library, which feeds
//! every outcome back in as a plain value.

use vstd::prelude::*;
use crate::decimal::Price;
use crate::policy::{Action, PolicyConfig, spec_decide, decide};
use crate::exchange::{Side, OrderOutcome};

verus! {

/// A tradable instrument tracked by one loop; constructed once at startup,
/// never mutated, shared by nothing. Its liquidity metric is carried in
/// fixed point like every other amount.
pub struct Token {
    pub symbol: Vec<u8>,
    pub name: Vec<u8>,
    pub address: Vec<u8>,
    pub id: Vec<u8>,
    pub liquidity_bnb: Price,
    pub binance_listed: bool,
}

/// What a loop does next.
#[derive(Clone, Copy, Debug, PartialEq, Eq, Structural)]
pub enum LoopCommand {
    /// Poll the market price.
    FetchPrice,
    /// Submit a market order.
    PlaceOrder { side: Side, quantity: Price },
    /// Wait out the fixed interval.
    Sleep,
}

/// The command a cycle issues after its poll: an order when the policy says
/// buy or sell, with the policy's quantity; straight to the wait phase when
/// the policy holds, and equally when no price came back — an absent price
/// only skips the cycle, it never ends the loop.
pub open spec fn spec_on_poll(poll: Option<Price>, cfg: PolicyConfig) -> LoopCommand {
    match poll {
        Option::None => LoopCommand::Sleep,
        Option::Some(p) => match spec_decide(p, cfg) {
            Action::Buy => LoopCommand::PlaceOrder { side: Side::Buy, quantity: cfg.quantity },
            Action::Sell => LoopCommand::PlaceOrder { side: Side::Sell, quantity: cfg.quantity },
            Action::Hold => LoopCommand::Sleep,
        },
    }
}

/// Decide phase of one cycle.
pub fn on_poll_result(poll: &Option<Price>, cfg: &PolicyConfig) -> (r: LoopCommand)
    requires
        cfg.wf(),
    ensures
        r == spec_on_poll(*poll, *cfg),
{
    match poll {
        None => LoopCommand::Sleep,
        Some(p) => match decide(*p, cfg) {
            Action::Buy => LoopCommand::PlaceOrder { side: Side::Buy, quantity: cfg.quantity },
            Action::Sell => LoopCommand::PlaceOrder { side: Side::Sell, quantity: cfg.quantity },
            Action::Hold => LoopCommand::Sleep,
        },
    }
}

/// A refused or unanswered order never ends the loop: whatever the outcome
/// of the act phase, the cycle proceeds to its wait phase.
pub fn after_order(outcome: &OrderOutcome) -> (r: LoopCommand)
    ensures
        r is Sleep,
{
    match outcome {
        OrderOutcome::Placed => LoopCommand::Sleep,
        OrderOutcome::Rejected { .. } => LoopCommand::Sleep,
        OrderOutcome::Unsent => LoopCommand::Sleep,
    }
}

/// Waking from the wait phase always returns the loop to polling; only
/// outside cancellation ends a loop.
pub fn after_sleep() -> (r: LoopCommand)
    ensures
        r is FetchPrice,
{
    LoopCommand::FetchPrice
}

/// The commands one concurrent round of polls yields: one per instrument,
/// each from that instrument's own poll alone.
pub open spec fn cycle_commands(polls: Seq<Option<Price>>, cfg: PolicyConfig) -> Seq<LoopCommand> {
    polls.map_values(|p: Option<Price>| spec_on_poll(p, cfg))
}

/// Decide phase of one round over every tracked instrument.
pub fn on_poll_results(polls: &Vec<Option<Price>>, cfg: &PolicyConfig) -> (r: Vec<LoopCommand>)
    requires
        cfg.wf(),
    ensures
        r@ == cycle_commands(polls@, *cfg),
{
    let mut out: Vec<LoopCommand> = Vec::new();
    let mut i: usize = 0;
    while i < polls.len()
        invariant
            i <= polls@.len(),
            cfg.wf(),
            out@ == cycle_commands(polls@.take(i as int), *cfg),
        decreases polls@.len() - i,
    {
        let c = on_poll_result(&polls[i], cfg);
        out.push(c);
        proof {
            assert(out@ =~= cycle_commands(polls@.take(i + 1 as int), *cfg));
        }
        i = i + 1;
    }
    proof {
        assert(polls@.take(polls@.len() as int) =~= polls@);
    }
    out
}

/// Failure isolation: within one round, the command of instrument `i` is a
/// function of its own poll result and the config alone — the polls of every
/// other instrument, present or absent, leave it unchanged.
pub proof fn lemma_failure_isolation(
    polls1: Seq<Option<Price>>,
    polls2: Seq<Option<Price>>,
    i: int,
    cfg: PolicyConfig,
)
    requires
        polls1.len() == polls2.len(),
        0 <= i < polls1.len(),
        polls1[i] == polls2[i],
    ensures
        cycle_commands(polls1, cfg)[i] == cycle_commands(polls2, cfg)[i],
        cycle_commands(polls1, cfg)[i] == spec_on_poll(polls1[i], cfg),
{
}

} // verus!
