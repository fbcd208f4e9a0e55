//! Paper trading: simulated orders and positions on live data.
//!
//! A tick goes through the [`Stage`]s: it closes positions first, which frees their markets, then
//! fills resting orders, then places new ones. The kernel's numbers come from whoever evaluates its
//! formulas; which gate a market passes, which order fills, which position closes and why is
//! decided here.
//!
//! Fill model: strict breakthrough at the back of the queue. A YES bid fills when the best ask is
//! below its limit, a NO bid when the best bid is above it, each at the price that broke through.

use crate::db::MarketRow;
use crate::kernel::risk::{
    classify_regime, compute_side, edge_needs_gap_profile_and_lag, edge_qualifies, in_open_unit,
    open_unit, open_unit_is_numeric, regime_is_agreement, regime_of, side_is_the_sign_of_the_gap,
    side_of, warm, ExitThresholds, OracleType, Regime, Side, Venue,
};
use crate::normalizer::{
    bbo, inputs_of, normalize, or_empty, read_bbo, text_or_empty, venue_for, venue_of, InputsView,
    MarketInputs,
};
use crate::num::{order_is_numeric, sign_is_numeric, Real};
use crate::ring::{opt_text, RingSet};
use crate::text::uppercase;
use std::collections::HashMap;
use vstd::prelude::*;
use vstd::std_specs::hash::*;

verus! {

broadcast use {vstd::std_specs::hash::group_hash_axioms, vstd::set::group_set_axioms};

/// Shortest time to close at which an order is placed, in microseconds.
pub const MIN_T_MICROS: u64 = 60_000_000;

/// The binary64 number nearest to 0.02: no order at a market price this low.
pub const FILL_FLOOR: u64 = 0x3F94_7AE1_47AE_147B;

/// The binary64 number nearest to 0.98: no order at a market price this high.
pub const FILL_CEIL: u64 = 0x3FEF_5C28_F5C2_8F5C;

/// The binary64 number nearest to 0.10: no order at a gap this wide.
pub const GAP_CAP: u64 = 0x3FB9_9999_9999_999A;

/// The binary64 number nearest to 1e-9: smaller rises of a position's peak are not kept.
pub const PEAK_STEP: u64 = 0x3E11_2E0B_E826_D695;

/// How long the list of markets is kept, in microseconds.
pub const MARKET_REFRESH_MICROS: i64 = 60_000_000;

/// Width of the strike buckets of which one order each is placed in a tick, in dollars.
pub const STRIKE_DEDUP_BUCKET: u32 = 100;

/// Shortest time a position is held before it may close for convergence, in microseconds.
pub const MIN_HOLD_CONVERGENCE: i64 = 60_000_000;

/// A resting limit order.
pub struct PaperOrder {
    pub id: i64,
    pub market_id: i64,
    pub ticker: String,
    pub venue: String,
    pub oracle: String,
    pub side: Side,
    pub limit_price: Real,
    pub size: Real,
    pub strike: Real,
    pub placed_ts: i64,
    // What the kernel saw at placement.
    pub p_true: Real,
    pub p_market: Real,
    pub gap: Real,
    pub sigma_1s: Real,
    /// Seconds until the market closes.
    pub t_secs: Real,
    pub spread: Real,
    pub net_edge: Real,
    pub gate_d1: Real,
    pub displacement: Real,
}

/// An open position.
pub struct PaperPosition {
    pub id: i64,
    pub market_id: i64,
    pub ticker: String,
    pub venue: String,
    pub oracle: String,
    pub side: Side,
    pub size: Real,
    pub strike: Real,
    pub entry_price: Real,
    pub entry_ts: i64,
    pub entry_gap: Real,
    pub entry_fee: Real,
    pub committed_capital: Real,
    pub spread_at_fill: Real,
    pub entry_net_edge: Real,
    pub entry_gate_d1: Real,
    pub entry_displacement: Real,
    /// Highest unrealized profit so far.
    pub peak_unrealized: Real,
}

/// A market that passed all gates, with what the kernel computed for it.
pub struct EntryCandidate {
    pub market_id: i64,
    pub ticker: String,
    pub venue: String,
    pub oracle: OracleType,
    pub side: Side,
    pub regime: Regime,
    /// The strike, rounded to hundreds of dollars.
    pub bucket: i64,
    pub omega: Real,
    pub limit_price: Real,
    pub size: Real,
    pub strike: Real,
    pub p_true: Real,
    pub p_market: Real,
    pub gap: Real,
    pub d1: Real,
    pub sigma_1s: Real,
    /// Seconds until the market closes.
    pub t_secs: Real,
    pub spread: Real,
    pub spread_pct: Real,
    pub fee_rate: Real,
    pub net_edge: Real,
    pub gate_d1: Real,
    pub gate_trend: Real,
    pub displacement: Real,
}

/// What the kernel computes of a market before the gates decide.
#[derive(Clone, Copy, Debug, PartialEq, Eq, Structural)]
pub struct KernelNumbers {
    pub p_market: Real,
    pub d1: Real,
    pub p_true: Real,
    /// True less market probability.
    pub gap: Real,
    /// Taker fee rate at the market price.
    pub fee_rate: Real,
    /// Observations of the oracle's profile, and how many it needs.
    pub n_obs: u64,
    pub min_obs: u64,
    /// The gap that the oracle's lag can open.
    pub capacity: Real,
    /// Spot less oracle.
    pub mu: Real,
    /// How far the displacement clears the fee.
    pub gate_d1: Real,
}

/// What the gates decide of a market that passes them.
#[derive(Clone, Copy, Debug, PartialEq, Eq, Structural)]
pub struct Terrain {
    pub side: Side,
    pub regime: Regime,
    /// How far the displacement cleared the fee when last seen; zero at first.
    pub prev_gate_d1: Real,
}

/// The gates on the kernel's numbers: a market price away from both ends, a finite moneyness, a
/// true probability strictly between zero and one, a gap below the cap, and an edge that the
/// oracle's lag explains.
pub open spec fn passes_gates(k: KernelNumbers) -> bool {
    &&& !k.p_market.at_most(Real { bits: FILL_FLOOR })
    &&& !(Real { bits: FILL_CEIL }).at_most(k.p_market)
    &&& k.d1.finite()
    &&& k.p_true.finite() && open_unit(k.p_true)
    &&& !(Real { bits: GAP_CAP }).at_most(k.gap.unsigned())
    &&& k.fee_rate.below(k.gap.unsigned())
    &&& warm(k.n_obs, k.min_obs)
    &&& k.fee_rate.below(k.capacity)
}

fn gates_pass(k: &KernelNumbers) -> (r: bool)
    ensures
        r == passes_gates(*k),
{
    let gap_abs: Real = k.gap.abs();
    !k.p_market.le(&(Real { bits: FILL_FLOOR })) && !k.p_market.ge(&(Real { bits: FILL_CEIL }))
        && k.d1.is_finite() && k.p_true.is_finite() && in_open_unit(k.p_true) && !gap_abs.ge(
        &(Real { bits: GAP_CAP }),
    ) && edge_qualifies(gap_abs, k.fee_rate, k.n_obs, k.min_obs, k.capacity)
}

/// What the gates decide of a market with these numbers, last seen to clear the fee by `last`.
pub open spec fn terrain_of(k: KernelNumbers, spot: Real, strike: Real, last: Real) -> Option<
    Terrain,
> {
    if passes_gates(k) {
        Some(
            Terrain {
                side: side_of(k.gap),
                regime: regime_of(spot, strike, k.mu),
                prev_gate_d1: last,
            },
        )
    } else {
        None
    }
}

/// The gates do not ask for the side: numbers that differ in the sign of the gap only pass or fail
/// together. Nor do they ask how far spot and oracle are apart, or how far that clears the fee.
pub proof fn gates_ask_for_no_side(k: KernelNumbers, mu: Real, gate_d1: Real)
    ensures
        passes_gates(KernelNumbers { gap: k.gap.negated(), ..k }) == passes_gates(k),
        passes_gates(KernelNumbers { mu, gate_d1, ..k }) == passes_gates(k),
{
    assert(k.gap.negated().unsigned() == k.gap.unsigned());
}

/// What passes the gates has everything, on either side: a price off both ends, a true probability
/// between zero and one, a gap beyond the fee and below the cap, an oracle lag that opens more than
/// the fee, and a warm profile. Finite numbers that have all this pass.
pub proof fn gates_ask_for_everything(k: KernelNumbers)
    ensures
        passes_gates(k) ==> {
            &&& k.d1.finite()
            &&& k.p_true.finite()
            &&& k.fee_rate.below(k.capacity)
            &&& k.fee_rate.below(k.gap.unsigned())
            &&& k.n_obs >= k.min_obs
        },
        !k.p_market.nan() && k.d1.finite() && k.p_true.finite() ==> (passes_gates(k) <==> {
            let gap = k.gap.unsigned();
            &&& (Real { bits: 0x3F94_7AE1_47AE_147B }).below(k.p_market)
            &&& k.p_market.below(Real { bits: 0x3FEF_5C28_F5C2_8F5C })
            &&& 0 < k.p_true.value() < (Real { bits: 0x3FF0_0000_0000_0000 }).value()
            &&& k.fee_rate.below(gap) && gap.below(Real { bits: 0x3FB9_9999_9999_999A })
            &&& k.fee_rate.below(k.capacity)
            &&& k.n_obs >= k.min_obs
        }),
        k.p_market.finite() && k.d1.finite() && k.p_true.finite() && k.gap.finite()
            && k.fee_rate.finite() && k.capacity.finite() ==> (passes_gates(k) <==> {
            let price = k.p_market.value();
            let gap = if k.gap.value() < 0 {
                -k.gap.value()
            } else {
                k.gap.value()
            };
            &&& (Real { bits: 0x3F94_7AE1_47AE_147B }).value() < price
            &&& price < (Real { bits: 0x3FEF_5C28_F5C2_8F5C }).value()
            &&& 0 < k.p_true.value() < (Real { bits: 0x3FF0_0000_0000_0000 }).value()
            &&& k.fee_rate.value() < gap < (Real { bits: 0x3FB9_9999_9999_999A }).value()
            &&& k.fee_rate.value() < k.capacity.value()
            &&& k.n_obs >= k.min_obs
        }),
{
    edge_needs_gap_profile_and_lag(
        k.gap.unsigned(),
        k.fee_rate,
        k.n_obs,
        k.min_obs,
        k.capacity,
    );
    open_unit_is_numeric(k.p_true);
    if k.p_market.finite() && k.gap.finite() {
        sign_is_numeric(k.gap);
        order_is_numeric(k.p_market, Real { bits: FILL_FLOOR });
        order_is_numeric(Real { bits: FILL_CEIL }, k.p_market);
        order_is_numeric(Real { bits: GAP_CAP }, k.gap.unsigned());
    }
}

/// A market that passes is traded on the side of its gap, in the regime of spot, strike and drift,
/// and is told what was last seen of it; one that does not is not traded.
pub proof fn terrain_tells_side_and_regime(
    k: KernelNumbers,
    spot: Real,
    strike: Real,
    last: Real,
)
    requires
        k.gap.finite(),
        k.mu.finite(),
        spot.finite(),
        strike.finite(),
    ensures
        terrain_of(k, spot, strike, last) is Some <==> passes_gates(k),
        terrain_of(k, spot, strike, last) matches Some(t) ==> {
            &&& t.side == Side::BidYes <==> k.gap.value() >= 0
            &&& t.regime == Regime::Amplify <==> {
                ||| spot.value() > strike.value() && k.mu.value() > 0
                ||| spot.value() <= strike.value() && k.mu.value() < 0
            }
            &&& t.prev_gate_d1 == last
        },
{
    side_is_the_sign_of_the_gap(k.gap);
    regime_is_agreement(spot, strike, k.mu);
}

/// A fill: the price, the quotes it came from, and the venue whose fees apply.
#[derive(Clone, Copy, Debug, PartialEq, Eq, Structural)]
pub struct Fill {
    pub price: Real,
    pub bid: Real,
    pub ask: Real,
    pub venue: Venue,
}

/// The price at which an order fills, if it does: the quote that broke through its limit.
pub open spec fn breakthrough(side: Side, limit: Real, bid: Real, ask: Real) -> Option<Real> {
    match side {
        Side::BidYes => if ask.below(limit) {
            Some(ask)
        } else {
            None
        },
        Side::BidNo => if limit.below(bid) {
            Some(bid)
        } else {
            None
        },
    }
}

/// The price at which an order fills at the given quotes. A quote at the limit does not fill it.
pub fn fill_price(side: Side, limit: Real, bid: Real, ask: Real) -> (r: Option<Real>)
    ensures
        r == breakthrough(side, limit, bid, ask),
{
    match side {
        Side::BidYes => if ask.lt(&limit) {
            Some(ask)
        } else {
            None
        },
        Side::BidNo => if bid.gt(&limit) {
            Some(bid)
        } else {
            None
        },
    }
}

/// Why a position closes.
#[derive(Clone, Copy, Debug, PartialEq, Eq, Structural)]
pub enum ExitReason {
    /// The displacement no longer clears the fee.
    TerrainGone,
    /// The gap changed sides.
    SignFlip,
    ProfitTarget,
    TrailingStop,
    Convergence,
    MaxLoss,
    Resolution,
}

impl ExitReason {
    /// The reason's name.
    pub open spec fn name(self) -> Seq<char> {
        match self {
            ExitReason::TerrainGone => "terrain_gone"@,
            ExitReason::SignFlip => "sign_flip"@,
            ExitReason::ProfitTarget => "profit_target"@,
            ExitReason::TrailingStop => "trailing_stop"@,
            ExitReason::Convergence => "convergence"@,
            ExitReason::MaxLoss => "max_loss"@,
            ExitReason::Resolution => "resolution"@,
        }
    }

    /// The reason as text.
    pub fn as_text(&self) -> (r: &'static str)
        ensures
            r@ == self.name(),
    {
        match self {
            ExitReason::TerrainGone => "terrain_gone",
            ExitReason::SignFlip => "sign_flip",
            ExitReason::ProfitTarget => "profit_target",
            ExitReason::TrailingStop => "trailing_stop",
            ExitReason::Convergence => "convergence",
            ExitReason::MaxLoss => "max_loss",
            ExitReason::Resolution => "resolution",
        }
    }
}

/// What the kernel computes of a position's market.
#[derive(Clone, Copy, Debug, PartialEq, Eq, Structural)]
pub struct ExitNumbers {
    pub p_market: Real,
    pub p_true: Real,
    /// True less market probability.
    pub gap: Real,
    pub gate_d1: Real,
    /// Unrealized profit of the whole position.
    pub unrealized: Real,
    /// Peak less current unrealized profit.
    pub drawdown: Real,
}

/// The gap where the true probability is known, else zero.
pub open spec fn known_gap(n: ExitNumbers) -> Real {
    if n.p_true.finite() && open_unit(n.p_true) {
        n.gap
    } else {
        Real { bits: 0 }
    }
}

/// Why a position closes, if it does. Without a market price it is held. The physics comes first;
/// then, in this order: the gap on the other side, the profit target, the trailing stop,
/// convergence at a loss after the least holding time, and the loss limit.
pub open spec fn exit_of(
    entry_gap: Real,
    held: int,
    n: ExitNumbers,
    t: ExitThresholds,
) -> Option<ExitReason> {
    let gap = known_gap(n);
    if !n.p_market.finite() || !n.p_market.positive() {
        None
    } else if n.gate_d1.below(Real { bits: 0 }) {
        Some(ExitReason::TerrainGone)
    } else if !(!gap.nan() && gap.rank() == 0) && side_of(entry_gap) != side_of(gap) {
        Some(ExitReason::SignFlip)
    } else if t.profit_target.at_most(n.unrealized) {
        Some(ExitReason::ProfitTarget)
    } else if t.trail_distance.at_most(n.drawdown) {
        Some(ExitReason::TrailingStop)
    } else if gap.unsigned().below(t.convergence_floor) && n.unrealized.below(Real { bits: 0 })
        && held > MIN_HOLD_CONVERGENCE {
        Some(ExitReason::Convergence)
    } else if n.unrealized.at_most(t.max_loss.negated()) {
        Some(ExitReason::MaxLoss)
    } else {
        None
    }
}

/// Decides whether a position closes, and why. `entry_ts` and `now` are microseconds.
pub fn exit_reason(
    entry_gap: Real,
    entry_ts: i64,
    now: i64,
    n: &ExitNumbers,
    t: &ExitThresholds,
) -> (r: Option<ExitReason>)
    ensures
        r == exit_of(entry_gap, now - entry_ts, *n, *t),
{
    let zero: Real = Real::zero();
    if !n.p_market.is_finite() || !n.p_market.is_positive() {
        return None;
    }
    if n.gate_d1.lt(&zero) {
        return Some(ExitReason::TerrainGone);
    }
    let gap: Real = if n.p_true.is_finite() && in_open_unit(n.p_true) {
        n.gap
    } else {
        zero
    };
    let held: i128 = now as i128 - entry_ts as i128;
    if !gap.same(&zero) && compute_side(entry_gap) != compute_side(gap) {
        Some(ExitReason::SignFlip)
    } else if n.unrealized.ge(&t.profit_target) {
        Some(ExitReason::ProfitTarget)
    } else if n.drawdown.ge(&t.trail_distance) {
        Some(ExitReason::TrailingStop)
    } else if gap.abs().lt(&t.convergence_floor) && n.unrealized.lt(&zero) && held
        > MIN_HOLD_CONVERGENCE as i128 {
        Some(ExitReason::Convergence)
    } else if n.unrealized.le(&t.max_loss.neg()) {
        Some(ExitReason::MaxLoss)
    } else {
        None
    }
}

/// A position whose displacement no longer clears the fee closes for that reason, whatever its
/// profit, and no position closes for that reason otherwise.
pub proof fn terrain_comes_first(
    entry_gap: Real,
    held: int,
    n: ExitNumbers,
    t: ExitThresholds,
)
    requires
        n.p_market.finite(),
        n.p_market.positive(),
    ensures
        exit_of(entry_gap, held, n, t) == Some(ExitReason::TerrainGone) <==> n.gate_d1.below(
            Real { bits: 0 },
        ),
{
}

/// An order never fills at its limit or worse: a YES bid fills below it, a NO bid above it.
pub proof fn fills_beat_the_limit(side: Side, limit: Real, bid: Real, ask: Real)
    ensures
        breakthrough(side, limit, bid, ask) matches Some(price) ==> match side {
            Side::BidYes => price == ask && price.below(limit),
            Side::BidNo => price == bid && limit.below(price),
        },
{
}

/// An order fills whenever the market trades through its limit, and then only: a YES bid at an ask
/// below it, a NO bid at a bid above it. The other quote does not matter.
pub proof fn fills_follow_the_market(limit: Real, bid: Real, ask: Real)
    requires
        limit.finite(),
        bid.finite(),
        ask.finite(),
    ensures
        breakthrough(Side::BidYes, limit, bid, ask) == if ask.value() < limit.value() {
            Some(ask)
        } else {
            None
        },
        breakthrough(Side::BidNo, limit, bid, ask) == if bid.value() > limit.value() {
            Some(bid)
        } else {
            None
        },
{
    order_is_numeric(ask, limit);
    order_is_numeric(limit, bid);
}

/// A position closes because its gap changed sides exactly where the gap is not zero and calls for
/// the other side than the gap at entry did, whether that was YES or NO. Where the true
/// probability is not known, no gap is known to have changed.
pub proof fn sign_flip_is_a_change_of_side(
    entry_gap: Real,
    held: int,
    n: ExitNumbers,
    t: ExitThresholds,
)
    requires
        n.p_market.finite(),
        n.p_market.value() > 0,
        !n.gate_d1.below(Real { bits: 0 }),
        entry_gap.finite(),
        n.gap.finite(),
    ensures
        n.p_true.finite() && 0 < n.p_true.value() < (Real { bits: 0x3FF0_0000_0000_0000 }).value()
            ==> (exit_of(entry_gap, held, n, t) == Some(ExitReason::SignFlip) <==> {
            ||| entry_gap.value() >= 0 && n.gap.value() < 0
            ||| entry_gap.value() < 0 && n.gap.value() > 0
        }),
        !(n.p_true.finite() && 0 < n.p_true.value() < (Real {
            bits: 0x3FF0_0000_0000_0000,
        }).value()) ==> exit_of(entry_gap, held, n, t) != Some(ExitReason::SignFlip),
{
    order_is_numeric(n.p_market, Real { bits: 0 });
    open_unit_is_numeric(n.p_true);
    side_is_the_sign_of_the_gap(entry_gap);
    side_is_the_sign_of_the_gap(n.gap);
    order_is_numeric(n.gap, Real { bits: 0 });
    order_is_numeric(Real { bits: 0 }, n.gap);
}

/// A position whose gap stays on its side closes for the first that holds of: a profit at the
/// target, a pullback from the peak of the trailing distance, a loss after more than a minute at a
/// gap below the floor, and a loss at the limit. It is held where none does.
pub proof fn exits_come_in_order(entry_gap: Real, held: int, n: ExitNumbers, t: ExitThresholds)
    requires
        n.p_market.finite(),
        n.p_market.value() > 0,
        n.gate_d1.finite(),
        n.gate_d1.value() >= 0,
        n.p_true.finite(),
        0 < n.p_true.value() < (Real { bits: 0x3FF0_0000_0000_0000 }).value(),
        entry_gap.finite(),
        n.gap.finite(),
        n.gap.value() == 0 || (entry_gap.value() >= 0 <==> n.gap.value() >= 0),
        n.unrealized.finite(),
        n.drawdown.finite(),
        t.profit_target.finite(),
        t.trail_distance.finite(),
        t.convergence_floor.finite(),
        t.max_loss.finite(),
    ensures
        ({
            let profit = n.unrealized.value();
            let target = profit >= t.profit_target.value();
            let trailing = n.drawdown.value() >= t.trail_distance.value();
            let gap = if n.gap.value() < 0 {
                -n.gap.value()
            } else {
                n.gap.value()
            };
            let converged = gap < t.convergence_floor.value() && profit < 0 && held > 60_000_000;
            let lost = profit <= -t.max_loss.value();
            let exit = exit_of(entry_gap, held, n, t);
            &&& exit == Some(ExitReason::ProfitTarget) <==> target
            &&& exit == Some(ExitReason::TrailingStop) <==> !target && trailing
            &&& exit == Some(ExitReason::Convergence) <==> !target && !trailing && converged
            &&& exit == Some(ExitReason::MaxLoss) <==> !target && !trailing && !converged && lost
            &&& exit is None <==> !target && !trailing && !converged && !lost
        }),
{
    let zero = Real { bits: 0 };
    order_is_numeric(n.p_market, zero);
    order_is_numeric(n.gate_d1, zero);
    order_is_numeric(n.gap, zero);
    order_is_numeric(zero, n.gap);
    open_unit_is_numeric(n.p_true);
    side_is_the_sign_of_the_gap(entry_gap);
    side_is_the_sign_of_the_gap(n.gap);
    sign_is_numeric(n.gap);
    sign_is_numeric(t.max_loss);
    order_is_numeric(t.profit_target, n.unrealized);
    order_is_numeric(t.trail_distance, n.drawdown);
    order_is_numeric(n.gap.unsigned(), t.convergence_floor);
    order_is_numeric(n.unrealized, zero);
    order_is_numeric(n.unrealized, t.max_loss.negated());
}

/// Positions close in the same order whatever their numbers are: a threshold that is reached closes
/// them, and one that is not a number is never reached.
pub proof fn thresholds_close_when_reached(
    entry_gap: Real,
    held: int,
    n: ExitNumbers,
    t: ExitThresholds,
)
    requires
        n.p_market.finite(),
        n.p_market.value() > 0,
        !n.gate_d1.below(Real { bits: 0 }),
        n.gap.finite(),
        n.gap.value() == 0,
        n.p_true.finite(),
        0 < n.p_true.value() < (Real { bits: 0x3FF0_0000_0000_0000 }).value(),
    ensures
        ({
            let zero = Real { bits: 0 };
            let exit = exit_of(entry_gap, held, n, t);
            let won = t.profit_target.at_most(n.unrealized);
            let fell = t.trail_distance.at_most(n.drawdown);
            let flat = zero.below(t.convergence_floor) && n.unrealized.below(zero) && held
                > 60_000_000;
            let lost = n.unrealized.at_most(t.max_loss.negated());
            &&& won <==> exit == Some(ExitReason::ProfitTarget)
            &&& !won ==> (fell <==> exit == Some(ExitReason::TrailingStop))
            &&& !won && !fell ==> (flat <==> exit == Some(ExitReason::Convergence))
            &&& !won && !fell && !flat ==> (lost <==> exit == Some(ExitReason::MaxLoss))
            &&& exit is None <==> !won && !fell && !flat && !lost
        }),
{
    let zero = Real { bits: 0 };
    order_is_numeric(n.p_market, zero);
    open_unit_is_numeric(n.p_true);
    order_is_numeric(n.gap, zero);
    order_is_numeric(zero, n.gap);
    assert(n.gap.rank() == 0);
    assert(n.gap.unsigned().rank() == 0);
}

/// A position without a market price is held, whatever else is known of it; and no position closes
/// as resolved while its market is seen.
pub proof fn unpriced_positions_are_held(
    entry_gap: Real,
    held: int,
    n: ExitNumbers,
    t: ExitThresholds,
)
    ensures
        !n.p_market.finite() || n.p_market.value() <= 0 ==> exit_of(entry_gap, held, n, t) is None,
        exit_of(entry_gap, held, n, t) != Some(ExitReason::Resolution),
{
    if n.p_market.finite() {
        order_is_numeric(n.p_market, Real { bits: 0 });
    }
}

/// YES and NO positions are treated alike: turning both gaps round changes nothing, where neither
/// is zero.
pub proof fn exits_ask_for_no_side(entry_gap: Real, held: int, n: ExitNumbers, t: ExitThresholds)
    requires
        entry_gap.finite(),
        entry_gap.value() != 0,
        n.gap.finite(),
        n.gap.value() != 0,
    ensures
        exit_of(entry_gap.negated(), held, ExitNumbers { gap: n.gap.negated(), ..n }, t)
            == exit_of(entry_gap, held, n, t),
{
    side_is_the_sign_of_the_gap(entry_gap);
    side_is_the_sign_of_the_gap(n.gap);
    assert(n.gap.negated().unsigned() == n.gap.unsigned());
    assert(n.gap.negated().nan() == n.gap.nan());
}

/// Where the true probability is not known, a position is treated as one without a gap.
pub proof fn unknown_probability_is_no_gap(
    entry_gap: Real,
    held: int,
    n: ExitNumbers,
    t: ExitThresholds,
)
    requires
        !n.p_true.finite() || n.p_true.value() <= 0 || n.p_true.value() >= (Real {
            bits: 0x3FF0_0000_0000_0000,
        }).value(),
    ensures
        exit_of(entry_gap, held, n, t) == exit_of(
            entry_gap,
            held,
            ExitNumbers {
                p_true: Real { bits: 0x3FE0_0000_0000_0000 },
                gap: Real { bits: 0 },
                ..n
            },
            t,
        ),
{
    open_unit_is_numeric(n.p_true);
}

/// The quote at which a position is closed.
pub open spec fn closing_quote(side: Side, bid: Real, ask: Real) -> Real {
    match side {
        Side::BidYes => ask,
        Side::BidNo => bid,
    }
}

/// A position closes at the quote at which an order on its side fills: whatever the limit, a fill
/// is at the closing quote of the same market.
pub proof fn positions_close_where_orders_fill(side: Side, limit: Real, bid: Real, ask: Real)
    ensures
        breakthrough(side, limit, bid, ask) matches Some(price) ==> price == closing_quote(
            side,
            bid,
            ask,
        ),
        closing_quote(Side::BidYes, bid, ask) == ask,
        closing_quote(Side::BidNo, bid, ask) == bid,
{
}

/// The quote at which a position is closed.
pub fn exit_price(side: Side, inputs: &MarketInputs) -> (r: Real)
    ensures
        r == closing_quote(side, inputs.best_bid, inputs.best_ask),
{
    match side {
        Side::BidYes => inputs.best_ask,
        Side::BidNo => inputs.best_bid,
    }
}

/// The stages of a tick.
#[derive(Clone, Copy, Debug, PartialEq, Eq, Structural)]
pub enum Stage {
    /// Take a new list of markets, where that is due.
    Markets,
    /// Observe how far the oracles are displaced.
    Profiles,
    /// Close positions.
    Exits,
    /// Fill resting orders.
    Fills,
    /// Place orders.
    Entries,
    /// Record the accounts.
    Accounts,
}

impl Stage {
    /// The stage that a tick begins with.
    pub fn first() -> (r: Stage)
        ensures
            r == Stage::Markets,
    {
        Stage::Markets
    }

    /// The stage that follows; `None` at the end of the tick.
    pub open spec fn following(self) -> Option<Stage> {
        match self {
            Stage::Markets => Some(Stage::Profiles),
            Stage::Profiles => Some(Stage::Exits),
            Stage::Exits => Some(Stage::Fills),
            Stage::Fills => Some(Stage::Entries),
            Stage::Entries => Some(Stage::Accounts),
            Stage::Accounts => None,
        }
    }

    /// The stage that follows; `None` at the end of the tick.
    pub fn next(self) -> (r: Option<Stage>)
        ensures
            r == self.following(),
    {
        match self {
            Stage::Markets => Some(Stage::Profiles),
            Stage::Profiles => Some(Stage::Exits),
            Stage::Exits => Some(Stage::Fills),
            Stage::Fills => Some(Stage::Entries),
            Stage::Entries => Some(Stage::Accounts),
            Stage::Accounts => None,
        }
    }

    /// The changes to the trader's book that belong to a stage.
    pub open spec fn admits(self, change: Change) -> bool {
        match change {
            Change::Refresh(_, _) => self == Stage::Markets,
            Change::Raise(_, _) => self == Stage::Exits,
            Change::Close(_, _) => self == Stage::Exits,
            Change::Fill(_) => self == Stage::Fills,
            Change::Remember(_, _) => self == Stage::Entries,
            Change::Place(_) => self == Stage::Entries,
        }
    }
}

/// A change to the trader's book.
pub enum Change {
    /// New markets, listed at a time.
    Refresh(Seq<MarketRow>, i64),
    /// How far the displacement of a market clears the fee.
    Remember(i64, Real),
    /// A new order.
    Place(PaperOrder),
    /// The position that the order of its market becomes.
    Fill(PaperPosition),
    /// The new peak of a market's position.
    Raise(i64, Real),
    /// The position of a market closes, at a profit or not.
    Close(i64, bool),
}

/// The trader's book, for contracts.
#[verifier::ext_equal]
pub struct TraderView {
    pub orders: Map<i64, PaperOrder>,
    pub positions: Map<i64, PaperPosition>,
    pub gates: Map<i64, Real>,
    pub markets: Seq<MarketRow>,
    pub refreshed: i64,
    pub trades: int,
    pub wins: int,
    pub losses: int,
}

/// The first market of a list with an id.
pub open spec fn market_with_id(markets: Seq<MarketRow>, id: i64) -> Option<MarketRow>
    decreases markets.len(),
{
    if markets.len() == 0 {
        None
    } else if markets[0].id == id {
        Some(markets[0])
    } else {
        market_with_id(markets.drop_first(), id)
    }
}

impl TraderView {
    /// Each order and position stands under its own market, no market has both, and every closed
    /// trade was won or lost.
    pub open spec fn valid(self) -> bool {
        &&& forall|id: i64| #[trigger]
            self.orders.contains_key(id) ==> self.orders[id].market_id == id
                && !self.positions.contains_key(id)
        &&& forall|id: i64| #[trigger]
            self.positions.contains_key(id) ==> self.positions[id].market_id == id
        &&& self.trades == self.wins + self.losses
        &&& 0 <= self.wins
        &&& 0 <= self.losses
    }

    /// The change fits the book: an order goes to a market without exposure, and only what is
    /// there is filled, raised or closed.
    pub open spec fn allows(self, change: Change) -> bool {
        match change {
            Change::Refresh(_, _) => true,
            Change::Remember(_, _) => true,
            Change::Place(order) => !self.exposed(order.market_id),
            Change::Fill(position) => self.orders.contains_key(position.market_id),
            Change::Raise(id, _) => self.positions.contains_key(id),
            Change::Close(id, _) => self.positions.contains_key(id),
        }
    }

    /// The book after a change.
    pub open spec fn after(self, change: Change) -> TraderView {
        match change {
            Change::Refresh(markets, now) => TraderView { markets, refreshed: now, ..self },
            Change::Remember(id, gate) => TraderView { gates: self.gates.insert(id, gate), ..self },
            Change::Place(order) => TraderView {
                orders: self.orders.insert(order.market_id, order),
                ..self
            },
            Change::Fill(position) => TraderView {
                orders: self.orders.remove(position.market_id),
                positions: self.positions.insert(position.market_id, position),
                ..self
            },
            Change::Raise(id, peak) => TraderView {
                positions: self.positions.insert(
                    id,
                    PaperPosition { peak_unrealized: peak, ..self.positions[id] },
                ),
                ..self
            },
            Change::Close(id, won) => TraderView {
                positions: self.positions.remove(id),
                trades: self.trades + 1,
                wins: self.wins + if won {
                    1int
                } else {
                    0
                },
                losses: self.losses + if won {
                    0int
                } else {
                    1
                },
                ..self
            },
        }
    }

    /// The book after a sequence of changes.
    pub open spec fn after_all(self, changes: Seq<Change>) -> TraderView
        decreases changes.len(),
    {
        if changes.len() == 0 {
            self
        } else {
            self.after_all(changes.drop_last()).after(changes.last())
        }
    }

    /// Each change of a sequence belongs to the stage and fits the book as the changes before it
    /// left it.
    pub open spec fn allows_all(self, stage: Stage, changes: Seq<Change>) -> bool {
        forall|i: int|
            0 <= i < changes.len() ==> stage.admits(#[trigger] changes[i]) && self.after_all(
                changes.take(i),
            ).allows(changes[i])
    }

    /// The list of markets is older than a minute.
    pub open spec fn stale(self, now: i64) -> bool {
        now - self.refreshed > MARKET_REFRESH_MICROS
    }

    /// The market has a resting order or an open position.
    pub open spec fn exposed(self, id: i64) -> bool {
        self.orders.contains_key(id) || self.positions.contains_key(id)
    }

    /// The inputs of a market that may be entered: it has no exposure, all its inputs are there,
    /// and enough time is left.
    pub open spec fn enterable(
        self,
        rings: RingSet,
        sigma_1s: Real,
        market: MarketRow,
        now: i64,
    ) -> Option<InputsView> {
        match inputs_of(rings, sigma_1s, market, now) {
            Some(i) => if !self.exposed(market.id) && i.close.at_least(now + MIN_T_MICROS) {
                Some(i)
            } else {
                None
            },
            None => None,
        }
    }

    /// How far the displacement of a market cleared the fee when last seen.
    pub open spec fn last_gate(self, id: i64) -> Real {
        if self.gates.contains_key(id) {
            self.gates[id]
        } else {
            Real { bits: 0 }
        }
    }

    /// The fill of a market's order at a time, if it fills.
    pub open spec fn fill_at(self, rings: RingSet, id: i64, now: i64) -> Option<Fill> {
        match market_with_id(self.markets, id) {
            Some(market) => if self.orders.contains_key(id) {
                let order = self.orders[id];
                let venue = venue_of(order.venue@, uppercase(text_or_empty(market.series)));
                match bbo(rings, venue, order.ticker@, opt_text(market.token_id), now) {
                    Some((bid, ask)) => match breakthrough(
                        order.side,
                        order.limit_price,
                        bid,
                        ask,
                    ) {
                        Some(price) => Some(Fill { price, bid, ask, venue }),
                        None => None,
                    },
                    None => None,
                }
            } else {
                None
            },
            None => None,
        }
    }
}

/// A rise of a peak by more than rounding.
pub open spec fn worth_noting(rise: Real) -> bool {
    (Real { bits: PEAK_STEP }).below(rise.unsigned())
}

/// A close at this net profit is a win.
pub open spec fn is_win(net_pnl: Real) -> bool {
    net_pnl.positive()
}

/// A profit is a win, and nothing or a loss is none; a peak is noted where it moved by more than a
/// billionth, up or down; the markets are listed anew after a minute.
pub proof fn profits_are_wins(x: Real, trader: TraderView, now: i64)
    requires
        x.finite(),
    ensures
        is_win(x) <==> x.value() > 0,
        worth_noting(x) <==> {
            let step = (Real { bits: 0x3E11_2E0B_E826_D695 }).value();
            x.value() > step || x.value() < -step
        },
        trader.stale(now) <==> now > trader.refreshed + 60_000_000,
{
    sign_is_numeric(x);
    order_is_numeric(x, x);
    order_is_numeric(Real { bits: PEAK_STEP }, x.unsigned());
    order_is_numeric(Real { bits: 0 }, Real { bits: PEAK_STEP });
}

/// What to do about an open position.
pub enum ExitStep {
    /// There is none.
    NoPosition,
    /// Its market is no longer listed: close at the entry price, as resolved.
    MarketGone,
    /// Its market cannot be seen: hold.
    Hold,
    /// Evaluate the kernel on these inputs.
    Evaluate(MarketInputs),
}

/// What to do about an open position, for contracts.
#[verifier::ext_equal]
pub enum ExitView {
    NoPosition,
    MarketGone,
    Hold,
    Evaluate(InputsView),
}

impl View for ExitStep {
    type V = ExitView;

    open spec fn view(&self) -> ExitView {
        match *self {
            ExitStep::NoPosition => ExitView::NoPosition,
            ExitStep::MarketGone => ExitView::MarketGone,
            ExitStep::Hold => ExitView::Hold,
            ExitStep::Evaluate(inputs) => ExitView::Evaluate(inputs@),
        }
    }
}

impl TraderView {
    /// What to do about the position of a market at a time.
    pub open spec fn exit_at(self, rings: RingSet, sigma_1s: Real, id: i64, now: i64) -> ExitView {
        if !self.positions.contains_key(id) {
            ExitView::NoPosition
        } else {
            match market_with_id(self.markets, id) {
                None => ExitView::MarketGone,
                Some(market) => match inputs_of(rings, sigma_1s, market, now) {
                    None => ExitView::Hold,
                    Some(inputs) => ExitView::Evaluate(inputs),
                },
            }
        }
    }
}

/// A position whose market is listed is evaluated whenever its inputs are there and held while they
/// are not; it closes unseen only where its market is listed no more.
pub proof fn positions_are_watched_while_listed(
    trader: TraderView,
    rings: RingSet,
    sigma_1s: Real,
    id: i64,
    now: i64,
    i: int,
)
    requires
        trader.positions.contains_key(id),
    ensures
        (forall|j: int| 0 <= j < trader.markets.len() ==> (#[trigger] trader.markets[j]).id != id)
            <==> trader.exit_at(rings, sigma_1s, id, now) == ExitView::MarketGone,
        0 <= i < trader.markets.len() && trader.markets[i].id == id && (forall|j: int|
            0 <= j < i ==> (#[trigger] trader.markets[j]).id != id) ==> trader.exit_at(
            rings,
            sigma_1s,
            id,
            now,
        ) == match inputs_of(rings, sigma_1s, trader.markets[i], now) {
            Some(inputs) => ExitView::Evaluate(inputs),
            None => ExitView::Hold,
        },
        trader.exit_at(rings, sigma_1s, id, now) != ExitView::NoPosition,
        (TraderView { positions: trader.positions.remove(id), ..trader }).exit_at(
            rings,
            sigma_1s,
            id,
            now,
        ) == ExitView::NoPosition,
{
    markets_are_found_by_id(trader.markets, id);
    if let Some(m) = market_with_id(trader.markets, id) {
        let k = choose|k: int|
            0 <= k < trader.markets.len() && #[trigger] trader.markets[k] == m && m.id == id
                && forall|j: int| 0 <= j < k ==> (#[trigger] trader.markets[j]).id != id;
        assert(trader.markets[k].id == id);
        if 0 <= i < trader.markets.len() && trader.markets[i].id == id && (forall|j: int|
            0 <= j < i ==> (#[trigger] trader.markets[j]).id != id) {
            assert(i == k) by {
                if i < k {
                    assert(trader.markets[i].id != id);
                } else if k < i {
                    assert(trader.markets[k].id != id);
                }
            }
        }
    }
}

/// The paper trader's book: resting orders, open positions and the tally of closed ones.
pub struct PaperTrader {
    ledger: Ledger,
    markets: Vec<MarketRow>,
    last_market_refresh: i64,
}

struct Ledger {
    orders: HashMap<i64, PaperOrder>,
    positions: HashMap<i64, PaperPosition>,
    prev_gate_d1: HashMap<i64, Real>,
    total_trades: u64,
    wins: u64,
    losses: u64,
}

impl View for PaperTrader {
    type V = TraderView;

    closed spec fn view(&self) -> TraderView {
        TraderView {
            orders: self.ledger.orders@,
            positions: self.ledger.positions@,
            gates: self.ledger.prev_gate_d1@,
            markets: self.markets@,
            refreshed: self.last_market_refresh,
            trades: self.ledger.total_trades as int,
            wins: self.ledger.wins as int,
            losses: self.ledger.losses as int,
        }
    }
}

/// The order that placing a candidate makes.
pub open spec fn order_for(o: PaperOrder, c: EntryCandidate, id: i64, now: i64) -> bool {
    &&& o.id == id
    &&& o.market_id == c.market_id
    &&& o.ticker == c.ticker
    &&& o.venue == c.venue
    &&& o.oracle@ == c.oracle.name()
    &&& o.side == c.side
    &&& o.limit_price == c.limit_price
    &&& o.size == c.size
    &&& o.strike == c.strike
    &&& o.placed_ts == now
    &&& o.p_true == c.p_true
    &&& o.p_market == c.p_market
    &&& o.gap == c.gap
    &&& o.sigma_1s == c.sigma_1s
    &&& o.t_secs == c.t_secs
    &&& o.spread == c.spread
    &&& o.net_edge == c.net_edge
    &&& o.gate_d1 == c.gate_d1
    &&& o.displacement == c.displacement
}

/// What a fill costs.
#[derive(Clone, Copy, Debug, PartialEq, Eq, Structural)]
pub struct FillCosts {
    pub entry_fee: Real,
    pub committed_capital: Real,
    /// Ask less bid.
    pub spread: Real,
}

/// The position that filling an order makes.
pub open spec fn position_for(
    p: PaperPosition,
    o: PaperOrder,
    id: i64,
    price: Real,
    costs: FillCosts,
    now: i64,
) -> bool {
    &&& p.id == id
    &&& p.market_id == o.market_id
    &&& p.ticker == o.ticker
    &&& p.venue == o.venue
    &&& p.oracle == o.oracle
    &&& p.side == o.side
    &&& p.size == o.size
    &&& p.strike == o.strike
    &&& p.entry_price == price
    &&& p.entry_ts == now
    &&& p.entry_gap == o.gap
    &&& p.entry_fee == costs.entry_fee
    &&& p.committed_capital == costs.committed_capital
    &&& p.spread_at_fill == costs.spread
    &&& p.entry_net_edge == o.net_edge
    &&& p.entry_gate_d1 == o.gate_d1
    &&& p.entry_displacement == o.displacement
    &&& p.peak_unrealized == Real { bits: 0 }
}

impl Ledger {
    fn empty() -> (r: Ledger)
        ensures
            r.orders@ == Map::<i64, PaperOrder>::empty(),
            r.positions@ == Map::<i64, PaperPosition>::empty(),
            r.prev_gate_d1@ == Map::<i64, Real>::empty(),
            r.total_trades == 0,
            r.wins == 0,
            r.losses == 0,
    {
        Ledger {
            orders: HashMap::new(),
            positions: HashMap::new(),
            prev_gate_d1: HashMap::new(),
            total_trades: 0,
            wins: 0,
            losses: 0,
        }
    }
}

impl PaperTrader {
    #[verifier::type_invariant]
    spec fn book_is_valid(self) -> bool {
        self@.valid()
    }

    /// Takes the ledger out, and leaves an empty one.
    fn take_ledger(&mut self) -> (r: Ledger)
        ensures
            old(self)@.valid(),
            r == old(self).ledger,
            final(self).markets == old(self).markets,
            final(self).last_market_refresh == old(self).last_market_refresh,
    {
        proof {
            use_type_invariant(&*self);
        }
        let mut ledger: Ledger = Ledger::empty();
        core::mem::swap(&mut self.ledger, &mut ledger);
        ledger
    }

    /// A trader with an empty book, on the markets listed now.
    pub fn new(markets: Vec<MarketRow>, now: i64) -> (r: PaperTrader)
        ensures
            r@ == (TraderView {
                orders: Map::empty(),
                positions: Map::empty(),
                gates: Map::empty(),
                markets: markets@,
                refreshed: now,
                trades: 0,
                wins: 0,
                losses: 0,
            }),
            r@.valid(),
    {
        PaperTrader { ledger: Ledger::empty(), markets, last_market_refresh: now }
    }

    /// Whether the list of markets is due for a refresh.
    pub fn needs_refresh(&self, now: i64) -> (r: bool)
        ensures
            r == self@.stale(now),
    {
        now as i128 - self.last_market_refresh as i128 > MARKET_REFRESH_MICROS as i128
    }

    /// Takes a new list of markets.
    pub fn refresh(&mut self, markets: Vec<MarketRow>, now: i64)
        ensures
            final(self)@ == old(self)@.after(Change::Refresh(markets@, now)),
            final(self)@.valid(),
    {
        proof {
            use_type_invariant(&*self);
        }
        self.markets = markets;
        self.last_market_refresh = now;
    }

    /// The markets listed.
    pub fn markets(&self) -> (r: &Vec<MarketRow>)
        ensures
            r@ == self@.markets,
    {
        &self.markets
    }

    /// The market with an id.
    pub fn market(&self, id: i64) -> (r: Option<&MarketRow>)
        ensures
            match r {
                Some(m) => market_with_id(self@.markets, id) == Some(*m),
                None => market_with_id(self@.markets, id) is None,
            },
    {
        let ghost all = self.markets@;
        assert(all.skip(0) =~= all);
        let mut i: usize = 0;
        while i < self.markets.len()
            invariant
                i <= self.markets@.len(),
                all == self.markets@,
                market_with_id(all, id) == market_with_id(all.skip(i as int), id),
            decreases self.markets@.len() - i,
        {
            assert(all.skip(i as int)[0] == all[i as int]);
            assert(all.skip(i as int).drop_first() =~= all.skip(i + 1));
            if self.markets[i].id == id {
                return Some(&self.markets[i]);
            }
            i += 1;
        }
        None
    }

    /// Whether the market has a resting order or an open position.
    pub fn has_exposure(&self, id: i64) -> (r: bool)
        ensures
            r == self@.exposed(id),
    {
        self.ledger.orders.contains_key(&id) || self.ledger.positions.contains_key(&id)
    }

    /// The resting order of a market.
    pub fn order(&self, id: i64) -> (r: Option<&PaperOrder>)
        ensures
            match r {
                Some(o) => self@.orders.contains_key(id) && self@.orders[id] == *o,
                None => !self@.orders.contains_key(id),
            },
    {
        self.ledger.orders.get(&id)
    }

    /// The open position of a market.
    pub fn position(&self, id: i64) -> (r: Option<&PaperPosition>)
        ensures
            match r {
                Some(p) => self@.positions.contains_key(id) && self@.positions[id] == *p,
                None => !self@.positions.contains_key(id),
            },
    {
        self.ledger.positions.get(&id)
    }

    /// The kernel's inputs for a market that may be entered: it has no exposure, all its inputs
    /// are there, and enough time is left.
    pub fn entry_inputs(&self, rings: &RingSet, sigma_1s: Real, market: &MarketRow, now: i64) -> (r:
        Option<MarketInputs>)
        requires
            rings.wf(),
        ensures
            match r {
                Some(i) => self@.enterable(*rings, sigma_1s, *market, now) == Some(i@),
                None => self@.enterable(*rings, sigma_1s, *market, now) is None,
            },
    {
        if self.has_exposure(market.id) {
            return None;
        }
        match normalize(rings, sigma_1s, market, now) {
            Some(inputs) => if inputs.close.is_at_least(now, MIN_T_MICROS) {
                Some(inputs)
            } else {
                None
            },
            None => None,
        }
    }

    /// Puts the kernel's numbers of a market through the gates. A market that passes has how far
    /// its displacement clears the fee remembered, and gets what was remembered before.
    pub fn terrain(&mut self, id: i64, inputs: &MarketInputs, k: &KernelNumbers) -> (r: Option<
        Terrain,
    >)
        ensures
            r == terrain_of(*k, inputs.spot, inputs.strike, old(self)@.last_gate(id)),
            final(self)@ == if passes_gates(*k) {
                old(self)@.after(Change::Remember(id, k.gate_d1))
            } else {
                old(self)@
            },
            final(self)@.valid(),
    {
        proof {
            use_type_invariant(&*self);
        }
        if !gates_pass(k) {
            return None;
        }
        let prev_gate_d1: Real = self.prev_gate(id);
        let mut ledger: Ledger = self.take_ledger();
        ledger.prev_gate_d1.insert(id, k.gate_d1);
        self.ledger = ledger;
        Some(
            Terrain {
                side: compute_side(k.gap),
                regime: classify_regime(inputs.spot, inputs.strike, k.mu),
                prev_gate_d1,
            },
        )
    }

    /// How far the displacement of a market cleared the fee when last seen; zero at first.
    pub fn prev_gate(&self, id: i64) -> (r: Real)
        ensures
            r == self@.last_gate(id),
    {
        match self.ledger.prev_gate_d1.get(&id) {
            Some(g) => *g,
            None => Real::zero(),
        }
    }

    /// Adds the order of a candidate that was stored under `order_id`.
    pub fn place(&mut self, c: EntryCandidate, order_id: i64, now: i64)
        requires
            !old(self)@.exposed(c.market_id),
        ensures
            final(self)@ == old(self)@.after(Change::Place(final(self)@.orders[c.market_id])),
            order_for(final(self)@.orders[c.market_id], c, order_id, now),
            final(self)@.valid(),
    {
        let market_id: i64 = c.market_id;
        let order = PaperOrder {
            id: order_id,
            market_id,
            ticker: c.ticker,
            venue: c.venue,
            oracle: c.oracle.as_text().to_owned(),
            side: c.side,
            limit_price: c.limit_price,
            size: c.size,
            strike: c.strike,
            placed_ts: now,
            p_true: c.p_true,
            p_market: c.p_market,
            gap: c.gap,
            sigma_1s: c.sigma_1s,
            t_secs: c.t_secs,
            spread: c.spread,
            net_edge: c.net_edge,
            gate_d1: c.gate_d1,
            displacement: c.displacement,
        };
        let mut ledger: Ledger = self.take_ledger();
        ledger.orders.insert(market_id, order);
        self.ledger = ledger;
    }

    /// The fill of a market's resting order at a time, if it fills.
    pub fn check_fill(&self, rings: &RingSet, id: i64, now: i64) -> (r: Option<Fill>)
        requires
            rings.wf(),
        ensures
            r == self@.fill_at(*rings, id, now),
    {
        let order: &PaperOrder = match self.ledger.orders.get(&id) {
            Some(o) => o,
            None => {
                return None;
            },
        };
        let market: &MarketRow = match self.market(id) {
            Some(m) => m,
            None => {
                return None;
            },
        };
        let venue: Venue = venue_for(order.venue.as_str(), or_empty(&market.series));
        match read_bbo(rings, venue, order.ticker.as_str(), &market.token_id, now) {
            Some((bid, ask)) => match fill_price(order.side, order.limit_price, bid, ask) {
                Some(price) => Some(Fill { price, bid, ask, venue }),
                None => None,
            },
            None => None,
        }
    }

    /// Turns a market's order into a position that was stored under `position_id`. Nothing changes
    /// where the market has no order.
    pub fn fill(&mut self, id: i64, position_id: i64, price: Real, costs: FillCosts, now: i64)
        ensures
            final(self)@.valid(),
            if old(self)@.orders.contains_key(id) {
                &&& final(self)@ == old(self)@.after(Change::Fill(final(self)@.positions[id]))
                &&& position_for(
                    final(self)@.positions[id],
                    old(self)@.orders[id],
                    position_id,
                    price,
                    costs,
                    now,
                )
            } else {
                final(self)@ == old(self)@
            },
    {
        let mut ledger: Ledger = self.take_ledger();
        match ledger.orders.remove(&id) {
            Some(o) => {
                let position = PaperPosition {
                    id: position_id,
                    market_id: o.market_id,
                    ticker: o.ticker,
                    venue: o.venue,
                    oracle: o.oracle,
                    side: o.side,
                    size: o.size,
                    strike: o.strike,
                    entry_price: price,
                    entry_ts: now,
                    entry_gap: o.gap,
                    entry_fee: costs.entry_fee,
                    committed_capital: costs.committed_capital,
                    spread_at_fill: costs.spread,
                    entry_net_edge: o.net_edge,
                    entry_gate_d1: o.gate_d1,
                    entry_displacement: o.displacement,
                    peak_unrealized: Real::zero(),
                };
                ledger.positions.insert(id, position);
            },
            None => {
                assert(ledger.orders@ =~= old(self).ledger.orders@);
            },
        }
        self.ledger = ledger;
    }

    /// What to do about a market's open position at a time.
    pub fn exit_step(&self, rings: &RingSet, sigma_1s: Real, id: i64, now: i64) -> (r: ExitStep)
        requires
            rings.wf(),
        ensures
            r@ == self@.exit_at(*rings, sigma_1s, id, now),
    {
        if !self.ledger.positions.contains_key(&id) {
            return ExitStep::NoPosition;
        }
        match self.market(id) {
            None => ExitStep::MarketGone,
            Some(market) => match normalize(rings, sigma_1s, market, now) {
                None => ExitStep::Hold,
                Some(inputs) => ExitStep::Evaluate(inputs),
            },
        }
    }

    /// Remembers a position's peak, where it rose by more than rounding: `rise` is the new peak
    /// less the old.
    pub fn raise_peak(&mut self, id: i64, peak: Real, rise: Real)
        ensures
            final(self)@.valid(),
            final(self)@ == if old(self)@.positions.contains_key(id) && worth_noting(rise) {
                old(self)@.after(Change::Raise(id, peak))
            } else {
                old(self)@
            },
    {
        proof {
            use_type_invariant(&*self);
        }
        if !rise.abs().gt(&(Real { bits: PEAK_STEP })) {
            return;
        }
        let mut ledger: Ledger = self.take_ledger();
        match ledger.positions.remove(&id) {
            Some(p) => {
                let raised = PaperPosition { peak_unrealized: peak, ..p };
                ledger.positions.insert(id, raised);
                assert(ledger.positions@ =~= old(self).ledger.positions@.insert(id, raised));
            },
            None => {
                assert(ledger.positions@ =~= old(self).ledger.positions@);
            },
        }
        self.ledger = ledger;
    }

    /// Closes a market's position at a net profit: a win where that is positive, else a loss.
    /// Returns the position; nothing changes where there is none.
    pub fn close(&mut self, id: i64, net_pnl: Real) -> (r: Option<PaperPosition>)
        requires
            old(self)@.trades < u64::MAX,
        ensures
            final(self)@.valid(),
            match r {
                Some(p) => {
                    &&& old(self)@.positions.contains_key(id)
                    &&& old(self)@.positions[id] == p
                    &&& final(self)@ == old(self)@.after(Change::Close(id, is_win(net_pnl)))
                },
                None => !old(self)@.positions.contains_key(id) && final(self)@ == old(self)@,
            },
    {
        let mut ledger: Ledger = self.take_ledger();
        let closed: Option<PaperPosition> = ledger.positions.remove(&id);
        if closed.is_some() {
            ledger.total_trades = ledger.total_trades + 1;
            if net_pnl.is_positive() {
                ledger.wins = ledger.wins + 1;
            } else {
                ledger.losses = ledger.losses + 1;
            }
        } else {
            assert(ledger.positions@ =~= old(self).ledger.positions@);
        }
        self.ledger = ledger;
        closed
    }

    /// The markets with a resting order, in no particular order.
    pub fn resting_markets(&self) -> (r: Vec<i64>)
        ensures
            r@.to_set() == self@.orders.dom(),
            r@.no_duplicates(),
    {
        let mut out: Vec<i64> = Vec::new();
        for k in it: self.ledger.orders.keys()
            invariant
                out@ == it.seq().unref().take(it.index() as int),
                it.seq().unref().to_set() == self.ledger.orders@.dom(),
                it.seq().no_duplicates(),
                it.index() == it.seq().len() ==> out@ =~= it.seq().unref(),
        {
            out.push(*k);
            assert(out@ =~= it.seq().unref().take(it.index() + 1));
        }
        out
    }

    /// The markets with an open position, in no particular order.
    pub fn open_markets(&self) -> (r: Vec<i64>)
        ensures
            r@.to_set() == self@.positions.dom(),
            r@.no_duplicates(),
    {
        let mut out: Vec<i64> = Vec::new();
        for k in it: self.ledger.positions.keys()
            invariant
                out@ == it.seq().unref().take(it.index() as int),
                it.seq().unref().to_set() == self.ledger.positions@.dom(),
                it.seq().no_duplicates(),
                it.index() == it.seq().len() ==> out@ =~= it.seq().unref(),
        {
            out.push(*k);
            assert(out@ =~= it.seq().unref().take(it.index() + 1));
        }
        out
    }

    /// Open positions, resting orders, closed trades, wins and losses.
    pub fn tally(&self) -> (r: (usize, usize, u64, u64, u64))
        ensures
            r.0 == self@.positions.len(),
            r.1 == self@.orders.len(),
            r.2 == self@.trades,
            r.3 == self@.wins,
            r.4 == self@.losses,
    {
        let ledger: &Ledger = &self.ledger;
        (
            ledger.positions.len(),
            ledger.orders.len(),
            ledger.total_trades,
            ledger.wins,
            ledger.losses,
        )
    }
}

/// The candidates of a tick, for contracts.
#[verifier::ext_equal]
pub struct PlanView {
    pub queue: Seq<EntryCandidate>,
    /// The strikes and sides placed so far.
    pub taken: Seq<(i64, Side)>,
}

/// The queue with a candidate behind those that are worth as much or more.
pub open spec fn ranked_in(queue: Seq<EntryCandidate>, c: EntryCandidate) -> Seq<EntryCandidate>
    decreases queue.len(),
{
    if queue.len() == 0 || !queue.last().omega.below(c.omega) {
        queue.push(c)
    } else {
        ranked_in(queue.drop_last(), c).push(queue.last())
    }
}

impl PlanView {
    /// The queue falls in worth, and no strike was placed twice on one side.
    pub open spec fn valid(self) -> bool {
        self.sorted() && self.taken.no_duplicates()
    }

    /// The queue falls in worth.
    pub open spec fn sorted(self) -> bool {
        &&& forall|i: int| 0 <= i < self.queue.len() ==> !(#[trigger] self.queue[i]).omega.nan()
        &&& forall|i: int, j: int|
            0 <= i < j < self.queue.len() ==> (#[trigger] self.queue[j]).omega.at_most(
                (#[trigger] self.queue[i]).omega,
            )
    }

    /// The candidate may be placed: its market has no exposure, and no order at its strike and on
    /// its side was placed this tick.
    pub open spec fn placeable(self, trader: TraderView, c: EntryCandidate) -> bool {
        !trader.exposed(c.market_id) && !self.taken.contains((c.bucket, c.side))
    }

    /// The position of the first candidate that may be placed, or the length.
    pub open spec fn first_placeable(self, trader: TraderView) -> int
        decreases self.queue.len(),
    {
        if self.queue.len() == 0 || self.placeable(trader, self.queue[0]) {
            0
        } else {
            1 + (PlanView { queue: self.queue.drop_first(), ..self }).first_placeable(trader)
        }
    }
}

/// The candidates of a tick, the most worth first, and what was placed of them.
pub struct EntryPlan {
    queue: Vec<EntryCandidate>,
    taken: Vec<(i64, Side)>,
}

impl View for EntryPlan {
    type V = PlanView;

    closed spec fn view(&self) -> PlanView {
        PlanView { queue: self.queue@, taken: self.taken@ }
    }
}

proof fn lemma_ranked_in(queue: Seq<EntryCandidate>, c: EntryCandidate, i: int)
    requires
        0 <= i <= queue.len(),
        forall|j: int| i <= j < queue.len() ==> (#[trigger] queue[j]).omega.below(c.omega),
        i > 0 ==> !queue[i - 1].omega.below(c.omega),
    ensures
        ranked_in(queue, c) == queue.insert(i, c),
    decreases queue.len() - i,
{
    if i == queue.len() {
        assert(queue.insert(i, c) =~= queue.push(c));
    } else {
        let rest = queue.drop_last();
        assert forall|j: int| i <= j < rest.len() implies (#[trigger] rest[j]).omega.below(
            c.omega,
        ) by {
            assert(rest[j] == queue[j]);
        }
        lemma_ranked_in(rest, c, i);
        assert(queue.insert(i, c) =~= rest.insert(i, c).push(queue.last()));
    }
}

proof fn lemma_ranked_in_is_sorted(plan: PlanView, c: EntryCandidate, i: int)
    requires
        plan.sorted(),
        !c.omega.nan(),
        0 <= i <= plan.queue.len(),
        forall|j: int|
            i <= j < plan.queue.len() ==> (#[trigger] plan.queue[j]).omega.below(c.omega),
        i > 0 ==> !plan.queue[i - 1].omega.below(c.omega),
    ensures
        (PlanView { queue: plan.queue.insert(i, c), ..plan }).sorted(),
{
    let before = plan.queue;
    let q = before.insert(i, c);
    assert forall|a: int, b: int| 0 <= a < b < q.len() implies (#[trigger] q[b]).omega.at_most(
        (#[trigger] q[a]).omega,
    ) by {
        let x = if a < i {
            a
        } else {
            a - 1
        };
        let y = if b < i {
            b
        } else {
            b - 1
        };
        if a != i {
            assert(q[a] == before[x]);
        }
        if b != i {
            assert(q[b] == before[y]);
        }
        if i > 0 {
            assert(!before[i - 1].omega.below(c.omega));
        }
    }
    assert forall|a: int| 0 <= a < q.len() implies !(#[trigger] q[a]).omega.nan() by {
        if a < i {
            assert(q[a] == before[a]);
        } else if a > i {
            assert(q[a] == before[a - 1]);
        }
    }
}

fn holds_pair(taken: &Vec<(i64, Side)>, bucket: i64, side: Side) -> (r: bool)
    ensures
        r == taken@.contains((bucket, side)),
{
    let mut i: usize = 0;
    while i < taken.len()
        invariant
            i <= taken@.len(),
            forall|k: int| 0 <= k < i ==> taken@[k] != (bucket, side),
        decreases taken@.len() - i,
    {
        if taken[i].0 == bucket && taken[i].1 == side {
            assert(taken@[i as int] == (bucket, side));
            return true;
        }
        i += 1;
    }
    false
}

impl EntryPlan {
    #[verifier::type_invariant]
    spec fn plan_is_valid(self) -> bool {
        self@.valid()
    }

    /// A plan without candidates.
    pub fn new() -> (r: EntryPlan)
        ensures
            r@ == (PlanView { queue: Seq::empty(), taken: Seq::empty() }),
            r@.valid(),
    {
        let r = EntryPlan { queue: Vec::new(), taken: Vec::new() };
        assert(r@ =~= PlanView { queue: Seq::empty(), taken: Seq::empty() });
        r
    }

    /// Adds a candidate, unless it is worth less than nothing. Among equals the first added comes
    /// first.
    pub fn add(&mut self, c: EntryCandidate)
        requires
            !c.omega.nan(),
        ensures
            final(self)@.valid(),
            final(self)@ == if c.omega.below(Real { bits: 0 }) {
                old(self)@
            } else {
                PlanView { queue: ranked_in(old(self)@.queue, c), ..old(self)@ }
            },
    {
        proof {
            use_type_invariant(&*self);
        }
        if c.omega.lt(&Real::zero()) {
            return;
        }
        let ghost plan = self@;
        let mut queue: Vec<EntryCandidate> = Vec::new();
        core::mem::swap(&mut self.queue, &mut queue);
        let mut i: usize = queue.len();
        while i > 0 && queue[i - 1].omega.lt(&c.omega)
            invariant
                i <= queue@.len(),
                queue@ == plan.queue,
                forall|j: int|
                    i <= j < queue@.len() ==> (#[trigger] plan.queue[j]).omega.below(c.omega),
            decreases i,
        {
            i -= 1;
        }
        proof {
            lemma_ranked_in(plan.queue, c, i as int);
            lemma_ranked_in_is_sorted(plan, c, i as int);
        }
        queue.insert(i, c);
        self.queue = queue;
    }

    /// Takes the next candidate to place: the first whose market has no exposure and whose strike
    /// and side were not placed this tick. Candidates before it are dropped.
    pub fn next(&mut self, trader: &PaperTrader) -> (r: Option<EntryCandidate>)
        ensures
            final(self)@.valid(),
            ({
                let plan = old(self)@;
                let i = plan.first_placeable(trader@);
                match r {
                    Some(c) => {
                        &&& 0 <= i < plan.queue.len()
                        &&& c == plan.queue[i]
                        &&& plan.placeable(trader@, c)
                        &&& final(self)@.queue == plan.queue.skip(i + 1)
                        &&& final(self)@.taken == plan.taken.push((c.bucket, c.side))
                    },
                    None => {
                        &&& i == plan.queue.len()
                        &&& final(self)@.queue == Seq::<EntryCandidate>::empty()
                        &&& final(self)@.taken == plan.taken
                    },
                }
            }),
    {
        proof {
            use_type_invariant(&*self);
        }
        let ghost plan = self@;
        let mut queue: Vec<EntryCandidate> = Vec::new();
        let mut taken: Vec<(i64, Side)> = Vec::new();
        core::mem::swap(&mut self.queue, &mut queue);
        core::mem::swap(&mut self.taken, &mut taken);
        let ghost mut dropped: int = 0;
        assert(plan.queue.skip(0) =~= plan.queue);
        while queue.len() > 0
            invariant
                plan == old(self)@,
                plan.valid(),
                self.queue@.len() == 0,
                0 <= dropped <= plan.queue.len(),
                taken@ == plan.taken,
                queue@ == plan.queue.skip(dropped),
                plan.first_placeable(trader@) == dropped + (PlanView {
                    queue: plan.queue.skip(dropped),
                    ..plan
                }).first_placeable(trader@),
            decreases queue@.len(),
        {
            let c: EntryCandidate = queue.remove(0);
            assert(plan.queue.skip(dropped).drop_first() =~= plan.queue.skip(dropped + 1));
            assert(queue@ =~= plan.queue.skip(dropped + 1));
            if !trader.has_exposure(c.market_id) && !holds_pair(&taken, c.bucket, c.side) {
                assert(plan.queue.skip(dropped)[0] == plan.queue[dropped]);
                assert(plan.placeable(trader@, c));
                taken.push((c.bucket, c.side));
                proof {
                    strikes_are_placed_once(plan, trader@, c);
                    assert forall|k: int| 0 <= k < queue@.len() implies #[trigger] queue@[k]
                        == plan.queue[dropped + 1 + k] by {}
                }
                self.taken = taken;
                self.queue = queue;
                return Some(c);
            }
            proof {
                dropped = dropped + 1;
            }
        }
        self.taken = taken;
        assert(self.queue@ =~= Seq::<EntryCandidate>::empty());
        None
    }
}

/// The candidate that is taken next is worth at least as much as every candidate that stays.
pub proof fn best_candidate_comes_first(plan: PlanView, trader: TraderView, i: int, j: int)
    requires
        plan.sorted(),
        i == plan.first_placeable(trader),
        0 <= i < j < plan.queue.len(),
    ensures
        plan.queue[j].omega.at_most(plan.queue[i].omega),
{
}

/// No strike is placed twice on one side in a tick.
pub proof fn strikes_are_placed_once(plan: PlanView, trader: TraderView, c: EntryCandidate)
    requires
        plan.taken.no_duplicates(),
        plan.placeable(trader, c),
    ensures
        plan.taken.push((c.bucket, c.side)).no_duplicates(),
{
    let after = plan.taken.push((c.bucket, c.side));
    assert forall|i: int, j: int|
        0 <= i < after.len() && 0 <= j < after.len() && i != j implies after[i] != after[j] by {
        if i < plan.taken.len() && j < plan.taken.len() {
            assert(plan.taken[i] != plan.taken[j]);
        } else if i < plan.taken.len() {
            assert(plan.taken.contains(plan.taken[i]));
        } else {
            assert(plan.taken.contains(plan.taken[j]));
        }
    }
}

impl TraderView {
    /// The same book with an order on the market, of which nothing else matters.
    pub open spec fn exposing(self, id: i64) -> TraderView {
        self.after(Change::Place(PaperOrder { market_id: id, ..arbitrary() }))
    }
}

impl PlanView {
    /// The plan without its first candidate.
    pub open spec fn dropping(self) -> PlanView {
        PlanView { queue: self.queue.drop_first(), ..self }
    }

    /// The plan after its first candidate was taken.
    pub open spec fn taking(self) -> PlanView {
        PlanView {
            queue: self.queue.drop_first(),
            taken: self.taken.push((self.queue[0].bucket, self.queue[0].side)),
        }
    }
}

/// The candidates of a plan that get an order in a tick, in the order in which they are placed:
/// each in turn, where it may be placed after those before it.
pub open spec fn placed(plan: PlanView, trader: TraderView) -> Seq<EntryCandidate>
    decreases plan.queue.len(),
{
    if plan.queue.len() == 0 {
        Seq::empty()
    } else if plan.placeable(trader, plan.queue[0]) {
        seq![plan.queue[0]] + placed(plan.taking(), trader.exposing(plan.queue[0].market_id))
    } else {
        placed(plan.dropping(), trader)
    }
}

/// No two candidates are of one market.
pub open spec fn distinct_markets(queue: Seq<EntryCandidate>) -> bool {
    forall|i: int, j: int|
        0 <= i < j < queue.len() ==> (#[trigger] queue[i]).market_id != (
        #[trigger] queue[j]).market_id
}

/// Which markets are exposed decides what is placed; nothing else in the book does.
proof fn lemma_placed_by_exposure(plan: PlanView, a: TraderView, b: TraderView)
    requires
        forall|id: i64| #[trigger] a.exposed(id) == b.exposed(id),
    ensures
        placed(plan, a) == placed(plan, b),
    decreases plan.queue.len(),
{
    if plan.queue.len() > 0 {
        let id = plan.queue[0].market_id;
        assert(a.exposed(id) == b.exposed(id));
        if plan.placeable(a, plan.queue[0]) {
            assert forall|other: i64| #[trigger]
                a.exposing(id).exposed(other) == b.exposing(id).exposed(other) by {
                assert(a.exposed(other) == b.exposed(other));
            }
            lemma_placed_by_exposure(plan.taking(), a.exposing(id), b.exposing(id));
        } else {
            lemma_placed_by_exposure(plan.dropping(), a, b);
        }
    }
}

/// Taking candidates one by one, each time the next that may be placed, and placing each, places
/// what the plan says: the next is the first of them, and the rest follows from the plan that is
/// left and the book with the new order.
pub proof fn next_by_next_places_the_plan(plan: PlanView, trader: TraderView, after: TraderView)
    requires
        ({
            let i = plan.first_placeable(trader);
            i < plan.queue.len() ==> forall|id: i64| #[trigger]
                after.exposed(id) == (trader.exposed(id) || id == plan.queue[i].market_id)
        }),
    ensures
        ({
            let i = plan.first_placeable(trader);
            let left = PlanView {
                queue: plan.queue.skip(i + 1),
                taken: plan.taken.push((plan.queue[i].bucket, plan.queue[i].side)),
            };
            &&& 0 <= i <= plan.queue.len()
            &&& placed(plan, trader) == if i == plan.queue.len() {
                Seq::empty()
            } else {
                seq![plan.queue[i]] + placed(left, after)
            }
        }),
    decreases plan.queue.len(),
{
    if plan.queue.len() > 0 {
        let c = plan.queue[0];
        if plan.placeable(trader, c) {
            assert(plan.first_placeable(trader) == 0);
            assert(plan.queue.skip(1) =~= plan.queue.drop_first());
            assert forall|id: i64| #[trigger]
                trader.exposing(c.market_id).exposed(id) == after.exposed(id) by {
                assert(after.exposed(id) == (trader.exposed(id) || id == c.market_id));
            }
            lemma_placed_by_exposure(plan.taking(), trader.exposing(c.market_id), after);
        } else {
            let rest = plan.dropping();
            let i = rest.first_placeable(trader);
            assert(plan.first_placeable(trader) == 1 + i);
            lemma_first_placeable(rest, trader);
            if i < rest.queue.len() {
                assert(rest.queue[i] == plan.queue[i + 1]);
                assert(rest.queue.skip(i + 1) =~= plan.queue.skip(i + 2));
            }
            next_by_next_places_the_plan(rest, trader, after);
        }
    }
}

proof fn lemma_first_placeable(plan: PlanView, trader: TraderView)
    ensures
        0 <= plan.first_placeable(trader) <= plan.queue.len(),
    decreases plan.queue.len(),
{
    if plan.queue.len() > 0 && !plan.placeable(trader, plan.queue[0]) {
        lemma_first_placeable(PlanView { queue: plan.queue.drop_first(), ..plan }, trader);
    }
}

/// What is placed in a tick comes from the plan, on markets that had no exposure, and no strike is
/// placed twice on one side.
pub proof fn placed_strikes_are_distinct(plan: PlanView, trader: TraderView)
    ensures
        forall|i: int|
            0 <= i < placed(plan, trader).len() ==> {
                let c = #[trigger] placed(plan, trader)[i];
                &&& plan.queue.contains(c)
                &&& !plan.taken.contains((c.bucket, c.side))
                &&& !trader.orders.contains_key(c.market_id)
                &&& !trader.positions.contains_key(c.market_id)
            },
        forall|i: int, j: int|
            0 <= i < j < placed(plan, trader).len() ==> {
                let c = #[trigger] placed(plan, trader)[i];
                let d = #[trigger] placed(plan, trader)[j];
                (c.bucket, c.side) != (d.bucket, d.side) && c.market_id != d.market_id
            },
    decreases plan.queue.len(),
{
    if plan.queue.len() > 0 {
        let first = plan.queue[0];
        let all = placed(plan, trader);
        let takes = plan.placeable(trader, first);
        let rest = if takes {
            plan.taking()
        } else {
            plan.dropping()
        };
        let book = if takes {
            trader.exposing(first.market_id)
        } else {
            trader
        };
        let later = placed(rest, book);
        placed_strikes_are_distinct(rest, book);
        assert(plan.queue.contains(first));
        assert forall|i: int| 0 <= i < later.len() implies plan.queue.contains(
            #[trigger] later[i],
        ) && plan.placeable(trader, later[i]) && (takes ==> (later[i].bucket, later[i].side) != (
            first.bucket,
            first.side,
        ) && later[i].market_id != first.market_id) by {
            let c = later[i];
            let n = rest.queue.index_of(c);
            assert(plan.queue[n + 1] == c);
            assert(!book.exposed(c.market_id));
            if plan.taken.contains((c.bucket, c.side)) {
                let m = plan.taken.index_of((c.bucket, c.side));
                assert(rest.taken[m] == (c.bucket, c.side));
            }
            if takes {
                assert(rest.taken.last() == (first.bucket, first.side));
                assert(rest.taken[rest.taken.len() - 1] == (first.bucket, first.side));
            }
        }
        if takes {
            assert forall|i: int| 0 < i < all.len() implies #[trigger] all[i] == later[i - 1] by {}
        }
    }
}

/// The strike and side were taken before, or one of the placed candidates has them and is worth as
/// much or more.
spec fn outdone(plan: PlanView, placed: Seq<EntryCandidate>, c: EntryCandidate) -> bool {
    ||| plan.taken.contains((c.bucket, c.side))
    ||| exists|j: int|
        0 <= j < placed.len() && (#[trigger] placed[j]).bucket == c.bucket && placed[j].side
            == c.side && c.omega.at_most(placed[j].omega)
}

proof fn lemma_outdone(plan: PlanView, trader: TraderView, k: int)
    requires
        plan.sorted(),
        distinct_markets(plan.queue),
        0 <= k < plan.queue.len(),
        !trader.exposed(plan.queue[k].market_id),
    ensures
        outdone(plan, placed(plan, trader), plan.queue[k]),
    decreases plan.queue.len(),
{
    let c = plan.queue[k];
    let first = plan.queue[0];
    let all = placed(plan, trader);
    let takes = plan.placeable(trader, first);
    if k == 0 {
        if takes {
            assert(all[0] == c);
        }
    } else {
        assert(first.market_id != c.market_id);
        let rest = if takes {
            plan.taking()
        } else {
            plan.dropping()
        };
        let book = if takes {
            trader.exposing(first.market_id)
        } else {
            trader
        };
        assert forall|i: int| 0 <= i < rest.queue.len() implies #[trigger] rest.queue[i]
            == plan.queue[i + 1] by {}
        assert(rest.queue[k - 1] == c);
        lemma_outdone(rest, book, k - 1);
        let later = placed(rest, book);
        if rest.taken.contains((c.bucket, c.side)) {
            if !plan.taken.contains((c.bucket, c.side)) {
                let n = rest.taken.index_of((c.bucket, c.side));
                assert(rest.taken[n] == (c.bucket, c.side));
                if n < plan.taken.len() {
                    assert(plan.taken[n] == (c.bucket, c.side));
                }
                assert(first.bucket == c.bucket && first.side == c.side);
                assert(all[0] == first);
            }
        } else {
            let j = choose|j: int|
                0 <= j < later.len() && (#[trigger] later[j]).bucket == c.bucket && later[j].side
                    == c.side && c.omega.at_most(later[j].omega);
            if takes {
                assert(all[j + 1] == later[j]);
            } else {
                assert(all[j] == later[j]);
            }
        }
    }
}

/// No market is passed over for a lesser one: a candidate of a tick whose market had no exposure
/// shares its strike and side with an order of the tick, its own or another, that is worth at least
/// as much.
pub proof fn passed_over_only_for_a_better(plan: PlanView, trader: TraderView, k: int)
    requires
        plan.sorted(),
        plan.taken.len() == 0,
        distinct_markets(plan.queue),
        0 <= k < plan.queue.len(),
        !trader.exposed(plan.queue[k].market_id),
    ensures
        exists|j: int|
            0 <= j < placed(plan, trader).len() && (#[trigger] placed(plan, trader)[j]).bucket
                == plan.queue[k].bucket && placed(plan, trader)[j].side == plan.queue[k].side
                && plan.queue[k].omega.at_most(placed(plan, trader)[j].omega),
{
    lemma_outdone(plan, trader, k);
}

/// A market stays exposed from placement over the fill to the close, which frees it.
pub proof fn exposure_ends_with_the_close(
    trader: TraderView,
    id: i64,
    order: PaperOrder,
    position: PaperPosition,
    won: bool,
)
    requires
        trader.valid(),
        !trader.exposed(id),
        order.market_id == id,
        position.market_id == id,
    ensures
        ({
            let placed = trader.after(Change::Place(order));
            let filled = placed.after(Change::Fill(position));
            let closed = filled.after(Change::Close(id, won));
            &&& placed.valid() && placed.exposed(id)
            &&& filled.valid() && filled.exposed(id)
            &&& closed.valid() && !closed.exposed(id)
            &&& closed.orders == trader.orders
            &&& closed.positions == trader.positions
        }),
{
    let placed = trader.after(Change::Place(order));
    let filled = placed.after(Change::Fill(position));
    assert(filled.orders =~= trader.orders);
    assert(filled.positions.remove(id) =~= trader.positions);
}

/// Changes that fit the book keep it valid, and the tally of trades never falls.
pub proof fn changes_keep_the_book(trader: TraderView, stage: Stage, changes: Seq<Change>)
    requires
        trader.valid(),
        trader.allows_all(stage, changes),
    ensures
        ({
            let after = trader.after_all(changes);
            &&& after.valid()
            &&& after.trades >= trader.trades
            &&& after.wins >= trader.wins
            &&& after.losses >= trader.losses
            &&& stage != Stage::Exits ==> after.trades == trader.trades
            &&& stage != Stage::Fills && stage != Stage::Entries ==> after.orders == trader.orders
            &&& stage != Stage::Exits && stage != Stage::Fills ==> after.positions
                == trader.positions
        }),
    decreases changes.len(),
{
    if changes.len() > 0 {
        let earlier = changes.drop_last();
        assert(earlier =~= changes.take(changes.len() - 1));
        assert forall|i: int| 0 <= i < earlier.len() implies stage.admits(#[trigger] earlier[i])
            && trader.after_all(earlier.take(i)).allows(earlier[i]) by {
            assert(earlier[i] == changes[i]);
            assert(earlier.take(i) =~= changes.take(i));
        }
        changes_keep_the_book(trader, stage, earlier);
        assert(stage.admits(changes.last()));
        assert(trader.after_all(earlier).allows(changes.last()));
    }
}

/// The changes of a tick, by stage.
pub struct Tick {
    pub refresh: Seq<Change>,
    pub exits: Seq<Change>,
    pub fills: Seq<Change>,
    pub entries: Seq<Change>,
}

impl Tick {
    /// The book after the exits.
    pub open spec fn exited(self, trader: TraderView) -> TraderView {
        trader.after_all(self.refresh).after_all(self.exits)
    }

    /// The book after the fills.
    pub open spec fn filled(self, trader: TraderView) -> TraderView {
        self.exited(trader).after_all(self.fills)
    }

    /// The book after the tick.
    pub open spec fn done(self, trader: TraderView) -> TraderView {
        self.filled(trader).after_all(self.entries)
    }

    /// Every change belongs to its stage and fits the book.
    pub open spec fn fits(self, trader: TraderView) -> bool {
        &&& trader.allows_all(Stage::Markets, self.refresh)
        &&& trader.after_all(self.refresh).allows_all(Stage::Exits, self.exits)
        &&& self.exited(trader).allows_all(Stage::Fills, self.fills)
        &&& self.filled(trader).allows_all(Stage::Entries, self.entries)
    }
}

/// The book after a sequence of ticks.
pub open spec fn after_ticks(trader: TraderView, ticks: Seq<Tick>) -> TraderView
    decreases ticks.len(),
{
    if ticks.len() == 0 {
        trader
    } else {
        ticks.last().done(after_ticks(trader, ticks.drop_last()))
    }
}

/// A tick keeps the book: after its stages no market has both an order and a position, every trade
/// was won or lost, and the tally has not fallen. The orders that rest when the exits are done are
/// those of before the tick, and what the entries place rests until the next tick: they open no
/// position and close none.
pub proof fn tick_keeps_the_book(trader: TraderView, tick: Tick)
    requires
        trader.valid(),
        tick.fits(trader),
    ensures
        ({
            let after = tick.done(trader);
            &&& after.valid()
            &&& forall|id: i64|
                !(#[trigger] after.orders.contains_key(id) && after.positions.contains_key(id))
            &&& after.wins + after.losses == after.trades
            &&& after.trades >= trader.trades
            &&& tick.exited(trader).orders == trader.orders
            &&& after.trades == tick.exited(trader).trades
            &&& after.positions == tick.filled(trader).positions
        }),
{
    let listed = trader.after_all(tick.refresh);
    changes_keep_the_book(trader, Stage::Markets, tick.refresh);
    changes_keep_the_book(listed, Stage::Exits, tick.exits);
    changes_keep_the_book(tick.exited(trader), Stage::Fills, tick.fills);
    changes_keep_the_book(tick.filled(trader), Stage::Entries, tick.entries);
}

/// From a valid book, that of a new trader among them, any number of ticks leads to a valid one,
/// and the tally never falls.
pub proof fn ticks_keep_the_book(trader: TraderView, ticks: Seq<Tick>)
    requires
        trader.valid(),
        forall|i: int|
            0 <= i < ticks.len() ==> (#[trigger] ticks[i]).fits(
                after_ticks(trader, ticks.take(i)),
            ),
    ensures
        after_ticks(trader, ticks).valid(),
        after_ticks(trader, ticks).trades >= trader.trades,
    decreases ticks.len(),
{
    if ticks.len() > 0 {
        let earlier = ticks.drop_last();
        assert(earlier =~= ticks.take(ticks.len() - 1));
        assert forall|i: int| 0 <= i < earlier.len() implies (#[trigger] earlier[i]).fits(
            after_ticks(trader, earlier.take(i)),
        ) by {
            assert(earlier[i] == ticks[i]);
            assert(earlier.take(i) =~= ticks.take(i));
        }
        ticks_keep_the_book(trader, earlier);
        assert(ticks.last().fits(after_ticks(trader, earlier)));
        tick_keeps_the_book(after_ticks(trader, earlier), ticks.last());
    }
}

/// A market is entered only where it has neither an order nor a position and at least a minute is
/// left, and wherever that and all its inputs are given.
pub proof fn entries_need_room_and_time(
    trader: TraderView,
    rings: RingSet,
    sigma_1s: Real,
    market: MarketRow,
    now: i64,
)
    ensures
        ({
            let inputs = inputs_of(rings, sigma_1s, market, now);
            let entered = trader.enterable(rings, sigma_1s, market, now);
            &&& entered is Some ==> entered == inputs
            &&& entered is Some <==> {
                &&& inputs matches Some(i) && i.close.at_least(now + 60_000_000)
                &&& !trader.orders.contains_key(market.id)
                &&& !trader.positions.contains_key(market.id)
            }
        }),
{
}

/// The market found under an id has it and is listed, no market before it has the id, and none is
/// found only where none is listed.
pub proof fn markets_are_found_by_id(markets: Seq<MarketRow>, id: i64)
    ensures
        match market_with_id(markets, id) {
            Some(m) => exists|i: int|
                0 <= i < markets.len() && #[trigger] markets[i] == m && m.id == id && forall|j: int|
                    0 <= j < i ==> (#[trigger] markets[j]).id != id,
            None => forall|i: int| 0 <= i < markets.len() ==> (#[trigger] markets[i]).id != id,
        },
    decreases markets.len(),
{
    if markets.len() > 0 && markets[0].id != id {
        let rest = markets.drop_first();
        markets_are_found_by_id(rest, id);
        match market_with_id(rest, id) {
            Some(m) => {
                let i = choose|i: int|
                    0 <= i < rest.len() && #[trigger] rest[i] == m && m.id == id && forall|j: int|
                        0 <= j < i ==> (#[trigger] rest[j]).id != id;
                assert(markets[i + 1] == m);
                assert forall|j: int| 0 <= j < i + 1 implies (#[trigger] markets[j]).id != id by {
                    if j > 0 {
                        assert(rest[j - 1] == markets[j]);
                    }
                }
            },
            None => {
                assert forall|i: int| 0 <= i < markets.len() implies (#[trigger] markets[i]).id
                    != id by {
                    if i > 0 {
                        assert(rest[i - 1] == markets[i]);
                    }
                }
            },
        }
    } else if markets.len() > 0 {
        assert(markets[0] == market_with_id(markets, id)->0);
    }
}

/// What is remembered of a market is what was last noted of it, zero before that, and other markets
/// do not change it.
pub proof fn gates_are_remembered(trader: TraderView, id: i64, gate: Real, other: i64)
    ensures
        trader.after(Change::Remember(id, gate)).last_gate(id) == gate,
        other != id ==> trader.after(Change::Remember(id, gate)).last_gate(other)
            == trader.last_gate(other),
        !trader.gates.contains_key(id) ==> trader.last_gate(id) == (Real { bits: 0 }),
{
}

/// An order fills at the quotes of its own market: a YES order at an ask below its limit, a NO
/// order at a bid above it. Without an order, a listed market or quotes nothing fills.
pub proof fn orders_fill_at_their_market(
    trader: TraderView,
    rings: RingSet,
    id: i64,
    now: i64,
    market: MarketRow,
    bid: Real,
    ask: Real,
)
    requires
        trader.orders.contains_key(id),
        market_with_id(trader.markets, id) == Some(market),
        bid.finite(),
        ask.finite(),
        trader.orders[id].limit_price.finite(),
    ensures
        ({
            let order = trader.orders[id];
            let venue = venue_of(order.venue@, uppercase(text_or_empty(market.series)));
            let quotes = bbo(rings, venue, order.ticker@, opt_text(market.token_id), now);
            let fill = trader.fill_at(rings, id, now);
            let limit = order.limit_price.value();
            &&& quotes is None ==> fill is None
            &&& quotes == Some((bid, ask)) ==> match order.side {
                Side::BidYes => fill == if ask.value() < limit {
                    Some(Fill { price: ask, bid, ask, venue })
                } else {
                    None
                },
                Side::BidNo => fill == if bid.value() > limit {
                    Some(Fill { price: bid, bid, ask, venue })
                } else {
                    None
                },
            }
        }),
        (TraderView { orders: trader.orders.remove(id), ..trader }).fill_at(rings, id, now) is None,
        (TraderView { markets: Seq::empty(), ..trader }).fill_at(rings, id, now) is None,
{
    fills_follow_the_market(trader.orders[id].limit_price, bid, ask);
}

/// A position keeps the terms of the candidate that it came from: what was placed is what is
/// filled.
pub proof fn positions_keep_the_terms_of_their_candidate(
    c: EntryCandidate,
    o: PaperOrder,
    p: PaperPosition,
    order_id: i64,
    position_id: i64,
    placed_at: i64,
    price: Real,
    costs: FillCosts,
    now: i64,
)
    requires
        order_for(o, c, order_id, placed_at),
        position_for(p, o, position_id, price, costs, now),
    ensures
        o.id == order_id && p.id == position_id,
        o.placed_ts == placed_at && p.entry_ts == now,
        o.limit_price == c.limit_price && p.entry_price == price,
        p.market_id == c.market_id,
        p.ticker == c.ticker,
        p.venue == c.venue,
        p.oracle@ == c.oracle.name(),
        p.side == c.side,
        p.size == c.size,
        p.strike == c.strike,
        p.entry_gap == c.gap,
        p.entry_net_edge == c.net_edge,
        p.entry_gate_d1 == c.gate_d1,
        p.entry_displacement == c.displacement,
        p.entry_fee == costs.entry_fee,
        p.committed_capital == costs.committed_capital,
        p.spread_at_fill == costs.spread,
        p.peak_unrealized.bits == 0,
        o.p_true == c.p_true && o.p_market == c.p_market,
        o.sigma_1s == c.sigma_1s && o.t_secs == c.t_secs && o.spread == c.spread,
{
}

/// A candidate joins the queue behind all that are worth as much or more and before all that are
/// worth less; the others keep their order.
pub proof fn candidates_rank_by_worth(plan: PlanView, c: EntryCandidate)
    requires
        plan.sorted(),
        c.omega.finite(),
        forall|j: int| 0 <= j < plan.queue.len() ==> (#[trigger] plan.queue[j]).omega.finite(),
    ensures
        exists|i: int|
            #![trigger plan.queue.insert(i, c)]
            {
                &&& 0 <= i <= plan.queue.len()
                &&& ranked_in(plan.queue, c) == plan.queue.insert(i, c)
                &&& forall|j: int|
                    0 <= j < i ==> (#[trigger] plan.queue[j]).omega.value() >= c.omega.value()
                &&& forall|j: int|
                    i <= j < plan.queue.len() ==> (#[trigger] plan.queue[j]).omega.value()
                        < c.omega.value()
            },
    decreases plan.queue.len(),
{
    let q = plan.queue;
    if q.len() == 0 {
        assert(q.push(c) =~= q.insert(0, c));
    } else if !q.last().omega.below(c.omega) {
        let n = q.len() as int;
        assert(q.push(c) =~= q.insert(n, c));
        assert forall|j: int| 0 <= j < n implies (#[trigger] q[j]).omega.value()
            >= c.omega.value() by {
            order_is_numeric(q.last().omega, c.omega);
            order_is_numeric(q.last().omega, q[j].omega);
        }
    } else {
        let rest = PlanView { queue: q.drop_last(), ..plan };
        candidates_rank_by_worth(rest, c);
        let i = choose|i: int|
            #![trigger rest.queue.insert(i, c)]
            {
                &&& 0 <= i <= rest.queue.len()
                &&& ranked_in(rest.queue, c) == rest.queue.insert(i, c)
                &&& forall|j: int|
                    0 <= j < i ==> (#[trigger] rest.queue[j]).omega.value() >= c.omega.value()
                &&& forall|j: int|
                    i <= j < rest.queue.len() ==> (#[trigger] rest.queue[j]).omega.value()
                        < c.omega.value()
            };
        assert(rest.queue.insert(i, c).push(q.last()) =~= q.insert(i, c));
        assert forall|j: int| 0 <= j < i implies (#[trigger] q[j]).omega.value()
            >= c.omega.value() by {
            assert(rest.queue[j] == q[j]);
        }
        assert forall|j: int| i <= j < q.len() implies (#[trigger] q[j]).omega.value()
            < c.omega.value() by {
            if j < rest.queue.len() {
                assert(rest.queue[j] == q[j]);
            } else {
                order_is_numeric(q.last().omega, c.omega);
            }
        }
    }
}

/// A win and a loss each count once, an open position or order counts as neither.
pub proof fn closes_are_tallied(trader: TraderView, id: i64, change: Change)
    ensures
        trader.after(Change::Close(id, true)).wins == trader.wins + 1,
        trader.after(Change::Close(id, true)).losses == trader.losses,
        trader.after(Change::Close(id, false)).losses == trader.losses + 1,
        trader.after(Change::Close(id, false)).wins == trader.wins,
        !(change is Close) ==> {
            let after = trader.after(change);
            after.wins == trader.wins && after.losses == trader.losses && after.trades
                == trader.trades
        },
{
}

/// Each reason to close has its own name.
pub proof fn reasons_have_their_own_names()
    ensures
        ExitReason::TerrainGone.name() == "terrain_gone"@,
        ExitReason::SignFlip.name() == "sign_flip"@,
        ExitReason::ProfitTarget.name() == "profit_target"@,
        ExitReason::TrailingStop.name() == "trailing_stop"@,
        ExitReason::Convergence.name() == "convergence"@,
        ExitReason::MaxLoss.name() == "max_loss"@,
        ExitReason::Resolution.name() == "resolution"@,
{
}

} // verus!
