//! Domain types of the kernel, and the decisions that compare its numbers.

use crate::num::{order_is_numeric, sign_is_numeric, Real};
use vstd::prelude::*;

verus! {

/// The binary64 number one.
pub const ONE: u64 = 0x3FF0_0000_0000_0000;

/// Trade direction on a binary YES/NO market.
#[derive(Clone, Copy, Debug, PartialEq, Eq, Structural)]
pub enum Side {
    /// Buy the YES token.
    BidYes,
    /// Buy the NO token.
    BidNo,
}

impl Side {
    /// The side's name.
    pub open spec fn name(self) -> Seq<char> {
        match self {
            Side::BidYes => "BidYes"@,
            Side::BidNo => "BidNo"@,
        }
    }

    /// The side as text.
    pub fn as_text(&self) -> (r: &'static str)
        ensures
            r@ == self.name(),
    {
        match self {
            Side::BidYes => "BidYes",
            Side::BidNo => "BidNo",
        }
    }
}

/// Market regime: whether position and momentum agree.
#[derive(Clone, Copy, Debug, PartialEq, Eq, Structural)]
pub enum Regime {
    /// Above the strike and rising, or below it and falling.
    Amplify,
    /// Above the strike and falling, or below it and rising.
    Revert,
}

impl Regime {
    /// The regime's name.
    pub open spec fn name(self) -> Seq<char> {
        match self {
            Regime::Amplify => "amplify"@,
            Regime::Revert => "revert"@,
        }
    }

    /// The regime as text.
    pub fn as_text(&self) -> (r: &'static str)
        ensures
            r@ == self.name(),
    {
        match self {
            Regime::Amplify => "amplify",
            Regime::Revert => "revert",
        }
    }
}

/// What data source resolves a market.
#[derive(Clone, Copy, Debug, PartialEq, Eq, Structural, Hash)]
pub enum OracleType {
    /// CF Benchmarks real-time index, a trailing average over a minute.
    Brti,
    /// Chainlink oracle network consensus.
    ChainlinkStreams,
    /// Close of the Binance one-minute candle.
    BinanceCandle,
}

impl OracleType {
    /// The oracle's name.
    pub open spec fn name(self) -> Seq<char> {
        match self {
            OracleType::Brti => "BRTI"@,
            OracleType::ChainlinkStreams => "ChainlinkStreams"@,
            OracleType::BinanceCandle => "BinanceCandle"@,
        }
    }

    /// The oracle as text.
    pub fn as_text(&self) -> (r: &'static str)
        ensures
            r@ == self.name(),
    {
        match self {
            OracleType::Brti => "BRTI",
            OracleType::ChainlinkStreams => "ChainlinkStreams",
            OracleType::BinanceCandle => "BinanceCandle",
        }
    }
}

/// Venue identity, which selects the fee surface.
#[derive(Clone, Copy, Debug, PartialEq, Eq, Structural)]
pub enum Venue {
    PolymarketCrypto,
    PolymarketSports,
    KalshiGeneral,
    KalshiIndex,
}

impl Venue {
    /// The venue's name.
    pub open spec fn name(self) -> Seq<char> {
        match self {
            Venue::PolymarketCrypto => "PolymarketCrypto"@,
            Venue::PolymarketSports => "PolymarketSports"@,
            Venue::KalshiGeneral => "KalshiGeneral"@,
            Venue::KalshiIndex => "KalshiIndex"@,
        }
    }

    /// The venue as text.
    pub fn as_text(&self) -> (r: &'static str)
        ensures
            r@ == self.name(),
    {
        match self {
            Venue::PolymarketCrypto => "PolymarketCrypto",
            Venue::PolymarketSports => "PolymarketSports",
            Venue::KalshiGeneral => "KalshiGeneral",
            Venue::KalshiIndex => "KalshiIndex",
        }
    }

    /// Whether a gap is large enough to cross the spread as taker, at the venue's taker rate.
    pub fn gap_exceeds_fee(gap_abs: Real, fee_rate: Real) -> (r: bool)
        ensures
            r == fee_rate.below(gap_abs),
    {
        gap_abs.gt(&fee_rate)
    }

    /// A Polymarket venue.
    pub open spec fn polymarket(self) -> bool {
        self == Venue::PolymarketCrypto || self == Venue::PolymarketSports
    }

    /// Whether this is a Polymarket venue.
    pub fn is_polymarket(&self) -> (r: bool)
        ensures
            r == self.polymarket(),
    {
        match self {
            Venue::PolymarketCrypto => true,
            Venue::PolymarketSports => true,
            _ => false,
        }
    }
}

/// The regime of a spot price and its drift: amplifying where both point to the same side of the
/// strike. Where the drift is zero or not a finite number the flow is unknown, which counts as
/// against the position.
pub open spec fn regime_of(spot: Real, strike: Real, mu: Real) -> Regime {
    let zero = Real { bits: 0 };
    if mu.finite() && mu.rank() != 0 && (strike.below(spot) <==> zero.below(mu)) {
        Regime::Amplify
    } else {
        Regime::Revert
    }
}

/// Classifies the regime from the spot price, the strike and the drift.
pub fn classify_regime(spot: Real, strike: Real, mu: Real) -> (r: Regime)
    ensures
        r == regime_of(spot, strike, mu),
{
    let zero: Real = Real::zero();
    if !mu.is_finite() || mu.same(&zero) {
        return Regime::Revert;
    }
    let above_strike: bool = spot.gt(&strike);
    let rising: bool = mu.gt(&zero);
    if above_strike == rising {
        Regime::Amplify
    } else {
        Regime::Revert
    }
}

/// The side that a gap between true and market probability calls for.
pub open spec fn side_of(gap: Real) -> Side {
    if (Real { bits: 0 }).at_most(gap) {
        Side::BidYes
    } else {
        Side::BidNo
    }
}

/// Determines the side from the sign of the gap: the market underprices YES at zero and above.
pub fn compute_side(gap: Real) -> (r: Side)
    ensures
        r == side_of(gap),
{
    if gap.ge(&Real::zero()) {
        Side::BidYes
    } else {
        Side::BidNo
    }
}

/// The Kelly scaling factor of a regime: one, or the revert scale held between zero and one.
pub open spec fn kelly_scale(regime: Regime, revert_scale: Real) -> Real {
    match regime {
        Regime::Amplify => Real { bits: ONE },
        Regime::Revert => if revert_scale.below(Real { bits: 0 }) {
            Real { bits: 0 }
        } else if (Real { bits: ONE }).below(revert_scale) {
            Real { bits: ONE }
        } else {
            revert_scale
        },
    }
}

/// Kelly scaling factor for a regime.
pub fn regime_kelly_scale(regime: Regime, revert_scale: Real) -> (r: Real)
    ensures
        r == kelly_scale(regime, revert_scale),
{
    match regime {
        Regime::Amplify => Real { bits: ONE },
        Regime::Revert => if revert_scale.lt(&Real::zero()) {
            Real::zero()
        } else if revert_scale.gt(&(Real { bits: ONE })) {
            Real { bits: ONE }
        } else {
            revert_scale
        },
    }
}

/// A profile with this many observations may be trusted.
pub open spec fn warm(n_obs: u64, min_obs: u64) -> bool {
    n_obs >= min_obs
}

/// A gap is a structural edge: it exceeds the fee, the profile is warm, and the gap that the
/// oracle's lag can open exceeds the fee too.
pub open spec fn structural_edge(
    gap_abs: Real,
    fee_rate: Real,
    n_obs: u64,
    min_obs: u64,
    capacity: Real,
) -> bool {
    fee_rate.below(gap_abs) && warm(n_obs, min_obs) && fee_rate.below(capacity)
}

/// Whether a gap is a structural edge: it exceeds the venue's fee, the oracle profile is warm, and
/// the gap that the oracle's lag can open exceeds the fee too.
///
/// `capacity` is the displacement of the oracle as a probability gap, `fee_rate` the taker rate.
pub fn edge_qualifies(
    gap_abs: Real,
    fee_rate: Real,
    n_obs: u64,
    min_obs: u64,
    capacity: Real,
) -> (r: bool)
    ensures
        r == structural_edge(gap_abs, fee_rate, n_obs, min_obs, capacity),
{
    Venue::gap_exceeds_fee(gap_abs, fee_rate) && n_obs >= min_obs && capacity.gt(&fee_rate)
}

/// The decision field can be evaluated on these inputs.
pub open spec fn omega_defined(
    p_true: Real,
    p_market: Real,
    fee_rate: Real,
    capital: Real,
    tail_frac: Real,
    max_frac: Real,
    revert_scale: Real,
) -> bool {
    &&& open_unit(p_true)
    &&& open_unit(p_market)
    &&& fee_rate.finite() && !fee_rate.below(Real { bits: 0 })
    &&& capital.positive() && capital.finite()
    &&& tail_frac.positive() && tail_frac.finite()
    &&& max_frac.positive() && max_frac.finite()
    &&& revert_scale.finite()
}

/// Whether the inputs of the decision field are such that it can be evaluated: both probabilities
/// strictly between zero and one, the fee finite and not negative, capital and both Kelly
/// parameters positive and finite, the revert scale finite.
pub fn omega_inputs_ok(
    p_true: Real,
    p_market: Real,
    fee_rate: Real,
    capital: Real,
    tail_frac: Real,
    max_frac: Real,
    revert_scale: Real,
) -> (r: bool)
    ensures
        r == omega_defined(
            p_true,
            p_market,
            fee_rate,
            capital,
            tail_frac,
            max_frac,
            revert_scale,
        ),
{
    in_open_unit(p_true) && in_open_unit(p_market) && fee_rate.is_finite() && !fee_rate.lt(
        &Real::zero(),
    ) && capital.is_positive() && capital.is_finite() && tail_frac.is_positive()
        && tail_frac.is_finite() && max_frac.is_positive() && max_frac.is_finite()
        && revert_scale.is_finite()
}

/// Strictly between zero and one.
pub open spec fn open_unit(p: Real) -> bool {
    p.positive() && p.below(Real { bits: ONE })
}

/// Whether a number is strictly between zero and one.
pub fn in_open_unit(p: Real) -> (r: bool)
    ensures
        r == open_unit(p),
{
    p.is_positive() && p.lt(&(Real { bits: ONE }))
}

/// Exit thresholds of a position.
#[derive(Clone, Copy, Debug, PartialEq, Eq, Structural)]
pub struct ExitThresholds {
    /// Unrealized profit at which to exit.
    pub profit_target: Real,
    /// Pullback from the peak at which to exit.
    pub trail_distance: Real,
    /// Gap below which a position counts as converged.
    pub convergence_floor: Real,
    /// Unrealized loss at which to exit.
    pub max_loss: Real,
}

/// The side is the sign of the gap: YES where the gap is zero or more, NO where it is negative or
/// unknown. A gap the other way round calls for the other side.
pub proof fn side_is_the_sign_of_the_gap(gap: Real)
    ensures
        gap.finite() ==> (side_of(gap) == Side::BidYes <==> gap.value() >= 0),
        gap.finite() ==> (side_of(gap) == Side::BidNo <==> gap.value() < 0),
        gap.nan() ==> side_of(gap) == Side::BidNo,
        gap.finite() && gap.value() != 0 ==> side_of(gap.negated()) != side_of(gap),
{
    if gap.finite() {
        order_is_numeric(Real { bits: 0 }, gap);
        sign_is_numeric(gap);
        order_is_numeric(Real { bits: 0 }, gap.negated());
    }
}

/// A market amplifies exactly where spot and drift are on the same side: above the strike and
/// rising, or not above it and falling. Turning the drift round turns the regime round, and without
/// a drift the market reverts.
pub proof fn regime_is_agreement(spot: Real, strike: Real, mu: Real)
    requires
        spot.finite(),
        strike.finite(),
    ensures
        mu.finite() ==> (regime_of(spot, strike, mu) == Regime::Amplify <==> {
            ||| spot.value() > strike.value() && mu.value() > 0
            ||| spot.value() <= strike.value() && mu.value() < 0
        }),
        mu.finite() && mu.value() != 0 ==> regime_of(spot, strike, mu.negated()) != regime_of(
            spot,
            strike,
            mu,
        ),
        !mu.finite() ==> regime_of(spot, strike, mu) == Regime::Revert,
{
    order_is_numeric(strike, spot);
    if mu.finite() {
        order_is_numeric(Real { bits: 0 }, mu);
        order_is_numeric(mu, Real { bits: 0 });
        sign_is_numeric(mu);
        order_is_numeric(Real { bits: 0 }, mu.negated());
        order_is_numeric(mu.negated(), Real { bits: 0 });
        assert(mu.value() == 0 <==> mu.rank() == 0);
    }
}

/// The Kelly factor of an amplifying market is one, whatever the scale. That of a reverting one
/// never leaves the range from zero to one, is the scale itself within it, and does not fall where
/// the scale rises.
pub proof fn kelly_scale_is_a_share(scale: Real, other: Real)
    requires
        scale.finite(),
        other.finite(),
    ensures
        kelly_scale(Regime::Amplify, scale) == (Real { bits: 0x3FF0_0000_0000_0000 }),
        ({
            let k = kelly_scale(Regime::Revert, scale);
            let one = Real { bits: 0x3FF0_0000_0000_0000 };
            &&& k.finite() && 0 <= k.value() <= one.value()
            &&& 0 <= scale.value() <= one.value() ==> k == scale
            &&& scale.value() <= other.value() ==> k.value() <= kelly_scale(
                Regime::Revert,
                other,
            ).value()
        }),
{
    let zero = Real { bits: 0 };
    let one = Real { bits: ONE };
    order_is_numeric(scale, zero);
    order_is_numeric(one, scale);
    order_is_numeric(other, zero);
    order_is_numeric(one, other);
    order_is_numeric(zero, one);
}

/// A structural edge needs all three: a gap beyond the fee, as many observations as the profile
/// asks for, and an oracle lag that opens more than the fee. Nothing else decides.
pub proof fn edge_needs_gap_profile_and_lag(
    gap_abs: Real,
    fee_rate: Real,
    n_obs: u64,
    min_obs: u64,
    capacity: Real,
)
    ensures
        structural_edge(gap_abs, fee_rate, n_obs, min_obs, capacity) ==> n_obs >= min_obs
            && !gap_abs.nan() && !fee_rate.nan() && !capacity.nan(),
        gap_abs.finite() && fee_rate.finite() && capacity.finite() ==> (structural_edge(
            gap_abs,
            fee_rate,
            n_obs,
            min_obs,
            capacity,
        ) <==> gap_abs.value() > fee_rate.value() && capacity.value() > fee_rate.value() && n_obs
            >= min_obs),
{
    if gap_abs.finite() && fee_rate.finite() && capacity.finite() {
        order_is_numeric(fee_rate, gap_abs);
        order_is_numeric(fee_rate, capacity);
    }
}

/// A number lies in the open unit interval exactly where its value is between zero and one.
pub proof fn open_unit_is_numeric(p: Real)
    ensures
        open_unit(p) ==> p.finite(),
        p.finite() ==> (open_unit(p) <==> 0 < p.value() && p.value() < (Real {
            bits: 0x3FF0_0000_0000_0000,
        }).value()),
{
    if p.finite() {
        order_is_numeric(p, Real { bits: ONE });
    }
}

/// The decision field is evaluated on numbers only, and on all that make sense: probabilities
/// between zero and one, a fee that is not negative, and capital and shares that are positive.
pub proof fn omega_is_defined_on_sensible_inputs(
    p_true: Real,
    p_market: Real,
    fee_rate: Real,
    capital: Real,
    tail_frac: Real,
    max_frac: Real,
    revert_scale: Real,
)
    ensures
        omega_defined(p_true, p_market, fee_rate, capital, tail_frac, max_frac, revert_scale)
            <==> {
            let one = (Real { bits: 0x3FF0_0000_0000_0000 }).value();
            &&& p_true.finite() && 0 < p_true.value() < one
            &&& p_market.finite() && 0 < p_market.value() < one
            &&& fee_rate.finite() && fee_rate.value() >= 0
            &&& capital.finite() && capital.value() > 0
            &&& tail_frac.finite() && tail_frac.value() > 0
            &&& max_frac.finite() && max_frac.value() > 0
            &&& revert_scale.finite()
        },
{
    open_unit_is_numeric(p_true);
    open_unit_is_numeric(p_market);
    let zero = Real { bits: 0 };
    if fee_rate.finite() {
        order_is_numeric(fee_rate, zero);
    }
    if capital.finite() {
        order_is_numeric(capital, zero);
    }
    if tail_frac.finite() {
        order_is_numeric(tail_frac, zero);
    }
    if max_frac.finite() {
        order_is_numeric(max_frac, zero);
    }
}

/// Each side, regime, oracle and venue is known by its own name.
pub proof fn names_are_their_own()
    ensures
        Side::BidYes.name() == "BidYes"@ && Side::BidNo.name() == "BidNo"@,
        Regime::Amplify.name() == "amplify"@ && Regime::Revert.name() == "revert"@,
        OracleType::Brti.name() == "BRTI"@,
        OracleType::ChainlinkStreams.name() == "ChainlinkStreams"@,
        OracleType::BinanceCandle.name() == "BinanceCandle"@,
        Venue::PolymarketCrypto.name() == "PolymarketCrypto"@,
        Venue::PolymarketSports.name() == "PolymarketSports"@,
        Venue::KalshiGeneral.name() == "KalshiGeneral"@,
        Venue::KalshiIndex.name() == "KalshiIndex"@,
        forall|v: Venue| #[trigger]
            v.polymarket() <==> v != Venue::KalshiGeneral && v != Venue::KalshiIndex,
{
}

} // verus!
