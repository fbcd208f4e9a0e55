//! Real numbers as IEEE 754 binary64 bit patterns.
//!
//! Prices, quantities and spot values travel through the library as [`Real`]:
//! the 64 bits of the number, compared as the standard orders them. Arithmetic
//! on them belongs to the caller, who has a floating-point unit.

use vstd::arithmetic::power2::{
    lemma_pow2_pos, lemma_pow2_strictly_increases, lemma_pow2_unfold, pow2,
};
use vstd::prelude::*;

verus! {

/// The sign bit of a binary64 pattern.
pub const SIGN_BIT: u64 = 0x8000_0000_0000_0000;

/// The magnitude of infinity: every smaller magnitude is finite, every larger one is a NaN.
pub const INFINITY_BITS: u64 = 0x7FF0_0000_0000_0000;

/// One more than the largest stored fraction.
pub const HIDDEN_BIT: u64 = 0x0010_0000_0000_0000;

/// A binary64 number, held as its bit pattern. Two values are `==` when their
/// patterns are: see [`Real::same`] for equality of the numbers.
#[derive(Clone, Copy, Debug, PartialEq, Eq, Structural)]
pub struct Real {
    pub bits: u64,
}

impl Real {
    /// The pattern without its sign bit.
    pub open spec fn magnitude(self) -> int {
        if self.bits >= SIGN_BIT {
            self.bits - SIGN_BIT
        } else {
            self.bits as int
        }
    }

    /// Neither infinite nor a NaN.
    pub open spec fn finite(self) -> bool {
        self.magnitude() < INFINITY_BITS
    }

    pub open spec fn nan(self) -> bool {
        self.magnitude() > INFINITY_BITS
    }

    /// The position of a number (not a NaN) in the order of numbers; both zeros stand at 0.
    pub open spec fn rank(self) -> int {
        if self.bits >= SIGN_BIT {
            -self.magnitude()
        } else {
            self.magnitude()
        }
    }

    /// `self < other`, false where either is a NaN.
    pub open spec fn below(self, other: Real) -> bool {
        !self.nan() && !other.nan() && self.rank() < other.rank()
    }

    /// `self <= other`, false where either is a NaN.
    pub open spec fn at_most(self, other: Real) -> bool {
        !self.nan() && !other.nan() && self.rank() <= other.rank()
    }

    /// Greater than zero.
    pub open spec fn positive(self) -> bool {
        0 < self.bits && self.bits <= INFINITY_BITS
    }

    /// The exact value of a finite number, in units of the smallest subnormal.
    pub open spec fn value(self) -> int {
        if self.bits >= SIGN_BIT {
            -magnitude_value(self.magnitude())
        } else {
            magnitude_value(self.magnitude())
        }
    }

    /// Positive zero.
    pub fn zero() -> (r: Real)
        ensures
            r.bits == 0,
            r.finite(),
            r.rank() == 0,
    {
        Real { bits: 0 }
    }

    pub fn is_finite(&self) -> (r: bool)
        ensures
            r == self.finite(),
    {
        if self.bits >= SIGN_BIT {
            self.bits - SIGN_BIT < INFINITY_BITS
        } else {
            self.bits < INFINITY_BITS
        }
    }

    pub fn is_nan(&self) -> (r: bool)
        ensures
            r == self.nan(),
    {
        if self.bits >= SIGN_BIT {
            self.bits - SIGN_BIT > INFINITY_BITS
        } else {
            self.bits > INFINITY_BITS
        }
    }

    /// `self < other`.
    pub fn lt(&self, other: &Real) -> (r: bool)
        ensures
            r == self.below(*other),
    {
        if self.is_nan() || other.is_nan() {
            return false;
        }
        let a: i64 = signed_rank(self);
        let b: i64 = signed_rank(other);
        a < b
    }

    /// `self <= other`.
    pub fn le(&self, other: &Real) -> (r: bool)
        ensures
            r == self.at_most(*other),
    {
        if self.is_nan() || other.is_nan() {
            return false;
        }
        let a: i64 = signed_rank(self);
        let b: i64 = signed_rank(other);
        a <= b
    }

    /// `self > other`.
    pub fn gt(&self, other: &Real) -> (r: bool)
        ensures
            r == other.below(*self),
    {
        other.lt(self)
    }

    /// `self >= other`.
    pub fn ge(&self, other: &Real) -> (r: bool)
        ensures
            r == other.at_most(*self),
    {
        other.le(self)
    }

    /// Whether the two numbers are equal: both zeros are, and no NaN is equal to anything.
    pub fn same(&self, other: &Real) -> (r: bool)
        ensures
            r == (!self.nan() && !other.nan() && self.rank() == other.rank()),
    {
        self.le(other) && other.le(self)
    }

    /// The negated number.
    pub open spec fn negated(self) -> Real {
        Real {
            bits: if self.bits >= SIGN_BIT {
                (self.bits - SIGN_BIT) as u64
            } else {
                (self.bits + SIGN_BIT) as u64
            },
        }
    }

    /// The number without its sign.
    pub open spec fn unsigned(self) -> Real {
        Real { bits: self.magnitude() as u64 }
    }

    /// `-self`.
    pub fn neg(&self) -> (r: Real)
        ensures
            r == self.negated(),
    {
        if self.bits >= SIGN_BIT {
            Real { bits: self.bits - SIGN_BIT }
        } else {
            Real { bits: self.bits + SIGN_BIT }
        }
    }

    /// `|self|`.
    pub fn abs(&self) -> (r: Real)
        ensures
            r == self.unsigned(),
    {
        if self.bits >= SIGN_BIT {
            Real { bits: self.bits - SIGN_BIT }
        } else {
            Real { bits: self.bits }
        }
    }

    /// The larger of the two numbers: `other` where it is larger or this one is a NaN.
    pub open spec fn larger(self, other: Real) -> Real {
        if self.nan() || self.below(other) {
            other
        } else {
            self
        }
    }

    /// The larger of the two numbers: `other` where it is larger or this one is a NaN.
    pub fn max(&self, other: &Real) -> (r: Real)
        ensures
            r == self.larger(*other),
    {
        if self.is_nan() || self.lt(other) {
            *other
        } else {
            *self
        }
    }

    /// `self > 0`.
    pub fn is_positive(&self) -> (r: bool)
        ensures
            r == self.positive(),
    {
        0 < self.bits && self.bits <= INFINITY_BITS
    }
}

fn signed_rank(x: &Real) -> (r: i64)
    ensures
        r == x.rank(),
{
    if x.bits >= SIGN_BIT {
        0 - ((x.bits - SIGN_BIT) as i64)
    } else {
        x.bits as i64
    }
}

/// What a finite magnitude is worth, in units of the smallest subnormal: the
/// fraction alone where the exponent field is zero, else the fraction with its
/// hidden bit, scaled by the exponent.
pub open spec fn magnitude_value(m: int) -> int {
    let exponent = m / HIDDEN_BIT as int;
    let fraction = m % HIDDEN_BIT as int;
    if exponent == 0 {
        fraction
    } else {
        (HIDDEN_BIT + fraction) * pow2((exponent - 1) as nat)
    }
}

proof fn lemma_magnitude_value_increases(a: int, b: int)
    requires
        0 <= a < b,
    ensures
        0 <= magnitude_value(a) < magnitude_value(b),
{
    let h = HIDDEN_BIT as int;
    let ea = a / h;
    let eb = b / h;
    let fa = a % h;
    let fb = b % h;
    assert(a == h * ea + fa && 0 <= fa < h) by (nonlinear_arith)
        requires
            h > 0,
            ea == a / h,
            fa == a % h,
    ;
    assert(b == h * eb + fb && 0 <= fb < h) by (nonlinear_arith)
        requires
            h > 0,
            eb == b / h,
            fb == b % h,
    ;
    assert(0 <= ea <= eb) by (nonlinear_arith)
        requires
            0 <= a < b,
            h > 0,
            ea == a / h,
            eb == b / h,
    ;
    if ea == eb {
        assert(fa < fb);
        if ea > 0 {
            let p = pow2((ea - 1) as nat) as int;
            lemma_pow2_pos((ea - 1) as nat);
            assert(0 <= (h + fa) * p < (h + fb) * p) by (nonlinear_arith)
                requires
                    p > 0,
                    0 <= fa < fb,
                    h > 0,
            ;
        }
    } else {
        let pb = pow2((eb - 1) as nat) as int;
        lemma_pow2_pos((eb - 1) as nat);
        if ea == 0 {
            assert((h + fb) * pb >= h) by (nonlinear_arith)
                requires
                    pb >= 1,
                    h > 0,
                    fb >= 0,
            ;
        } else {
            let pa = pow2((ea - 1) as nat) as int;
            lemma_pow2_pos((ea - 1) as nat);
            lemma_pow2_unfold(ea as nat);
            if ea < eb - 1 {
                lemma_pow2_strictly_increases(ea as nat, (eb - 1) as nat);
            }
            assert(2 * pa <= pb);
            assert(0 <= (h + fa) * pa < (h + fb) * pb) by (nonlinear_arith)
                requires
                    0 < pa,
                    2 * pa <= pb,
                    0 <= fa < h,
                    0 <= fb,
            ;
        }
    }
}

/// Comparing patterns is comparing numbers: of two finite values the one below
/// the other has the smaller exact value, and the other way round.
pub proof fn order_is_numeric(a: Real, b: Real)
    requires
        a.finite(),
        b.finite(),
    ensures
        a.below(b) <==> a.value() < b.value(),
        a.at_most(b) <==> a.value() <= b.value(),
        a.positive() <==> a.value() > 0,
{
    let ma = a.magnitude();
    let mb = b.magnitude();
    if ma < mb {
        lemma_magnitude_value_increases(ma, mb);
    }
    if mb < ma {
        lemma_magnitude_value_increases(mb, ma);
    }
    if 0 < ma {
        lemma_magnitude_value_increases(0, ma);
    }
    if 0 < mb {
        lemma_magnitude_value_increases(0, mb);
    }
    assert(magnitude_value(0) == 0);
}

/// Negating a pattern negates the number, and dropping the sign takes its absolute value.
pub proof fn sign_is_numeric(x: Real)
    requires
        x.finite(),
    ensures
        x.negated().finite() && x.negated().value() == -x.value(),
        x.unsigned().finite() && x.unsigned().value() == if x.value() < 0 {
            -x.value()
        } else {
            x.value()
        },
        x.negated().negated() == x,
{
    assert(magnitude_value(0) == 0);
    if x.magnitude() > 0 {
        lemma_magnitude_value_increases(0, x.magnitude());
    }
}

/// A NaN is neither finite nor positive, and compares with nothing.
pub proof fn nan_compares_with_nothing(a: Real, b: Real)
    requires
        a.nan(),
    ensures
        !a.finite(),
        !a.positive(),
        !a.below(b) && !b.below(a),
        !a.at_most(b) && !b.at_most(a),
{
}

/// Numbers that are no NaN are in one line: of two, one is below the other or they are equal, and
/// what is below a number is below all above it.
pub proof fn order_is_total(a: Real, b: Real, c: Real)
    requires
        !a.nan(),
        !b.nan(),
        !c.nan(),
    ensures
        a.below(b) <==> !b.at_most(a),
        a.at_most(b) || b.at_most(a),
        a.below(b) ==> !b.below(a),
        a.below(b) && b.below(c) ==> a.below(c),
        a.at_most(b) && b.at_most(c) ==> a.at_most(c),
        a.at_most(a),
{
}

/// The finite numbers are those between the two infinities, and the positive ones those above zero.
pub proof fn infinities_bound_the_finite(x: Real)
    requires
        !x.nan(),
    ensures
        x.finite() <==> (Real { bits: 0xFFF0_0000_0000_0000 }).below(x) && x.below(
            Real { bits: 0x7FF0_0000_0000_0000 },
        ),
        x.positive() <==> (Real { bits: 0 }).below(x),
{
}

/// The larger of two numbers is one of them and at least both; a NaN gives way to the other.
pub proof fn larger_is_at_least_both(a: Real, b: Real)
    ensures
        !a.nan() && !b.nan() ==> a.at_most(a.larger(b)) && b.at_most(a.larger(b)),
        a.larger(b) == a || a.larger(b) == b,
        a.nan() ==> a.larger(b) == b,
        b.nan() ==> a.larger(b) == a || a.nan(),
{
}

} // verus!
