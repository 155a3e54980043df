//! The arithmetic that costs are computed in.
//!
//! The planner never looks inside a cost: it adds, scales and compares. A
//! host brings its own numbers by implementing [`Real`] for a wide and a
//! narrow type and [`Precision`] for the pair. [`Fixed`] is a decimal
//! fixed-point number for hosts that have nothing else.

use vstd::pervasive::arbitrary;
use vstd::prelude::*;

verus! {

/// A kind of number. Every operation is a function of its arguments.
pub trait Real: Copy {
    closed spec fn spec_zero() -> Self {
        arbitrary()
    }

    closed spec fn spec_one() -> Self {
        arbitrary()
    }

    closed spec fn spec_lowest() -> Self {
        arbitrary()
    }

    closed spec fn spec_tolerance() -> Self {
        arbitrary()
    }

    closed spec fn spec_of_count(n: usize) -> Self {
        arbitrary()
    }

    closed spec fn spec_plus(self, other: Self) -> Self {
        arbitrary()
    }

    closed spec fn spec_minus(self, other: Self) -> Self {
        arbitrary()
    }

    closed spec fn spec_times(self, other: Self) -> Self {
        arbitrary()
    }

    closed spec fn spec_over(self, other: Self) -> Self {
        arbitrary()
    }

    closed spec fn spec_magnitude(self) -> Self {
        arbitrary()
    }

    closed spec fn spec_larger(self, other: Self) -> Self {
        arbitrary()
    }

    closed spec fn spec_above(self, other: Self) -> bool {
        arbitrary()
    }

    closed spec fn spec_at_most(self, other: Self) -> bool {
        arbitrary()
    }

    closed spec fn spec_bounded(self) -> bool {
        arbitrary()
    }

    /// Zero.
    fn zero() -> (r: Self)
        ensures
            r == Self::spec_zero(),
    ;

    /// One.
    fn one() -> (r: Self)
        ensures
            r == Self::spec_one(),
    ;

    /// The number that stands for "nothing reached yet": minus infinity.
    fn lowest() -> (r: Self)
        ensures
            r == Self::spec_lowest(),
    ;

    /// The distance up to which two totals count as equal: a billionth.
    fn tolerance() -> (r: Self)
        ensures
            r == Self::spec_tolerance(),
    ;

    /// The number nearest to a count.
    fn of_count(n: usize) -> (r: Self)
        ensures
            r == Self::spec_of_count(n),
    ;

    /// The sum.
    fn plus(self, other: Self) -> (r: Self)
        ensures
            r == self.spec_plus(other),
    ;

    /// The difference.
    fn minus(self, other: Self) -> (r: Self)
        ensures
            r == self.spec_minus(other),
    ;

    /// The product.
    fn times(self, other: Self) -> (r: Self)
        ensures
            r == self.spec_times(other),
    ;

    /// The quotient.
    fn over(self, other: Self) -> (r: Self)
        ensures
            r == self.spec_over(other),
    ;

    /// The absolute value.
    fn magnitude(self) -> (r: Self)
        ensures
            r == self.spec_magnitude(),
    ;

    /// The larger of the two; of an undefined number and another, the other.
    fn larger(self, other: Self) -> (r: Self)
        ensures
            r == self.spec_larger(other),
    ;

    /// Strictly greater.
    fn above(self, other: Self) -> (r: bool)
        ensures
            r == self.spec_above(other),
    ;

    /// Less or equal.
    fn at_most(self, other: Self) -> (r: bool)
        ensures
            r == self.spec_at_most(other),
    ;

    /// Neither infinite nor undefined.
    fn bounded(self) -> (r: bool)
        ensures
            r == self.spec_bounded(),
    ;
}

/// A wide kind of number for sums over operators and a narrow one for tables.
pub trait Precision {
    type Wide: Real;

    type Narrow: Real;

    closed spec fn spec_narrow(w: Self::Wide) -> Self::Narrow {
        arbitrary()
    }

    closed spec fn spec_widen(n: Self::Narrow) -> Self::Wide {
        arbitrary()
    }

    /// Rounds to the narrow kind.
    fn narrow(w: Self::Wide) -> (r: Self::Narrow)
        ensures
            r == Self::spec_narrow(w),
    ;

    /// The same number in the wide kind.
    fn widen(n: Self::Narrow) -> (r: Self::Wide)
        ensures
            r == Self::spec_widen(n),
    ;
}

/// How many units of [`Fixed`] make one.
pub const UNITS: i64 = 1_000_000_000;

/// A decimal number with nine places: `units / 1_000_000_000`. The least and
/// the greatest value of `units` stand for what is out of range.
#[derive(Clone, Copy, Debug, PartialEq, Eq, Structural)]
pub struct Fixed {
    pub units: i64,
}

/// The nearest value in range.
pub open spec fn clamp(v: int) -> i64 {
    if v < i64::MIN {
        i64::MIN
    } else if v > i64::MAX {
        i64::MAX
    } else {
        v as i64
    }
}

/// The quotient rounded towards zero; a quotient by zero is out of range on
/// the side of the dividend, and zero for zero.
pub open spec fn quotient(a: int, b: int) -> int {
    if b == 0 {
        if a > 0 {
            i64::MAX as int
        } else if a < 0 {
            i64::MIN as int
        } else {
            0
        }
    } else if a >= 0 && b > 0 {
        a / b
    } else if a >= 0 {
        -(a / (-b))
    } else if b > 0 {
        -((-a) / b)
    } else {
        (-a) / (-b)
    }
}

fn clamp_units(v: i128) -> (r: i64)
    ensures
        r == clamp(v as int),
{
    if v < i64::MIN as i128 {
        i64::MIN
    } else if v > i64::MAX as i128 {
        i64::MAX
    } else {
        v as i64
    }
}

proof fn lemma_product_fits(a: int, b: int)
    requires
        -0x8000_0000_0000_0000 <= a < 0x8000_0000_0000_0000,
        -0x8000_0000_0000_0000 <= b < 0x8000_0000_0000_0000,
    ensures
        -0x4000_0000_0000_0000_0000_0000_0000_0000 <= a * b <= 0x4000_0000_0000_0000_0000_0000_0000_0000,
{
    assert(-0x4000_0000_0000_0000_0000_0000_0000_0000 <= a * b
        <= 0x4000_0000_0000_0000_0000_0000_0000_0000) by (nonlinear_arith)
        requires
            -0x8000_0000_0000_0000 <= a < 0x8000_0000_0000_0000,
            -0x8000_0000_0000_0000 <= b < 0x8000_0000_0000_0000,
    ;
}

proof fn lemma_quotient_shrinks(a: int, b: int)
    requires
        a >= 0,
        b > 0,
    ensures
        0 <= a / b <= a,
{
    assert(0 <= a / b <= a) by (nonlinear_arith)
        requires
            a >= 0,
            b > 0,
    ;
}

fn divide(a: i128, b: i128) -> (r: i128)
    requires
        -0x4000_0000_0000_0000_0000_0000_0000_0000 <= a <= 0x4000_0000_0000_0000_0000_0000_0000_0000,
        -0x8000_0000_0000_0000 <= b < 0x8000_0000_0000_0000,
    ensures
        r == quotient(a as int, b as int),
{
    if b == 0 {
        if a > 0 {
            i64::MAX as i128
        } else if a < 0 {
            i64::MIN as i128
        } else {
            0
        }
    } else {
        let p: u128 = if a < 0 { (0 - a) as u128 } else { a as u128 };
        let q: u128 = if b < 0 { (0 - b) as u128 } else { b as u128 };
        proof {
            lemma_quotient_shrinks(p as int, q as int);
        }
        let d: i128 = (p / q) as i128;
        if (a < 0) == (b < 0) {
            d
        } else {
            0 - d
        }
    }
}

impl Real for Fixed {
    open spec fn spec_zero() -> Self {
        Fixed { units: 0 }
    }

    open spec fn spec_one() -> Self {
        Fixed { units: UNITS }
    }

    open spec fn spec_lowest() -> Self {
        Fixed { units: i64::MIN }
    }

    open spec fn spec_tolerance() -> Self {
        Fixed { units: 1 }
    }

    open spec fn spec_of_count(n: usize) -> Self {
        Fixed { units: clamp(n * UNITS) }
    }

    open spec fn spec_plus(self, other: Self) -> Self {
        Fixed { units: clamp(self.units + other.units) }
    }

    open spec fn spec_minus(self, other: Self) -> Self {
        Fixed { units: clamp(self.units - other.units) }
    }

    open spec fn spec_times(self, other: Self) -> Self {
        Fixed { units: clamp(quotient(self.units * other.units, UNITS as int)) }
    }

    open spec fn spec_over(self, other: Self) -> Self {
        Fixed { units: clamp(quotient(self.units * UNITS, other.units as int)) }
    }

    open spec fn spec_magnitude(self) -> Self {
        Fixed { units: clamp(if self.units < 0 { -self.units } else { self.units as int }) }
    }

    open spec fn spec_larger(self, other: Self) -> Self {
        if self.units < other.units {
            other
        } else {
            self
        }
    }

    open spec fn spec_above(self, other: Self) -> bool {
        self.units > other.units
    }

    open spec fn spec_at_most(self, other: Self) -> bool {
        self.units <= other.units
    }

    open spec fn spec_bounded(self) -> bool {
        i64::MIN < self.units < i64::MAX
    }

    fn zero() -> (r: Self) {
        Fixed { units: 0 }
    }

    fn one() -> (r: Self) {
        Fixed { units: UNITS }
    }

    fn lowest() -> (r: Self) {
        Fixed { units: i64::MIN }
    }

    fn tolerance() -> (r: Self) {
        Fixed { units: 1 }
    }

    fn of_count(n: usize) -> (r: Self) {
        Fixed { units: clamp_units((n as i128) * (UNITS as i128)) }
    }

    fn plus(self, other: Self) -> (r: Self) {
        Fixed { units: clamp_units((self.units as i128) + (other.units as i128)) }
    }

    fn minus(self, other: Self) -> (r: Self) {
        Fixed { units: clamp_units((self.units as i128) - (other.units as i128)) }
    }

    fn times(self, other: Self) -> (r: Self) {
        proof {
            lemma_product_fits(self.units as int, other.units as int);
        }
        let p: i128 = (self.units as i128) * (other.units as i128);
        Fixed { units: clamp_units(divide(p, UNITS as i128)) }
    }

    fn over(self, other: Self) -> (r: Self) {
        proof {
            lemma_product_fits(self.units as int, UNITS as int);
        }
        let p: i128 = (self.units as i128) * (UNITS as i128);
        Fixed { units: clamp_units(divide(p, other.units as i128)) }
    }

    fn magnitude(self) -> (r: Self) {
        let v: i128 = self.units as i128;
        Fixed { units: clamp_units(if v < 0 { 0 - v } else { v }) }
    }

    fn larger(self, other: Self) -> (r: Self) {
        if self.units < other.units {
            other
        } else {
            self
        }
    }

    fn above(self, other: Self) -> (r: bool) {
        self.units > other.units
    }

    fn at_most(self, other: Self) -> (r: bool) {
        self.units <= other.units
    }

    fn bounded(self) -> (r: bool) {
        self.units > i64::MIN && self.units < i64::MAX
    }
}

/// Fixed-point numbers throughout.
pub struct FixedPoint;

impl Precision for FixedPoint {
    type Wide = Fixed;

    type Narrow = Fixed;

    open spec fn spec_narrow(w: Fixed) -> Fixed {
        w
    }

    open spec fn spec_widen(n: Fixed) -> Fixed {
        n
    }

    fn narrow(w: Fixed) -> (r: Fixed) {
        w
    }

    fn widen(n: Fixed) -> (r: Fixed) {
        n
    }
}

} // verus!
