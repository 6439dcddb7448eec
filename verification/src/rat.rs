//! Exact rational numbers.
//!
//! Returns, rewards, discount factors, learning rates and exploration rates
//! are all exact rationals here: a signed numerator over a positive
//! denominator. At the specification level a rational is a pair of
//! unbounded integers; the executable type keeps both components in `i64`
//! and every operation reports when a result would leave that range.

use vstd::prelude::*;

verus! {

/// Specification-level rational: numerator and denominator, unbounded.
/// The denominator is positive for every value the library builds.
pub open spec fn q_wf(a: (int, int)) -> bool {
    a.1 > 0
}

/// Exact sum, as the raw (un-reduced) pair.
pub open spec fn q_add(a: (int, int), b: (int, int)) -> (int, int) {
    (a.0 * b.1 + b.0 * a.1, a.1 * b.1)
}

/// Exact difference, as the raw pair.
pub open spec fn q_sub(a: (int, int), b: (int, int)) -> (int, int) {
    (a.0 * b.1 - b.0 * a.1, a.1 * b.1)
}

/// Exact product, as the raw pair.
pub open spec fn q_mul(a: (int, int), b: (int, int)) -> (int, int) {
    (a.0 * b.0, a.1 * b.1)
}

/// Equality of the represented rationals (cross multiplication;
/// meaningful when both denominators are positive).
pub open spec fn q_eq(a: (int, int), b: (int, int)) -> bool {
    a.0 * b.1 == b.0 * a.1
}

/// `a <= b` on the represented rationals.
pub open spec fn q_le(a: (int, int), b: (int, int)) -> bool {
    a.0 * b.1 <= b.0 * a.1
}

/// `a < b` on the represented rationals.
pub open spec fn q_lt(a: (int, int), b: (int, int)) -> bool {
    a.0 * b.1 < b.0 * a.1
}

/// The exact rational zero.
pub open spec fn q_zero() -> (int, int) {
    (0, 1)
}

/// Both components of the raw pair fit the executable representation.
pub open spec fn q_fits(a: (int, int)) -> bool {
    i64::MIN <= a.0 <= i64::MAX && 0 < a.1 <= i64::MAX
}

/// A product of an `i64` by a positive `i64` stays well inside `i128`.
proof fn lemma_prod_in_i128(a: int, b: int)
    by (nonlinear_arith)
    requires
        i64::MIN <= a <= i64::MAX,
        1 <= b <= i64::MAX,
    ensures
        -0x40000000000000000000000000000000 < a * b < 0x40000000000000000000000000000000,
{
}

/// Marker for an operation whose exact result would leave the
/// representable range.
#[derive(Clone, Copy, Debug, PartialEq, Eq, Structural)]
pub struct Overflow;

/// Exact rational number: `num / den` with `den > 0`.
#[derive(Clone, Copy, Debug)]
pub struct Rat {
    num: i64,
    den: i64,
}

impl View for Rat {
    type V = (int, int);

    closed spec fn view(&self) -> (int, int) {
        (self.num as int, self.den as int)
    }
}

impl Rat {
    /// Every reachable `Rat` has a positive denominator.
    #[verifier::type_invariant]
    pub open spec fn wf(self) -> bool {
        q_wf(self@)
    }

    /// Build `num / den`; the denominator must be positive.
    pub fn new(num: i64, den: i64) -> (r: Rat)
        requires
            den > 0,
        ensures
            r@ == (num as int, den as int),
    {
        Rat { num, den }
    }

    /// The integer `n`, as a rational.
    pub fn from_int(n: i64) -> (r: Rat)
        ensures
            r@ == (n as int, 1int),
    {
        Rat { num: n, den: 1 }
    }

    /// The rational zero.
    pub fn zero() -> (r: Rat)
        ensures
            r@ == q_zero(),
    {
        Rat { num: 0, den: 1 }
    }

    pub fn num(&self) -> (r: i64)
        ensures
            r as int == self@.0,
    {
        self.num
    }

    pub fn den(&self) -> (r: i64)
        ensures
            r as int == self@.1,
            r > 0,
    {
        proof {
            use_type_invariant(&*self);
        }
        self.den
    }

    /// Exact sum; `None` exactly when the raw result leaves `i64`.
    pub fn checked_add(&self, other: &Rat) -> (r: Option<Rat>)
        ensures
            r matches Some(c) ==> c@ == q_add(self@, other@),
            r is Some <==> q_fits(q_add(self@, other@)),
    {
        proof {
            use_type_invariant(&*self);
            use_type_invariant(&*other);
            lemma_prod_in_i128(self.num as int, other.den as int);
            lemma_prod_in_i128(other.num as int, self.den as int);
            lemma_prod_in_i128(self.den as int, other.den as int);
        }
        let n: i128 = (self.num as i128) * (other.den as i128)
            + (other.num as i128) * (self.den as i128);
        let d: i128 = (self.den as i128) * (other.den as i128);
        proof {
            vstd::arithmetic::mul::lemma_mul_strictly_positive(self.den as int, other.den as int);
        }
        if n < i64::MIN as i128 || n > i64::MAX as i128 || d > i64::MAX as i128 {
            None
        } else {
            Some(Rat { num: n as i64, den: d as i64 })
        }
    }

    /// Exact difference; `None` exactly when the raw result leaves `i64`.
    pub fn checked_sub(&self, other: &Rat) -> (r: Option<Rat>)
        ensures
            r matches Some(c) ==> c@ == q_sub(self@, other@),
            r is Some <==> q_fits(q_sub(self@, other@)),
    {
        proof {
            use_type_invariant(&*self);
            use_type_invariant(&*other);
            lemma_prod_in_i128(self.num as int, other.den as int);
            lemma_prod_in_i128(other.num as int, self.den as int);
            lemma_prod_in_i128(self.den as int, other.den as int);
        }
        let n: i128 = (self.num as i128) * (other.den as i128)
            - (other.num as i128) * (self.den as i128);
        let d: i128 = (self.den as i128) * (other.den as i128);
        proof {
            vstd::arithmetic::mul::lemma_mul_strictly_positive(self.den as int, other.den as int);
        }
        if n < i64::MIN as i128 || n > i64::MAX as i128 || d > i64::MAX as i128 {
            None
        } else {
            Some(Rat { num: n as i64, den: d as i64 })
        }
    }

    /// Exact product; `None` exactly when the raw result leaves `i64`.
    pub fn checked_mul(&self, other: &Rat) -> (r: Option<Rat>)
        ensures
            r matches Some(c) ==> c@ == q_mul(self@, other@),
            r is Some <==> q_fits(q_mul(self@, other@)),
    {
        proof {
            use_type_invariant(&*self);
            use_type_invariant(&*other);
            lemma_prod_in_i128_signed(self.num as int, other.num as int);
            lemma_prod_in_i128(self.den as int, other.den as int);
        }
        let n: i128 = (self.num as i128) * (other.num as i128);
        let d: i128 = (self.den as i128) * (other.den as i128);
        proof {
            vstd::arithmetic::mul::lemma_mul_strictly_positive(self.den as int, other.den as int);
        }
        if n < i64::MIN as i128 || n > i64::MAX as i128 || d > i64::MAX as i128 {
            None
        } else {
            Some(Rat { num: n as i64, den: d as i64 })
        }
    }

    /// `self < other` on the represented rationals; always exact.
    pub fn lt(&self, other: &Rat) -> (r: bool)
        ensures
            r == q_lt(self@, other@),
    {
        proof {
            use_type_invariant(&*self);
            use_type_invariant(&*other);
            lemma_prod_in_i128(self.num as int, other.den as int);
            lemma_prod_in_i128(other.num as int, self.den as int);
        }
        (self.num as i128) * (other.den as i128) < (other.num as i128) * (self.den as i128)
    }

    /// `self <= other` on the represented rationals; always exact.
    pub fn le(&self, other: &Rat) -> (r: bool)
        ensures
            r == q_le(self@, other@),
    {
        proof {
            use_type_invariant(&*self);
            use_type_invariant(&*other);
            lemma_prod_in_i128(self.num as int, other.den as int);
            lemma_prod_in_i128(other.num as int, self.den as int);
        }
        (self.num as i128) * (other.den as i128) <= (other.num as i128) * (self.den as i128)
    }

    /// `self > other` on the represented rationals; always exact.
    pub fn gt(&self, other: &Rat) -> (r: bool)
        ensures
            r == q_lt(other@, self@),
    {
        other.lt(self)
    }

    /// Equality of the represented rationals; always exact.
    pub fn equal_to(&self, other: &Rat) -> (r: bool)
        ensures
            r == q_eq(self@, other@),
    {
        proof {
            use_type_invariant(&*self);
            use_type_invariant(&*other);
            lemma_prod_in_i128(self.num as int, other.den as int);
            lemma_prod_in_i128(other.num as int, self.den as int);
        }
        (self.num as i128) * (other.den as i128) == (other.num as i128) * (self.den as i128)
    }
}

/// Order on rationals: `a <= b` and `b < c` give `a < c`.
pub proof fn lemma_q_le_lt_trans(a: (int, int), b: (int, int), c: (int, int))
    by (nonlinear_arith)
    requires
        q_wf(a),
        q_wf(b),
        q_wf(c),
        q_le(a, b),
        q_lt(b, c),
    ensures
        q_lt(a, c),
{
}

/// Order on rationals: `a < b` and `b <= c` give `a < c`.
pub proof fn lemma_q_lt_le_trans(a: (int, int), b: (int, int), c: (int, int))
    by (nonlinear_arith)
    requires
        q_wf(a),
        q_wf(b),
        q_wf(c),
        q_lt(a, b),
        q_le(b, c),
    ensures
        q_lt(a, c),
{
}

/// Order on rationals: `a <= b` and `b == c` give `a <= c`.
pub proof fn lemma_q_le_eq_trans(a: (int, int), b: (int, int), c: (int, int))
    by (nonlinear_arith)
    requires
        q_wf(a),
        q_wf(b),
        q_wf(c),
        q_le(a, b),
        q_eq(b, c),
    ensures
        q_le(a, c),
{
}

/// Order on rationals: `a == b` and `b <= c` give `a <= c`.
pub proof fn lemma_q_eq_le_trans(a: (int, int), b: (int, int), c: (int, int))
    by (nonlinear_arith)
    requires
        q_wf(a),
        q_wf(b),
        q_wf(c),
        q_eq(a, b),
        q_le(b, c),
    ensures
        q_le(a, c),
{
}

/// A product of two arbitrary `i64` values stays well inside `i128`.
proof fn lemma_prod_in_i128_signed(a: int, b: int)
    by (nonlinear_arith)
    requires
        i64::MIN <= a <= i64::MAX,
        i64::MIN <= b <= i64::MAX,
    ensures
        -0x40000000000000000000000000000001 < a * b <= 0x40000000000000000000000000000000,
{
}

} // verus!
