//! Exact rational arithmetic.
//!
//! Every scalar that the stylesheet or the scale computation works with
//! (alpha, stroke width, dash lengths, pixels-per-meter, unit factors,
//! physical coordinates) is a `Rat`: a fraction of two machine integers with
//! a positive denominator.  Operations that could leave the machine range
//! return `None` instead of a wrong value.

use vstd::prelude::*;

verus! {

/// `true` when `x` fits into an `i64`.
pub open spec fn fits_i64(x: int) -> bool {
    i64::MIN <= x <= i64::MAX
}

/// Truncating division (rounding toward zero) for a positive divisor.
pub open spec fn trunc_div(x: int, d: int) -> int
    recommends
        d > 0,
{
    if x >= 0 {
        x / d
    } else {
        -((-x) / d)
    }
}

/// An exact rational number `num / den` with `den > 0`.
#[derive(Clone, Copy, Debug, PartialEq, Eq, Structural)]
pub struct Rat {
    pub num: i64,
    pub den: i64,
}

/// The mathematical value of a `Rat`: a fraction of unbounded integers.
pub struct RatV {
    pub num: int,
    pub den: int,
}

impl View for Rat {
    type V = RatV;

    open spec fn view(&self) -> RatV {
        RatV { num: self.num as int, den: self.den as int }
    }
}

impl RatV {
    pub open spec fn wf(self) -> bool {
        self.den > 0
    }

    /// Both components stay inside the machine range.
    pub open spec fn fits(self) -> bool {
        fits_i64(self.num) && fits_i64(self.den)
    }

    /// `self` and `other` denote the same rational value.
    pub open spec fn same(self, other: RatV) -> bool {
        self.num * other.den == other.num * self.den
    }

    /// The value of `self` is the integer `i`.
    pub open spec fn is_int(self, i: int) -> bool {
        self.num == i * self.den
    }
}

/// Exact product of two fraction values.
pub open spec fn rv_mul(a: RatV, b: RatV) -> RatV {
    RatV { num: a.num * b.num, den: a.den * b.den }
}

/// Exact sum of two fraction values.
pub open spec fn rv_add(a: RatV, b: RatV) -> RatV {
    RatV { num: a.num * b.den + b.num * a.den, den: a.den * b.den }
}

/// Exact difference of two fraction values.
pub open spec fn rv_sub(a: RatV, b: RatV) -> RatV {
    RatV { num: a.num * b.den - b.num * a.den, den: a.den * b.den }
}

/// Products of two `i64` values stay inside the `i128` range.
pub proof fn lemma_i64_prod_fits_i128(a: int, b: int)
    requires
        i64::MIN <= a <= i64::MAX,
        i64::MIN <= b <= i64::MAX,
    ensures
        i128::MIN <= a * b <= i128::MAX,
{
    assert(i128::MIN <= a * b <= i128::MAX) by (nonlinear_arith)
        requires
            -0x8000_0000_0000_0000 <= a <= 0x7fff_ffff_ffff_ffff,
            -0x8000_0000_0000_0000 <= b <= 0x7fff_ffff_ffff_ffff,
    ;
}

/// A product of two positive integers is positive.
proof fn lemma_pos_prod(a: int, b: int)
    requires
        a > 0,
        b > 0,
    ensures
        a * b > 0,
{
    assert(a * b > 0) by (nonlinear_arith)
        requires
            a > 0,
            b > 0,
    ;
}

impl Rat {
    /// Well-formed: the denominator is positive.
    pub open spec fn wf(self) -> bool {
        self.den > 0
    }

    /// The value of `self` is at most the value of `other` (cross-multiplied).
    pub open spec fn spec_le(self, other: Rat) -> bool {
        self.num * other.den <= other.num * self.den
    }

    /// The value of `self` is below the value of `other`.
    pub open spec fn spec_lt(self, other: Rat) -> bool {
        self.num * other.den < other.num * self.den
    }

    /// `self` and `other` denote the same rational value.
    pub open spec fn same(self, other: Rat) -> bool {
        self.num * other.den == other.num * self.den
    }

    /// The value of `self` is the integer `i`.
    pub open spec fn is_int(self, i: int) -> bool {
        self.num == i * self.den
    }

    /// The value truncated toward zero after adding one half; this is how a
    /// nonnegative pixel measure is rounded to the nearest whole pixel.
    pub open spec fn spec_round_half_up(self) -> int
        recommends
            self.wf(),
    {
        trunc_div(2 * self.num + self.den, 2 * self.den)
    }

    pub fn from_int(i: i64) -> (r: Rat)
        ensures
            r.wf(),
            r.num == i,
            r.den == 1,
    {
        Rat { num: i, den: 1 }
    }

    pub fn zero() -> (r: Rat)
        ensures
            r.wf(),
            r.num == 0,
            r.den == 1,
    {
        Rat { num: 0, den: 1 }
    }

    pub fn le(&self, other: &Rat) -> (r: bool)
        requires
            self.wf(),
            other.wf(),
        ensures
            r == self.spec_le(*other),
    {
        proof {
            lemma_i64_prod_fits_i128(self.num as int, other.den as int);
            lemma_i64_prod_fits_i128(other.num as int, self.den as int);
        }
        (self.num as i128) * (other.den as i128) <= (other.num as i128) * (self.den as i128)
    }

    pub fn lt(&self, other: &Rat) -> (r: bool)
        requires
            self.wf(),
            other.wf(),
        ensures
            r == self.spec_lt(*other),
    {
        proof {
            lemma_i64_prod_fits_i128(self.num as int, other.den as int);
            lemma_i64_prod_fits_i128(other.num as int, self.den as int);
        }
        (self.num as i128) * (other.den as i128) < (other.num as i128) * (self.den as i128)
    }

    /// Exact product; `None` when a component leaves the `i64` range.
    pub fn mul(&self, other: &Rat) -> (r: Option<Rat>)
        requires
            self.wf(),
            other.wf(),
        ensures
            match r {
                Some(v) => v.wf() && v.num == self.num * other.num && v.den == self.den
                    * other.den,
                None => !(fits_i64(self.num * other.num) && fits_i64(self.den * other.den)),
            },
    {
        proof {
            lemma_i64_prod_fits_i128(self.num as int, other.num as int);
            lemma_i64_prod_fits_i128(self.den as int, other.den as int);
        }
        let n: i128 = (self.num as i128) * (other.num as i128);
        let d: i128 = (self.den as i128) * (other.den as i128);
        if n < i64::MIN as i128 || n > i64::MAX as i128 || d > i64::MAX as i128 {
            None
        } else {
            proof {
                lemma_pos_prod(self.den as int, other.den as int);
            }
            Some(Rat { num: n as i64, den: d as i64 })
        }
    }

    /// Exact sum; `None` when a component leaves the `i64` range.
    pub fn add(&self, other: &Rat) -> (r: Option<Rat>)
        requires
            self.wf(),
            other.wf(),
        ensures
            match r {
                Some(v) => v.wf() && v.num == self.num * other.den + other.num * self.den
                    && v.den == self.den * other.den,
                None => !(fits_i64(self.num * other.den + other.num * self.den) && fits_i64(
                    self.den * other.den,
                )),
            },
    {
        proof {
            lemma_i64_prod_fits_i128(self.num as int, other.den as int);
            lemma_i64_prod_fits_i128(other.num as int, self.den as int);
            lemma_i64_prod_fits_i128(self.den as int, other.den as int);
        }
        let p1: i128 = (self.num as i128) * (other.den as i128);
        let p2: i128 = (other.num as i128) * (self.den as i128);
        let d: i128 = (self.den as i128) * (other.den as i128);
        match p1.checked_add(p2) {
            Some(n) => {
                if n < i64::MIN as i128 || n > i64::MAX as i128 || d > i64::MAX as i128 {
                    None
                } else {
                    proof {
                        lemma_pos_prod(self.den as int, other.den as int);
                    }
                    Some(Rat { num: n as i64, den: d as i64 })
                }
            },
            None => None,
        }
    }

    /// Exact difference; `None` when a component leaves the `i64` range.
    pub fn sub(&self, other: &Rat) -> (r: Option<Rat>)
        requires
            self.wf(),
            other.wf(),
        ensures
            match r {
                Some(v) => v.wf() && v.num == self.num * other.den - other.num * self.den
                    && v.den == self.den * other.den,
                None => !(fits_i64(self.num * other.den - other.num * self.den) && fits_i64(
                    self.den * other.den,
                )),
            },
    {
        proof {
            lemma_i64_prod_fits_i128(self.num as int, other.den as int);
            lemma_i64_prod_fits_i128(other.num as int, self.den as int);
            lemma_i64_prod_fits_i128(self.den as int, other.den as int);
        }
        let p1: i128 = (self.num as i128) * (other.den as i128);
        let p2: i128 = (other.num as i128) * (self.den as i128);
        let d: i128 = (self.den as i128) * (other.den as i128);
        match p1.checked_sub(p2) {
            Some(n) => {
                if n < i64::MIN as i128 || n > i64::MAX as i128 || d > i64::MAX as i128 {
                    None
                } else {
                    proof {
                        lemma_pos_prod(self.den as int, other.den as int);
                    }
                    Some(Rat { num: n as i64, den: d as i64 })
                }
            },
            None => None,
        }
    }

    /// Exact negation; `None` only for the one unrepresentable numerator.
    pub fn neg(&self) -> (r: Option<Rat>)
        requires
            self.wf(),
        ensures
            match r {
                Some(v) => v.wf() && v.num == -self.num && v.den == self.den,
                None => self.num == i64::MIN,
            },
    {
        if self.num == i64::MIN {
            None
        } else {
            Some(Rat { num: -self.num, den: self.den })
        }
    }

    /// The integer `a` divided by the positive value of `r`, exactly.
    pub fn int_over(a: i32, r: &Rat) -> (res: Option<Rat>)
        requires
            r.wf(),
            r.num > 0,
        ensures
            match res {
                Some(v) => v.wf() && v.num == a as int * r.den && v.den == r.num && fits_i64(
                    a as int * r.den,
                ),
                None => !fits_i64(a as int * r.den),
            },
    {
        proof {
            lemma_i64_prod_fits_i128(a as int, r.den as int);
        }
        let n: i128 = (a as i128) * (r.den as i128);
        if n < i64::MIN as i128 || n > i64::MAX as i128 {
            None
        } else {
            Some(Rat { num: n as i64, den: r.num })
        }
    }

    /// The nearest integer, rounding half up (truncation after adding 1/2),
    /// exactly as a nonnegative pixel measure is turned into a pixel count.
    pub fn round_half_up(&self) -> (r: Option<i64>)
        requires
            self.wf(),
        ensures
            match r {
                Some(v) => v == self.spec_round_half_up(),
                None => !fits_i64(self.spec_round_half_up()),
            },
    {
        let n2: i128 = 2 * (self.num as i128) + (self.den as i128);
        let d2: i128 = 2 * (self.den as i128);
        let q: i128 = if n2 >= 0 {
            n2 / d2
        } else {
            -((-n2) / d2)
        };
        if q < i64::MIN as i128 || q > i64::MAX as i128 {
            None
        } else {
            Some(q as i64)
        }
    }
}

} // verus!
