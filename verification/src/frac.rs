use vstd::prelude::*;

use crate::error::GeomError;

verus! {

/// Exclusive bound on the absolute value of every stored numerator.
pub const NUM_LIMIT: i64 = 2097152;

/// Exclusive bound on every stored denominator.
pub const DEN_LIMIT: i64 = 16384;

/// A mathematical rational, written as a numerator over a positive
/// denominator. Spec-level model of `Frac`; the pair is not reduced, so
/// equality of values is `q_eq`, not structural equality.
pub struct Rat {
    pub num: int,
    pub den: int,
}

/// A representable rational: positive denominator, both components within the
/// fixed bounds.
pub open spec fn q_wf(q: Rat) -> bool {
    &&& 0 < q.den < DEN_LIMIT as int
    &&& -(NUM_LIMIT as int) < q.num < NUM_LIMIT as int
}

/// Equality of rational values, by cross-multiplication.
pub open spec fn q_eq(a: Rat, b: Rat) -> bool {
    a.num * b.den == b.num * a.den
}

pub open spec fn q_int(n: int) -> Rat {
    Rat { num: n, den: 1 }
}

/// Exact sum. Two fractions over the same denominator keep it, so that chains
/// of sums do not grow the denominator without need.
pub open spec fn q_add(a: Rat, b: Rat) -> Rat {
    if a.den == b.den {
        Rat { num: a.num + b.num, den: a.den }
    } else {
        Rat { num: a.num * b.den + b.num * a.den, den: a.den * b.den }
    }
}

pub open spec fn q_neg(a: Rat) -> Rat {
    Rat { num: -a.num, den: a.den }
}

pub open spec fn q_sub(a: Rat, b: Rat) -> Rat {
    q_add(a, q_neg(b))
}

pub open spec fn q_mul(a: Rat, b: Rat) -> Rat {
    Rat { num: a.num * b.num, den: a.den * b.den }
}

/// Sign normalization: a raw numerator/denominator pair with the denominator
/// made positive.
pub open spec fn q_make(n: int, d: int) -> Rat {
    if d < 0 {
        Rat { num: -n, den: -d }
    } else {
        Rat { num: n, den: d }
    }
}

/// |a * b| <= aa * bb whenever |a| <= aa and |b| <= bb.
pub proof fn lemma_abs_mul_le(a: int, b: int, aa: int, bb: int)
    by (nonlinear_arith)
    requires
        -aa <= a <= aa,
        -bb <= b <= bb,
        0 <= aa,
        0 <= bb,
    ensures
        -(aa * bb) <= a * b <= aa * bb,
{
}

/// An exact rational coordinate value. The numerator and denominator are kept
/// within `NUM_LIMIT` and `DEN_LIMIT` so that every product the engine forms
/// fits a machine word; an operation whose exact result would not fit reports
/// `GeomError::Overflow` instead of producing a wrong value.
#[derive(Clone, Copy, Debug)]
pub struct Frac {
    pub num: i64,
    pub den: i64,
}

impl View for Frac {
    type V = Rat;

    open spec fn view(&self) -> Rat {
        Rat { num: self.num as int, den: self.den as int }
    }
}

impl Frac {
    pub open spec fn wf(self) -> bool {
        q_wf(self@)
    }

    /// The whole number `n` as a fraction.
    pub fn from_int(n: i64) -> (r: Frac)
        requires
            -NUM_LIMIT < n < NUM_LIMIT,
        ensures
            r@ == q_int(n as int),
            r.wf(),
    {
        Frac { num: n, den: 1 }
    }

    /// The fraction `num / den`, with the sign moved to the numerator.
    /// Fails with `DegenerateVector` on a zero denominator and with
    /// `Overflow` when a component lies outside the representation bounds.
    pub fn new(num: i64, den: i64) -> (r: Result<Frac, GeomError>)
        ensures
            den == 0 ==> r == Err::<Frac, GeomError>(GeomError::DegenerateVector),
            den != 0 && q_wf(q_make(num as int, den as int)) ==> (r matches Ok(f) && f@ == q_make(
                num as int,
                den as int,
            ) && f.wf()),
            den != 0 && !q_wf(q_make(num as int, den as int)) ==> r == Err::<Frac, GeomError>(
                GeomError::Overflow,
            ),
    {
        if den == 0 {
            Err(GeomError::DegenerateVector)
        } else if num <= -NUM_LIMIT || num >= NUM_LIMIT || den <= -DEN_LIMIT || den >= DEN_LIMIT {
            Err(GeomError::Overflow)
        } else if den < 0 {
            Ok(Frac { num: -num, den: -den })
        } else {
            Ok(Frac { num, den })
        }
    }

    pub fn num(&self) -> (r: i64)
        ensures
            r as int == self@.num,
    {
        self.num
    }

    pub fn den(&self) -> (r: i64)
        ensures
            r as int == self@.den,
    {
        self.den
    }

    /// Whether the two fractions stand for the same rational value.
    pub fn eqv(&self, other: &Frac) -> (r: bool)
        requires
            self.wf(),
            other.wf(),
        ensures
            r == q_eq(self@, other@),
    {
        proof {
            lemma_abs_mul_le(self.num as int, other.den as int, 2097151, 16383);
            lemma_abs_mul_le(other.num as int, self.den as int, 2097151, 16383);
        }
        self.num * other.den == other.num * self.den
    }
}

} // verus!
