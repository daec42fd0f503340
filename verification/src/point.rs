use vstd::prelude::*;

use crate::error::GeomError;
use crate::frac::{q_eq, q_int, q_wf, Frac, Rat, DEN_LIMIT, NUM_LIMIT};
use crate::frac::lemma_abs_mul_le;

verus! {

/// A mathematical point with both coordinates written over one shared
/// positive denominator: the value is `(xn / den, yn / den)`. Spec-level
/// model of `Point`.
pub struct RatPoint {
    pub xn: int,
    pub yn: int,
    pub den: int,
}

pub open spec fn rp_wf(p: RatPoint) -> bool {
    &&& 0 < p.den < DEN_LIMIT as int
    &&& -(NUM_LIMIT as int) < p.xn < NUM_LIMIT as int
    &&& -(NUM_LIMIT as int) < p.yn < NUM_LIMIT as int
}

pub open spec fn rp_x(p: RatPoint) -> Rat {
    Rat { num: p.xn, den: p.den }
}

pub open spec fn rp_y(p: RatPoint) -> Rat {
    Rat { num: p.yn, den: p.den }
}

/// Two points stand for the same pair of coordinates.
pub open spec fn rp_eq(p: RatPoint, q: RatPoint) -> bool {
    &&& q_eq(rp_x(p), rp_x(q))
    &&& q_eq(rp_y(p), rp_y(q))
}

/// The point with coordinates `x` and `y`, brought to a shared denominator.
pub open spec fn rp_from(x: Rat, y: Rat) -> RatPoint {
    if x.den == y.den {
        RatPoint { xn: x.num, yn: y.num, den: x.den }
    } else {
        RatPoint { xn: x.num * y.den, yn: y.num * x.den, den: x.den * y.den }
    }
}

/// Exact vector sum. Matching denominators are kept, so that repeated
/// displacements do not grow the denominator without need.
pub open spec fn rp_add(p: RatPoint, v: RatPoint) -> RatPoint {
    if p.den == v.den {
        RatPoint { xn: p.xn + v.xn, yn: p.yn + v.yn, den: p.den }
    } else {
        RatPoint {
            xn: p.xn * v.den + v.xn * p.den,
            yn: p.yn * v.den + v.yn * p.den,
            den: p.den * v.den,
        }
    }
}

pub open spec fn rp_neg(v: RatPoint) -> RatPoint {
    RatPoint { xn: -v.xn, yn: -v.yn, den: v.den }
}

pub open spec fn rp_sub(p: RatPoint, v: RatPoint) -> RatPoint {
    rp_add(p, rp_neg(v))
}

/// Both coordinates multiplied by the scalar `f`.
pub open spec fn rp_scale(p: RatPoint, f: Rat) -> RatPoint {
    RatPoint { xn: p.xn * f.num, yn: p.yn * f.num, den: p.den * f.den }
}

/// The squared Euclidean norm, an exact rational.
pub open spec fn rp_len_sq(p: RatPoint) -> Rat {
    Rat { num: p.xn * p.xn + p.yn * p.yn, den: p.den * p.den }
}

pub proof fn lemma_mul_pos(a: int, b: int)
    by (nonlinear_arith)
    requires
        0 < a,
        0 < b,
    ensures
        0 < a * b,
{
}

proof fn lemma_sq_le(a: int, b: int)
    by (nonlinear_arith)
    requires
        0 <= a <= b,
    ensures
        a * a <= b * b,
{
}

/// A nonnegative integer square root is unique.
pub proof fn lemma_sqrt_unique(a: int, b: int)
    by (nonlinear_arith)
    requires
        0 <= a,
        0 <= b,
        a * a == b * b,
    ensures
        a == b,
{
}

/// Bounds for a product of one well-formed numerator and one well-formed
/// denominator.
proof fn lemma_nd_bound(n: int, d: int)
    requires
        -(NUM_LIMIT as int) < n < NUM_LIMIT as int,
        0 < d < DEN_LIMIT as int,
    ensures
        -(NUM_LIMIT as int) * (DEN_LIMIT as int) < n * d < (NUM_LIMIT as int) * (DEN_LIMIT as int),
{
    lemma_abs_mul_le(n, d, 2097151, 16383);
}

/// An exact rational point: the coordinates are `(xn / den, yn / den)`.
/// Components stay within `NUM_LIMIT` and `DEN_LIMIT`; an operation whose
/// exact result would not fit reports `GeomError::Overflow`.
#[derive(Clone, Copy, Debug)]
pub struct Point {
    pub xn: i64,
    pub yn: i64,
    pub den: i64,
}

impl View for Point {
    type V = RatPoint;

    open spec fn view(&self) -> RatPoint {
        RatPoint { xn: self.xn as int, yn: self.yn as int, den: self.den as int }
    }
}

impl Point {
    pub open spec fn wf(self) -> bool {
        rp_wf(self@)
    }

    /// The point `(x, y)`, brought to a shared denominator.
    pub fn from(x: Frac, y: Frac) -> (r: Result<Point, GeomError>)
        requires
            x.wf(),
            y.wf(),
        ensures
            rp_wf(rp_from(x@, y@)) ==> (r matches Ok(p) && p@ == rp_from(x@, y@) && p.wf()),
            !rp_wf(rp_from(x@, y@)) ==> r == Err::<Point, GeomError>(GeomError::Overflow),
    {
        if x.den == y.den {
            Ok(Point { xn: x.num, yn: y.num, den: x.den })
        } else {
            proof {
                lemma_nd_bound(x@.num, y@.den);
                lemma_nd_bound(y@.num, x@.den);
                lemma_abs_mul_le(x@.den, y@.den, 16383, 16383);
                lemma_mul_pos(x@.den, y@.den);
            }
            let xn = x.num * y.den;
            let yn = y.num * x.den;
            let den = x.den * y.den;
            if xn <= -NUM_LIMIT || xn >= NUM_LIMIT || yn <= -NUM_LIMIT || yn >= NUM_LIMIT || den
                >= DEN_LIMIT {
                Err(GeomError::Overflow)
            } else {
                Ok(Point { xn, yn, den })
            }
        }
    }

    /// The point with whole-number coordinates `(x, y)`.
    pub fn from_int(x: i64, y: i64) -> (r: Point)
        requires
            -NUM_LIMIT < x < NUM_LIMIT,
            -NUM_LIMIT < y < NUM_LIMIT,
        ensures
            r@ == (RatPoint { xn: x as int, yn: y as int, den: 1 }),
            r.wf(),
    {
        Point { xn: x, yn: y, den: 1 }
    }

    pub fn x(&self) -> (r: Frac)
        requires
            self.wf(),
        ensures
            r@ == rp_x(self@),
            r.wf(),
    {
        Frac { num: self.xn, den: self.den }
    }

    pub fn y(&self) -> (r: Frac)
        requires
            self.wf(),
        ensures
            r@ == rp_y(self@),
            r.wf(),
    {
        Frac { num: self.yn, den: self.den }
    }

    /// Whether the two points stand for the same coordinates.
    pub fn coincides(&self, other: &Point) -> (r: bool)
        requires
            self.wf(),
            other.wf(),
        ensures
            r == rp_eq(self@, other@),
    {
        proof {
            lemma_nd_bound(self@.xn, other@.den);
            lemma_nd_bound(self@.yn, other@.den);
            lemma_nd_bound(other@.xn, self@.den);
            lemma_nd_bound(other@.yn, self@.den);
        }
        self.xn * other.den == other.xn * self.den && self.yn * other.den == other.yn * self.den
    }

    /// This point displaced by the vector `v`.
    pub fn translated(&self, v: &Point) -> (r: Result<Point, GeomError>)
        requires
            self.wf(),
            v.wf(),
        ensures
            rp_wf(rp_add(self@, v@)) ==> (r matches Ok(p) && p@ == rp_add(self@, v@) && p.wf()),
            !rp_wf(rp_add(self@, v@)) ==> r == Err::<Point, GeomError>(GeomError::Overflow),
    {
        if self.den == v.den {
            let xn = self.xn + v.xn;
            let yn = self.yn + v.yn;
            if xn <= -NUM_LIMIT || xn >= NUM_LIMIT || yn <= -NUM_LIMIT || yn >= NUM_LIMIT {
                Err(GeomError::Overflow)
            } else {
                Ok(Point { xn, yn, den: self.den })
            }
        } else {
            proof {
                lemma_nd_bound(self@.xn, v@.den);
                lemma_nd_bound(self@.yn, v@.den);
                lemma_nd_bound(v@.xn, self@.den);
                lemma_nd_bound(v@.yn, self@.den);
                lemma_abs_mul_le(self@.den, v@.den, 16383, 16383);
                lemma_mul_pos(self@.den, v@.den);
            }
            let xn = self.xn * v.den + v.xn * self.den;
            let yn = self.yn * v.den + v.yn * self.den;
            let den = self.den * v.den;
            if xn <= -NUM_LIMIT || xn >= NUM_LIMIT || yn <= -NUM_LIMIT || yn >= NUM_LIMIT || den
                >= DEN_LIMIT {
                Err(GeomError::Overflow)
            } else {
                Ok(Point { xn, yn, den })
            }
        }
    }

    /// The vector from `other` to this point (componentwise difference).
    pub fn diff(&self, other: &Point) -> (r: Result<Point, GeomError>)
        requires
            self.wf(),
            other.wf(),
        ensures
            rp_wf(rp_sub(self@, other@)) ==> (r matches Ok(p) && p@ == rp_sub(self@, other@)
                && p.wf()),
            !rp_wf(rp_sub(self@, other@)) ==> r == Err::<Point, GeomError>(GeomError::Overflow),
    {
        let n = Point { xn: -other.xn, yn: -other.yn, den: other.den };
        self.translated(&n)
    }

    /// Both coordinates multiplied by the scalar `f`.
    pub fn scaled(&self, f: &Frac) -> (r: Result<Point, GeomError>)
        requires
            self.wf(),
            f.wf(),
        ensures
            rp_wf(rp_scale(self@, f@)) ==> (r matches Ok(p) && p@ == rp_scale(self@, f@)
                && p.wf()),
            !rp_wf(rp_scale(self@, f@)) ==> r == Err::<Point, GeomError>(GeomError::Overflow),
    {
        proof {
            lemma_abs_mul_le(self@.xn, f@.num, 2097151, 2097151);
            lemma_abs_mul_le(self@.yn, f@.num, 2097151, 2097151);
            lemma_abs_mul_le(self@.den, f@.den, 16383, 16383);
            lemma_mul_pos(self@.den, f@.den);
        }
        let xn = self.xn * f.num;
        let yn = self.yn * f.num;
        let den = self.den * f.den;
        if xn <= -NUM_LIMIT || xn >= NUM_LIMIT || yn <= -NUM_LIMIT || yn >= NUM_LIMIT || den
            >= DEN_LIMIT {
            Err(GeomError::Overflow)
        } else {
            Ok(Point { xn, yn, den })
        }
    }

    /// The squared Euclidean norm of this point taken as a vector.
    pub fn length_sq(&self) -> (r: Result<Frac, GeomError>)
        requires
            self.wf(),
        ensures
            q_wf(rp_len_sq(self@)) ==> (r matches Ok(f) && f@ == rp_len_sq(self@) && f.wf()),
            !q_wf(rp_len_sq(self@)) ==> r == Err::<Frac, GeomError>(GeomError::Overflow),
    {
        proof {
            lemma_abs_mul_le(self@.xn, self@.xn, 2097151, 2097151);
            lemma_abs_mul_le(self@.yn, self@.yn, 2097151, 2097151);
            lemma_abs_mul_le(self@.den, self@.den, 16383, 16383);
            lemma_mul_pos(self@.den, self@.den);
            assert(0 <= self@.xn * self@.xn) by (nonlinear_arith);
            assert(0 <= self@.yn * self@.yn) by (nonlinear_arith);
        }
        let num = self.xn * self.xn + self.yn * self.yn;
        let den = self.den * self.den;
        if num >= NUM_LIMIT || den >= DEN_LIMIT {
            Err(GeomError::Overflow)
        } else {
            Ok(Frac { num, den })
        }
    }
}

/// Floor of the square root: `r * r <= n < (r + 1) * (r + 1)`.
fn isqrt(n: u64) -> (r: u64)
    requires
        n < 0x4000_0000_0000_0000,
    ensures
        r * r <= n,
        n < (r + 1) * (r + 1),
{
    if n == 0 {
        return 0;
    }
    let mut lo: u64 = 0;
    let mut hi: u64 = 0x8000_0000;
    while lo + 1 < hi
        invariant
            lo < hi <= 0x8000_0000,
            lo * lo <= n,
            n < hi * hi,
        decreases hi - lo,
    {
        let mid = lo + (hi - lo) / 2;
        proof {
            lemma_sq_le(mid as int, 0x8000_0000);
        }
        if mid * mid <= n {
            lo = mid;
        } else {
            hi = mid;
        }
    }
    lo
}

impl Point {
    /// The Euclidean norm, when it is an exact representable rational.
    /// `Irrational` reports that the squared norm has no whole square root;
    /// `Overflow` that the exact value lies outside the bounds.
    pub fn length(&self) -> (r: Result<Frac, GeomError>)
        requires
            self.wf(),
        ensures
            r matches Ok(l) ==> (0 <= l@.num < NUM_LIMIT as int && l@.den == self@.den && l@.num
                * l@.num == rp_len_sq(self@).num && l.wf()),
            r == Err::<Frac, GeomError>(GeomError::Irrational) <==> (forall|m: int|
                0 <= m ==> #[trigger] (m * m) != rp_len_sq(self@).num),
            r == Err::<Frac, GeomError>(GeomError::Overflow) <==> (exists|m: int|
                NUM_LIMIT as int <= m && #[trigger] (m * m) == rp_len_sq(self@).num),
            r matches Ok(_) || r == Err::<Frac, GeomError>(GeomError::Irrational) || r == Err::<
                Frac,
                GeomError,
            >(GeomError::Overflow),
    {
        proof {
            lemma_abs_mul_le(self@.xn, self@.xn, 2097151, 2097151);
            lemma_abs_mul_le(self@.yn, self@.yn, 2097151, 2097151);
            assert(0 <= self@.xn * self@.xn) by (nonlinear_arith);
            assert(0 <= self@.yn * self@.yn) by (nonlinear_arith);
        }
        let sq: i64 = self.xn * self.xn + self.yn * self.yn;
        let s: u64 = isqrt(sq as u64);
        if s * s == sq as u64 {
            if s >= NUM_LIMIT as u64 {
                proof {
                    let ghost m = s as int;
                    assert(NUM_LIMIT as int <= m && m * m == rp_len_sq(self@).num);
                }
                Err(GeomError::Overflow)
            } else {
                proof {
                    assert forall|m: int| NUM_LIMIT as int <= m implies #[trigger] (m * m) != rp_len_sq(
                        self@,
                    ).num by {
                        lemma_sq_le(s as int + 1, m);
                    }
                }
                Ok(Frac { num: s as i64, den: self.den })
            }
        } else {
            proof {
                assert forall|m: int| 0 <= m implies #[trigger] (m * m) != rp_len_sq(self@).num by {
                    if m * m == rp_len_sq(self@).num {
                        if m <= s as int {
                            lemma_sq_le(m, s as int);
                        } else {
                            lemma_sq_le(s as int + 1, m);
                        }
                    }
                }
            }
            Err(GeomError::Irrational)
        }
    }

    /// The unit vector with this point's direction: the same numerators over
    /// the norm of the vector `(xn, yn)`. Fails with `DegenerateVector` on
    /// the zero vector, `Irrational` when the norm is not rational, and
    /// `Overflow` when the exact unit vector cannot be represented.
    pub fn normalized(&self) -> (r: Result<Point, GeomError>)
        requires
            self.wf(),
        ensures
            r matches Ok(u) ==> (u@.xn == self@.xn && u@.yn == self@.yn && u@.den * u@.den
                == self@.xn * self@.xn + self@.yn * self@.yn && u.wf() && q_eq(
                rp_len_sq(u@),
                q_int(1),
            )),
            r == Err::<Point, GeomError>(GeomError::DegenerateVector) <==> (self@.xn == 0
                && self@.yn == 0),
            r == Err::<Point, GeomError>(GeomError::Irrational) <==> (!(self@.xn == 0 && self@.yn
                == 0) && (forall|m: int| 0 <= m ==> #[trigger] (m * m) != self@.xn * self@.xn + self@.yn
                * self@.yn)),
            r == Err::<Point, GeomError>(GeomError::Overflow) <==> (exists|m: int|
                DEN_LIMIT as int <= m && #[trigger] (m * m) == self@.xn * self@.xn + self@.yn
                * self@.yn),
            r matches Ok(_) || r == Err::<Point, GeomError>(GeomError::DegenerateVector) || r
                == Err::<Point, GeomError>(GeomError::Irrational) || r == Err::<Point, GeomError>(
                GeomError::Overflow,
            ),
    {
        if self.xn == 0 && self.yn == 0 {
            proof {
                assert forall|m: int| DEN_LIMIT as int <= m implies #[trigger] (m * m) != self@.xn
                    * self@.xn + self@.yn * self@.yn by {
                    lemma_mul_pos(m, m);
                }
            }
            return Err(GeomError::DegenerateVector);
        }
        proof {
            lemma_abs_mul_le(self@.xn, self@.xn, 2097151, 2097151);
            lemma_abs_mul_le(self@.yn, self@.yn, 2097151, 2097151);
            assert(0 <= self@.xn * self@.xn) by (nonlinear_arith);
            assert(0 <= self@.yn * self@.yn) by (nonlinear_arith);
            assert(self@.xn != 0 ==> 0 < self@.xn * self@.xn) by (nonlinear_arith);
            assert(self@.yn != 0 ==> 0 < self@.yn * self@.yn) by (nonlinear_arith);
        }
        let sq: i64 = self.xn * self.xn + self.yn * self.yn;
        let s: u64 = isqrt(sq as u64);
        if s * s == sq as u64 {
            proof {
                assert(s as int * s as int == self@.xn * self@.xn + self@.yn * self@.yn);
            }
            if s >= DEN_LIMIT as u64 {
                Err(GeomError::Overflow)
            } else {
                proof {
                    assert forall|m: int| DEN_LIMIT as int <= m implies #[trigger] (m * m)
                        != self@.xn * self@.xn + self@.yn * self@.yn by {
                        lemma_sq_le(s as int + 1, m);
                    }
                }
                Ok(Point { xn: self.xn, yn: self.yn, den: s as i64 })
            }
        } else {
            proof {
                assert forall|m: int| DEN_LIMIT as int <= m implies #[trigger] (m * m)
                    != self@.xn * self@.xn + self@.yn * self@.yn by {
                    if m * m == self@.xn * self@.xn + self@.yn * self@.yn {
                        if m <= s as int {
                            lemma_sq_le(m, s as int);
                        } else {
                            lemma_sq_le(s as int + 1, m);
                        }
                    }
                }
            }
            proof {
                assert forall|m: int| 0 <= m implies #[trigger] (m * m) != self@.xn * self@.xn + self@.yn
                    * self@.yn by {
                    if m * m == self@.xn * self@.xn + self@.yn * self@.yn {
                        if m <= s as int {
                            lemma_sq_le(m, s as int);
                        } else {
                            lemma_sq_le(s as int + 1, m);
                        }
                    }
                }
            }
            Err(GeomError::Irrational)
        }
    }

    /// The Euclidean distance to `other`, when it is an exact representable
    /// rational. The result is the nonnegative square root of the squared
    /// componentwise difference; `Irrational` reports that no whole square
    /// root exists, `Overflow` that the difference or the root leaves the
    /// representation bounds.
    pub fn distance_to(&self, other: &Point) -> (r: Result<Frac, GeomError>)
        requires
            self.wf(),
            other.wf(),
        ensures
            r matches Ok(l) ==> (rp_wf(rp_sub(self@, other@)) && 0 <= l@.num < NUM_LIMIT as int
                && l@.den == rp_sub(self@, other@).den && l@.num * l@.num == rp_len_sq(
                rp_sub(self@, other@),
            ).num && l.wf()),
            rp_wf(rp_sub(self@, other@)) ==> (r == Err::<Frac, GeomError>(GeomError::Irrational)
                <==> (forall|m: int| 0 <= m ==> #[trigger] (m * m) != rp_len_sq(rp_sub(self@, other@)).num)),
            rp_wf(rp_sub(self@, other@)) ==> (r == Err::<Frac, GeomError>(GeomError::Overflow)
                <==> (exists|m: int|
                NUM_LIMIT as int <= m && #[trigger] (m * m) == rp_len_sq(
                    rp_sub(self@, other@),
                ).num)),
            !rp_wf(rp_sub(self@, other@)) ==> r == Err::<Frac, GeomError>(GeomError::Overflow),
            r matches Ok(_) || r == Err::<Frac, GeomError>(GeomError::Irrational) || r == Err::<
                Frac,
                GeomError,
            >(GeomError::Overflow),
    {
        let d = match self.diff(other) {
            Ok(d) => d,
            Err(_) => {
                return Err(GeomError::Overflow);
            },
        };
        d.length()
    }
}

} // verus!
