use vstd::prelude::*;

use crate::error::GeomError;
use crate::frac::{lemma_abs_mul_le, Frac, DEN_LIMIT, NUM_LIMIT};
use crate::path::Path;
use crate::point::{
    lemma_mul_pos, rp_add, rp_eq, rp_from, rp_neg, rp_scale, rp_wf, Point, RatPoint,
};
use crate::shape::{
    center_fits, center_spec, flat, scale_shape_spec, shape_wf, translate_shape_spec, Shape,
};
use vstd::arithmetic::div_mod::{lemma_fundamental_div_mod, lemma_fundamental_div_mod_converse};

verus! {

/// An exact rotation: the cosine `cn / den` and sine `sn / den` of the angle,
/// over one shared positive denominator. Spec-level model of `Rotation`.
pub struct RatRot {
    pub cn: int,
    pub sn: int,
    pub den: int,
}

/// A well-formed rotation lies exactly on the unit circle.
pub open spec fn rot_wf(r: RatRot) -> bool {
    &&& 0 < r.den < DEN_LIMIT as int
    &&& r.cn * r.cn + r.sn * r.sn == r.den * r.den
}

/// The same rotation taken backwards: the sine changes sign.
pub open spec fn rot_inv(r: RatRot) -> RatRot {
    RatRot { cn: r.cn, sn: -r.sn, den: r.den }
}

/// The standard plane rotation of `p` about the pivot `c`:
/// `x' = c.x + (x - c.x) cos - (y - c.y) sin`,
/// `y' = c.y + (x - c.x) sin + (y - c.y) cos`,
/// carried out exactly on the shared-denominator representation.
pub open spec fn rp_rotate(p: RatPoint, c: RatPoint, r: RatRot) -> RatPoint {
    let a = p.xn * c.den - c.xn * p.den;
    let b = p.yn * c.den - c.yn * p.den;
    RatPoint {
        xn: c.xn * (p.den * r.den) + a * r.cn - b * r.sn,
        yn: c.yn * (p.den * r.den) + a * r.sn + b * r.cn,
        den: (p.den * c.den) * r.den,
    }
}

pub open spec fn rotate_path_spec(pts: Seq<RatPoint>, c: RatPoint, r: RatRot) -> Seq<RatPoint> {
    Seq::new(pts.len(), |j: int| rp_rotate(pts[j], c, r))
}

pub open spec fn rotate_shape_spec(s: Seq<Seq<RatPoint>>, c: RatPoint, r: RatRot) -> Seq<
    Seq<RatPoint>,
> {
    Seq::new(s.len(), |i: int| rotate_path_spec(s[i], c, r))
}

/// On the unit circle the components are no larger than the denominator.
pub proof fn lemma_rot_bounds(r: RatRot)
    by (nonlinear_arith)
    requires
        rot_wf(r),
    ensures
        -r.den <= r.cn <= r.den,
        -r.den <= r.sn <= r.den,
{
}

/// Rotating a point by an exact rotation about a pivot and then by the same
/// rotation taken backwards, about the same pivot, returns the original
/// coordinates exactly.
#[verifier::rlimit(100)]
pub proof fn lemma_rotate_round_trip(p: RatPoint, c: RatPoint, r: RatRot)
    requires
        rp_wf(p),
        rp_wf(c),
        rot_wf(r),
    ensures
        rp_eq(rp_rotate(rp_rotate(p, c, r), c, rot_inv(r)), p),
{
    let xn = p.xn;
    let yn = p.yn;
    let d = p.den;
    let un = c.xn;
    let vn = c.yn;
    let f = c.den;
    let cn = r.cn;
    let sn = r.sn;
    let e = r.den;
    let a = xn * f - un * d;
    let b = yn * f - vn * d;
    let q = rp_rotate(p, c, r);
    let s = rp_rotate(q, c, rot_inv(r));
    let a2 = q.xn * f - un * q.den;
    let b2 = q.yn * f - vn * q.den;
    assert(q.xn == un * (d * e) + a * cn - b * sn);
    assert(q.yn == vn * (d * e) + a * sn + b * cn);
    assert(q.den == (d * f) * e);
    assert(s.xn == un * (q.den * e) + a2 * cn - b2 * -sn);
    assert(s.yn == vn * (q.den * e) + a2 * -sn + b2 * cn);
    assert(s.den == (q.den * f) * e);
    assert(a2 == f * (a * cn - b * sn)) by (nonlinear_arith)
        requires
            a2 == (un * (d * e) + a * cn - b * sn) * f - un * ((d * f) * e);
    assert(b2 == f * (a * sn + b * cn)) by (nonlinear_arith)
        requires
            b2 == (vn * (d * e) + a * sn + b * cn) * f - vn * ((d * f) * e);
    let u = a * cn - b * sn;
    let v = a * sn + b * cn;
    assert(a2 == f * u);
    assert(b2 == f * v);
    assert((f * u) * cn == f * (u * cn)) by (nonlinear_arith);
    assert((f * u) * -sn == -(f * (u * sn))) by (nonlinear_arith);
    assert((f * v) * sn == f * (v * sn)) by (nonlinear_arith);
    assert((f * v) * -sn == -(f * (v * sn))) by (nonlinear_arith);
    assert((f * v) * cn == f * (v * cn)) by (nonlinear_arith);
    assert(u * cn + v * sn == a * (cn * cn + sn * sn)) by (nonlinear_arith)
        requires
            u == a * cn - b * sn,
            v == a * sn + b * cn;
    assert(v * cn - u * sn == b * (cn * cn + sn * sn)) by (nonlinear_arith)
        requires
            u == a * cn - b * sn,
            v == a * sn + b * cn;
    assert(f * (u * cn) + f * (v * sn) == f * (u * cn + v * sn)) by (nonlinear_arith);
    assert(f * (v * cn) - f * (u * sn) == f * (v * cn - u * sn)) by (nonlinear_arith);
    assert(a2 * cn - b2 * -sn == f * (u * cn) + f * (v * sn));
    assert(a2 * -sn + b2 * cn == f * (v * cn) - f * (u * sn));
    assert(a2 * cn - b2 * -sn == f * (a * (cn * cn + sn * sn)));
    assert(a2 * -sn + b2 * cn == f * (b * (cn * cn + sn * sn)));
    assert(s.xn == un * (((d * f) * e) * e) + f * (a * (e * e)));
    assert(s.yn == vn * (((d * f) * e) * e) + f * (b * (e * e)));
    assert(un * (((d * f) * e) * e) + f * (a * (e * e)) == (un * d + a) * (f * (e * e)))
        by (nonlinear_arith);
    assert(vn * (((d * f) * e) * e) + f * (b * (e * e)) == (vn * d + b) * (f * (e * e)))
        by (nonlinear_arith);
    assert(s.xn == (un * d + a) * (f * (e * e)));
    assert(s.yn == (vn * d + b) * (f * (e * e)));
    assert(un * d + a == xn * f);
    assert(vn * d + b == yn * f);
    assert(s.xn == xn * ((f * f) * (e * e))) by (nonlinear_arith)
        requires
            s.xn == (xn * f) * (f * (e * e));
    assert(s.yn == yn * ((f * f) * (e * e))) by (nonlinear_arith)
        requires
            s.yn == (yn * f) * (f * (e * e));
    assert(s.den == d * ((f * f) * (e * e))) by (nonlinear_arith)
        requires
            s.den == (((d * f) * e) * f) * e;
    assert(s.xn * p.den == p.xn * s.den && s.yn * p.den == p.yn * s.den) by (nonlinear_arith)
        requires
            s.xn == xn * ((f * f) * (e * e)),
            s.yn == yn * ((f * f) * (e * e)),
            s.den == d * ((f * f) * (e * e)),
            xn == p.xn,
            yn == p.yn,
            d == p.den;
}

/// Rotating by the zero rotation (cosine 1, sine 0) leaves every coordinate
/// value unchanged.
pub proof fn lemma_rotate_identity_point(p: RatPoint, c: RatPoint)
    requires
        rp_wf(p),
        rp_wf(c),
    ensures
        rp_eq(rp_rotate(p, c, RatRot { cn: 1, sn: 0, den: 1 }), p),
{
    let a = p.xn * c.den - c.xn * p.den;
    let b = p.yn * c.den - c.yn * p.den;
    let q = rp_rotate(p, c, RatRot { cn: 1, sn: 0, den: 1 });
    assert(q.xn == c.xn * (p.den * 1) + a * 1 - b * 0);
    assert(q.yn == c.yn * (p.den * 1) + a * 0 + b * 1);
    assert(q.den == (p.den * c.den) * 1);
    assert(q.xn == p.xn * c.den);
    assert(q.yn == p.yn * c.den);
    assert(q.xn * p.den == p.xn * q.den && q.yn * p.den == p.yn * q.den) by (nonlinear_arith)
        requires
            q.xn == p.xn * c.den,
            q.yn == p.yn * c.den,
            q.den == (p.den * c.den) * 1;
}

/// Rotating any shape by the zero rotation about any pivot keeps the shape:
/// the same paths, the same points, each standing for the same coordinates.
pub proof fn lemma_rotate_identity_shape(s: Seq<Seq<RatPoint>>, c: RatPoint)
    requires
        shape_wf(s),
        rp_wf(c),
    ensures
        rotate_shape_spec(s, c, RatRot { cn: 1, sn: 0, den: 1 }).len() == s.len(),
        forall|i: int|
            0 <= i < s.len() ==> #[trigger] rotate_shape_spec(
                s,
                c,
                RatRot { cn: 1, sn: 0, den: 1 },
            )[i].len() == s[i].len(),
        forall|i: int, j: int|
            0 <= i < s.len() && 0 <= j < s[i].len() ==> rp_eq(
                #[trigger] rotate_shape_spec(s, c, RatRot { cn: 1, sn: 0, den: 1 })[i][j],
                s[i][j],
            ),
{
    assert forall|i: int, j: int| 0 <= i < s.len() && 0 <= j < s[i].len() implies rp_eq(
        #[trigger] rotate_shape_spec(s, c, RatRot { cn: 1, sn: 0, den: 1 })[i][j],
        s[i][j],
    ) by {
        lemma_rotate_identity_point(s[i][j], c);
    }
}

/// Translating by a vector and then by its negation returns the original
/// coordinates exactly.
pub proof fn lemma_translate_round_trip(p: RatPoint, v: RatPoint)
    requires
        rp_wf(p),
        rp_wf(v),
    ensures
        rp_eq(rp_add(rp_add(p, v), rp_neg(v)), p),
{
    let q = rp_add(p, v);
    let s = rp_add(q, rp_neg(v));
    if p.den == v.den {
        assert(s.xn * p.den == p.xn * s.den && s.yn * p.den == p.yn * s.den);
    } else {
        assert(q.den == p.den * v.den);
        if q.den == v.den {
            assert(s.xn * p.den == p.xn * s.den && s.yn * p.den == p.yn * s.den)
                by (nonlinear_arith)
                requires
                    s.xn == (p.xn * v.den + v.xn * p.den) - v.xn,
                    s.yn == (p.yn * v.den + v.yn * p.den) - v.yn,
                    s.den == p.den * v.den,
                    p.den * v.den == v.den,
                    v.den >= 1;
        } else {
            assert(s.xn * p.den == p.xn * s.den && s.yn * p.den == p.yn * s.den)
                by (nonlinear_arith)
                requires
                    s.xn == (p.xn * v.den + v.xn * p.den) * v.den + (-v.xn) * (p.den * v.den),
                    s.yn == (p.yn * v.den + v.yn * p.den) * v.den + (-v.yn) * (p.den * v.den),
                    s.den == (p.den * v.den) * v.den;
        }
    }
}

/// Translating by the zero vector leaves every coordinate value unchanged.
pub proof fn lemma_translate_zero_point(p: RatPoint, v: RatPoint)
    requires
        rp_wf(p),
        rp_wf(v),
        v.xn == 0,
        v.yn == 0,
    ensures
        rp_eq(rp_add(p, v), p),
{
    let q = rp_add(p, v);
    if p.den == v.den {
        assert(q.xn * p.den == p.xn * q.den && q.yn * p.den == p.yn * q.den);
    } else {
        assert(q.xn * p.den == p.xn * q.den && q.yn * p.den == p.yn * q.den) by (nonlinear_arith)
            requires
                q.xn == p.xn * v.den + 0 * p.den,
                q.yn == p.yn * v.den + 0 * p.den,
                q.den == p.den * v.den;
    }
}

/// Translating any shape by the zero vector keeps the shape: the same paths,
/// the same points, each standing for the same coordinates.
pub proof fn lemma_translate_zero_shape(s: Seq<Seq<RatPoint>>, v: RatPoint)
    requires
        shape_wf(s),
        rp_wf(v),
        v.xn == 0,
        v.yn == 0,
    ensures
        translate_shape_spec(s, v).len() == s.len(),
        forall|i: int|
            0 <= i < s.len() ==> #[trigger] translate_shape_spec(s, v)[i].len() == s[i].len(),
        forall|i: int, j: int|
            0 <= i < s.len() && 0 <= j < s[i].len() ==> rp_eq(
                #[trigger] translate_shape_spec(s, v)[i][j],
                s[i][j],
            ),
{
    assert forall|i: int, j: int| 0 <= i < s.len() && 0 <= j < s[i].len() implies rp_eq(
        #[trigger] translate_shape_spec(s, v)[i][j],
        s[i][j],
    ) by {
        lemma_translate_zero_point(s[i][j], v);
    }
}

/// An exact rotation held by the engine: the cosine is `cn / den`, the sine
/// `sn / den`, with `cn * cn + sn * sn == den * den` exactly.
#[derive(Clone, Copy, Debug)]
pub struct Rotation {
    pub cn: i64,
    pub sn: i64,
    pub den: i64,
}

impl View for Rotation {
    type V = RatRot;

    open spec fn view(&self) -> RatRot {
        RatRot { cn: self.cn as int, sn: self.sn as int, den: self.den as int }
    }
}

impl Rotation {
    pub open spec fn wf(self) -> bool {
        rot_wf(self@)
    }
}

/// The cosine and sine of a whole number of degrees, exact only for the
/// quarter turns: by Niven's theorem no other whole angle has both rational.
pub open spec fn quarter_rot(d: int) -> Option<RatRot> {
    let m = d % 360;
    if m == 0 {
        Some(RatRot { cn: 1, sn: 0, den: 1 })
    } else if m == 90 {
        Some(RatRot { cn: 0, sn: 1, den: 1 })
    } else if m == 180 {
        Some(RatRot { cn: -1, sn: 0, den: 1 })
    } else if m == 270 {
        Some(RatRot { cn: 0, sn: -1, den: 1 })
    } else {
        None
    }
}

/// A rotation by a fixed exact angle, about a fixed pivot or, when none is
/// given, about the centroid of whatever shape it is applied to, resolved at
/// apply time.
#[derive(Clone, Copy, Debug)]
pub struct Rotate {
    pub around: Option<Point>,
    pub rotation: Rotation,
}

/// What applying `t` to the shape `s` returns: the rotation of every point
/// about the pivot, or the error. Without a fixed pivot the centroid of `s`
/// is the pivot, so a shape without points is refused, and a centroid
/// computation that leaves the representation bounds reports `Overflow`.
pub open spec fn rotate_apply_spec(t: Rotate, s: Seq<Seq<RatPoint>>) -> Result<
    Seq<Seq<RatPoint>>,
    GeomError,
> {
    match t.around {
        Some(p) => {
            if shape_wf(rotate_shape_spec(s, p@, t.rotation@)) {
                Ok(rotate_shape_spec(s, p@, t.rotation@))
            } else {
                Err(GeomError::Overflow)
            }
        },
        None => {
            if flat(s).len() == 0 {
                Err(GeomError::DegenerateVector)
            } else if !(center_fits(s) && rp_wf(center_spec(s))) {
                Err(GeomError::Overflow)
            } else if shape_wf(rotate_shape_spec(s, center_spec(s), t.rotation@)) {
                Ok(rotate_shape_spec(s, center_spec(s), t.rotation@))
            } else {
                Err(GeomError::Overflow)
            }
        },
    }
}

impl Rotate {
    pub open spec fn wf(self) -> bool {
        &&& self.rotation.wf()
        &&& match self.around {
            Some(p) => p.wf(),
            None => true,
        }
    }

    /// A rotation by `degrees` about the centroid of the shape it is applied
    /// to. Only quarter turns have an exact rational cosine and sine; any
    /// other angle is refused as `Irrational`.
    pub fn from(degrees: i64) -> (r: Result<Rotate, GeomError>)
        ensures
            r matches Ok(rt) ==> (quarter_rot(degrees as int) == Some(rt.rotation@) && rt.around
                is None && rt.wf()),
            quarter_rot(degrees as int) is None <==> r == Err::<Rotate, GeomError>(
                GeomError::Irrational,
            ),
            r matches Ok(_) || r == Err::<Rotate, GeomError>(GeomError::Irrational),
    {
        let m = degrees_mod_360(degrees);
        let rotation = if m == 0 {
            Rotation { cn: 1, sn: 0, den: 1 }
        } else if m == 90 {
            Rotation { cn: 0, sn: 1, den: 1 }
        } else if m == 180 {
            Rotation { cn: -1, sn: 0, den: 1 }
        } else if m == 270 {
            Rotation { cn: 0, sn: -1, den: 1 }
        } else {
            return Err(GeomError::Irrational);
        };
        proof {
            assert(rotation@.den == 1 && ((rotation@.cn == 1 && rotation@.sn == 0) || (
            rotation@.cn == 0 && rotation@.sn == 1) || (rotation@.cn == -1 && rotation@.sn == 0)
                || (rotation@.cn == 0 && rotation@.sn == -1)));
            assert(rotation@.cn * rotation@.cn + rotation@.sn * rotation@.sn == rotation@.den
                * rotation@.den) by (nonlinear_arith)
                requires
                    rotation@.den == 1 && ((rotation@.cn == 1 && rotation@.sn == 0) || (
                    rotation@.cn == 0 && rotation@.sn == 1) || (rotation@.cn == -1 && rotation@.sn
                        == 0) || (rotation@.cn == 0 && rotation@.sn == -1));
        }
        Ok(Rotate { around: None, rotation })
    }

    /// A rotation by `degrees` about the fixed pivot `p`.
    pub fn around(degrees: i64, p: Point) -> (r: Result<Rotate, GeomError>)
        requires
            p.wf(),
        ensures
            r matches Ok(rt) ==> (quarter_rot(degrees as int) == Some(rt.rotation@) && rt.around
                == Some(p) && rt.wf()),
            quarter_rot(degrees as int) is None <==> r == Err::<Rotate, GeomError>(
                GeomError::Irrational,
            ),
            r matches Ok(_) || r == Err::<Rotate, GeomError>(GeomError::Irrational),
    {
        let base = Rotate::from(degrees)?;
        Ok(Rotate { around: Some(p), rotation: base.rotation })
    }

    /// One point rotated about `around`. Fails with `Overflow` when the
    /// exact image leaves the representation bounds.
    pub fn a_point(&self, p: &Point, around: &Point) -> (r: Result<Point, GeomError>)
        requires
            self.rotation.wf(),
            p.wf(),
            around.wf(),
        ensures
            rp_wf(rp_rotate(p@, around@, self.rotation@)) ==> (r matches Ok(q) && q@ == rp_rotate(
                p@,
                around@,
                self.rotation@,
            ) && q.wf()),
            !rp_wf(rp_rotate(p@, around@, self.rotation@)) ==> r == Err::<Point, GeomError>(
                GeomError::Overflow,
            ),
    {
        proof {
            lemma_rot_bounds(self.rotation@);
            lemma_abs_mul_le(p@.xn, around@.den, 2097151, 16383);
            lemma_abs_mul_le(around@.xn, p@.den, 2097151, 16383);
            lemma_abs_mul_le(p@.yn, around@.den, 2097151, 16383);
            lemma_abs_mul_le(around@.yn, p@.den, 2097151, 16383);
        }
        let a = p.xn * around.den - around.xn * p.den;
        let b = p.yn * around.den - around.yn * p.den;
        proof {
            lemma_abs_mul_le(a as int, self.rotation@.cn, 68715249666, 16383);
            lemma_abs_mul_le(a as int, self.rotation@.sn, 68715249666, 16383);
            lemma_abs_mul_le(b as int, self.rotation@.cn, 68715249666, 16383);
            lemma_abs_mul_le(b as int, self.rotation@.sn, 68715249666, 16383);
            lemma_abs_mul_le(p@.den, self.rotation@.den, 16383, 16383);
        }
        let pd_rd = p.den * self.rotation.den;
        proof {
            lemma_abs_mul_le(around@.xn, pd_rd as int, 2097151, 268402689);
            lemma_abs_mul_le(around@.yn, pd_rd as int, 2097151, 268402689);
            lemma_abs_mul_le(p@.den, around@.den, 16383, 16383);
            lemma_mul_pos(p@.den, around@.den);
            lemma_abs_mul_le(p@.den * around@.den, self.rotation@.den, 268402689, 16383);
            lemma_mul_pos(p@.den * around@.den, self.rotation@.den);
        }
        let xn = around.xn * pd_rd + a * self.rotation.cn - b * self.rotation.sn;
        let yn = around.yn * pd_rd + a * self.rotation.sn + b * self.rotation.cn;
        let den = (p.den * around.den) * self.rotation.den;
        if xn <= -NUM_LIMIT || xn >= NUM_LIMIT || yn <= -NUM_LIMIT || yn >= NUM_LIMIT || den
            >= DEN_LIMIT {
            Err(GeomError::Overflow)
        } else {
            Ok(Point { xn, yn, den })
        }
    }

    /// One path rotated about `around`, point by point.
    pub fn a_path(&self, p: &Path, around: &Point) -> (r: Result<Path, GeomError>)
        requires
            self.rotation.wf(),
            p.wf(),
            around.wf(),
        ensures
            ({
                let m = rotate_path_spec(p@, around@, self.rotation@);
                &&& (forall|j: int| 0 <= j < m.len() ==> rp_wf(#[trigger] m[j])) ==> (
                r matches Ok(q) && q@ == m && q.wf())
                &&& !(forall|j: int| 0 <= j < m.len() ==> rp_wf(#[trigger] m[j])) ==> r == Err::<
                    Path,
                    GeomError,
                >(GeomError::Overflow)
            }),
    {
        let ghost m = rotate_path_spec(p@, around@, self.rotation@);
        let mut points: Vec<Point> = Vec::new();
        let mut j: usize = 0;
        while j < p.points.len()
            invariant
                j <= p.points@.len(),
                self.rotation.wf(),
                p.wf(),
                around.wf(),
                m == rotate_path_spec(p@, around@, self.rotation@),
                points@.len() == j as int,
                forall|k: int| 0 <= k < j as int ==> #[trigger] points@[k]@ == m[k],
                forall|k: int| 0 <= k < j as int ==> rp_wf(#[trigger] m[k]),
            decreases p.points@.len() - j,
        {
            proof {
                assert(p.points@[j as int]@ == p@[j as int]);
            }
            let q = match self.a_point(&p.points[j], around) {
                Ok(q) => q,
                Err(_) => {
                    proof {
                        assert(!rp_wf(m[j as int]));
                    }
                    return Err(GeomError::Overflow);
                },
            };
            points.push(q);
            j += 1;
        }
        let out = Path { points };
        proof {
            assert(out@ =~= m);
        }
        Ok(out)
    }

    /// One shape rotated about `around`, path by path.
    pub fn a_shape(&self, s: &Shape, around: &Point) -> (r: Result<Shape, GeomError>)
        requires
            self.rotation.wf(),
            s.wf(),
            around.wf(),
        ensures
            shape_wf(rotate_shape_spec(s@, around@, self.rotation@)) ==> (r matches Ok(q) && q@
                == rotate_shape_spec(s@, around@, self.rotation@) && q.wf()),
            !shape_wf(rotate_shape_spec(s@, around@, self.rotation@)) ==> r == Err::<
                Shape,
                GeomError,
            >(GeomError::Overflow),
    {
        let ghost target = rotate_shape_spec(s@, around@, self.rotation@);
        let mut paths: Vec<Path> = Vec::new();
        let mut i: usize = 0;
        while i < s.paths.len()
            invariant
                i <= s.paths@.len(),
                self.rotation.wf(),
                s.wf(),
                around.wf(),
                target == rotate_shape_spec(s@, around@, self.rotation@),
                paths@.len() == i as int,
                forall|j: int| 0 <= j < i as int ==> #[trigger] paths@[j]@ == target[j],
                forall|a: int, b: int|
                    0 <= a < i as int && 0 <= b < target[a].len() ==> rp_wf(#[trigger] target[a][b]),
            decreases s.paths@.len() - i,
        {
            proof {
                assert(s.paths@[i as int]@ == s@[i as int]);
                assert(forall|j: int|
                    0 <= j < s@[i as int].len() ==> rp_wf(#[trigger] s@[i as int][j]));
            }
            let q = match self.a_path(&s.paths[i], around) {
                Ok(q) => q,
                Err(_) => {
                    proof {
                        let m = rotate_path_spec(s@[i as int], around@, self.rotation@);
                        assert(exists|j: int| 0 <= j < m.len() && !rp_wf(#[trigger] m[j]));
                        let j = choose|j: int| 0 <= j < m.len() && !rp_wf(#[trigger] m[j]);
                        assert(target[i as int][j] == m[j]);
                        assert(!shape_wf(target));
                    }
                    return Err(GeomError::Overflow);
                },
            };
            proof {
                assert(forall|j: int|
                    0 <= j < target[i as int].len() ==> rp_wf(#[trigger] target[i as int][j]));
            }
            paths.push(q);
            i += 1;
        }
        let out = Shape { paths };
        proof {
            assert(out@ =~= target);
            assert(shape_wf(target));
        }
        Ok(out)
    }

    /// The rotation applied to a whole shape. When no pivot was fixed, the
    /// pivot is this shape's own centroid, computed here.
    pub fn apply(&self, s: &Shape) -> (r: Result<Shape, GeomError>)
        requires
            self.wf(),
            s.wf(),
        ensures
            rotate_apply_spec(*self, s@) matches Ok(v) ==> (r matches Ok(sh) && sh@ == v
                && sh.wf()),
            rotate_apply_spec(*self, s@) matches Err(e) ==> r == Err::<Shape, GeomError>(e),
    {
        let pivot = match &self.around {
            Some(p) => *p,
            None => {
                match s.center() {
                    Ok(c) => c,
                    Err(e) => {
                        return Err(e);
                    },
                }
            },
        };
        self.a_shape(s, &pivot)
    }
}

/// Euclidean remainder of `degrees` modulo 360: the angle is normalized
/// before the quarter-turn table is consulted.
fn degrees_mod_360(degrees: i64) -> (r: u64)
    ensures
        r as int == (degrees as int) % 360,
{
    if degrees >= 0 {
        let r = (degrees as u64) % 360;
        proof {
            lemma_fundamental_div_mod(degrees as int, 360);
            lemma_fundamental_div_mod(degrees as u64 as int, 360);
        }
        r
    } else {
        let k: u64 = ((-(degrees + 1)) as u64) + 1;
        let mm = k % 360;
        let r = if mm == 0 {
            0
        } else {
            360 - mm
        };
        proof {
            let d = degrees as int;
            let ki = k as int;
            assert(ki == -d);
            lemma_fundamental_div_mod(ki, 360);
            let kq = ki / 360;
            assert(ki == 360 * kq + mm);
            if mm == 0 {
                lemma_fundamental_div_mod_converse(d, 360, -kq, 0);
            } else {
                assert(d == (-kq - 1) * 360 + (360 - mm)) by (nonlinear_arith)
                    requires
                        d == -ki,
                        ki == 360 * kq + mm;
                lemma_fundamental_div_mod_converse(d, 360, -kq - 1, 360 - mm);
            }
        }
        r
    }
}

/// A displacement of every point by one fixed vector.
#[derive(Clone, Copy, Debug)]
pub struct Translate {
    pub displacement: Point,
}

impl Translate {
    pub open spec fn wf(self) -> bool {
        self.displacement.wf()
    }

    /// The translation along `direction` (normalized internally) by the
    /// scalar `distance`: the displacement is the unit vector of `direction`
    /// times `distance`. Fails with `DegenerateVector` on a zero direction,
    /// `Irrational` when the direction's norm is not rational, and
    /// `Overflow` when the exact displacement cannot be represented.
    pub fn from(direction: Point, distance: Frac) -> (r: Result<Translate, GeomError>)
        requires
            direction.wf(),
            distance.wf(),
        ensures
            r matches Ok(t) ==> (exists|m: int|
                0 < m < DEN_LIMIT as int && #[trigger] (m * m) == direction@.xn * direction@.xn
                    + direction@.yn * direction@.yn && t.displacement@ == rp_scale(
                    RatPoint { xn: direction@.xn, yn: direction@.yn, den: m },
                    distance@,
                )) && t.wf(),
            r == Err::<Translate, GeomError>(GeomError::DegenerateVector) <==> (direction@.xn == 0
                && direction@.yn == 0),
            r == Err::<Translate, GeomError>(GeomError::Irrational) <==> (!(direction@.xn == 0
                && direction@.yn == 0) && (forall|m: int|
                0 <= m ==> #[trigger] (m * m) != direction@.xn * direction@.xn + direction@.yn
                    * direction@.yn)),
            r == Err::<Translate, GeomError>(GeomError::Overflow) <==> (!(direction@.xn == 0
                && direction@.yn == 0) && (exists|m: int|
                0 < m && #[trigger] (m * m) == direction@.xn * direction@.xn + direction@.yn
                    * direction@.yn && (DEN_LIMIT as int <= m || !rp_wf(
                    rp_scale(RatPoint { xn: direction@.xn, yn: direction@.yn, den: m }, distance@),
                )))),
            r matches Ok(_) || r == Err::<Translate, GeomError>(GeomError::DegenerateVector) || r
                == Err::<Translate, GeomError>(GeomError::Irrational) || r == Err::<
                Translate,
                GeomError,
            >(GeomError::Overflow),
    {
        let ghost sq = direction@.xn * direction@.xn + direction@.yn * direction@.yn;
        let u = match direction.normalized() {
            Ok(u) => u,
            Err(e) => {
                proof {
                    if e == GeomError::Overflow {
                        let m = choose|m: int| DEN_LIMIT as int <= m && #[trigger] (m * m) == sq;
                        assert(0 < m && m * m == sq && DEN_LIMIT as int <= m);
                    }
                }
                return Err(e);
            },
        };
        proof {
            assert(0 < u@.den && u@.den * u@.den == sq);
            assert forall|m: int| 0 < m && #[trigger] (m * m) == sq implies m == u@.den by {
                crate::point::lemma_sqrt_unique(m, u@.den);
            }
        }
        match u.scaled(&distance) {
            Ok(d) => Ok(Translate { displacement: d }),
            Err(_) => {
                proof {
                    assert(u@.den * u@.den == sq && !rp_wf(
                        rp_scale(
                            RatPoint { xn: direction@.xn, yn: direction@.yn, den: u@.den },
                            distance@,
                        ),
                    ));
                }
                Err(GeomError::Overflow)
            },
        }
    }

    /// One point displaced by this translation's vector.
    pub fn a_point(&self, p: &Point) -> (r: Result<Point, GeomError>)
        requires
            self.wf(),
            p.wf(),
        ensures
            rp_wf(rp_add(p@, self.displacement@)) ==> (r matches Ok(q) && q@ == rp_add(
                p@,
                self.displacement@,
            ) && q.wf()),
            !rp_wf(rp_add(p@, self.displacement@)) ==> r == Err::<Point, GeomError>(
                GeomError::Overflow,
            ),
    {
        p.translated(&self.displacement)
    }

    /// One path displaced point by point.
    pub fn a_path(&self, p: &Path) -> (r: Result<Path, GeomError>)
        requires
            self.wf(),
            p.wf(),
        ensures
            ({
                let m = Seq::new(p@.len(), |j: int| rp_add(p@[j], self.displacement@));
                &&& (forall|j: int| 0 <= j < m.len() ==> rp_wf(#[trigger] m[j])) ==> (
                r matches Ok(q) && q@ == m && q.wf())
                &&& !(forall|j: int| 0 <= j < m.len() ==> rp_wf(#[trigger] m[j])) ==> r == Err::<
                    Path,
                    GeomError,
                >(GeomError::Overflow)
            }),
    {
        let ghost m = Seq::new(p@.len(), |j: int| rp_add(p@[j], self.displacement@));
        let mut points: Vec<Point> = Vec::new();
        let mut j: usize = 0;
        while j < p.points.len()
            invariant
                j <= p.points@.len(),
                self.wf(),
                p.wf(),
                m == Seq::new(p@.len(), |k: int| rp_add(p@[k], self.displacement@)),
                points@.len() == j as int,
                forall|k: int| 0 <= k < j as int ==> #[trigger] points@[k]@ == m[k],
                forall|k: int| 0 <= k < j as int ==> rp_wf(#[trigger] m[k]),
            decreases p.points@.len() - j,
        {
            proof {
                assert(p.points@[j as int]@ == p@[j as int]);
            }
            let q = match p.points[j].translated(&self.displacement) {
                Ok(q) => q,
                Err(_) => {
                    proof {
                        assert(!rp_wf(m[j as int]));
                    }
                    return Err(GeomError::Overflow);
                },
            };
            points.push(q);
            j += 1;
        }
        let out = Path { points };
        proof {
            assert(out@ =~= m);
        }
        Ok(out)
    }

    /// The translation applied to a whole shape.
    pub fn apply(&self, s: &Shape) -> (r: Result<Shape, GeomError>)
        requires
            self.wf(),
            s.wf(),
        ensures
            shape_wf(translate_shape_spec(s@, self.displacement@)) ==> (r matches Ok(sh) && sh@
                == translate_shape_spec(s@, self.displacement@) && sh.wf()),
            !shape_wf(translate_shape_spec(s@, self.displacement@)) ==> r == Err::<
                Shape,
                GeomError,
            >(GeomError::Overflow),
    {
        s.translated_by(&self.displacement)
    }
}

/// A scaling of every coordinate by one fixed factor, about the origin.
#[derive(Clone, Copy, Debug)]
pub struct Scale {
    pub factor: Frac,
}

impl Scale {
    pub open spec fn wf(self) -> bool {
        self.factor.wf()
    }

    /// The scaling by `factor` about the origin.
    pub fn from(factor: Frac) -> (r: Scale)
        requires
            factor.wf(),
        ensures
            r.factor == factor,
            r.wf(),
    {
        Scale { factor }
    }

    /// One point with both coordinates multiplied by the factor.
    pub fn scaled_point(&self, p: &Point) -> (r: Result<Point, GeomError>)
        requires
            self.wf(),
            p.wf(),
        ensures
            rp_wf(rp_scale(p@, self.factor@)) ==> (r matches Ok(q) && q@ == rp_scale(
                p@,
                self.factor@,
            ) && q.wf()),
            !rp_wf(rp_scale(p@, self.factor@)) ==> r == Err::<Point, GeomError>(
                GeomError::Overflow,
            ),
    {
        p.scaled(&self.factor)
    }

    /// One path scaled point by point.
    pub fn scaled_path(&self, p: &Path) -> (r: Result<Path, GeomError>)
        requires
            self.wf(),
            p.wf(),
        ensures
            ({
                let m = Seq::new(p@.len(), |j: int| rp_scale(p@[j], self.factor@));
                &&& (forall|j: int| 0 <= j < m.len() ==> rp_wf(#[trigger] m[j])) ==> (
                r matches Ok(q) && q@ == m && q.wf())
                &&& !(forall|j: int| 0 <= j < m.len() ==> rp_wf(#[trigger] m[j])) ==> r == Err::<
                    Path,
                    GeomError,
                >(GeomError::Overflow)
            }),
    {
        let ghost m = Seq::new(p@.len(), |j: int| rp_scale(p@[j], self.factor@));
        let mut points: Vec<Point> = Vec::new();
        let mut j: usize = 0;
        while j < p.points.len()
            invariant
                j <= p.points@.len(),
                self.wf(),
                p.wf(),
                m == Seq::new(p@.len(), |k: int| rp_scale(p@[k], self.factor@)),
                points@.len() == j as int,
                forall|k: int| 0 <= k < j as int ==> #[trigger] points@[k]@ == m[k],
                forall|k: int| 0 <= k < j as int ==> rp_wf(#[trigger] m[k]),
            decreases p.points@.len() - j,
        {
            proof {
                assert(p.points@[j as int]@ == p@[j as int]);
            }
            let q = match p.points[j].scaled(&self.factor) {
                Ok(q) => q,
                Err(_) => {
                    proof {
                        assert(!rp_wf(m[j as int]));
                    }
                    return Err(GeomError::Overflow);
                },
            };
            points.push(q);
            j += 1;
        }
        let out = Path { points };
        proof {
            assert(out@ =~= m);
        }
        Ok(out)
    }

    /// The scaling applied to a whole shape.
    pub fn apply(&self, s: &Shape) -> (r: Result<Shape, GeomError>)
        requires
            self.wf(),
            s.wf(),
        ensures
            shape_wf(scale_shape_spec(s@, self.factor@)) ==> (r matches Ok(sh) && sh@
                == scale_shape_spec(s@, self.factor@) && sh.wf()),
            !shape_wf(scale_shape_spec(s@, self.factor@)) ==> r == Err::<Shape, GeomError>(
                GeomError::Overflow,
            ),
    {
        let ghost target = scale_shape_spec(s@, self.factor@);
        let mut paths: Vec<Path> = Vec::new();
        let mut i: usize = 0;
        while i < s.paths.len()
            invariant
                i <= s.paths@.len(),
                self.wf(),
                s.wf(),
                target == scale_shape_spec(s@, self.factor@),
                paths@.len() == i as int,
                forall|j: int| 0 <= j < i as int ==> #[trigger] paths@[j]@ == target[j],
                forall|a: int, b: int|
                    0 <= a < i as int && 0 <= b < target[a].len() ==> rp_wf(#[trigger] target[a][b]),
            decreases s.paths@.len() - i,
        {
            proof {
                assert(s.paths@[i as int]@ == s@[i as int]);
                assert(forall|j: int|
                    0 <= j < s@[i as int].len() ==> rp_wf(#[trigger] s@[i as int][j]));
            }
            let q = match self.scaled_path(&s.paths[i]) {
                Ok(q) => q,
                Err(_) => {
                    proof {
                        let m = Seq::new(
                            s@[i as int].len(),
                            |j: int| rp_scale(s@[i as int][j], self.factor@),
                        );
                        assert(exists|j: int| 0 <= j < m.len() && !rp_wf(#[trigger] m[j]));
                        let j = choose|j: int| 0 <= j < m.len() && !rp_wf(#[trigger] m[j]);
                        assert(target[i as int][j] == m[j]);
                        assert(!shape_wf(target));
                    }
                    return Err(GeomError::Overflow);
                },
            };
            proof {
                assert(forall|j: int|
                    0 <= j < target[i as int].len() ==> rp_wf(#[trigger] target[i as int][j]));
            }
            paths.push(q);
            i += 1;
        }
        let out = Shape { paths };
        proof {
            assert(out@ =~= target);
            assert(shape_wf(target));
        }
        Ok(out)
    }
}

/// A composite of child transformations, applied in order to a working copy.
///
/// Its `apply` deliberately returns the original input shape: the chained
/// result of the children is computed and then discarded. This surprising
/// behavior is part of the design contract and is reproduced here on
/// purpose, not smoothed over.
pub struct Nest {
    pub transformations: Vec<Transformation>,
}

impl Nest {
    /// A composite owning `transformations`, in order.
    pub fn from(transformations: Vec<Transformation>) -> (r: Nest)
        ensures
            r.transformations@ == transformations@,
    {
        Nest { transformations }
    }

    /// Returns the input shape unchanged: the children's composite result is
    /// discarded by design (see the type's documentation).
    pub fn apply(&self, s: &Shape) -> (r: Result<Shape, GeomError>)
        ensures
            r matches Ok(sh) && sh@ == s@,
    {
        Ok(s.duplicate())
    }
}

/// One geometric operation on shapes: a closed sum of the four variants,
/// dispatched by `apply`.
pub enum Transformation {
    Rotate(Rotate),
    Translate(Translate),
    Scale(Scale),
    Nest(Nest),
}

/// What applying `t` to `s` returns, for every variant. A `Nest` returns the
/// input unchanged, whatever its children hold.
pub open spec fn apply_spec(t: Transformation, s: Seq<Seq<RatPoint>>) -> Result<
    Seq<Seq<RatPoint>>,
    GeomError,
> {
    match t {
        Transformation::Rotate(rt) => rotate_apply_spec(rt, s),
        Transformation::Translate(tr) => {
            if shape_wf(translate_shape_spec(s, tr.displacement@)) {
                Ok(translate_shape_spec(s, tr.displacement@))
            } else {
                Err(GeomError::Overflow)
            }
        },
        Transformation::Scale(sc) => {
            if shape_wf(scale_shape_spec(s, sc.factor@)) {
                Ok(scale_shape_spec(s, sc.factor@))
            } else {
                Err(GeomError::Overflow)
            }
        },
        Transformation::Nest(_) => Ok(s),
    }
}

impl Transformation {
    pub open spec fn wf(self) -> bool {
        match self {
            Transformation::Rotate(rt) => rt.wf(),
            Transformation::Translate(tr) => tr.wf(),
            Transformation::Scale(sc) => sc.wf(),
            Transformation::Nest(_) => true,
        }
    }

    /// A rotation by `degrees` about the centroid of the shape it is applied
    /// to; exact only for quarter turns.
    pub fn rotate(degrees: i64) -> (r: Result<Transformation, GeomError>)
        ensures
            r matches Ok(t) ==> (t matches Transformation::Rotate(rt) && quarter_rot(
                degrees as int,
            ) == Some(rt.rotation@) && rt.around is None && t.wf()),
            quarter_rot(degrees as int) is None <==> r == Err::<Transformation, GeomError>(
                GeomError::Irrational,
            ),
            r matches Ok(_) || r == Err::<Transformation, GeomError>(GeomError::Irrational),
    {
        let rt = Rotate::from(degrees)?;
        Ok(Transformation::Rotate(rt))
    }

    /// The translation that displaces every point by exactly `(x, y)` — the
    /// net effect of moving along the direction `(x, y)` by its own length.
    /// The zero vector is refused as `DegenerateVector`.
    pub fn translate(x: Frac, y: Frac) -> (r: Result<Transformation, GeomError>)
        requires
            x.wf(),
            y.wf(),
        ensures
            x@.num == 0 && y@.num == 0 <==> r == Err::<Transformation, GeomError>(
                GeomError::DegenerateVector,
            ),
            !(x@.num == 0 && y@.num == 0) && rp_wf(rp_from(x@, y@)) ==> (
            r matches Ok(t) && t matches Transformation::Translate(tr) && tr.displacement@
                == rp_from(x@, y@) && t.wf()),
            !(x@.num == 0 && y@.num == 0) && !rp_wf(rp_from(x@, y@)) ==> r == Err::<
                Transformation,
                GeomError,
            >(GeomError::Overflow),
    {
        if x.num == 0 && y.num == 0 {
            return Err(GeomError::DegenerateVector);
        }
        match Point::from(x, y) {
            Ok(p) => Ok(Transformation::Translate(Translate { displacement: p })),
            Err(_) => Err(GeomError::Overflow),
        }
    }

    /// Applies this transformation to `s`, producing a new shape; `s` itself
    /// is never changed.
    pub fn apply(&self, s: &Shape) -> (r: Result<Shape, GeomError>)
        requires
            self.wf(),
            s.wf(),
        ensures
            apply_spec(*self, s@) matches Ok(v) ==> (r matches Ok(sh) && sh@ == v && sh.wf()),
            apply_spec(*self, s@) matches Err(e) ==> r == Err::<Shape, GeomError>(e),
    {
        match self {
            Transformation::Rotate(rt) => rt.apply(s),
            Transformation::Translate(tr) => tr.apply(s),
            Transformation::Scale(sc) => sc.apply(s),
            Transformation::Nest(n) => n.apply(s),
        }
    }
}

} // verus!
