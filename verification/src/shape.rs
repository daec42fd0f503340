use vstd::prelude::*;

use crate::error::GeomError;
use crate::frac::{q_wf, Frac, Rat, DEN_LIMIT, NUM_LIMIT};
use crate::path::Path;
use crate::point::{lemma_mul_pos, rp_add, rp_scale, rp_wf, Point, RatPoint};
use crate::transform::{apply_spec, Transformation};

verus! {

/// Every point of every path is a well-formed rational point.
pub open spec fn shape_wf(s: Seq<Seq<RatPoint>>) -> bool {
    forall|i: int, j: int|
        0 <= i < s.len() && 0 <= j < s[i].len() ==> rp_wf(#[trigger] s[i][j])
}

/// A drawable figure: an ordered collection of independent polylines. No
/// closure or connectivity between the paths is required.
#[derive(Clone, Debug)]
pub struct Shape {
    pub paths: Vec<Path>,
}

impl View for Shape {
    type V = Seq<Seq<RatPoint>>;

    open spec fn view(&self) -> Seq<Seq<RatPoint>> {
        Seq::new(self.paths@.len(), |i: int| self.paths@[i]@)
    }
}

impl Shape {
    pub open spec fn wf(self) -> bool {
        shape_wf(self@)
    }

    /// The figure made of `paths`, in order.
    pub fn from(paths: Vec<Path>) -> (r: Shape)
        ensures
            r.paths@ == paths@,
            r@.len() == paths@.len(),
            forall|i: int| 0 <= i < paths@.len() ==> #[trigger] r@[i] == paths@[i]@,
    {
        Shape { paths }
    }

    /// A copy whose paths stand for the same coordinates.
    pub fn duplicate(&self) -> (r: Shape)
        ensures
            r@ == self@,
    {
        let mut paths: Vec<Path> = Vec::new();
        let mut i: usize = 0;
        while i < self.paths.len()
            invariant
                i <= self.paths@.len(),
                paths@.len() == i as int,
                forall|j: int| 0 <= j < i as int ==> #[trigger] paths@[j]@ == self.paths@[j]@,
            decreases self.paths@.len() - i,
        {
            let p = self.paths[i].duplicate();
            paths.push(p);
            i += 1;
        }
        let r = Shape { paths };
        proof {
            assert(r@ =~= self@);
        }
        r
    }

    /// Structural union: this shape's paths followed by `other`'s paths, in
    /// order. Nothing is deduplicated or merged.
    pub fn add(&self, other: &Shape) -> (r: Shape)
        ensures
            r@ == self@ + other@,
            r@.len() == self@.len() + other@.len(),
    {
        let mut paths: Vec<Path> = Vec::new();
        let mut i: usize = 0;
        while i < self.paths.len()
            invariant
                i <= self.paths@.len(),
                paths@.len() == i as int,
                forall|j: int| 0 <= j < i as int ==> #[trigger] paths@[j]@ == self.paths@[j]@,
            decreases self.paths@.len() - i,
        {
            let p = self.paths[i].duplicate();
            paths.push(p);
            i += 1;
        }
        let mut k: usize = 0;
        while k < other.paths.len()
            invariant
                k <= other.paths@.len(),
                paths@.len() == self.paths@.len() + k as int,
                forall|j: int|
                    0 <= j < self.paths@.len() ==> #[trigger] paths@[j]@ == self.paths@[j]@,
                forall|j: int|
                    self.paths@.len() <= j < self.paths@.len() + k as int ==> #[trigger] paths@[j]@
                        == other.paths@[j - self.paths@.len()]@,
            decreases other.paths@.len() - k,
        {
            let p = other.paths[k].duplicate();
            paths.push(p);
            k += 1;
        }
        let r = Shape { paths };
        proof {
            assert(r@ =~= self@ + other@);
        }
        r
    }
}

/// All points of a shape, path by path, in order.
pub open spec fn flat(s: Seq<Seq<RatPoint>>) -> Seq<RatPoint>
    decreases s.len(),
{
    if s.len() == 0 {
        Seq::empty()
    } else {
        flat(s.drop_last()) + s.last()
    }
}

/// Left fold of the exact vector sum over `pts`, starting from zero.
pub open spec fn sum_pts(pts: Seq<RatPoint>) -> RatPoint
    decreases pts.len(),
{
    if pts.len() == 0 {
        RatPoint { xn: 0, yn: 0, den: 1 }
    } else {
        rp_add(sum_pts(pts.drop_last()), pts.last())
    }
}

/// Every partial sum of the coordinates stays representable.
pub open spec fn center_fits(s: Seq<Seq<RatPoint>>) -> bool {
    forall|k: int| 0 <= k <= flat(s).len() ==> rp_wf(#[trigger] sum_pts(flat(s).take(k)))
}

/// The arithmetic mean of every point across every path: the summed
/// coordinates over the summed denominator times the number of points.
pub open spec fn center_spec(s: Seq<Seq<RatPoint>>) -> RatPoint {
    let sum = sum_pts(flat(s));
    RatPoint { xn: sum.xn, yn: sum.yn, den: sum.den * flat(s).len() }
}

/// Every point displaced by the vector `v`.
pub open spec fn translate_shape_spec(s: Seq<Seq<RatPoint>>, v: RatPoint) -> Seq<Seq<RatPoint>> {
    Seq::new(s.len(), |i: int| Seq::new(s[i].len(), |j: int| rp_add(s[i][j], v)))
}

/// Every coordinate multiplied by the scalar `f`.
pub open spec fn scale_shape_spec(s: Seq<Seq<RatPoint>>, f: Rat) -> Seq<Seq<RatPoint>> {
    Seq::new(s.len(), |i: int| Seq::new(s[i].len(), |j: int| rp_scale(s[i][j], f)))
}

/// Every point in the flattened list of a well-formed shape is well-formed.
pub proof fn lemma_flat_wf(s: Seq<Seq<RatPoint>>)
    requires
        shape_wf(s),
    ensures
        forall|k: int| 0 <= k < flat(s).len() ==> rp_wf(#[trigger] flat(s)[k]),
    decreases s.len(),
{
    if s.len() > 0 {
        let d = s.drop_last();
        assert(shape_wf(d)) by {
            assert forall|i: int, j: int|
                0 <= i < d.len() && 0 <= j < d[i].len() implies rp_wf(#[trigger] d[i][j]) by {
                assert(d[i] == s[i]);
            }
        }
        lemma_flat_wf(d);
        assert forall|k: int| 0 <= k < flat(s).len() implies rp_wf(#[trigger] flat(s)[k]) by {
            if k < flat(d).len() {
                assert(flat(s)[k] == flat(d)[k]);
            } else {
                assert(flat(s)[k] == s[s.len() - 1][k - flat(d).len()]);
            }
        }
    }
}

pub proof fn lemma_sum_den_pos(pts: Seq<RatPoint>)
    requires
        forall|j: int| 0 <= j < pts.len() ==> rp_wf(#[trigger] pts[j]),
    ensures
        sum_pts(pts).den >= 1,
    decreases pts.len(),
{
    if pts.len() > 0 {
        lemma_sum_den_pos(pts.drop_last());
        let a = sum_pts(pts.drop_last());
        let b = pts.last();
        if a.den != b.den {
            lemma_mul_pos(a.den, b.den);
        }
    }
}

impl Shape {
    /// The points of every path, gathered in order into one list.
    pub fn all_points(&self) -> (r: Vec<Point>)
        ensures
            r@.len() == flat(self@).len(),
            forall|k: int| 0 <= k < r@.len() ==> #[trigger] r@[k]@ == flat(self@)[k],
    {
        let mut out: Vec<Point> = Vec::new();
        let mut i: usize = 0;
        while i < self.paths.len()
            invariant
                i <= self.paths@.len(),
                out@.len() == flat(self@.take(i as int)).len(),
                forall|k: int|
                    0 <= k < out@.len() ==> #[trigger] out@[k]@ == flat(self@.take(i as int))[k],
            decreases self.paths@.len() - i,
        {
            let path = &self.paths[i];
            let ghost prefix = flat(self@.take(i as int));
            let mut j: usize = 0;
            while j < path.points.len()
                invariant
                    j <= path.points@.len(),
                    path == &self.paths@[i as int],
                    i < self.paths@.len(),
                    out@.len() == prefix.len() + j as int,
                    forall|k: int| 0 <= k < prefix.len() ==> #[trigger] out@[k]@ == prefix[k],
                    forall|k: int|
                        prefix.len() <= k < out@.len() ==> #[trigger] out@[k]@ == self@[i as int][k
                            - prefix.len()],
                decreases path.points@.len() - j,
            {
                out.push(path.points[j]);
                j += 1;
            }
            proof {
                assert(self@.take(i as int + 1).drop_last() =~= self@.take(i as int));
                assert(self@.take(i as int + 1).last() == self@[i as int]);
                assert(flat(self@.take(i as int + 1)) =~= prefix + self@[i as int]);
            }
            i += 1;
        }
        proof {
            assert(self@.take(self.paths@.len() as int) =~= self@);
        }
        out
    }

    /// The arithmetic mean of every point across every path. Fails with
    /// `DegenerateVector` on a shape with no points, and with `Overflow`
    /// when a partial coordinate sum or the mean itself leaves the
    /// representation bounds.
    pub fn center(&self) -> (r: Result<Point, GeomError>)
        requires
            self.wf(),
        ensures
            flat(self@).len() == 0 <==> r == Err::<Point, GeomError>(GeomError::DegenerateVector),
            flat(self@).len() > 0 && center_fits(self@) && rp_wf(center_spec(self@)) <==> (
            r matches Ok(c) && c@ == center_spec(self@) && c.wf()),
            flat(self@).len() > 0 && !(center_fits(self@) && rp_wf(center_spec(self@))) <==> r
                == Err::<Point, GeomError>(GeomError::Overflow),
    {
        let pts = self.all_points();
        let ghost fl = flat(self@);
        proof {
            lemma_flat_wf(self@);
        }
        let n = pts.len();
        if n == 0 {
            proof {
                assert(fl.take(0) =~= fl);
            }
            return Err(GeomError::DegenerateVector);
        }
        let mut acc = Point { xn: 0, yn: 0, den: 1 };
        let mut k: usize = 0;
        proof {
            assert(fl.take(0) =~= Seq::<RatPoint>::empty());
        }
        while k < n
            invariant
                k <= n,
                self.wf(),
                fl == flat(self@),
                n == pts@.len(),
                n == fl.len(),
                forall|j: int| 0 <= j < fl.len() ==> rp_wf(#[trigger] fl[j]),
                forall|j: int| 0 <= j < pts@.len() ==> #[trigger] pts@[j]@ == fl[j],
                acc@ == sum_pts(fl.take(k as int)),
                acc.wf(),
                forall|j: int| 0 <= j <= k as int ==> rp_wf(#[trigger] sum_pts(fl.take(j))),
            decreases n - k,
        {
            let ghost prev = fl.take(k as int);
            proof {
                assert(fl.take(k as int + 1).drop_last() =~= prev);
                assert(fl.take(k as int + 1).last() == fl[k as int]);
            }
            let stepped = match acc.translated(&pts[k]) {
                Ok(p) => p,
                Err(_) => {
                    proof {
                        assert(!rp_wf(sum_pts(flat(self@).take(k as int + 1))));
                        assert(0 <= k as int + 1 <= flat(self@).len());
                        assert(!center_fits(self@));
                    }
                    return Err(GeomError::Overflow);
                },
            };
            acc = stepped;
            k += 1;
        }
        proof {
            assert(fl.take(n as int) =~= fl);
            assert(acc@ == sum_pts(fl));
        }
        if n >= DEN_LIMIT as usize {
            proof {
                assert(center_spec(self@).den >= DEN_LIMIT as int) by (nonlinear_arith)
                    requires
                        center_spec(self@).den == sum_pts(fl).den * fl.len(),
                        sum_pts(fl).den >= 1,
                        fl.len() >= DEN_LIMIT as int;
                lemma_sum_den_pos(fl);
            }
            return Err(GeomError::Overflow);
        }
        proof {
            lemma_mul_pos(acc@.den, n as int);
            crate::frac::lemma_abs_mul_le(acc@.den, n as int, 16383, 16383);
        }
        let den = acc.den * (n as i64);
        if den >= DEN_LIMIT {
            return Err(GeomError::Overflow);
        }
        Ok(Point { xn: acc.xn, yn: acc.yn, den })
    }

    /// Every point displaced by the vector `v`. Fails with `Overflow` when
    /// some displaced point leaves the representation bounds.
    pub fn translated_by(&self, v: &Point) -> (r: Result<Shape, GeomError>)
        requires
            self.wf(),
            v.wf(),
        ensures
            shape_wf(translate_shape_spec(self@, v@)) ==> (r matches Ok(sh) && sh@
                == translate_shape_spec(self@, v@) && sh.wf()),
            !shape_wf(translate_shape_spec(self@, v@)) ==> r == Err::<Shape, GeomError>(
                GeomError::Overflow,
            ),
    {
        let ghost target = translate_shape_spec(self@, v@);
        let mut paths: Vec<Path> = Vec::new();
        let mut i: usize = 0;
        while i < self.paths.len()
            invariant
                i <= self.paths@.len(),
                self.wf(),
                v.wf(),
                target == translate_shape_spec(self@, v@),
                paths@.len() == i as int,
                forall|j: int| 0 <= j < i as int ==> #[trigger] paths@[j]@ == target[j],
                forall|a: int, b: int|
                    0 <= a < i as int && 0 <= b < target[a].len() ==> rp_wf(#[trigger] target[a][b]),
            decreases self.paths@.len() - i,
        {
            let path = &self.paths[i];
            let mut points: Vec<Point> = Vec::new();
            let mut j: usize = 0;
            while j < path.points.len()
                invariant
                    j <= path.points@.len(),
                    self.wf(),
                    v.wf(),
                    path == &self.paths@[i as int],
                    i < self.paths@.len(),
                    target == translate_shape_spec(self@, v@),
                    points@.len() == j as int,
                    forall|k: int| 0 <= k < j as int ==> #[trigger] points@[k]@ == target[i as int][k],
                    forall|a: int, b: int|
                        0 <= a < i as int && 0 <= b < target[a].len() ==> rp_wf(
                            #[trigger] target[a][b],
                        ),
                    forall|k: int| 0 <= k < j as int ==> rp_wf(#[trigger] target[i as int][k]),
                decreases path.points@.len() - j,
            {
                proof {
                    assert(path.points@[j as int]@ == self@[i as int][j as int]);
                }
                let p = match path.points[j].translated(v) {
                    Ok(p) => p,
                    Err(_) => {
                        proof {
                            assert(target[i as int][j as int] == rp_add(
                                self@[i as int][j as int],
                                v@,
                            ));
                            assert(!rp_wf(target[i as int][j as int]));
                        }
                        return Err(GeomError::Overflow);
                    },
                };
                points.push(p);
                j += 1;
            }
            let np = Path { points };
            proof {
                assert(np@ =~= target[i as int]);
            }
            paths.push(np);
            i += 1;
        }
        let r = Shape { paths };
        proof {
            assert(r@ =~= target);
            assert forall|a: int, b: int|
                0 <= a < target.len() && 0 <= b < target[a].len() implies rp_wf(
                #[trigger] target[a][b],
            ) by {}
        }
        Ok(r)
    }

    /// A copy whose centroid lands exactly on `target`: every point is
    /// displaced by `target - center()`. Fails as `center` does, and with
    /// `Overflow` when a displaced point leaves the representation bounds.
    pub fn centered_on(&self, target: &Point) -> (r: Result<Shape, GeomError>)
        requires
            self.wf(),
            target.wf(),
        ensures
            r matches Ok(sh) ==> ({
                let d = crate::point::rp_sub(target@, center_spec(self@));
                &&& flat(self@).len() > 0
                &&& center_fits(self@)
                &&& rp_wf(center_spec(self@))
                &&& rp_wf(d)
                &&& sh@ == translate_shape_spec(self@, d)
                &&& sh.wf()
            }),
            flat(self@).len() == 0 <==> r == Err::<Shape, GeomError>(GeomError::DegenerateVector),
            r == Err::<Shape, GeomError>(GeomError::Overflow) <==> (flat(self@).len() > 0 && !({
                let d = crate::point::rp_sub(target@, center_spec(self@));
                &&& center_fits(self@)
                &&& rp_wf(center_spec(self@))
                &&& rp_wf(d)
                &&& shape_wf(translate_shape_spec(self@, d))
            })),
            r matches Ok(_) || r == Err::<Shape, GeomError>(GeomError::DegenerateVector) || r
                == Err::<Shape, GeomError>(GeomError::Overflow),
    {
        let c = match self.center() {
            Ok(c) => c,
            Err(e) => {
                return Err(e);
            },
        };
        let d = match target.diff(&c) {
            Ok(d) => d,
            Err(_) => {
                return Err(GeomError::Overflow);
            },
        };
        self.translated_by(&d)
    }
}

/// The four edges of the axis-aligned square of side `side` centered at the
/// origin: corners at `(±side/2, ±side/2)`, one two-point path per edge,
/// counterclockwise from the lower-left corner.
pub open spec fn square_spec(side: Rat) -> Seq<Seq<RatPoint>> {
    let d = side.den * 2;
    let c1 = RatPoint { xn: -side.num, yn: -side.num, den: d };
    let c2 = RatPoint { xn: side.num, yn: -side.num, den: d };
    let c3 = RatPoint { xn: side.num, yn: side.num, den: d };
    let c4 = RatPoint { xn: -side.num, yn: side.num, den: d };
    seq![seq![c1, c2], seq![c2, c3], seq![c3, c4], seq![c4, c1]]
}

/// The single horizontal segment from the origin to `(length, 0)`.
pub open spec fn line_spec(length: Rat) -> Seq<Seq<RatPoint>> {
    seq![
        seq![
            RatPoint { xn: 0, yn: 0, den: 1 },
            RatPoint { xn: length.num, yn: 0, den: length.den },
        ],
    ]
}

/// The single vertical segment from the origin to `(0, length)`.
pub open spec fn vline_spec(length: Rat) -> Seq<Seq<RatPoint>> {
    seq![
        seq![
            RatPoint { xn: 0, yn: 0, den: 1 },
            RatPoint { xn: 0, yn: length.num, den: length.den },
        ],
    ]
}

/// Every transformation in the list is well-formed.
pub open spec fn list_wf(ts: Seq<Transformation>) -> bool {
    forall|i: int| 0 <= i < ts.len() ==> (#[trigger] ts[i]).wf()
}

/// The shape threaded through every transformation in order, left to right;
/// the first failure stops the chain.
pub open spec fn apply_list_spec(ts: Seq<Transformation>, s: Seq<Seq<RatPoint>>) -> Result<
    Seq<Seq<RatPoint>>,
    GeomError,
>
    decreases ts.len(),
{
    if ts.len() == 0 {
        Ok(s)
    } else {
        match apply_spec(ts.first(), s) {
            Ok(v) => apply_list_spec(ts.drop_first(), v),
            Err(e) => Err(e),
        }
    }
}

/// The transformation list a `square` or `line` call carries: an absent list
/// is the empty one.
pub open spec fn opt_list(transformations: Option<Vec<Transformation>>) -> Seq<Transformation> {
    match transformations {
        Some(ts) => ts@,
        None => Seq::empty(),
    }
}

/// The centroid of the untransformed square of any representable side is
/// exactly the origin: the corner coordinates cancel pairwise, so the
/// summed numerators are zero.
pub proof fn lemma_square_centroid(side: Rat)
    requires
        q_wf(side),
    ensures
        center_spec(square_spec(side)) == (RatPoint { xn: 0, yn: 0, den: (side.den * 2) * 8 }),
{
    let sq = square_spec(side);
    reveal_with_fuel(flat, 6);
    reveal_with_fuel(sum_pts, 10);
    let fl = flat(sq);
    let d = side.den * 2;
    let c1 = RatPoint { xn: -side.num, yn: -side.num, den: d };
    let c2 = RatPoint { xn: side.num, yn: -side.num, den: d };
    let c3 = RatPoint { xn: side.num, yn: side.num, den: d };
    let c4 = RatPoint { xn: -side.num, yn: side.num, den: d };
    assert(fl =~= seq![c1, c2, c2, c3, c3, c4, c4, c1]);
    assert(d >= 2);
    assert(sum_pts(fl) == (RatPoint { xn: 0, yn: 0, den: d })) by {
        assert(sum_pts(fl.drop_last()) == (RatPoint { xn: side.num, yn: side.num, den: d }))
            by {
            assert(fl.drop_last() =~= seq![c1, c2, c2, c3, c3, c4, c4]);
            assert(fl.drop_last().drop_last() =~= seq![c1, c2, c2, c3, c3, c4]);
            assert(fl.drop_last().drop_last().drop_last() =~= seq![c1, c2, c2, c3, c3]);
            assert(fl.drop_last().drop_last().drop_last().drop_last() =~= seq![c1, c2, c2, c3]);
            assert(fl.drop_last().drop_last().drop_last().drop_last().drop_last() =~= seq![
                c1,
                c2,
                c2,
            ]);
            assert(fl.drop_last().drop_last().drop_last().drop_last().drop_last().drop_last()
                =~= seq![c1, c2]);
            assert(fl.drop_last().drop_last().drop_last().drop_last().drop_last().drop_last().drop_last()
                =~= seq![c1]);
            assert(seq![c1].drop_last() =~= Seq::<RatPoint>::empty());
        }
    }
    assert(fl.len() == 8);
}

impl Shape {
    /// The axis-aligned square of side `side` centered at the origin, then
    /// taken through each transformation in order (an absent or empty list
    /// leaves the square as built). Fails with `Overflow` when the halved
    /// side cannot be represented, and as the transformations fail.
    pub fn square(side: Frac, transformations: Option<Vec<Transformation>>) -> (r: Result<
        Shape,
        GeomError,
    >)
        requires
            side.wf(),
            list_wf(opt_list(transformations)),
        ensures
            side@.den * 2 >= DEN_LIMIT as int ==> r == Err::<Shape, GeomError>(GeomError::Overflow),
            side@.den * 2 < DEN_LIMIT as int ==> ({
                &&& apply_list_spec(opt_list(transformations), square_spec(side@)) matches Ok(v)
                    ==> (r matches Ok(sh) && sh@ == v && sh.wf())
                &&& apply_list_spec(opt_list(transformations), square_spec(side@)) matches Err(e)
                    ==> r == Err::<Shape, GeomError>(e)
            }),
    {
        let hd = match side.den.checked_mul(2) {
            Some(hd) => hd,
            None => {
                return Err(GeomError::Overflow);
            },
        };
        if hd >= DEN_LIMIT {
            return Err(GeomError::Overflow);
        }
        let nm = side.num;
        let c1 = Point { xn: -nm, yn: -nm, den: hd };
        let c2 = Point { xn: nm, yn: -nm, den: hd };
        let c3 = Point { xn: nm, yn: nm, den: hd };
        let c4 = Point { xn: -nm, yn: nm, den: hd };
        let mut paths: Vec<Path> = Vec::new();
        paths.push(Path::line(c1, c2));
        paths.push(Path::line(c2, c3));
        paths.push(Path::line(c3, c4));
        paths.push(Path::line(c4, c1));
        let base = Shape { paths };
        proof {
            assert(base@ =~~= square_spec(side@));
        }
        Shape::apply_all(base, transformations)
    }

    /// The horizontal segment from the origin to `(length, 0)`, then taken
    /// through each transformation in order, as `square` does.
    pub fn line(length: Frac, transformations: Option<Vec<Transformation>>) -> (r: Result<
        Shape,
        GeomError,
    >)
        requires
            length.wf(),
            list_wf(opt_list(transformations)),
        ensures
            apply_list_spec(opt_list(transformations), line_spec(length@)) matches Ok(v) ==> (
            r matches Ok(sh) && sh@ == v && sh.wf()),
            apply_list_spec(opt_list(transformations), line_spec(length@)) matches Err(e) ==> r
                == Err::<Shape, GeomError>(e),
    {
        let base = Shape::horizontal_line(length);
        proof {
            assert(base@ =~~= line_spec(length@));
        }
        Shape::apply_all(base, transformations)
    }

    /// The single-path shape of the horizontal segment from the origin to
    /// `(length, 0)`.
    pub fn horizontal_line(length: Frac) -> (r: Shape)
        requires
            length.wf(),
        ensures
            r@ == line_spec(length@),
            r.wf(),
    {
        let p1 = Point { xn: 0, yn: 0, den: 1 };
        let p2 = Point { xn: length.num, yn: 0, den: length.den };
        let mut paths: Vec<Path> = Vec::new();
        paths.push(Path::line(p1, p2));
        let r = Shape { paths };
        proof {
            assert(r@ =~~= line_spec(length@));
        }
        r
    }

    /// The single-path shape of the vertical segment from the origin to
    /// `(0, length)`.
    pub fn vertical_line(length: Frac) -> (r: Shape)
        requires
            length.wf(),
        ensures
            r@ == vline_spec(length@),
            r.wf(),
    {
        let p1 = Point { xn: 0, yn: 0, den: 1 };
        let p2 = Point { xn: 0, yn: length.num, den: length.den };
        let mut paths: Vec<Path> = Vec::new();
        paths.push(Path::line(p1, p2));
        let r = Shape { paths };
        proof {
            assert(r@ =~~= vline_spec(length@));
        }
        r
    }

    /// The base shape threaded through every transformation in order.
    fn apply_all(base: Shape, transformations: Option<Vec<Transformation>>) -> (r: Result<
        Shape,
        GeomError,
    >)
        requires
            base.wf(),
            list_wf(opt_list(transformations)),
        ensures
            apply_list_spec(opt_list(transformations), base@) matches Ok(v) ==> (r matches Ok(sh)
                && sh@ == v && sh.wf()),
            apply_list_spec(opt_list(transformations), base@) matches Err(e) ==> r == Err::<
                Shape,
                GeomError,
            >(e),
    {
        let ts = match transformations {
            Some(ts) => ts,
            None => {
                return Ok(base);
            },
        };
        let ghost total = apply_list_spec(ts@, base@);
        let mut cur = base;
        let mut i: usize = 0;
        proof {
            assert(ts@.skip(0) =~= ts@);
        }
        while i < ts.len()
            invariant
                i <= ts@.len(),
                ts@ == opt_list(transformations),
                list_wf(ts@),
                cur.wf(),
                total == apply_list_spec(ts@, base@),
                total == apply_list_spec(ts@.skip(i as int), cur@),
            decreases ts@.len() - i,
        {
            proof {
                assert(ts@.skip(i as int).first() == ts@[i as int]);
                assert(ts@.skip(i as int).drop_first() =~= ts@.skip(i as int + 1));
            }
            cur = match ts[i].apply(&cur) {
                Ok(sh) => sh,
                Err(e) => {
                    return Err(e);
                },
            };
            i += 1;
        }
        proof {
            assert(ts@.skip(ts@.len() as int) =~= Seq::<Transformation>::empty());
        }
        Ok(cur)
    }
}

} // verus!
