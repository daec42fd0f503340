use vstd::prelude::*;

use crate::error::GeomError;
use crate::frac::{DEN_LIMIT, NUM_LIMIT};
use crate::point::{rp_sub, rp_wf, Point, RatPoint};
use crate::shape::{center_fits, center_spec, flat, shape_wf, translate_shape_spec, Shape};
use vstd::arithmetic::div_mod::lemma_fundamental_div_mod;

verus! {

/// The decimal digit character for `d` in `0 ..= 9`.
pub open spec fn digit_char(d: int) -> char {
    if d == 0 {
        '0'
    } else if d == 1 {
        '1'
    } else if d == 2 {
        '2'
    } else if d == 3 {
        '3'
    } else if d == 4 {
        '4'
    } else if d == 5 {
        '5'
    } else if d == 6 {
        '6'
    } else if d == 7 {
        '7'
    } else if d == 8 {
        '8'
    } else {
        '9'
    }
}

/// The decimal digits of `n`, most significant first.
pub open spec fn dec_nat(n: nat) -> Seq<char>
    decreases n,
{
    if n < 10 {
        seq![digit_char(n as int)]
    } else {
        dec_nat(n / 10).push(digit_char((n % 10) as int))
    }
}

/// Whether the long division of `r / d` terminates within `fuel` more
/// decimal digits.
pub open spec fn frac_digits_ok(r: int, d: int, fuel: nat) -> bool
    decreases fuel,
{
    if r == 0 {
        true
    } else if fuel == 0 {
        false
    } else {
        frac_digits_ok((r * 10) % d, d, (fuel - 1) as nat)
    }
}

/// The decimal digits of the fraction `r / d` after the point, by long
/// division, up to `fuel` digits.
pub open spec fn frac_digits_val(r: int, d: int, fuel: nat) -> Seq<char>
    decreases fuel,
{
    if r == 0 || fuel == 0 {
        Seq::empty()
    } else {
        seq![digit_char((r * 10) / d)] + frac_digits_val((r * 10) % d, d, (fuel - 1) as nat)
    }
}

/// Whether `n / d` has a finite decimal form of at most sixteen fractional
/// digits.
pub open spec fn frac_text_ok(n: int, d: int) -> bool {
    frac_digits_ok((if n < 0 { -n } else { n }) % d, d, 16)
}

/// The exact decimal text of `n / d`: an optional minus sign, the whole
/// part, and the fractional digits after a point when there are any.
pub open spec fn frac_text_val(n: int, d: int) -> Seq<char> {
    let un = if n < 0 { -n } else { n };
    let sign: Seq<char> = if n < 0 { seq!['-'] } else { Seq::empty() };
    let ds = frac_digits_val(un % d, d, 16);
    sign + dec_nat((un / d) as nat) + (if ds.len() == 0 { Seq::<char>::empty() } else { seq!['.'] + ds })
}

/// Both coordinates of `p` have finite decimal text.
pub open spec fn coord_ok(p: RatPoint) -> bool {
    &&& frac_text_ok(p.xn, p.den)
    &&& frac_text_ok(p.yn, p.den)
}

pub open spec fn svg_ok(s: Seq<Seq<RatPoint>>) -> bool {
    forall|i: int, j: int|
        0 <= i < s.len() && 0 <= j < s[i].len() ==> coord_ok(#[trigger] s[i][j])
}

/// The `L x y ` draw instructions for every point of `pts`, in order.
pub open spec fn lines_text(pts: Seq<RatPoint>) -> Seq<char>
    decreases pts.len(),
{
    if pts.len() == 0 {
        Seq::empty()
    } else {
        lines_text(pts.drop_last()) + "L"@ + frac_text_val(pts.last().xn, pts.last().den) + " "@
            + frac_text_val(pts.last().yn, pts.last().den) + " "@
    }
}

/// One `<path>` element: move to the first point, a line to each following
/// point, then close, stroke-only styling.
pub open spec fn path_text(pts: Seq<RatPoint>) -> Seq<char> {
    "<path d=\""@ + "M"@ + frac_text_val(pts[0].xn, pts[0].den) + " "@ + frac_text_val(
        pts[0].yn,
        pts[0].den,
    ) + " "@ + lines_text(pts.skip(1)) + "Z\" style=\"fill:none;stroke:black;stroke-width:2\"/>"@
}

/// The `<path>` elements of every path, in order.
pub open spec fn paths_text(s: Seq<Seq<RatPoint>>) -> Seq<char>
    decreases s.len(),
{
    if s.len() == 0 {
        Seq::empty()
    } else {
        paths_text(s.drop_last()) + path_text(s.last())
    }
}

/// The whole document: fixed 200 by 200 viewport, one path element per
/// path.
pub open spec fn svg_text(s: Seq<Seq<RatPoint>>) -> Seq<char> {
    "<svg width=\"200\" height=\"200\" xmlns=\"http://www.w3.org/2000/svg\">"@ + paths_text(s)
        + "</svg>"@
}

/// The shape as the serializer draws it: displaced so that its centroid
/// lands on the viewport's center `(100, 100)`.
pub open spec fn centered_spec(s: Seq<Seq<RatPoint>>) -> Seq<Seq<RatPoint>> {
    translate_shape_spec(s, rp_sub(RatPoint { xn: 100, yn: 100, den: 1 }, center_spec(s)))
}

/// When serialization is owed to succeed: the shape has points and no empty
/// path, the centering arithmetic stays within the representation bounds,
/// and every centered coordinate has finite decimal text.
pub open spec fn renderable(s: Seq<Seq<RatPoint>>) -> bool {
    let c = centered_spec(s);
    let d = rp_sub(RatPoint { xn: 100, yn: 100, den: 1 }, center_spec(s));
    &&& flat(s).len() > 0
    &&& center_fits(s)
    &&& rp_wf(center_spec(s))
    &&& rp_wf(d)
    &&& shape_wf(c)
    &&& (forall|i: int| 0 <= i < s.len() ==> (#[trigger] s[i]).len() > 0)
    &&& svg_ok(c)
}

/// The character for one decimal digit.
fn digit_str(d: u64) -> (r: &'static str)
    requires
        d < 10,
    ensures
        r@ == seq![digit_char(d as int)],
{
    proof {
        reveal_strlit("0");
        reveal_strlit("1");
        reveal_strlit("2");
        reveal_strlit("3");
        reveal_strlit("4");
        reveal_strlit("5");
        reveal_strlit("6");
        reveal_strlit("7");
        reveal_strlit("8");
        reveal_strlit("9");
    }
    let r = if d == 0 {
        "0"
    } else if d == 1 {
        "1"
    } else if d == 2 {
        "2"
    } else if d == 3 {
        "3"
    } else if d == 4 {
        "4"
    } else if d == 5 {
        "5"
    } else if d == 6 {
        "6"
    } else if d == 7 {
        "7"
    } else if d == 8 {
        "8"
    } else {
        "9"
    };
    proof {
        assert(r@ =~= seq![digit_char(d as int)]);
    }
    r
}

/// The decimal text of `n`.
fn u64_dec(n: u64) -> (r: String)
    ensures
        r@ == dec_nat(n as nat),
    decreases n,
{
    if n < 10 {
        String::from_str(digit_str(n))
    } else {
        let mut s = u64_dec(n / 10);
        s.append(digit_str(n % 10));
        proof {
            assert(s@ =~= dec_nat(n as nat));
        }
        s
    }
}

/// The exact decimal text of `num / den`, or `Irrational` when the fraction
/// has no finite decimal form of at most sixteen digits.
fn frac_str(num: i64, den: i64) -> (r: Result<String, GeomError>)
    requires
        0 < den < DEN_LIMIT,
        -NUM_LIMIT < num < NUM_LIMIT,
    ensures
        frac_text_ok(num as int, den as int) ==> (r matches Ok(s) && s@ == frac_text_val(
            num as int,
            den as int,
        )),
        !frac_text_ok(num as int, den as int) ==> r == Err::<String, GeomError>(
            GeomError::Irrational,
        ),
{
    let neg = num < 0;
    let un: u64 = if num < 0 {
        (-num) as u64
    } else {
        num as u64
    };
    let d: u64 = den as u64;
    let q = un / d;
    let r0 = un % d;
    let mut digits = String::new();
    let mut rr = r0;
    let mut fuel: u64 = 16;
    while rr != 0 && fuel > 0
        invariant
            0 < d < DEN_LIMIT as u64,
            rr < d,
            fuel <= 16,
            frac_digits_ok(r0 as int, d as int, 16) == frac_digits_ok(
                rr as int,
                d as int,
                fuel as nat,
            ),
            frac_digits_val(r0 as int, d as int, 16) == digits@ + frac_digits_val(
                rr as int,
                d as int,
                fuel as nat,
            ),
        decreases fuel,
    {
        let t = rr * 10;
        let dig = t / d;
        proof {
            lemma_fundamental_div_mod(t as int, d as int);
            assert(dig < 10) by (nonlinear_arith)
                requires
                    (d as int) * ((t as int) / (d as int)) + (t as int) % (d as int) == (
                    t as int),
                    (t as int) % (d as int) >= 0,
                    (t as int) < 10 * (d as int),
                    (d as int) > 0,
                    (dig as int) == (t as int) / (d as int);
        }
        digits.append(digit_str(dig));
        rr = t % d;
        fuel = fuel - 1;
        proof {
            assert(digits@ + frac_digits_val(rr as int, d as int, fuel as nat) =~= frac_digits_val(
                r0 as int,
                d as int,
                16,
            ));
        }
    }
    if rr != 0 {
        return Err(GeomError::Irrational);
    }
    let mut out = String::new();
    if neg {
        out.append("-");
    }
    let whole = u64_dec(q);
    out.append(whole.as_str());
    if digits.unicode_len() > 0 {
        out.append(".");
        out.append(digits.as_str());
    }
    proof {
        reveal_strlit("-");
        reveal_strlit(".");
        assert("-"@ =~= seq!['-']);
        assert("."@ =~= seq!['.']);
        assert(out@ =~= frac_text_val(num as int, den as int));
    }
    Ok(out)
}

impl Shape {
    /// The scalable-vector-graphics document of this shape: a fixed 200 by
    /// 200 viewport, the shape displaced so its centroid lands on the
    /// viewport center, one stroke-only path element per path. Fails with
    /// `DegenerateVector` on a shape with no points, `EmptyPath` on a path
    /// with no points, `Overflow` when the centering arithmetic leaves the
    /// representation bounds, and `Irrational` when a coordinate has no
    /// finite decimal form.
    #[verifier::rlimit(100)]
    pub fn to_svg(&self) -> (r: Result<String, GeomError>)
        requires
            self.wf(),
        ensures
            flat(self@).len() == 0 <==> r == Err::<String, GeomError>(GeomError::DegenerateVector),
            r matches Ok(out) ==> ({
                let c = centered_spec(self@);
                &&& center_fits(self@)
                &&& rp_wf(center_spec(self@))
                &&& shape_wf(c)
                &&& forall|i: int| 0 <= i < self@.len() ==> (#[trigger] self@[i]).len() > 0
                &&& svg_ok(c)
                &&& out@ == svg_text(c)
            }),
            r == Err::<String, GeomError>(GeomError::EmptyPath) ==> (exists|i: int|
                0 <= i < self@.len() && (#[trigger] self@[i]).len() == 0),
            renderable(self@) ==> r matches Ok(_),
            ({
                let c = centered_spec(self@);
                &&& flat(self@).len() > 0
                &&& center_fits(self@)
                &&& rp_wf(center_spec(self@))
                &&& rp_wf(rp_sub(RatPoint { xn: 100, yn: 100, den: 1 }, center_spec(self@)))
                &&& shape_wf(c)
                &&& svg_ok(c)
                &&& (exists|i: int| 0 <= i < self@.len() && (#[trigger] self@[i]).len() == 0)
            }) ==> r == Err::<String, GeomError>(GeomError::EmptyPath),
    {
        let target = Point { xn: 100, yn: 100, den: 1 };
        let centered = match self.centered_on(&target) {
            Ok(c) => c,
            Err(e) => {
                return Err(e);
            },
        };
        let ghost c = centered_spec(self@);
        proof {
            assert(centered@ == c);
        }
        let mut out = String::from_str("<svg width=\"200\" height=\"200\" xmlns=\"http://www.w3.org/2000/svg\">");
        let mut i: usize = 0;
        proof {
            assert(c.take(0) =~= Seq::<Seq<RatPoint>>::empty());
        }
        while i < centered.paths.len()
            invariant
                i <= centered.paths@.len(),
                flat(self@).len() > 0,
                centered@ == c,
                c == centered_spec(self@),
                centered.wf(),
                self@.len() == c.len(),
                forall|k: int| 0 <= k < c.len() ==> (#[trigger] c[k]).len() == self@[k].len(),
                forall|k: int| 0 <= k < i as int ==> (#[trigger] c[k]).len() > 0,
                forall|k: int, j: int|
                    0 <= k < i as int && 0 <= j < c[k].len() ==> coord_ok(#[trigger] c[k][j]),
                out@ == "<svg width=\"200\" height=\"200\" xmlns=\"http://www.w3.org/2000/svg\">"@
                    + paths_text(c.take(i as int)),
            decreases centered.paths@.len() - i,
        {
            let path = &centered.paths[i];
            proof {
                assert(path@ == c[i as int]);
            }
            if path.points.len() == 0 {
                proof {
                    assert(self@[i as int].len() == 0);
                }
                return Err(GeomError::EmptyPath);
            }
            out.append("<path d=\"");
            out.append("M");
            let p0 = &path.points[0];
            proof {
                assert(p0@ == c[i as int][0]);
                assert(rp_wf(p0@));
            }
            let xs = match frac_str(p0.xn, p0.den) {
                Ok(s) => s,
                Err(_) => {
                    proof {
                        assert(!coord_ok(c[i as int][0]));
                        assert(!svg_ok(c));
                    }
                    return Err(GeomError::Irrational);
                },
            };
            out.append(xs.as_str());
            out.append(" ");
            let ys = match frac_str(p0.yn, p0.den) {
                Ok(s) => s,
                Err(_) => {
                    proof {
                        assert(!coord_ok(c[i as int][0]));
                        assert(!svg_ok(c));
                    }
                    return Err(GeomError::Irrational);
                },
            };
            out.append(ys.as_str());
            out.append(" ");
            let ghost rest = c[i as int].skip(1);
            let mut j: usize = 1;
            while j < path.points.len()
                invariant
                    1 <= j <= path.points@.len(),
                    flat(self@).len() > 0,
                    centered@ == c,
                    c == centered_spec(self@),
                    centered.wf(),
                    i < centered.paths@.len(),
                    path == &centered.paths@[i as int],
                    path@ == c[i as int],
                    path.points@.len() == c[i as int].len(),
                    rest == c[i as int].skip(1),
                    forall|k: int|
                        0 <= k < j as int ==> coord_ok(#[trigger] c[i as int][k]),
                    out@ == "<svg width=\"200\" height=\"200\" xmlns=\"http://www.w3.org/2000/svg\">"@
                        + paths_text(c.take(i as int)) + "<path d=\""@ + "M"@ + frac_text_val(
                        c[i as int][0].xn,
                        c[i as int][0].den,
                    ) + " "@ + frac_text_val(c[i as int][0].yn, c[i as int][0].den) + " "@
                        + lines_text(rest.take(j as int - 1)),
                decreases path.points@.len() - j,
            {
                let p = &path.points[j];
                proof {
                    assert(p@ == c[i as int][j as int]);
                    assert(rp_wf(p@));
                    assert(rest.take(j as int).drop_last() =~= rest.take(j as int - 1));
                    assert(rest.take(j as int).last() == c[i as int][j as int]);
                }
                out.append("L");
                let xs = match frac_str(p.xn, p.den) {
                    Ok(s) => s,
                    Err(_) => {
                        proof {
                            assert(!coord_ok(c[i as int][j as int]));
                            assert(!svg_ok(c));
                        }
                        return Err(GeomError::Irrational);
                    },
                };
                out.append(xs.as_str());
                out.append(" ");
                let ys = match frac_str(p.yn, p.den) {
                    Ok(s) => s,
                    Err(_) => {
                        proof {
                            assert(!coord_ok(c[i as int][j as int]));
                            assert(!svg_ok(c));
                        }
                        return Err(GeomError::Irrational);
                    },
                };
                out.append(ys.as_str());
                out.append(" ");
                j += 1;
            }
            out.append("Z\" style=\"fill:none;stroke:black;stroke-width:2\"/>");
            proof {
                assert(rest.take(path.points@.len() - 1) =~= rest);
                assert(out@ =~= "<svg width=\"200\" height=\"200\" xmlns=\"http://www.w3.org/2000/svg\">"@
                    + paths_text(c.take(i as int)) + path_text(c[i as int]));
                assert(c.take(i as int + 1).drop_last() =~= c.take(i as int));
                assert(c.take(i as int + 1).last() == c[i as int]);
            }
            i += 1;
        }
        out.append("</svg>");
        proof {
            assert(c.take(c.len() as int) =~= c);
            assert(out@ =~= svg_text(c));
            assert(center_fits(self@));
            assert(rp_wf(center_spec(self@)));
            assert(shape_wf(c));
            assert forall|k: int| 0 <= k < self@.len() implies (#[trigger] self@[k]).len()
                > 0 by {
                assert(c[k].len() > 0);
                assert(c[k].len() == self@[k].len());
            }
            assert(svg_ok(c));
        }
        Ok(out)
    }
}

} // verus!
