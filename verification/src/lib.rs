pub mod error;
pub mod frac;
pub mod point;
pub mod path;
pub mod shape;
pub mod transform;
pub mod svg;

use vstd::prelude::*;

use crate::error::GeomError;
use crate::frac::{Frac, NUM_LIMIT};
use crate::shape::{apply_list_spec, square_spec, Shape};
use crate::svg::{centered_spec, renderable, svg_text};
use crate::transform::{quarter_rot, Rotate, Rotation, Transformation};
use crate::frac::Rat;
use crate::transform::Translate;

verus! {

/// Greeting line offered by the engine to its host.
pub fn gen_hello() -> (r: String)
    ensures
        r@ == "Hello from base"@,
{
    String::from_str("Hello from base")
}

/// The serialized square of side `side`, rotated by `orientation_in_degrees`
/// about its own centroid. The side must be representable and the angle a
/// quarter turn; the rest of the pipeline reports its own failures.
pub fn rotate_shape(side: i64, orientation_in_degrees: i64) -> (r: Result<String, GeomError>)
    ensures
        side <= -NUM_LIMIT || side >= NUM_LIMIT ==> r == Err::<String, GeomError>(
            GeomError::Overflow,
        ),
        -NUM_LIMIT < side < NUM_LIMIT && quarter_rot(orientation_in_degrees as int) is None ==> r
            == Err::<String, GeomError>(GeomError::Irrational),
        -NUM_LIMIT < side < NUM_LIMIT ==> (quarter_rot(orientation_in_degrees as int) matches Some(
            rr,
        ) ==> ({
            let t = Transformation::Rotate(
                Rotate {
                    around: None,
                    rotation: Rotation { cn: rr.cn as i64, sn: rr.sn as i64, den: rr.den as i64 },
                },
            );
            let chain = apply_list_spec(seq![t], square_spec(Rat { num: side as int, den: 1 }));
            &&& (chain matches Err(e) ==> r == Err::<String, GeomError>(e))
            &&& (chain matches Ok(v) ==> (r matches Ok(out) ==> out@ == svg_text(
                centered_spec(v),
            )))
            &&& (chain matches Ok(v) ==> (renderable(v) ==> r matches Ok(_)))
        })),
{
    let s = match Frac::new(side, 1) {
        Ok(s) => s,
        Err(e) => {
            return Err(e);
        },
    };
    let t = match Transformation::rotate(orientation_in_degrees) {
        Ok(t) => t,
        Err(e) => {
            return Err(e);
        },
    };
    proof {
        let d = orientation_in_degrees as int;
        if quarter_rot(d) is Some {
            let rr = quarter_rot(d)->Some_0;
            match t {
                Transformation::Rotate(rt) => {
                    assert(rt.rotation@ == rr);
                    assert(rt.rotation.cn as int == rr.cn);
                    assert(rt.rotation == (Rotation {
                        cn: rr.cn as i64,
                        sn: rr.sn as i64,
                        den: rr.den as i64,
                    }));
                    assert(t == Transformation::Rotate(
                        Rotate {
                            around: None,
                            rotation: Rotation {
                                cn: rr.cn as i64,
                                sn: rr.sn as i64,
                                den: rr.den as i64,
                            },
                        },
                    ));
                },
                _ => {
                    assert(false);
                },
            }
        }
    }
    let ghost tg = t;
    let mut ts: Vec<Transformation> = Vec::new();
    ts.push(t);
    proof {
        assert(ts@ =~= seq![tg]);
    }
    let shape = match Shape::square(s, Some(ts)) {
        Ok(sh) => sh,
        Err(e) => {
            return Err(e);
        },
    };
    shape.to_svg()
}

/// The serialized square of side `side`, displaced by the vector `(x, y)`.
/// A zero vector is refused as `DegenerateVector`.
pub fn translate_shape(side: i64, x: i64, y: i64) -> (r: Result<String, GeomError>)
    ensures
        side <= -NUM_LIMIT || side >= NUM_LIMIT ==> r == Err::<String, GeomError>(
            GeomError::Overflow,
        ),
        -NUM_LIMIT < side < NUM_LIMIT && x == 0 && y == 0 ==> r == Err::<String, GeomError>(
            GeomError::DegenerateVector,
        ),
        -NUM_LIMIT < side < NUM_LIMIT && !(x == 0 && y == 0) && (x <= -NUM_LIMIT || x >= NUM_LIMIT
            || y <= -NUM_LIMIT || y >= NUM_LIMIT) ==> r == Err::<String, GeomError>(
            GeomError::Overflow,
        ),
        -NUM_LIMIT < side < NUM_LIMIT && !(x == 0 && y == 0) && -NUM_LIMIT < x < NUM_LIMIT
            && -NUM_LIMIT < y < NUM_LIMIT ==> ({
            let t = Transformation::Translate(
                Translate { displacement: crate::point::Point { xn: x, yn: y, den: 1 } },
            );
            let chain = apply_list_spec(seq![t], square_spec(Rat { num: side as int, den: 1 }));
            &&& (chain matches Err(e) ==> r == Err::<String, GeomError>(e))
            &&& (chain matches Ok(v) ==> (r matches Ok(out) ==> out@ == svg_text(
                centered_spec(v),
            )))
            &&& (chain matches Ok(v) ==> (renderable(v) ==> r matches Ok(_)))
        }),
{
    let s = match Frac::new(side, 1) {
        Ok(s) => s,
        Err(e) => {
            return Err(e);
        },
    };
    let fx = match Frac::new(x, 1) {
        Ok(f) => f,
        Err(e) => {
            return Err(e);
        },
    };
    let fy = match Frac::new(y, 1) {
        Ok(f) => f,
        Err(e) => {
            return Err(e);
        },
    };
    let t = match Transformation::translate(fx, fy) {
        Ok(t) => t,
        Err(e) => {
            return Err(e);
        },
    };
    let mut ts: Vec<Transformation> = Vec::new();
    ts.push(t);
    let shape = match Shape::square(s, Some(ts)) {
        Ok(sh) => sh,
        Err(e) => {
            return Err(e);
        },
    };
    shape.to_svg()
}

} // verus!
