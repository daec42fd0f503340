use vstd::prelude::*;

use crate::point::{rp_wf, Point, RatPoint};

verus! {

/// An ordered polyline: the connected sequence of line segments through its
/// points in order. Paths of zero or one points are representable; they only
/// degenerate at serialization.
#[derive(Clone, Debug)]
pub struct Path {
    pub points: Vec<Point>,
}

impl View for Path {
    type V = Seq<RatPoint>;

    open spec fn view(&self) -> Seq<RatPoint> {
        Seq::new(self.points@.len(), |i: int| self.points@[i]@)
    }
}

impl Path {
    pub open spec fn wf(self) -> bool {
        forall|i: int| 0 <= i < self@.len() ==> rp_wf(#[trigger] self@[i])
    }

    /// The polyline through `points`, in order.
    pub fn from(points: Vec<Point>) -> (r: Path)
        ensures
            r.points@ == points@,
            r@.len() == points@.len(),
            forall|i: int| 0 <= i < points@.len() ==> #[trigger] r@[i] == points@[i]@,
    {
        Path { points }
    }

    /// The two-point polyline from `p1` to `p2`.
    pub fn line(p1: Point, p2: Point) -> (r: Path)
        ensures
            r@.len() == 2,
            r@[0] == p1@,
            r@[1] == p2@,
    {
        let mut points: Vec<Point> = Vec::new();
        points.push(p1);
        points.push(p2);
        Path { points }
    }

    /// A copy whose points stand for the same coordinates.
    pub fn duplicate(&self) -> (r: Path)
        ensures
            r@ == self@,
    {
        let mut points: Vec<Point> = Vec::new();
        let mut i: usize = 0;
        while i < self.points.len()
            invariant
                i <= self.points@.len(),
                points@.len() == i as int,
                forall|j: int| 0 <= j < i as int ==> points@[j] == self.points@[j],
            decreases self.points@.len() - i,
        {
            points.push(self.points[i]);
            i += 1;
        }
        proof {
            assert(points@ =~= self.points@);
        }
        Path { points }
    }
}

} // verus!
