use vstd::prelude::*;

verus! {

/// A point of the triangular lattice spanned by `e = (1, 0)` and
/// `w = (1/2, sqrt(3)/2)`: it stands for `a * e + b * w`, in lattice units.
///
/// In the plane this is `x = a + b / 2`, `y = b * sqrt(3) / 2`.
#[derive(Clone, Copy, Debug, PartialEq, Eq, Structural)]
pub struct Point {
    pub a: i64,
    pub b: i64,
}

impl View for Point {
    type V = (int, int);

    open spec fn view(&self) -> (int, int) {
        (self.a as int, self.b as int)
    }
}

/// `p + q`.
pub open spec fn plus(p: (int, int), q: (int, int)) -> (int, int) {
    (p.0 + q.0, p.1 + q.1)
}

/// `q - p`, the vector from `p` to `q`.
pub open spec fn diff(p: (int, int), q: (int, int)) -> (int, int) {
    (q.0 - p.0, q.1 - p.1)
}

/// The vector `v` rotated by 60 degrees clockwise.
///
/// Multiplying by `w^-1 = 1 - w` (using `w * w = w - 1`) maps `a + b w` to
/// `(a + b) - a w`.
pub open spec fn rotate_cw(v: (int, int)) -> (int, int) {
    (v.0 + v.1, -v.0)
}

/// A third of the vector `v` (exact where both coordinates are multiples of 3).
pub open spec fn third(v: (int, int)) -> (int, int) {
    (v.0 / 3, v.1 / 3)
}

impl Point {
    pub fn new(a: i64, b: i64) -> (r: Point)
        ensures
            r.a == a,
            r.b == b,
    {
        Point { a, b }
    }
}

} // verus!
