use vstd::prelude::*;
use crate::lattice::{plus, diff, rotate_cw, third, Point};
use vstd::arithmetic::div_mod::{
    lemma_div_multiples_vanish, lemma_fundamental_div_mod, lemma_mod_multiples_basic,
};

verus! {

/// The deepest subdivision level a model may reach.
pub const MAX_LEVEL: u32 = 7;

/// A third of the seed triangle's side, in lattice units.
///
/// The side is `3 * THIRD_SIDE = 3^8` units, so a segment of level `L <= MAX_LEVEL`
/// spans a multiple of `3^(8 - L)` units and every subdivision divides exactly.
pub const THIRD_SIDE: i64 = 2187;

/// `3^n`.
pub open spec fn pow3(n: nat) -> int
    decreases n,
{
    if n == 0 {
        1
    } else {
        3 * pow3((n - 1) as nat)
    }
}

/// `4^n`.
pub open spec fn pow4(n: nat) -> int
    decreases n,
{
    if n == 0 {
        1
    } else {
        4 * pow4((n - 1) as nat)
    }
}

/// The level-0 polyline: the equilateral triangle of side `3^8` centred on the
/// origin, walked bottom-left, bottom-right, apex and back to bottom-left.
pub open spec fn seed() -> Seq<(int, int)> {
    seq![(-2187int, -2187int), (4374int, -2187int), (-2187int, 4374int), (-2187int, -2187int)]
}

/// Point `k` of the subdivided polyline, for `k < 4 * (s.len() - 1)`.
///
/// Segment `i = k / 4` of `s`, from `start` to `end`, contributes `start`,
/// the point a third of the way, the tip of the outward bump and the point two
/// thirds of the way, in that order.
pub open spec fn subdivision_point(s: Seq<(int, int)>, k: int) -> (int, int) {
    let start = s[k / 4];
    let t = third(diff(start, s[k / 4 + 1]));
    let j = k % 4;
    if j == 0 {
        start
    } else if j == 1 {
        plus(start, t)
    } else if j == 2 {
        plus(plus(start, t), rotate_cw(t))
    } else {
        plus(plus(start, t), t)
    }
}

/// One Koch subdivision of the polyline `s`: every segment becomes four, and
/// the last point of `s` closes the result.
pub open spec fn refine(s: Seq<(int, int)>) -> Seq<(int, int)> {
    if s.len() == 0 {
        s
    } else {
        let m = 4 * (s.len() - 1);
        Seq::new(
            (m + 1) as nat,
            |k: int|
                if k == m {
                    s.last()
                } else {
                    subdivision_point(s, k)
                },
        )
    }
}

/// The points of `s` at indices `0, 4, 8, ...` below `s.len() - 1`, followed by
/// the last point of `s`.
pub open spec fn coarsen(s: Seq<(int, int)>) -> Seq<(int, int)> {
    if s.len() == 0 {
        s
    } else {
        let m = (s.len() + 2) / 4;
        Seq::new(
            (m + 1) as nat,
            |i: int|
                if i == m {
                    s.last()
                } else {
                    s[4 * i]
                },
        )
    }
}

/// The Koch polyline after `level` subdivisions of the seed triangle.
pub open spec fn curve(level: nat) -> Seq<(int, int)>
    decreases level,
{
    if level == 0 {
        seed()
    } else {
        refine(curve((level - 1) as nat))
    }
}

/// Subdividing keeps the first and the last point and turns `n` points into
/// `4 * (n - 1) + 1`.
pub proof fn lemma_refine_ends(s: Seq<(int, int)>)
    requires
        s.len() >= 1,
    ensures
        refine(s).len() == 4 * (s.len() - 1) + 1,
        refine(s)[0] == s[0],
        refine(s).last() == s.last(),
{
    if s.len() > 1 {
        assert(refine(s)[0] == subdivision_point(s, 0));
    }
}

/// Coarsening undoes a subdivision: keeping every fourth point of `refine(s)`
/// and its last point gives back `s` exactly.
pub proof fn lemma_coarsen_refine(s: Seq<(int, int)>)
    requires
        s.len() >= 1,
    ensures
        coarsen(refine(s)) == s,
{
    let r = refine(s);
    lemma_refine_ends(s);
    let c = coarsen(r);
    assert(c.len() == s.len());
    assert forall|i: int| 0 <= i < s.len() implies c[i] == s[i] by {
        if i < s.len() - 1 {
            assert(c[i] == r[4 * i]);
            assert(r[4 * i] == subdivision_point(s, 4 * i));
            assert((4 * i) / 4 == i && (4 * i) % 4 == 0);
        }
    }
    assert(c =~= s);
}

/// The curve of level `level` has `3 * 4^level` segments.
pub proof fn lemma_segment_count(level: nat)
    ensures
        curve(level).len() == 3 * pow4(level) + 1,
    decreases level,
{
    if level > 0 {
        lemma_segment_count((level - 1) as nat);
        lemma_refine_ends(curve((level - 1) as nat));
    }
}

/// The curve of every level is closed: its first point is its last.
pub proof fn lemma_closed(level: nat)
    ensures
        curve(level).len() >= 2,
        curve(level)[0] == curve(level).last(),
    decreases level,
{
    if level > 0 {
        lemma_closed((level - 1) as nat);
        lemma_refine_ends(curve((level - 1) as nat));
    }
}

/// `4^n` is at most `4^7` for `n <= 7`.
proof fn lemma_pow4_small(n: nat)
    requires
        n <= 7,
    ensures
        1 <= pow4(n) <= 16384,
{
    reveal_with_fuel(pow4, 8);
}

/// Coarsening the curve of level `level` gives the curve one level down.
proof fn lemma_coarsen_curve(level: nat)
    requires
        level >= 1,
    ensures
        coarsen(curve(level)) == curve((level - 1) as nat),
{
    lemma_closed((level - 1) as nat);
    lemma_coarsen_refine(curve((level - 1) as nat));
}

/// The vector of segment `i` of `s`, from point `i` to point `i + 1`.
pub open spec fn seg(s: Seq<(int, int)>, i: int) -> (int, int) {
    diff(s[i], s[i + 1])
}

/// Every coordinate of every point of `s` lies in `[-b, b]`.
pub open spec fn bounded(s: Seq<(int, int)>, b: int) -> bool {
    forall|i: int|
        0 <= i < s.len() ==> -b <= (#[trigger] s[i]).0 <= b && -b <= s[i].1 <= b
}

/// Both coordinates of every segment vector of `s` are multiples of `m`.
pub open spec fn aligned(s: Seq<(int, int)>, m: int) -> bool {
    forall|i: int|
        0 <= i < s.len() - 1 ==> (#[trigger] seg(s, i)).0 % m == 0 && seg(s, i).1 % m == 0
}

proof fn lemma_third(x: int, m: int)
    requires
        m > 0,
        x % (3 * m) == 0,
    ensures
        3 * (x / 3) == x,
        (x / 3) % m == 0,
{
    lemma_fundamental_div_mod(x, 3 * m);
    let q = x / (3 * m);
    assert(x == 3 * (m * q)) by (nonlinear_arith)
        requires
            x == (3 * m) * q + 0,
    ;
    lemma_div_multiples_vanish(m * q, 3);
    assert(m * q == q * m) by (nonlinear_arith);
    lemma_mod_multiples_basic(q, m);
}

proof fn lemma_mod_sum(x: int, y: int, m: int)
    requires
        m > 0,
        x % m == 0,
        y % m == 0,
    ensures
        (x + y) % m == 0,
        (x - y) % m == 0,
        (-x) % m == 0,
{
    lemma_fundamental_div_mod(x, m);
    lemma_fundamental_div_mod(y, m);
    let a = x / m;
    let b = y / m;
    assert(x + y == (a + b) * m && x - y == (a - b) * m && -x == (-a) * m) by (nonlinear_arith)
        requires
            x == m * a + 0,
            y == m * b + 0,
    ;
    lemma_mod_multiples_basic(a + b, m);
    lemma_mod_multiples_basic(a - b, m);
    lemma_mod_multiples_basic(-a, m);
}

/// One subdivision of a polyline whose segments are multiples of `3 * m`
/// yields segments that are multiples of `m`, and at most triples how far its
/// points reach from the origin.
proof fn lemma_refine_step(s: Seq<(int, int)>, b: int, m: int)
    requires
        s.len() >= 1,
        m > 0,
        bounded(s, b),
        aligned(s, 3 * m),
    ensures
        bounded(refine(s), 3 * b),
        aligned(refine(s), m),
{
    let r = refine(s);
    let n = s.len();
    lemma_refine_ends(s);
    assert forall|k: int| 0 <= k < r.len() implies -3 * b <= (#[trigger] r[k]).0 <= 3 * b
        && -3 * b <= r[k].1 <= 3 * b by {
        if k < 4 * (n - 1) {
            let i = k / 4;
            let v = seg(s, i);
            assert(s[i] == s[i]);
            assert(s[i + 1] == s[i + 1]);
            lemma_third(v.0, m);
            lemma_third(v.1, m);
        } else {
            assert(s[n - 1] == s[n - 1]);
        }
    }
    assert forall|k: int| 0 <= k < r.len() - 1 implies (#[trigger] seg(r, k)).0 % m == 0
        && seg(r, k).1 % m == 0 by {
        let i = k / 4;
        let j = k % 4;
        let v = seg(s, i);
        lemma_third(v.0, m);
        lemma_third(v.1, m);
        let t = third(v);
        assert(r[k] == subdivision_point(s, k));
        if j < 3 {
            assert(r[k + 1] == subdivision_point(s, k + 1));
            assert((k + 1) / 4 == i && (k + 1) % 4 == j + 1);
        } else if k + 1 == 4 * (n - 1) {
            assert(r[k + 1] == s[i + 1]);
        } else {
            assert(r[k + 1] == subdivision_point(s, k + 1));
            assert((k + 1) / 4 == i + 1 && (k + 1) % 4 == 0);
        }
        lemma_mod_sum(t.0, t.1, m);
        lemma_mod_sum(t.1, t.0, m);
        lemma_mod_sum(t.0, 0, m);
        lemma_mod_sum(t.1, 0, m);
        lemma_mod_sum(t.0 + t.1, 0, m);
    }
}

proof fn lemma_pow3_mono(a: nat, b: nat)
    requires
        a <= b,
    ensures
        1 <= pow3(a) <= pow3(b),
    decreases b,
{
    if b > 0 {
        if a < b {
            lemma_pow3_mono(a, (b - 1) as nat);
        } else {
            lemma_pow3_mono(0, (b - 1) as nat);
        }
    }
}

/// The points of the curve of level `level` stay within `3^(level + 8)` of the
/// origin in each coordinate, and its segments span multiples of `3^(8 - level)`.
proof fn lemma_curve_grid(level: nat)
    requires
        level <= MAX_LEVEL,
    ensures
        bounded(curve(level), pow3(level + 8)),
        aligned(curve(level), pow3((8 - level) as nat)),
    decreases level,
{
    if level == 0 {
        reveal_with_fuel(pow3, 9);
        let s = seed();
        assert(seg(s, 0) == (6561int, 0int));
        assert(seg(s, 1) == (-6561int, 6561int));
        assert(seg(s, 2) == (0int, -6561int));
        assert(pow3(8) == 6561);
        assert(curve(0) == s);
        assert forall|i: int| 0 <= i < s.len() - 1 implies (#[trigger] seg(s, i)).0 % 6561 == 0
            && seg(s, i).1 % 6561 == 0 by {
            assert(i == 0 || i == 1 || i == 2);
        }
    } else {
        let l = (level - 1) as nat;
        lemma_curve_grid(l);
        lemma_closed(l);
        assert(pow3((8 - l) as nat) == 3 * pow3((8 - level) as nat));
        assert(pow3(level + 8) == 3 * pow3(l + 8));
        lemma_pow3_mono(0, (8 - level) as nat);
        lemma_pow3_mono(0, l + 8);
        lemma_refine_step(curve(l), pow3(l + 8), pow3((8 - level) as nat));
    }
}

/// The Koch snowflake at a chosen level of detail.
pub struct FractalModel {
    level: u32,
    vertices: Vec<Point>,
}

impl View for FractalModel {
    type V = Seq<(int, int)>;

    closed spec fn view(&self) -> Seq<(int, int)> {
        self.vertices@.map_values(|p: Point| p@)
    }
}

/// Every well-formed model is a closed polyline of `3 * 4^level` segments whose
/// first vertex is its last.
pub proof fn lemma_model_shape(m: &FractalModel)
    requires
        m.wf(),
    ensures
        m@.len() == 3 * pow4(m.spec_level()) + 1,
        m@[0] == m@.last(),
        m@.len() >= 4,
{
    lemma_pow4_small(m.spec_level());
    lemma_segment_count(m.spec_level());
    lemma_closed(m.spec_level());
}

/// Below `MAX_LEVEL` every segment of a well-formed model spans a multiple of 3
/// in each coordinate, so the thirds that a subdivision takes are exact.
pub proof fn lemma_exact_thirds(m: &FractalModel)
    requires
        m.wf(),
        m.spec_level() < MAX_LEVEL,
    ensures
        forall|i: int|
            0 <= i < m@.len() - 1 ==> 3 * ((#[trigger] seg(m@, i)).0 / 3) == seg(m@, i).0
                && 3 * (seg(m@, i).1 / 3) == seg(m@, i).1,
{
    let level = m.spec_level();
    lemma_curve_grid(level);
    let k = pow3((7 - level) as nat);
    lemma_pow3_mono(0, (7 - level) as nat);
    assert(pow3((8 - level) as nat) == 3 * k);
    assert forall|i: int| 0 <= i < m@.len() - 1 implies 3 * ((#[trigger] seg(m@, i)).0 / 3) == seg(m@, i).0
        && 3 * (seg(m@, i).1 / 3) == seg(m@, i).1 by {
        lemma_third(seg(m@, i).0, k);
        lemma_third(seg(m@, i).1, k);
    }
}

impl FractalModel {
    /// The current subdivision level.
    pub closed spec fn spec_level(&self) -> nat {
        self.level as nat
    }

    /// The level is in range and the vertices are exactly the curve of that level.
    pub open spec fn wf(&self) -> bool {
        &&& self.spec_level() <= MAX_LEVEL
        &&& self@ == curve(self.spec_level())
    }

    /// The seed triangle, at level 0.
    pub fn new_triangle() -> (r: FractalModel)
        ensures
            r.wf(),
            r.spec_level() == 0,
            r@ == seed(),
    {
        let bottom_left = Point::new(-THIRD_SIDE, -THIRD_SIDE);
        let bottom_right = Point::new(2 * THIRD_SIDE, -THIRD_SIDE);
        let apex = Point::new(-THIRD_SIDE, 2 * THIRD_SIDE);
        let vertices = vec![bottom_left, bottom_right, apex, bottom_left];
        let r = FractalModel { level: 0, vertices };
        assert(r@ =~= seed());
        r
    }

    /// Returns to the previous level by keeping every fourth vertex and the
    /// last one; at level 0 nothing changes. Returns whether the model changed.
    pub fn level_down(&mut self) -> (changed: bool)
        requires
            old(self).wf(),
        ensures
            final(self).wf(),
            changed == (old(self).spec_level() > 0),
            changed ==> final(self).spec_level() == old(self).spec_level() - 1,
            changed ==> final(self)@ == coarsen(old(self)@),
            !changed ==> final(self).spec_level() == old(self).spec_level(),
            !changed ==> final(self)@ == old(self)@,
    {
        if self.level == 0 {
            return false;
        }
        let ghost s = self@;
        proof {
            lemma_segment_count(self.spec_level());
            lemma_pow4_small(self.spec_level());
            lemma_coarsen_curve(self.spec_level());
        }
        let n = self.vertices.len();
        let mut out: Vec<Point> = Vec::new();
        let mut i: usize = 0;
        while i < n - 1
            invariant
                s == self@,
                n == self.vertices.len(),
                2 <= n <= 49153,
                i % 4 == 0,
                i < n + 3,
                out.len() == i / 4,
                forall|k: int| 0 <= k < out.len() ==> #[trigger] out@[k]@ == s[4 * k],
            decreases n + 3 - i,
        {
            out.push(self.vertices[i]);
            i = i + 4;
        }
        out.push(self.vertices[n - 1]);
        let ghost c = coarsen(s);
        assert(out.len() == c.len());
        assert(out@.map_values(|p: Point| p@) =~= c);
        self.vertices = out;
        self.level = self.level - 1;
        true
    }

    /// Subdivides every segment once, moving to the next level; at
    /// `MAX_LEVEL` nothing changes. Returns whether the model changed.
    pub fn level_up(&mut self) -> (changed: bool)
        requires
            old(self).wf(),
        ensures
            final(self).wf(),
            changed == (old(self).spec_level() < MAX_LEVEL),
            changed ==> final(self).spec_level() == old(self).spec_level() + 1,
            changed ==> final(self)@ == refine(old(self)@),
            !changed ==> final(self).spec_level() == old(self).spec_level(),
            !changed ==> final(self)@ == old(self)@,
    {
        if self.level >= MAX_LEVEL {
            return false;
        }
        let ghost s = self@;
        let ghost level = self.spec_level();
        let ghost m = pow3((7 - level) as nat);
        proof {
            lemma_segment_count(level);
            lemma_pow4_small(level);
            lemma_curve_grid(level);
            lemma_pow3_mono(0, (7 - level) as nat);
            lemma_pow3_mono(level + 8, 14);
            reveal_with_fuel(pow3, 15);
            assert(pow3((8 - level) as nat) == 3 * m);
        }
        let n = self.vertices.len();
        let mut out: Vec<Point> = Vec::new();
        let mut i: usize = 0;
        while i < n - 1
            invariant
                s == self@,
                n == self.vertices.len(),
                n == s.len(),
                2 <= n <= 49153,
                m > 0,
                bounded(s, 4782969),
                aligned(s, 3 * m),
                i < n,
                out.len() == 4 * i,
                forall|k: int| 0 <= k < out.len() ==> #[trigger] out@[k]@ == refine(s)[k],
            decreases n - i,
        {
            let start = self.vertices[i];
            let end = self.vertices[i + 1];
            proof {
                assert(s[i as int] == start@);
                assert(s[i + 1] == end@);
                assert(seg(s, i as int) == diff(start@, end@));
                lemma_third(end.a - start.a, m);
                lemma_third(end.b - start.b, m);
            }
            let ta = (end.a - start.a) / 3;
            let tb = (end.b - start.b) / 3;
            let left = Point::new(start.a + ta, start.b + tb);
            let peak = Point::new(left.a + (ta + tb), left.b - ta);
            let right = Point::new(left.a + ta, left.b + tb);
            proof {
                let k = 4 * i as int;
                assert(k / 4 == i && k % 4 == 0);
                assert((k + 1) / 4 == i && (k + 1) % 4 == 1);
                assert((k + 2) / 4 == i && (k + 2) % 4 == 2);
                assert((k + 3) / 4 == i && (k + 3) % 4 == 3);
            }
            out.push(start);
            out.push(left);
            out.push(peak);
            out.push(right);
            i = i + 1;
        }
        out.push(self.vertices[n - 1]);
        proof {
            lemma_refine_ends(s);
            assert(out@.map_values(|p: Point| p@) =~= refine(s));
        }
        self.vertices = out;
        self.level = self.level + 1;
        true
    }

    /// The current subdivision level.
    pub fn level(&self) -> (r: u32)
        ensures
            r == self.spec_level(),
    {
        self.level
    }

    /// The deepest level this model can reach.
    pub fn max_level(&self) -> (r: u32)
        ensures
            r == MAX_LEVEL,
    {
        MAX_LEVEL
    }

    /// The vertices of the closed polyline, in order.
    pub fn vertices(&self) -> (r: &Vec<Point>)
        ensures
            r@.map_values(|p: Point| p@) == self@,
    {
        &self.vertices
    }

    /// The segments of the polyline, each as its start and end vertex.
    pub fn segments(&self) -> (r: Vec<(Point, Point)>)
        requires
            self.wf(),
        ensures
            r.len() == self@.len() - 1,
            forall|i: int|
                0 <= i < r.len() ==> (#[trigger] r@[i]).0@ == self@[i] && r@[i].1@ == self@[i + 1],
    {
        proof {
            lemma_model_shape(self);
        }
        let n = self.vertices.len();
        let mut r: Vec<(Point, Point)> = Vec::new();
        let mut i: usize = 0;
        while i + 1 < n
            invariant
                n == self.vertices.len(),
                n == self@.len(),
                n >= 2,
                i < n,
                r.len() == i,
                forall|k: int|
                    0 <= k < r.len() ==> (#[trigger] r@[k]).0@ == self@[k] && r@[k].1@ == self@[k
                        + 1],
            decreases n - i,
        {
            r.push((self.vertices[i], self.vertices[i + 1]));
            i = i + 1;
        }
        r
    }
}

} // verus!
