use vstd::prelude::*;

verus! {

/// How many zoom steps the camera may take away from its starting size, in
/// either direction. At `1.1^1000` the visible span stays finite and positive
/// in double precision, which an unbounded zoom would not.
pub const MAX_ZOOM_STEPS: i32 = 1000;

/// A direction in which the view is moved.
#[derive(Clone, Copy, Debug, PartialEq, Eq, Structural)]
pub enum Direction {
    Up,
    Down,
    Left,
    Right,
}

/// The change of the centre, in pan steps, that one move in `d` makes.
pub open spec fn step_of(d: Direction) -> (int, int) {
    match d {
        Direction::Up => (0, -1),
        Direction::Down => (0, 1),
        Direction::Left => (-1, 0),
        Direction::Right => (1, 0),
    }
}

/// The pan steps `o` after one more move in `d`.
pub open spec fn moved(o: (int, int), d: Direction) -> (int, int) {
    (o.0 + step_of(d).0, o.1 + step_of(d).1)
}

/// The zoom exponent after one step in: the visible span shrinks by a factor
/// `1.1`, unless the exponent is already at its lower limit.
pub open spec fn zoomed_in(z: int) -> int {
    if z > -MAX_ZOOM_STEPS {
        z - 1
    } else {
        z
    }
}

/// The zoom exponent after one step out: the visible span grows by a factor
/// `1.1`, unless the exponent is already at its upper limit.
pub open spec fn zoomed_out(z: int) -> int {
    if z < MAX_ZOOM_STEPS {
        z + 1
    } else {
        z
    }
}

/// The pan moves made while the zoom exponent was `exponent`, counted in steps
/// along each axis.
#[derive(Clone, Copy, Debug, PartialEq, Eq, Structural)]
pub struct PanTerm {
    pub exponent: i32,
    pub dx: i64,
    pub dy: i64,
}

/// The steps recorded in `t` for the exponent `e`, or none.
spec fn offset_in(t: Seq<PanTerm>, e: int) -> (int, int) {
    if exists|i: int| 0 <= i < t.len() && (#[trigger] t[i]).exponent == e {
        let i = choose|i: int| 0 <= i < t.len() && (#[trigger] t[i]).exponent == e;
        (t[i].dx as int, t[i].dy as int)
    } else {
        (0, 0)
    }
}

/// The pan and zoom state of the view, held exactly.
///
/// With the zoom exponent `z`, the visible span is `2 * 1.1^z` model units and
/// one pan step is 5% of it, `0.1 * 1.1^z`. The centre is the sum, over all
/// exponents `e`, of `0.1 * 1.1^e` times the steps taken at exponent `e`.
pub struct ViewCamera {
    zoom: i32,
    terms: Vec<PanTerm>,
}

impl ViewCamera {
    /// The zoom exponent.
    pub closed spec fn spec_zoom(&self) -> int {
        self.zoom as int
    }

    /// The pan steps taken, along each axis, while the zoom exponent was `e`.
    pub closed spec fn offset(&self, e: int) -> (int, int) {
        offset_in(self.terms@, e)
    }

    /// The zoom exponent is within its limits and each exponent is recorded once.
    pub closed spec fn wf(&self) -> bool {
        &&& -MAX_ZOOM_STEPS <= self.zoom <= MAX_ZOOM_STEPS
        &&& forall|i: int, j: int|
            0 <= i < j < self.terms.len() ==> (#[trigger] self.terms@[i]).exponent
                != (#[trigger] self.terms@[j]).exponent
    }

    /// The camera centred on the origin, showing a span of 2 model units.
    pub fn new() -> (r: ViewCamera)
        ensures
            r.wf(),
            r.spec_zoom() == 0,
            forall|e: int| r.offset(e) == (0int, 0int),
    {
        ViewCamera { zoom: 0, terms: Vec::new() }
    }

    /// Shrinks the visible span by a factor `1.1`; at the lower zoom limit
    /// nothing changes. Returns whether the camera changed.
    pub fn zoom_in(&mut self) -> (changed: bool)
        requires
            old(self).wf(),
        ensures
            final(self).wf(),
            changed == (old(self).spec_zoom() > -MAX_ZOOM_STEPS),
            final(self).spec_zoom() == zoomed_in(old(self).spec_zoom()),
            forall|e: int| final(self).offset(e) == old(self).offset(e),
    {
        if self.zoom > -MAX_ZOOM_STEPS {
            self.zoom = self.zoom - 1;
            true
        } else {
            false
        }
    }

    /// Grows the visible span by a factor `1.1`; at the upper zoom limit
    /// nothing changes. Returns whether the camera changed.
    pub fn zoom_out(&mut self) -> (changed: bool)
        requires
            old(self).wf(),
        ensures
            final(self).wf(),
            changed == (old(self).spec_zoom() < MAX_ZOOM_STEPS),
            final(self).spec_zoom() == zoomed_out(old(self).spec_zoom()),
            forall|e: int| final(self).offset(e) == old(self).offset(e),
    {
        if self.zoom < MAX_ZOOM_STEPS {
            self.zoom = self.zoom + 1;
            true
        } else {
            false
        }
    }

    /// Moves the centre one pan step, 5% of the visible span, in `d`.
    ///
    /// The steps taken at the current zoom exponent are counted in 64 bits;
    /// where the count would leave that range nothing changes. Returns whether
    /// the camera changed.
    pub fn pan(&mut self, d: Direction) -> (changed: bool)
        requires
            old(self).wf(),
        ensures
            final(self).wf(),
            final(self).spec_zoom() == old(self).spec_zoom(),
            changed == (i64::MIN <= moved(old(self).offset(old(self).spec_zoom()), d).0 <= i64::MAX
                && i64::MIN <= moved(old(self).offset(old(self).spec_zoom()), d).1 <= i64::MAX),
            changed ==> final(self).offset(old(self).spec_zoom()) == moved(
                old(self).offset(old(self).spec_zoom()),
                d,
            ),
            !changed ==> final(self).offset(old(self).spec_zoom()) == old(self).offset(
                old(self).spec_zoom(),
            ),
            forall|e: int|
                e != old(self).spec_zoom() ==> #[trigger] final(self).offset(e) == old(
                    self,
                ).offset(e),
    {
        let (sx, sy): (i64, i64) = match d {
            Direction::Up => (0, -1),
            Direction::Down => (0, 1),
            Direction::Left => (-1, 0),
            Direction::Right => (1, 0),
        };
        let ghost z = self.zoom as int;
        let n = self.terms.len();
        let mut i: usize = 0;
        while i < n && self.terms[i].exponent != self.zoom
            invariant
                n == self.terms.len(),
                z == self.zoom,
                i <= n,
                forall|k: int| 0 <= k < i ==> (#[trigger] self.terms@[k]).exponent != z,
            decreases n - i,
        {
            i = i + 1;
        }
        if i == n {
            proof {
                assert(!exists|k: int|
                    0 <= k < self.terms.len() && (#[trigger] self.terms@[k]).exponent == z);
            }
            let ghost before = *self;
            self.terms.push(PanTerm { exponent: self.zoom, dx: sx, dy: sy });
            proof {
                let t = self.terms@;
                assert(t[n as int].exponent == z);
                assert forall|e: int| e != z implies #[trigger] self.offset(e) == before.offset(e) by {
                    if exists|k: int| 0 <= k < before.terms.len() && (#[trigger] before.terms@[k]).exponent == e {
                        let k = choose|k: int|
                            0 <= k < before.terms.len() && (#[trigger] before.terms@[k]).exponent == e;
                        assert(t[k] == before.terms@[k]);
                    }
                    if exists|k: int| 0 <= k < t.len() && (#[trigger] t[k]).exponent == e {
                        let k = choose|k: int| 0 <= k < t.len() && (#[trigger] t[k]).exponent == e;
                        assert(t[k] == before.terms@[k]);
                    }
                }
                assert(self.offset(z) == (sx as int, sy as int)) by {
                    let k = choose|k: int| 0 <= k < t.len() && (#[trigger] t[k]).exponent == z;
                    assert(k == n);
                }
            }
            true
        } else {
            let old_term = self.terms[i];
            proof {
                assert(self.offset(z) == (old_term.dx as int, old_term.dy as int)) by {
                    let k = choose|k: int|
                        0 <= k < self.terms.len() && (#[trigger] self.terms@[k]).exponent == z;
                    assert(k == i);
                }
            }
            let dx = old_term.dx.checked_add(sx);
            let dy = old_term.dy.checked_add(sy);
            match (dx, dy) {
                (Some(dx), Some(dy)) => {
                    let ghost before = *self;
                    self.terms[i] = PanTerm { exponent: self.zoom, dx, dy };
                    proof {
                        let t = self.terms@;
                        assert forall|e: int| e != z implies #[trigger] self.offset(e) == before.offset(e) by {
                            if exists|k: int| 0 <= k < before.terms.len() && (#[trigger] before.terms@[k]).exponent == e {
                                let k = choose|k: int|
                                    0 <= k < before.terms.len() && (#[trigger] before.terms@[k]).exponent == e;
                                assert(t[k] == before.terms@[k]);
                            }
                            if exists|k: int| 0 <= k < t.len() && (#[trigger] t[k]).exponent == e {
                                let k = choose|k: int| 0 <= k < t.len() && (#[trigger] t[k]).exponent == e;
                                assert(t[k] == before.terms@[k]);
                            }
                        }
                        assert(self.offset(z) == (dx as int, dy as int)) by {
                            let k = choose|k: int| 0 <= k < t.len() && (#[trigger] t[k]).exponent == z;
                            assert(k == i);
                        }
                    }
                    true
                },
                _ => false,
            }
        }
    }

    /// The zoom exponent: the visible span is `2 * 1.1^r` model units.
    pub fn zoom_steps(&self) -> (r: i32)
        ensures
            r == self.spec_zoom(),
    {
        self.zoom
    }

    /// The pan moves made so far, one term per zoom exponent.
    pub fn pan_terms(&self) -> (r: &Vec<PanTerm>)
        requires
            self.wf(),
        ensures
            forall|i: int, j: int| 0 <= i < j < r.len() ==> (#[trigger] r@[i]).exponent != (#[trigger] r@[j]).exponent,
            forall|i: int| 0 <= i < r.len() ==> self.offset((#[trigger] r@[i]).exponent as int) == (r@[i].dx as int, r@[i].dy as int),
            forall|e: int| self.offset(e) != (0int, 0int) ==> exists|i: int| 0 <= i < r.len() && (#[trigger] r@[i]).exponent == e,
    {
        proof {
            assert forall|i: int| 0 <= i < self.terms.len() implies self.offset((#[trigger] self.terms@[i]).exponent as int) == (self.terms@[i].dx as int, self.terms@[i].dy as int) by {
                let e = self.terms@[i].exponent as int;
                let k = choose|k: int| 0 <= k < self.terms.len() && (#[trigger] self.terms@[k]).exponent == e;
                assert(k == i);
            }
        }
        &self.terms
    }
}

/// Zooming in and then out again gives back the zoom exponent, wherever the
/// zoom in was not stopped by the lower limit.
pub proof fn lemma_zoom_round_trip(z: int)
    requires
        -MAX_ZOOM_STEPS < z <= MAX_ZOOM_STEPS,
    ensures
        zoomed_out(zoomed_in(z)) == z,
{
}

/// Moving left and then right, or up and then down, gives back the pan steps.
pub proof fn lemma_pan_round_trip(o: (int, int))
    ensures
        moved(moved(o, Direction::Left), Direction::Right) == o,
        moved(moved(o, Direction::Right), Direction::Left) == o,
        moved(moved(o, Direction::Up), Direction::Down) == o,
        moved(moved(o, Direction::Down), Direction::Up) == o,
{
}

} // verus!
