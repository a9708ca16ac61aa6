use koch::{FractalModel, Point, MAX_LEVEL};

const UNITS_PER_SIDE: f64 = 6561.0;

fn to_plane(p: &Point, side: f64) -> (f64, f64) {
    let unit = side / UNITS_PER_SIDE;
    let x = (p.a as f64 + p.b as f64 / 2.0) * unit;
    let y = p.b as f64 * (3.0f64.sqrt() / 2.0) * unit;
    (x, y)
}

fn close(a: (f64, f64), b: (f64, f64)) -> bool {
    (a.0 - b.0).abs() < 1e-4 && (a.1 - b.1).abs() < 1e-4
}

fn at_level(level: u32) -> FractalModel {
    let mut m = FractalModel::new_triangle();
    for _ in 0..level {
        assert!(m.level_up());
    }
    m
}

#[test]
fn new_triangle_has_four_closed_vertices() {
    let m = FractalModel::new_triangle();
    assert_eq!(m.level(), 0);
    let v = m.vertices();
    assert_eq!(v.len(), 4);
    let expected = [(-0.5, -0.2887), (0.5, -0.2887), (0.0, 0.5774), (-0.5, -0.2887)];
    for (p, e) in v.iter().zip(expected.iter()) {
        assert!(close(to_plane(p, 1.0), *e), "{:?} vs {:?}", p, e);
    }
    assert_eq!(v[0], v[3]);
}

#[test]
fn seed_lattice_coordinates() {
    let m = FractalModel::new_triangle();
    let v = m.vertices();
    assert_eq!(v[0], Point::new(-2187, -2187));
    assert_eq!(v[1], Point::new(4374, -2187));
    assert_eq!(v[2], Point::new(-2187, 4374));
    assert_eq!(v[3], Point::new(-2187, -2187));
}

#[test]
fn seed_side_and_height() {
    let m = FractalModel::new_triangle();
    let v = m.vertices();
    let a = to_plane(&v[0], 1.0);
    let b = to_plane(&v[1], 1.0);
    let c = to_plane(&v[2], 1.0);
    assert!(((b.0 - a.0) - 1.0).abs() < 1e-9);
    assert!(((c.1 - a.1) - 0.8660).abs() < 1e-4);
}

#[test]
fn one_level_up_gives_thirteen_vertices() {
    let mut m = FractalModel::new_triangle();
    assert!(m.level_up());
    assert_eq!(m.level(), 1);
    let v = m.vertices();
    assert_eq!(v.len(), 13);
    assert_eq!(v[0], v[12]);
    assert!(close(to_plane(&v[0], 1.0), (-0.5, -0.2887)));
    assert!(close(to_plane(&v[12], 1.0), (-0.5, -0.2887)));
}

#[test]
fn first_segment_subdivision_points() {
    let mut m = FractalModel::new_triangle();
    m.level_up();
    let v = m.vertices();
    assert_eq!(v[1], Point::new(0, -2187));
    assert_eq!(v[2], Point::new(2187, -4374));
    assert_eq!(v[3], Point::new(2187, -2187));
    assert_eq!(v[4], Point::new(4374, -2187));
    // The bump on the bottom edge points down, out of the triangle.
    let peak = to_plane(&v[2], 1.0);
    assert!(close(peak, (0.0, -0.2887 - 0.2887)));
    assert!(close(to_plane(&v[1], 1.0), (-1.0 / 6.0, -0.2887)));
    assert!(close(to_plane(&v[3], 1.0), (1.0 / 6.0, -0.2887)));
}

#[test]
fn segment_counts_per_level() {
    let mut m = FractalModel::new_triangle();
    for level in 0..=MAX_LEVEL {
        assert_eq!(m.level(), level);
        assert_eq!(m.vertices().len() - 1, 3 * 4usize.pow(level));
        m.level_up();
    }
}

#[test]
fn level_down_undoes_level_up() {
    for level in 0..MAX_LEVEL {
        let mut m = at_level(level);
        let before = m.vertices().clone();
        assert!(m.level_up());
        assert!(m.level_down());
        assert_eq!(m.level(), level);
        assert_eq!(*m.vertices(), before);
    }
}

#[test]
fn level_up_at_max_is_a_no_op() {
    let mut m = at_level(MAX_LEVEL);
    let before = m.vertices().clone();
    assert!(!m.level_up());
    assert!(!m.level_up());
    assert_eq!(m.level(), MAX_LEVEL);
    assert_eq!(*m.vertices(), before);
    assert_eq!(m.max_level(), 7);
}

#[test]
fn level_down_at_zero_is_a_no_op() {
    let mut m = FractalModel::new_triangle();
    assert!(!m.level_down());
    assert!(!m.level_down());
    assert_eq!(m.level(), 0);
    assert_eq!(m.vertices().len(), 4);
    assert_eq!(m.vertices()[0], Point::new(-2187, -2187));
}

#[test]
fn polyline_stays_closed() {
    let mut m = FractalModel::new_triangle();
    let ops = [true, true, false, true, true, true, true, true, true, true, false, false, false];
    for up in ops {
        if up {
            m.level_up();
        } else {
            m.level_down();
        }
        let v = m.vertices();
        assert_eq!(v.first(), v.last());
    }
}

#[test]
fn segments_pair_consecutive_vertices() {
    let m = at_level(2);
    let v = m.vertices();
    let s = m.segments();
    assert_eq!(s.len(), 48);
    for (i, (a, b)) in s.iter().enumerate() {
        assert_eq!(*a, v[i]);
        assert_eq!(*b, v[i + 1]);
    }
}

#[test]
fn every_segment_has_equal_length_at_each_level() {
    for level in 0..=MAX_LEVEL {
        let m = at_level(level);
        let expected = 6561i64 / 3i64.pow(level);
        for (a, b) in m.segments() {
            let da = b.a - a.a;
            let db = b.b - a.b;
            // Squared length in a lattice with a 60 degree angle.
            assert_eq!(da * da + da * db + db * db, expected * expected);
        }
    }
}
