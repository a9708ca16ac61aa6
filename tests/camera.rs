use koch::{Direction, PanTerm, ViewCamera, MAX_ZOOM_STEPS};

fn term(c: &ViewCamera, exponent: i32) -> Option<PanTerm> {
    c.pan_terms().iter().copied().find(|t| t.exponent == exponent)
}

#[test]
fn new_camera_is_centred_and_unzoomed() {
    let c = ViewCamera::new();
    assert_eq!(c.zoom_steps(), 0);
    assert!(c.pan_terms().is_empty());
    // A span of 2 * 1.1^0 = 2 units maps onto [-1, 1] with scale 1.
    let span = 2.0 * 1.1f64.powi(c.zoom_steps());
    assert_eq!(span, 2.0);
}

#[test]
fn zoom_in_then_out_restores_zoom() {
    let mut c = ViewCamera::new();
    assert!(c.zoom_in());
    assert_eq!(c.zoom_steps(), -1);
    assert!(c.zoom_out());
    assert_eq!(c.zoom_steps(), 0);
    assert!(c.zoom_out());
    assert!(c.zoom_out());
    assert!(c.zoom_in());
    assert_eq!(c.zoom_steps(), 1);
}

#[test]
fn pan_left_then_right_restores_centre() {
    let mut c = ViewCamera::new();
    assert!(c.pan(Direction::Left));
    assert_eq!(term(&c, 0), Some(PanTerm { exponent: 0, dx: -1, dy: 0 }));
    assert!(c.pan(Direction::Right));
    assert_eq!(term(&c, 0), Some(PanTerm { exponent: 0, dx: 0, dy: 0 }));
}

#[test]
fn pan_up_and_down_move_the_y_axis() {
    let mut c = ViewCamera::new();
    c.pan(Direction::Up);
    c.pan(Direction::Up);
    c.pan(Direction::Down);
    assert_eq!(term(&c, 0), Some(PanTerm { exponent: 0, dx: 0, dy: -1 }));
}

#[test]
fn pans_are_recorded_per_zoom_exponent() {
    let mut c = ViewCamera::new();
    c.pan(Direction::Right);
    c.zoom_in();
    c.pan(Direction::Right);
    c.pan(Direction::Down);
    c.zoom_out();
    c.pan(Direction::Right);
    assert_eq!(c.pan_terms().len(), 2);
    assert_eq!(term(&c, 0), Some(PanTerm { exponent: 0, dx: 2, dy: 0 }));
    assert_eq!(term(&c, -1), Some(PanTerm { exponent: -1, dx: 1, dy: 1 }));
    // Centre x = 0.1 * (2 * 1.1^0 + 1 * 1.1^-1).
    let cx: f64 = c.pan_terms().iter().map(|t| 0.1 * t.dx as f64 * 1.1f64.powi(t.exponent)).sum();
    assert!((cx - (0.2 + 0.1 / 1.1)).abs() < 1e-12);
}

#[test]
fn zoom_stops_at_its_limits() {
    let mut c = ViewCamera::new();
    for _ in 0..MAX_ZOOM_STEPS {
        assert!(c.zoom_in());
    }
    assert_eq!(c.zoom_steps(), -MAX_ZOOM_STEPS);
    assert!(!c.zoom_in());
    assert_eq!(c.zoom_steps(), -MAX_ZOOM_STEPS);
    for _ in 0..2 * MAX_ZOOM_STEPS {
        assert!(c.zoom_out());
    }
    assert!(!c.zoom_out());
    assert_eq!(c.zoom_steps(), MAX_ZOOM_STEPS);
    let span = 2.0 * 1.1f64.powi(c.zoom_steps());
    assert!(span.is_finite() && span > 0.0);
}
