//! Exact construction of the Koch snowflake as a closed polyline.
//!
//! Vertices live on a triangular lattice, so every subdivision step is carried
//! out in integer arithmetic and the curve at each level is known exactly.

pub mod lattice;
pub mod koch;
pub mod camera;

pub use lattice::Point;
pub use koch::{FractalModel, MAX_LEVEL};
pub use camera::{Direction, PanTerm, ViewCamera, MAX_ZOOM_STEPS};
