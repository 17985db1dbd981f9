//! The editing core of a box-fractal editor: a world of boxes with a
//! selection and drag state machine, ray picking over intersection times, and
//! the combinatorics of the fractal render set.
//!
//! Geometry (positions, orientations, scales, colours) is kept by the caller
//! as an opaque payload; everything decided here is stated and proved.

pub mod component;
pub mod fractal;
pub mod picking;
pub mod world;

pub use component::{unit_cube_edges, BoxRef, Component};
pub use fractal::{candidate_count, render_set, RenderSet, MAX_CUBES};
pub use picking::nearest;
pub use world::World;
