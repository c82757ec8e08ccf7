//! Clustered forward lighting and shadow culling on integer coordinates.
//!
//! Every position, length and depth is a whole number of some small unit,
//! so every test for containment, every projection onto the screen and
//! every cut of the depth range is exact, and the contracts in this crate
//! say what is computed with nothing left to rounding.  Rotations are the
//! business of the caller: each frustum and each box lives in the frame of
//! the camera or light that owns it.
//!
//! - [`geometry`] and [`frustum`]: planes, bounding volumes, culling.
//! - [`camera`], [`depth`], [`cluster`], [`assign`]: the cluster grid of a
//!   view and the lights listed in each of its cells.
//! - [`cascade`] and [`lights`]: the cascades of directional lights and the
//!   culling frusta of every kind of light.
//! - [`visibility`] and [`visible_lights`]: what each frustum sees, and
//!   which lights any view sees.
//! - [`marshal`]: the flat buffers that shading reads.
//! - [`schedule`] and [`plugin`]: the order of the stages of a frame.

pub mod assign;
mod bignum;
pub mod camera;
pub mod cascade;
pub mod cluster;
pub mod depth;
pub mod frustum;
pub mod geometry;
pub mod graph;
pub mod lights;
pub mod marshal;
pub mod numeric;
pub mod plugin;
pub mod schedule;
pub mod visibility;
pub mod visible_lights;
