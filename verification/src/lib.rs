//! A minimal offline ray-traced renderer over exact fixed-point arithmetic.
//!
//! One primary ray is cast per pixel, the nearest sphere intersection is
//! resolved analytically, and direct illumination with hard shadows is
//! accumulated per light.  All geometry is carried as integers scaled by
//! `num::SCALE`, so every contract states the computed value exactly.

pub mod num;
pub mod vec;
pub mod geom;
pub mod scene;
pub mod camera;
pub mod render;
pub mod laws;
