//! Continuous 2D collision detection for moving, resizing rectangles and
//! circles: a fixed-point scalar, shapes placed in the plane, the pairwise
//! collide/separate time solver, contact normals, and an engine that emits
//! collision and separation events in time order.

pub mod card;
pub mod collider;
pub mod dur_hitbox;
pub mod normals;
pub mod scalar;
pub mod shape;
pub mod solvers;
pub mod tight_set;
pub mod util;
pub mod vec;
