//! Top-down car driving core: track/world coordinate mapping, per-tick car
//! physics and render transforms, all in fixed-point integer arithmetic.

pub mod fixed;
pub mod track;
pub mod car;
pub mod menu;
