//! Simulation core of a side-view shooter: player kinematics, input handling,
//! bullets, scrolling targets, a spawn timer and bullet/target collisions.
//!
//! Lengths are integers in nano-units (a billionth of a world unit) and time
//! is in microseconds, so every rule is exact integer arithmetic.
pub mod config;
pub mod player;
pub mod entity;
pub mod timer;
pub mod world;
