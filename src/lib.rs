//! A pseudo-3D delivery racing game: course layout, car physics, interaction
//! rules and the level state machine, over fixed-point coordinates.
pub mod geometry;
pub mod course;
pub mod input;
pub mod car;
pub mod interaction;
pub mod game;
