//! A grid-based first-person engine: a world of entities that move and fight on
//! a tile map, and a raycasting renderer that draws it column by column.
//!
//! Every length, angle, duration and factor is an integer count of millionths
//! (see [`fixed::UNIT`]), so that each step of the simulation and each pixel of
//! a frame is an exact function of the inputs.

pub mod fixed;

pub mod entity;
pub mod level;
pub mod trig;
pub mod world;
pub mod sprites;
pub mod physics;
pub mod raycast;
pub mod graphics;
pub mod shading;
pub mod renderer;
pub mod input;
pub mod weapon;
pub mod player;
pub mod game;
pub mod sync;
