//! The rules of a small dungeon crawler: levels of rooms and corridors, the
//! objects that move and fight on them, and the turns of player and
//! monsters. Nothing here draws or reads a key; the caller does, and hands
//! over what it read.

pub mod ai;
pub mod colors;
pub mod components;
pub mod connectivity;
pub mod dungeon;
pub mod fov;
pub mod game;
pub mod grid;
pub mod messages;
pub mod movement;
pub mod object;
pub mod render;
mod rng;
pub mod roomgen;
pub mod spawn;
pub mod text;
pub mod tile;
pub mod turn;
