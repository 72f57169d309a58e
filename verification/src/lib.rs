//! The mechanical core of a sliding-tile labyrinth board game: tiles with
//! connector openings, a 7x7 grid with one spare tile, the sliding insertion,
//! the connectivity of the grid and the movement of player tokens.

pub mod board;
pub mod controller;
pub mod emoji;
pub mod errors;
pub mod graph;
pub mod insertion;
pub mod location;
pub mod model;
pub mod movement;
pub mod players;
pub mod render;
pub mod setup;
pub mod text;
pub mod tile;
