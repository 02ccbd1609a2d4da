//! A small terminal Sokoban: a verified puzzle engine (grid, level parsing,
//! move legality, box pushing, undo, win detection) and the screen-flow
//! controller that sequences intro, per-level and end screens around it.
//! Terminal input and output stay outside; the library works on plain values
//! and hands rendered lines back to its caller.

pub mod flows;
pub mod game;
pub mod level;
pub mod math;
pub mod platform;
