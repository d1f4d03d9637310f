//! A two-player Connect Four engine: the board, its win detection, undo/redo
//! history, keyboard handling and the layout of what is drawn on a terminal.
use vstd::prelude::*;

pub mod app;
pub mod config;
pub mod constants;
pub mod disk;
pub mod draw;
pub mod game;
pub mod grid;
pub mod input;
pub mod pacing;
pub mod sparse;
pub mod status;
pub mod render;
pub mod runtime;
pub mod strings;
pub mod text;
pub mod textures;
pub mod translate;
pub mod types;

verus! {

} // verus!
