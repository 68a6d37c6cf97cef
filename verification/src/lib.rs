//! Simulation core of a tile platformer whose player can invert which of the
//! two tile polarities it collides with.
//!
//! The world is a strip of fixed-size levels stored in one flat tile array
//! ([`level::Levels`]), read from and written to a text grid ([`text`]). A
//! single body ([`player::Player`]) moves through it in fixed steps, which a
//! clock ([`clock::Clock`]) counts out frame by frame, and a small editor
//! ([`editor::Editor`]) toggles tiles in place.
//!
//! All lengths are whole numbers of [`fixed::UNITS_PER_TILE`]-ths of a tile,
//! so every step of the simulation is exact and repeatable.

pub mod clock;
pub mod editor;
pub mod fixed;
pub mod level;
pub mod player;
pub mod text;

pub use crate::editor::Editor;
