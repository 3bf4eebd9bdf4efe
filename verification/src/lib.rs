//! Rules of a small two-player arcade duel: players walk on a fixed playfield
//! and throw cakes at each other until one of them runs out of health.
//!
//! Positions are whole pixels. Every rule is a function from plain values to
//! plain values, so that one frame of the game is a single call of
//! [`frame::step`].

pub mod geometry;
pub mod model;
pub mod projectile;
pub mod combat;
pub mod round;
pub mod frame;
pub mod hud;
