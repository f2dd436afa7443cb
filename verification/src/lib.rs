//! A verified core for a grid-based snake game.
//!
//! The library maps logical grid cells to raw pixel coordinates, rasterizes
//! squares and circles into pixel lists, composites pixels into an RGBA
//! frame buffer, renders decimal digits from a small bitmap font, and
//! advances the snake simulation (movement with toroidal wraparound,
//! apple eating, score, and score-driven tick rate).
//!
//! Window creation, event handling, and frame presentation are left to a
//! host program; the library only computes over plain values and mutates
//! byte buffers handed to it.

pub mod game;
pub mod glyphs;
pub mod resource;
