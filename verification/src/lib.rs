//! Core engine of a two-button "repeat the sequence" memory game for small
//! monochrome displays: a debounce filter for the buttons, a packed-bitmap
//! font renderer, the game's state machine, and the capability interface a
//! board implements to host the engine.

pub mod abstract_device;
pub mod debouncing;
pub mod error;
pub mod font;
pub mod framebuffer;
pub mod game;
pub mod geometry;
pub mod rng;
pub mod sequence_store;
pub mod session;
