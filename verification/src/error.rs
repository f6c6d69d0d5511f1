//! The engine's error taxonomy. A board maps its transport's own error
//! values into these before they reach the engine.

use vstd::prelude::*;

verus! {

/// Why a run of the game engine stopped.
#[derive(PartialEq, Eq, Structural, Clone, Copy, Debug)]
pub enum Error {
    /// The display transport failed to draw or flush.
    Display,
    /// Text formatting failed.
    Format,
    /// Never actually raised; exists so boards with an infallible
    /// transport can still name an error type.
    Infallible,
    /// The surrounding program asked to leave the run loop.
    Quit,
}

} // verus!
