//! The capability boundary between the game engine and a concrete board.
//!
//! A board assembles its pins, bus and display controller into one value
//! that implements [`AbstractDevice`]; the engine sees nothing else of the
//! hardware. The engine composes each frame into its own
//! [`FrameBuffer`](crate::framebuffer::FrameBuffer) and hands the finished
//! frame to the device to push to the physical display.

use vstd::prelude::*;

use crate::framebuffer::FrameBuffer;

verus! {

/// The raw levels of both buttons, sampled once per loop iteration.
#[derive(Copy, Clone, PartialEq, Eq, Structural, Debug)]
pub struct Inputs {
    pub button1_down: bool,
    pub button2_down: bool,
}

impl Inputs {
    /// Both buttons up.
    pub fn default() -> (r: Inputs)
        ensures
            r == (Inputs { button1_down: false, button2_down: false }),
    {
        Inputs { button1_down: false, button2_down: false }
    }
}

/// What the engine requires of a board: inputs, an indicator, blocking
/// delay, one entropy value, and a way to push a composed frame out.
pub trait AbstractDevice {
    type Error;

    /// Samples both buttons. Hardware read faults are masked or mapped by
    /// the board; the engine treats any error as fatal to the run.
    fn get_inputs(&mut self) -> Result<Inputs, Self::Error>;

    /// Drives the status indicator; fire and forget.
    fn set_led(&mut self, new_state: bool);

    /// Blocks for `ms` milliseconds: the engine's only suspension point.
    fn delay_ms(&mut self, ms: u32);

    /// One entropy value, consumed once when the game is constructed.
    fn get_rng_seed(&mut self) -> u64;

    /// Pushes the composed frame to the physical display; the only call
    /// in the render path that can fail.
    fn flush_display(&mut self, frame: &FrameBuffer) -> Result<(), Self::Error>;
}

} // verus!
