use std::cell::RefCell;
use std::rc::Rc;

use sequence_memory::abstract_device::{AbstractDevice, Inputs};
use sequence_memory::error::Error;
use sequence_memory::font::{DecorationDimensions, Image, MonoFont};
use sequence_memory::framebuffer::FrameBuffer;
use sequence_memory::game::Game;
use sequence_memory::geometry::Size;

fn test_font() -> MonoFont {
    MonoFont {
        image: Image::new(vec![0x5a; 720], 96),
        character_size: Size::new(6, 10),
        character_spacing: 0,
        baseline: 7,
        underline: DecorationDimensions::new(9, 1),
        strikethrough: DecorationDimensions::new(5, 1),
    }
}

// What a scripted run records for the test to inspect afterwards.
#[derive(Default)]
struct RunLog {
    delays: Vec<u32>,
    flushed_lit_counts: Vec<usize>,
}

// A scripted board: fixed button levels per tick, a log of delays and
// flushed frames, and a flush allowance after which the transport
// reports failure.
struct ScriptedDevice {
    inputs: Vec<Inputs>,
    tick: usize,
    flushes_left: usize,
    log: Rc<RefCell<RunLog>>,
}

impl AbstractDevice for ScriptedDevice {
    type Error = Error;

    fn get_inputs(&mut self) -> Result<Inputs, Error> {
        let i = if self.tick < self.inputs.len() {
            self.inputs[self.tick]
        } else {
            Inputs::default()
        };
        self.tick += 1;
        Ok(i)
    }

    fn set_led(&mut self, _new_state: bool) {}

    fn delay_ms(&mut self, ms: u32) {
        self.log.borrow_mut().delays.push(ms);
    }

    fn get_rng_seed(&mut self) -> u64 {
        0x5eed
    }

    fn flush_display(&mut self, frame: &FrameBuffer) -> Result<(), Error> {
        if self.flushes_left == 0 {
            return Err(Error::Display);
        }
        self.flushes_left -= 1;
        let mut lit = 0;
        for y in 0..frame.height() as i64 {
            for x in 0..frame.width() as i64 {
                if frame.get_pixel(x, y) {
                    lit += 1;
                }
            }
        }
        self.log.borrow_mut().flushed_lit_counts.push(lit);
        Ok(())
    }
}

fn scripted(inputs: Vec<Inputs>, flushes_left: usize) -> (ScriptedDevice, Rc<RefCell<RunLog>>) {
    let log = Rc::new(RefCell::new(RunLog::default()));
    (ScriptedDevice { inputs, tick: 0, flushes_left, log: Rc::clone(&log) }, log)
}

// The run loop returns the device's error as soon as a flush fails.
#[test]
fn run_game_stops_on_the_first_flush_error() {
    let (device, log) = scripted(Vec::new(), 0);
    let mut game = Game::new(device, test_font(), 128, 32).unwrap();
    assert_eq!(game.run_game(), Err(Error::Display));
    assert!(log.borrow().delays.is_empty());
}

// Holding both buttons on the menu starts a game: the first round's
// delays are the "Remember!" banner (1000 ms) and the sequence display
// (2000 ms for a three-element sequence), confirming the transition.
#[test]
fn both_buttons_start_the_display_phase() {
    let both = Inputs { button1_down: true, button2_down: true };
    let (device, log) = scripted(vec![both], 3);
    let mut game = Game::new(device, test_font(), 128, 32).unwrap();
    assert_eq!(game.run_game(), Err(Error::Display));
    // Flush 1: the menu frame. Flush 2: the "Remember!" banner, then its
    // 1000 ms delay. Flush 3: the sequence row, then its 2000 ms delay;
    // the flush of the "Repeat!" banner fails and ends the run.
    assert_eq!(log.borrow().delays, vec![1000, 2000]);
    // The menu text was really drawn with this font: its frame lit some
    // pixels, and the banner frame lit fewer than the full menu text.
    let lit = log.borrow().flushed_lit_counts.clone();
    assert_eq!(lit.len(), 3);
    assert!(lit[0] > 0);
    assert!(lit[1] > 0);
}

// Without a start, the menu just keeps redrawing and flushing: no delays
// are ever requested.
#[test]
fn idle_menu_never_delays() {
    let (device, log) = scripted(Vec::new(), 5);
    let mut game = Game::new(device, test_font(), 128, 32).unwrap();
    assert_eq!(game.run_game(), Err(Error::Display));
    assert!(log.borrow().delays.is_empty());
    assert_eq!(log.borrow().flushed_lit_counts.len(), 5);
}

// A whole first round through the real loop: start on the menu, replay
// the starting sequence [false, false, true] with debounced presses, and
// reach the next round, whose freshly generated sequence is shown with
// its own display delay.
#[test]
fn full_round_reaches_next_round() {
    let both = Inputs { button1_down: true, button2_down: true };
    let none = Inputs::default();
    let b1 = Inputs { button1_down: true, button2_down: false };
    let b2 = Inputs { button1_down: false, button2_down: true };
    let mut inputs = vec![both];
    for &guess in [false, false, true].iter() {
        // Settle the channels low, then hold the guessed button long
        // enough for exactly one confirmed press.
        for _ in 0..8 {
            inputs.push(none);
        }
        for _ in 0..5 {
            inputs.push(if guess { b2 } else { b1 });
        }
    }
    let (device, log) = scripted(inputs, 80);
    let mut game = Game::new(device, test_font(), 128, 32).unwrap();
    assert_eq!(game.run_game(), Err(Error::Display));
    let delays = log.borrow().delays.clone();
    // The one-time banners and the first display of the sequence...
    assert_eq!(&delays[..3], &[1000, 2000, 1000]);
    // ...then the "Good! Next:" banner confirms the round was cleared,
    // and the next round's four-element sequence is displayed again.
    assert!(delays.contains(&400));
    let after_next = delays.iter().position(|&d| d == 400).unwrap() + 1;
    assert_eq!(delays[after_next], 2000);
}
