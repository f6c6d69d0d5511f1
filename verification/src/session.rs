//! The game's finite-state machine, separated from rendering and from the
//! device so every transition carries an exact contract.
//!
//! One `Session` value holds the phase and the player's counters; the
//! round sequence itself lives in a caller-owned fixed-capacity buffer
//! (see [`crate::sequence_store`]) that the run loop lends to every
//! transition, so the engine allocates nothing while playing.

use vstd::prelude::*;

use crate::abstract_device::Inputs;
use crate::sequence_store::{
    sequence_capacity, sequence_clear, sequence_contents, sequence_get, sequence_len,
    sequence_push,
};

verus! {

/// Fixed capacity of the sequence buffer, in rounds.
pub const MAX_SEQUENCE: usize = 128;

/// The game's phase.
#[derive(PartialEq, Eq, Structural, Clone, Copy, Debug)]
pub enum GameState {
    Menu,
    Displaying,
    Inputting,
    Next,
    Failure,
    Score,
}

/// One game session: phase and progress counters. The sequence buffer is
/// passed into each transition; in `Menu` it holds only the scratch row
/// the buttons doodle on the title screen, afterwards the round's target.
pub struct Session {
    /// The current phase.
    pub state: GameState,
    /// How many elements of the sequence the player has reproduced.
    pub next_guess_index: usize,
    /// The longest sequence fully reproduced this game.
    pub highest_cleared: usize,
    /// Whether the one-time instructional banners are still owed.
    pub first: bool,
}

impl Session {
    /// The invariants each phase maintains over the session and the
    /// sequence buffer it plays on; every transition preserves this and
    /// every entry point requires it.
    pub open spec fn wf(&self, seq: fixed_slice_vec::FixedSliceVec<bool>) -> bool {
        &&& sequence_capacity(seq) == MAX_SEQUENCE
        &&& sequence_contents(seq).len() <= MAX_SEQUENCE
        &&& self.highest_cleared <= MAX_SEQUENCE
        &&& self.next_guess_index <= MAX_SEQUENCE
        &&& (self.state is Displaying ==> self.next_guess_index == 0 && 1 <= sequence_contents(
            seq,
        ).len())
        &&& (self.state is Inputting ==> self.next_guess_index < sequence_contents(seq).len())
        &&& (self.state is Next ==> self.next_guess_index <= sequence_contents(seq).len() && 1
            <= sequence_contents(seq).len())
        &&& (self.state is Failure ==> self.next_guess_index <= sequence_contents(seq).len() && 1
            <= sequence_contents(seq).len())
        &&& (self.state is Score ==> self.next_guess_index <= sequence_contents(seq).len() && 1
            <= sequence_contents(seq).len())
    }

    /// A fresh session: at the menu, nothing cleared, banners owed.
    pub fn new() -> (r: Session)
        ensures
            r.state is Menu,
            r.next_guess_index == 0,
            r.highest_cleared == 0,
            r.first,
    {
        Session { state: GameState::Menu, next_guess_index: 0, highest_cleared: 0, first: true }
    }

    /// Deals the starting sequence of a fresh game: exactly
    /// `[false, false, true]`.
    pub fn set_starting_sequence(sequence: &mut fixed_slice_vec::FixedSliceVec<bool>)
        requires
            sequence_capacity(*old(sequence)) >= 3,
        ensures
            sequence_contents(*final(sequence)) == seq![false, false, true],
            sequence_capacity(*final(sequence)) == sequence_capacity(*old(sequence)),
    {
        sequence_clear(sequence);
        sequence_push(sequence, false);
        sequence_push(sequence, false);
        sequence_push(sequence, true);
        proof {
            assert(sequence_contents(*final(sequence)) =~= seq![false, false, true]);
        }
    }

    /// One menu tick. Both buttons held at once starts a game: counters
    /// reset, the starting sequence dealt, banners owed, and the phase
    /// moves to `Displaying` - and only then. Otherwise a confirmed edge
    /// appends that button's value to the scratch row (dropped when the
    /// row is full), button one taking precedence.
    pub fn step_menu(
        &mut self,
        sequence: &mut fixed_slice_vec::FixedSliceVec<bool>,
        inputs: Inputs,
        button1_fell: bool,
        button2_fell: bool,
    )
        requires
            old(self).wf(*old(sequence)),
            old(self).state is Menu,
        ensures
            final(self).wf(*final(sequence)),
            sequence_capacity(*final(sequence)) == MAX_SEQUENCE,
            (final(self).state is Displaying) == (inputs.button1_down && inputs.button2_down),
            inputs.button1_down && inputs.button2_down ==> ({
                &&& final(self).state is Displaying
                &&& final(self).next_guess_index == 0
                &&& final(self).highest_cleared == 0
                &&& sequence_contents(*final(sequence)) == seq![false, false, true]
                &&& final(self).first
            }),
            !(inputs.button1_down && inputs.button2_down) ==> ({
                &&& final(self).state is Menu
                &&& final(self).next_guess_index == old(self).next_guess_index
                &&& final(self).highest_cleared == old(self).highest_cleared
                &&& final(self).first == old(self).first
                &&& sequence_contents(*final(sequence)) == (if button1_fell && sequence_contents(
                    *old(sequence),
                ).len() < MAX_SEQUENCE {
                    sequence_contents(*old(sequence)).push(false)
                } else if !button1_fell && button2_fell && sequence_contents(*old(sequence)).len()
                    < MAX_SEQUENCE {
                    sequence_contents(*old(sequence)).push(true)
                } else {
                    sequence_contents(*old(sequence))
                })
            }),
    {
        if inputs.button1_down && inputs.button2_down {
            self.state = GameState::Displaying;
            self.next_guess_index = 0;
            self.highest_cleared = 0;
            Self::set_starting_sequence(sequence);
            self.first = true;
        } else {
            if button1_fell {
                if sequence_len(sequence) < MAX_SEQUENCE {
                    sequence_push(sequence, false);
                }
            } else if button2_fell {
                if sequence_len(sequence) < MAX_SEQUENCE {
                    sequence_push(sequence, true);
                }
            }
        }
    }

    /// The sequence has been shown long enough: move to `Inputting`.
    pub fn finish_display(&mut self, sequence: &fixed_slice_vec::FixedSliceVec<bool>)
        requires
            old(self).wf(*sequence),
            old(self).state is Displaying,
        ensures
            final(self).wf(*sequence),
            final(self).state is Inputting,
            final(self).next_guess_index == old(self).next_guess_index,
            final(self).highest_cleared == old(self).highest_cleared,
            final(self).first == old(self).first,
    {
        self.state = GameState::Inputting;
    }

    /// One input tick. A confirmed edge (button one taking precedence,
    /// and standing for `false`) is checked against the expected element:
    /// a match advances the guess index, a mismatch moves to `Failure`
    /// wherever in the sequence it happens. Reproducing the whole
    /// sequence moves to `Next`.
    pub fn step_inputting(
        &mut self,
        sequence: &fixed_slice_vec::FixedSliceVec<bool>,
        button1_fell: bool,
        button2_fell: bool,
    )
        requires
            old(self).wf(*sequence),
            old(self).state is Inputting,
        ensures
            final(self).wf(*sequence),
            final(self).highest_cleared == old(self).highest_cleared,
            final(self).first == old(self).first,
            ({
                let expected = sequence_contents(*sequence)[old(self).next_guess_index as int];
                if button1_fell || button2_fell {
                    let guess = !button1_fell;
                    if guess == expected {
                        &&& final(self).next_guess_index == old(self).next_guess_index + 1
                        &&& if final(self).next_guess_index == sequence_contents(*sequence).len() {
                            final(self).state is Next
                        } else {
                            final(self).state is Inputting
                        }
                    } else {
                        &&& final(self).state is Failure
                        &&& final(self).next_guess_index == old(self).next_guess_index
                    }
                } else {
                    &&& final(self).state is Inputting
                    &&& final(self).next_guess_index == old(self).next_guess_index
                }
            }),
    {
        if button1_fell {
            if sequence_get(sequence, self.next_guess_index) == false {
                self.next_guess_index += 1;
            } else {
                self.state = GameState::Failure;
            }
        } else if button2_fell {
            if sequence_get(sequence, self.next_guess_index) == true {
                self.next_guess_index += 1;
            } else {
                self.state = GameState::Failure;
            }
        }
        if self.state == GameState::Inputting && self.next_guess_index == sequence_len(sequence) {
            self.state = GameState::Next;
        }
    }

    /// Records the cleared round and begins the next one: the guess index
    /// resets, the banners are no longer owed, and the freshly generated
    /// sequence - one element longer, until the buffer is full - becomes
    /// the target.
    pub fn advance_round(
        &mut self,
        sequence: &mut fixed_slice_vec::FixedSliceVec<bool>,
        fresh: &Vec<bool>,
    )
        requires
            old(self).wf(*old(sequence)),
            old(self).state is Next,
            fresh@.len() == (if sequence_contents(*old(sequence)).len() < MAX_SEQUENCE {
                sequence_contents(*old(sequence)).len() + 1 as int
            } else {
                MAX_SEQUENCE as int
            }),
        ensures
            final(self).wf(*final(sequence)),
            final(self).state is Displaying,
            final(self).next_guess_index == 0,
            final(self).highest_cleared == sequence_contents(*old(sequence)).len(),
            !final(self).first,
            sequence_contents(*final(sequence)) == fresh@,
            sequence_capacity(*final(sequence)) == MAX_SEQUENCE,
            sequence_contents(*old(sequence)).len() < MAX_SEQUENCE ==> sequence_contents(
                *final(sequence),
            ).len() == sequence_contents(*old(sequence)).len() + 1,
    {
        self.next_guess_index = 0;
        self.highest_cleared = sequence_len(sequence);
        self.state = GameState::Displaying;
        self.first = false;
        sequence_clear(sequence);
        let n = fresh.len();
        let mut i: usize = 0;
        while i < n
            invariant
                i <= n,
                n == fresh@.len(),
                n <= MAX_SEQUENCE,
                sequence_capacity(*sequence) == MAX_SEQUENCE,
                sequence_contents(*sequence) == fresh@.take(i as int),
            decreases n - i,
        {
            proof {
                assert(fresh@.take(i as int).push(fresh@[i as int]) =~= fresh@.take(i as int + 1));
            }
            sequence_push(sequence, fresh[i]);
            i += 1;
        }
        proof {
            assert(fresh@.take(n as int) =~= fresh@);
        }
    }

    /// The failure banner and replay are over: move to `Score`.
    pub fn finish_failure(&mut self, sequence: &fixed_slice_vec::FixedSliceVec<bool>)
        requires
            old(self).wf(*sequence),
            old(self).state is Failure,
        ensures
            final(self).wf(*sequence),
            final(self).state is Score,
            final(self).next_guess_index == old(self).next_guess_index,
            final(self).highest_cleared == old(self).highest_cleared,
            final(self).first == old(self).first,
    {
        self.state = GameState::Score;
    }

    /// One score-screen tick: any confirmed edge clears the sequence and
    /// returns to the menu; otherwise nothing changes.
    pub fn step_score(
        &mut self,
        sequence: &mut fixed_slice_vec::FixedSliceVec<bool>,
        button1_fell: bool,
        button2_fell: bool,
    )
        requires
            old(self).wf(*old(sequence)),
            old(self).state is Score,
        ensures
            final(self).wf(*final(sequence)),
            sequence_capacity(*final(sequence)) == MAX_SEQUENCE,
            final(self).highest_cleared == old(self).highest_cleared,
            final(self).first == old(self).first,
            final(self).next_guess_index == old(self).next_guess_index,
            if button1_fell || button2_fell {
                final(self).state is Menu && sequence_contents(*final(sequence))
                    == Seq::<bool>::empty()
            } else {
                final(self).state is Score && sequence_contents(*final(sequence))
                    == sequence_contents(*old(sequence))
            },
    {
        if button1_fell || button2_fell {
            self.state = GameState::Menu;
            sequence_clear(sequence);
        }
    }
}

/// The score shown at the end of a game, in tenths: the cleared rounds,
/// plus the fraction of the last sequence reproduced, that fraction
/// rounded to the nearest tenth (half away from zero).
pub open spec fn spec_score_tenths(highest: int, index: int, len: int) -> int
    recommends
        len >= 1,
{
    10 * highest + (20 * index + len) / (2 * len)
}

/// Exec form of [`spec_score_tenths`] over a session's counters.
pub fn score_tenths(highest: usize, index: usize, len: usize) -> (r: u32)
    requires
        1 <= len <= MAX_SEQUENCE,
        index <= len,
        highest <= MAX_SEQUENCE,
    ensures
        r == spec_score_tenths(highest as int, index as int, len as int),
        r <= 10 * MAX_SEQUENCE + 10,
{
    proof {
        vstd::arithmetic::div_mod::lemma_fundamental_div_mod(
            20 * (index as int) + len as int,
            2 * (len as int),
        );
        vstd::arithmetic::div_mod::lemma_mod_bound(
            20 * (index as int) + len as int,
            2 * (len as int),
        );
        assert((20 * (index as int) + len) / (2 * (len as int)) <= 10) by (nonlinear_arith)
            requires
                1 <= len,
                index <= len,
        ;
        assert((20 * (index as int) + len) / (2 * (len as int)) >= 0) by (nonlinear_arith)
            requires
                1 <= len,
                0 <= index,
        ;
    }
    let h = highest as u32;
    let i = index as u32;
    let l = len as u32;
    10 * h + (20 * i + l) / (2 * l)
}

} // verus!
