use core::mem::MaybeUninit;

use fixed_slice_vec::FixedSliceVec;

use sequence_memory::abstract_device::Inputs;
use sequence_memory::game::push_decimal;
use sequence_memory::session::{score_tenths, GameState, Session, MAX_SEQUENCE};

fn both_down() -> Inputs {
    Inputs { button1_down: true, button2_down: true }
}

fn no_buttons() -> Inputs {
    Inputs { button1_down: false, button2_down: false }
}

fn storage() -> [MaybeUninit<bool>; MAX_SEQUENCE] {
    [MaybeUninit::new(false); MAX_SEQUENCE]
}

fn fill(seq: &mut FixedSliceVec<bool>, values: &[bool]) {
    seq.clear();
    for &v in values {
        seq.push(v);
    }
}

// A fresh game's starting sequence is exactly [false, false, true].
#[test]
fn fresh_game_starts_with_the_fixed_sequence() {
    let mut st = storage();
    let mut seq = FixedSliceVec::new(&mut st[..]);
    let mut session = Session::new();
    assert_eq!(session.state, GameState::Menu);
    assert!(seq.is_empty());
    session.step_menu(&mut seq, both_down(), false, false);
    assert_eq!(session.state, GameState::Displaying);
    assert_eq!(seq.as_slice(), &[false, false, true]);
    assert_eq!(session.next_guess_index, 0);
    assert_eq!(session.highest_cleared, 0);
    assert!(session.first);
}

// The menu leaves for Displaying only when both buttons are down at once.
#[test]
fn menu_starts_only_on_both_buttons() {
    let single_cases = [
        (Inputs { button1_down: true, button2_down: false }, true, false),
        (Inputs { button1_down: false, button2_down: true }, false, true),
        (no_buttons(), false, false),
    ];
    for &(inputs, b1, b2) in single_cases.iter() {
        let mut st = storage();
        let mut seq = FixedSliceVec::new(&mut st[..]);
        let mut session = Session::new();
        session.step_menu(&mut seq, inputs, b1, b2);
        assert_eq!(session.state, GameState::Menu);
    }
    let mut st = storage();
    let mut seq = FixedSliceVec::new(&mut st[..]);
    let mut session = Session::new();
    session.step_menu(&mut seq, both_down(), true, true);
    assert_eq!(session.state, GameState::Displaying);
}

// Menu button edges doodle a scratch row, button one standing for false.
#[test]
fn menu_edges_append_to_the_scratch_row() {
    let mut st = storage();
    let mut seq = FixedSliceVec::new(&mut st[..]);
    let mut session = Session::new();
    session.step_menu(&mut seq, no_buttons(), true, false);
    session.step_menu(&mut seq, no_buttons(), false, true);
    session.step_menu(&mut seq, no_buttons(), false, false);
    session.step_menu(&mut seq, no_buttons(), true, true);
    assert_eq!(session.state, GameState::Menu);
    assert_eq!(seq.as_slice(), &[false, true, false]);
}

// A wrong guess moves to Failure wherever in the sequence it happens.
#[test]
fn wrong_guess_fails_at_any_position() {
    for wrong_at in 0..3usize {
        let mut st = storage();
        let mut seq = FixedSliceVec::new(&mut st[..]);
        fill(&mut seq, &[false, true, false]);
        let mut session = Session {
            state: GameState::Inputting,
            next_guess_index: 0,
            highest_cleared: 0,
            first: false,
        };
        for i in 0..3usize {
            let expected = seq[i];
            let guess = if i == wrong_at { !expected } else { expected };
            let (b1, b2) = if guess { (false, true) } else { (true, false) };
            session.step_inputting(&seq, b1, b2);
            if i == wrong_at {
                assert_eq!(session.state, GameState::Failure);
                assert_eq!(session.next_guess_index, i);
                break;
            }
            assert_eq!(session.next_guess_index, i + 1);
        }
        assert_eq!(session.state, GameState::Failure);
    }
}

// Completing the sequence moves to Next, and the next round's sequence is
// exactly one element longer.
#[test]
fn next_round_grows_by_one() {
    let mut st = storage();
    let mut seq = FixedSliceVec::new(&mut st[..]);
    let mut session = Session::new();
    session.step_menu(&mut seq, both_down(), false, false);
    session.finish_display(&seq);
    assert_eq!(session.state, GameState::Inputting);
    session.step_inputting(&seq, true, false);
    session.step_inputting(&seq, true, false);
    session.step_inputting(&seq, false, true);
    assert_eq!(session.state, GameState::Next);
    let fresh = vec![true, false, true, false];
    session.advance_round(&mut seq, &fresh);
    assert_eq!(session.state, GameState::Displaying);
    assert_eq!(seq.len(), 4);
    assert_eq!(seq.as_slice(), fresh.as_slice());
    assert_eq!(session.highest_cleared, 3);
    assert_eq!(session.next_guess_index, 0);
    assert!(!session.first);
}

// A tick with no confirmed edge changes nothing while inputting.
#[test]
fn idle_input_tick_changes_nothing() {
    let mut st = storage();
    let mut seq = FixedSliceVec::new(&mut st[..]);
    fill(&mut seq, &[true, true]);
    let mut session = Session {
        state: GameState::Inputting,
        next_guess_index: 1,
        highest_cleared: 0,
        first: false,
    };
    session.step_inputting(&seq, false, false);
    assert_eq!(session.state, GameState::Inputting);
    assert_eq!(session.next_guess_index, 1);
}

// End to end: with [false, true, false] as the sequence, a correct replay
// walks Menu -> Displaying -> Inputting -> Next.
#[test]
fn correct_replay_reaches_next() {
    let mut st = storage();
    let mut seq = FixedSliceVec::new(&mut st[..]);
    let mut session = Session::new();
    let mut states = vec![session.state];
    session.step_menu(&mut seq, both_down(), false, false);
    fill(&mut seq, &[false, true, false]);
    states.push(session.state);
    session.finish_display(&seq);
    states.push(session.state);
    session.step_inputting(&seq, true, false);
    assert_eq!(session.state, GameState::Inputting);
    session.step_inputting(&seq, false, true);
    assert_eq!(session.state, GameState::Inputting);
    session.step_inputting(&seq, true, false);
    states.push(session.state);
    assert_eq!(
        states,
        vec![GameState::Menu, GameState::Displaying, GameState::Inputting, GameState::Next]
    );
}

// End to end: one wrong guess at position 1 walks
// Inputting -> Failure -> Score.
#[test]
fn wrong_replay_reaches_score() {
    let mut st = storage();
    let mut seq = FixedSliceVec::new(&mut st[..]);
    fill(&mut seq, &[false, true, false]);
    let mut session = Session {
        state: GameState::Inputting,
        next_guess_index: 0,
        highest_cleared: 0,
        first: false,
    };
    session.step_inputting(&seq, true, false);
    assert_eq!(session.state, GameState::Inputting);
    assert_eq!(session.next_guess_index, 1);
    // Expected element is true; button one guesses false.
    session.step_inputting(&seq, true, false);
    assert_eq!(session.state, GameState::Failure);
    session.finish_failure(&seq);
    assert_eq!(session.state, GameState::Score);
    // Any confirmed edge then returns to the menu with the row cleared.
    session.step_score(&mut seq, false, true);
    assert_eq!(session.state, GameState::Menu);
    assert!(seq.is_empty());
}

// Score: highest 3, guess index 1, length 5 scores 3 + 1/5 = 3.2.
#[test]
fn score_is_cleared_rounds_plus_fraction() {
    assert_eq!(score_tenths(3, 1, 5), 32);
    assert_eq!(score_tenths(0, 0, 3), 0);
    assert_eq!(score_tenths(2, 2, 4), 25);
    // The fraction rounds to the nearest tenth, half away from zero.
    assert_eq!(score_tenths(0, 1, 3), 3);
    assert_eq!(score_tenths(0, 2, 3), 7);
}

#[test]
fn decimal_digits_render_exactly() {
    let cases: [(u32, &[u8]); 5] = [
        (0, b"0"),
        (7, b"7"),
        (10, b"10"),
        (32, b"32"),
        (129, b"129"),
    ];
    for &(n, expected) in cases.iter() {
        let mut out = Vec::new();
        push_decimal(&mut out, n);
        assert_eq!(out, expected);
    }
}

// The scratch row is a fixed-capacity buffer: edges past its capacity
// are dropped rather than overflowing it.
#[test]
fn menu_scratch_row_stops_at_capacity() {
    let mut st = storage();
    let mut seq = FixedSliceVec::new(&mut st[..]);
    let mut session = Session::new();
    for _ in 0..(MAX_SEQUENCE + 10) {
        session.step_menu(&mut seq, no_buttons(), true, false);
    }
    assert_eq!(session.state, GameState::Menu);
    assert_eq!(seq.len(), MAX_SEQUENCE);
    assert!(seq.as_slice().iter().all(|&v| !v));
}

// Once the sequence buffer is full, a cleared round keeps the sequence at
// its capacity instead of growing it.
#[test]
fn advance_round_at_capacity_keeps_the_length() {
    let mut st = storage();
    let mut seq = FixedSliceVec::new(&mut st[..]);
    fill(&mut seq, &[true; MAX_SEQUENCE]);
    let mut session = Session {
        state: GameState::Next,
        next_guess_index: MAX_SEQUENCE,
        highest_cleared: 0,
        first: false,
    };
    session.advance_round(&mut seq, &vec![false; MAX_SEQUENCE]);
    assert_eq!(session.state, GameState::Displaying);
    assert_eq!(seq.len(), MAX_SEQUENCE);
    assert_eq!(session.highest_cleared, MAX_SEQUENCE);
    assert_eq!(session.next_guess_index, 0);
}
