//! Switch debouncing by an 8-bit shift register per channel.
//!
//! Every raw sample is shifted into the low bit of the channel's pattern.
//! A fixed mask picks the two oldest kept bits and the three newest: a
//! channel whose masked pattern shows three fresh high samples after old
//! low ones is freshly pressed, the symmetric pattern is freshly released,
//! and anything else (noise in the middle bits included) reports no change.
//! On a confirmed edge the pattern is forced to all ones or all zeros, so
//! a steady level can never report a second edge.

use vstd::prelude::*;

verus! {

/// Mask picking the sample bits that decide an edge: the two oldest kept
/// samples and the three newest.
pub const DEBOUNCE_MASK: u8 = 0b1100_0111;

/// Masked pattern of a freshly confirmed press: old samples low, the three
/// newest high.
pub const PRESSED_PATTERN: u8 = 0b0000_0111;

/// Masked pattern of a freshly confirmed release: old samples high, the
/// three newest low.
pub const RELEASED_PATTERN: u8 = 0b1100_0000;

/// What one new raw sample of a channel means once debounced.
#[derive(PartialEq, Eq, Structural, Clone, Copy, Debug)]
pub enum DebounceResult {
    NoChange,
    Pressed,
    Released,
}

/// The channel's pattern with one raw sample shifted in, before edge
/// classification.
pub open spec fn shifted_pattern(pattern: u8, pressed: bool) -> u8 {
    (pattern << 1) | (if pressed { 1u8 } else { 0u8 })
}

/// The debounced meaning of feeding one raw sample to a channel holding
/// `pattern`.
pub open spec fn debounce_step_result(pattern: u8, pressed: bool) -> DebounceResult {
    let seen = shifted_pattern(pattern, pressed) & DEBOUNCE_MASK;
    if seen == PRESSED_PATTERN {
        DebounceResult::Pressed
    } else if seen == RELEASED_PATTERN {
        DebounceResult::Released
    } else {
        DebounceResult::NoChange
    }
}

/// The channel's pattern after feeding one raw sample: forced to all ones
/// on a confirmed press, to all zeros on a confirmed release, otherwise
/// just the shifted history.
pub open spec fn debounce_step_pattern(pattern: u8, pressed: bool) -> u8 {
    let seen = shifted_pattern(pattern, pressed) & DEBOUNCE_MASK;
    if seen == PRESSED_PATTERN {
        0b0111_1111u8
    } else if seen == RELEASED_PATTERN {
        0b0000_0000u8
    } else {
        shifted_pattern(pattern, pressed)
    }
}

/// The debounced meaning of each sample of `samples`, fed in order to a
/// channel that starts out holding `pattern`.
pub open spec fn debounce_results(pattern: u8, samples: Seq<bool>) -> Seq<DebounceResult>
    decreases samples.len(),
{
    if samples.len() == 0 {
        Seq::empty()
    } else {
        seq![debounce_step_result(pattern, samples[0])] + debounce_results(
            debounce_step_pattern(pattern, samples[0]),
            samples.drop_first(),
        )
    }
}

/// The channel pattern left after feeding every sample of `samples`, in
/// order, to a channel that starts out holding `pattern`.
pub open spec fn debounce_final_pattern(pattern: u8, samples: Seq<bool>) -> u8
    decreases samples.len(),
{
    if samples.len() == 0 {
        pattern
    } else {
        debounce_final_pattern(debounce_step_pattern(pattern, samples[0]), samples.drop_first())
    }
}

/// The patterns a channel can hold once a press has been confirmed and
/// only high samples have followed.
pub open spec fn settled_high(pattern: u8) -> bool {
    pattern == 0b0111_1111u8 || pattern == 0b1111_1111u8
}

/// A run of samples produces exactly one result per sample.
pub proof fn lemma_results_len(pattern: u8, samples: Seq<bool>)
    ensures
        debounce_results(pattern, samples).len() == samples.len(),
    decreases samples.len(),
{
    if samples.len() > 0 {
        lemma_results_len(debounce_step_pattern(pattern, samples[0]), samples.drop_first());
    }
}

/// The first entry of a non-empty run of results is the first sample's own
/// debounced meaning.
proof fn lemma_results_index_zero(pattern: u8, samples: Seq<bool>)
    requires
        samples.len() > 0,
    ensures
        debounce_results(pattern, samples)[0] == debounce_step_result(pattern, samples[0]),
{
    let head = seq![debounce_step_result(pattern, samples[0])];
    let tail = debounce_results(debounce_step_pattern(pattern, samples[0]), samples.drop_first());
    assert(debounce_results(pattern, samples) == head + tail);
    assert((head + tail)[0] == head[0]);
}

/// A later entry of a run of results is found in the run that starts after
/// the first sample.
proof fn lemma_results_index(pattern: u8, samples: Seq<bool>, i: int)
    requires
        1 <= i < samples.len(),
    ensures
        debounce_results(pattern, samples)[i] == debounce_results(
            debounce_step_pattern(pattern, samples[0]),
            samples.drop_first(),
        )[i - 1],
{
    let head = seq![debounce_step_result(pattern, samples[0])];
    let tail = debounce_results(debounce_step_pattern(pattern, samples[0]), samples.drop_first());
    lemma_results_len(debounce_step_pattern(pattern, samples[0]), samples.drop_first());
    assert(debounce_results(pattern, samples) == head + tail);
    assert((head + tail)[i] == tail[i - 1]);
}

/// Law: once a press is confirmed, feeding high samples for ever reports
/// no further change, and the channel stays settled high.
pub proof fn lemma_idempotence_high(pattern: u8, samples: Seq<bool>)
    requires
        settled_high(pattern),
        forall|i: int| 0 <= i < samples.len() ==> samples[i] == true,
    ensures
        forall|i: int| 0 <= i < samples.len() ==> debounce_results(pattern, samples)[i]
            == DebounceResult::NoChange,
        settled_high(debounce_final_pattern(pattern, samples)),
    decreases samples.len(),
{
    if samples.len() > 0 {
        assert(samples[0] == true);
        assert(((0b0111_1111u8 << 1) | 1u8) == 0b1111_1111u8) by (bit_vector);
        assert(((0b1111_1111u8 << 1) | 1u8) == 0b1111_1111u8) by (bit_vector);
        assert((0b1111_1111u8 & 0b1100_0111u8) == 0b1100_0111u8) by (bit_vector);
        assert(debounce_step_pattern(pattern, true) == 0b1111_1111u8);
        assert(debounce_step_result(pattern, true) == DebounceResult::NoChange);
        lemma_idempotence_high(0b1111_1111u8, samples.drop_first());
        assert forall|i: int| 0 <= i < samples.len() implies debounce_results(pattern, samples)[i]
            == DebounceResult::NoChange by {
            if i == 0 {
                lemma_results_index_zero(pattern, samples);
            } else {
                lemma_results_index(pattern, samples, i);
            }
        }
    }
}

/// Law: once a release is confirmed, feeding low samples for ever reports
/// no further change, and the channel stays all zeros.
pub proof fn lemma_idempotence_low(samples: Seq<bool>)
    requires
        forall|i: int| 0 <= i < samples.len() ==> samples[i] == false,
    ensures
        forall|i: int| 0 <= i < samples.len() ==> debounce_results(0u8, samples)[i]
            == DebounceResult::NoChange,
        debounce_final_pattern(0u8, samples) == 0u8,
    decreases samples.len(),
{
    if samples.len() > 0 {
        assert(samples[0] == false);
        assert(((0u8 << 1) | 0u8) == 0u8) by (bit_vector);
        assert((0u8 & 0b1100_0111u8) == 0u8) by (bit_vector);
        assert(debounce_step_pattern(0u8, false) == 0u8);
        assert(debounce_step_result(0u8, false) == DebounceResult::NoChange);
        lemma_idempotence_low(samples.drop_first());
        assert forall|i: int| 0 <= i < samples.len() implies debounce_results(0u8, samples)[i]
            == DebounceResult::NoChange by {
            if i == 0 {
                lemma_results_index_zero(0u8, samples);
            } else {
                lemma_results_index(0u8, samples, i);
            }
        }
    }
}

/// Law: from a settled released channel (all zeros, where low samples
/// report nothing), a run of consistently high samples reports `Pressed`
/// at the third sample exactly, and nowhere else however long the run.
pub proof fn lemma_single_press(samples: Seq<bool>)
    requires
        samples.len() >= 3,
        forall|i: int| 0 <= i < samples.len() ==> samples[i] == true,
    ensures
        forall|i: int| 0 <= i < samples.len() ==> debounce_results(0u8, samples)[i] == (if i == 2 {
            DebounceResult::Pressed
        } else {
            DebounceResult::NoChange
        }),
{
    let s1 = samples.drop_first();
    let s2 = s1.drop_first();
    let s3 = s2.drop_first();
    assert(((0u8 << 1) | 1u8) == 1u8) by (bit_vector);
    assert((1u8 & 0b1100_0111u8) == 1u8) by (bit_vector);
    assert(((1u8 << 1) | 1u8) == 3u8) by (bit_vector);
    assert((3u8 & 0b1100_0111u8) == 3u8) by (bit_vector);
    assert(((3u8 << 1) | 1u8) == 7u8) by (bit_vector);
    assert((7u8 & 0b1100_0111u8) == 0b0000_0111u8) by (bit_vector);
    assert(samples[0] == true && s1[0] == true && s2[0] == true);
    assert(debounce_step_pattern(0u8, true) == 1u8);
    assert(debounce_step_result(0u8, true) == DebounceResult::NoChange);
    assert(debounce_step_pattern(1u8, true) == 3u8);
    assert(debounce_step_result(1u8, true) == DebounceResult::NoChange);
    assert(debounce_step_pattern(3u8, true) == 0b0111_1111u8);
    assert(debounce_step_result(3u8, true) == DebounceResult::Pressed);
    assert(forall|i: int| 0 <= i < s3.len() ==> s3[i] == samples[i + 3]);
    lemma_idempotence_high(0b0111_1111u8, s3);
    assert forall|i: int| 0 <= i < samples.len() implies debounce_results(0u8, samples)[i] == (if i
        == 2 {
        DebounceResult::Pressed
    } else {
        DebounceResult::NoChange
    }) by {
        if i == 0 {
            lemma_results_index_zero(0u8, samples);
        } else {
            lemma_results_index(0u8, samples, i);
            if i == 1 {
                lemma_results_index_zero(1u8, s1);
            } else {
                lemma_results_index(1u8, s1, i - 1);
                if i == 2 {
                    lemma_results_index_zero(3u8, s2);
                } else {
                    lemma_results_index(3u8, s2, i - 2);
                }
            }
        }
    }
}

/// Law: from a settled pressed channel, a run of consistently low samples
/// reports `Released` at the third sample exactly, and nowhere else
/// however long the run.
pub proof fn lemma_single_release(pattern: u8, samples: Seq<bool>)
    requires
        settled_high(pattern),
        samples.len() >= 3,
        forall|i: int| 0 <= i < samples.len() ==> samples[i] == false,
    ensures
        forall|i: int| 0 <= i < samples.len() ==> debounce_results(pattern, samples)[i] == (if i
            == 2 {
            DebounceResult::Released
        } else {
            DebounceResult::NoChange
        }),
{
    let s1 = samples.drop_first();
    let s2 = s1.drop_first();
    let s3 = s2.drop_first();
    assert(((0b0111_1111u8 << 1) | 0u8) == 0b1111_1110u8) by (bit_vector);
    assert(((0b1111_1111u8 << 1) | 0u8) == 0b1111_1110u8) by (bit_vector);
    assert((0b1111_1110u8 & 0b1100_0111u8) == 0b1100_0110u8) by (bit_vector);
    assert(((0b1111_1110u8 << 1) | 0u8) == 0b1111_1100u8) by (bit_vector);
    assert((0b1111_1100u8 & 0b1100_0111u8) == 0b1100_0100u8) by (bit_vector);
    assert(((0b1111_1100u8 << 1) | 0u8) == 0b1111_1000u8) by (bit_vector);
    assert((0b1111_1000u8 & 0b1100_0111u8) == 0b1100_0000u8) by (bit_vector);
    assert(samples[0] == false && s1[0] == false && s2[0] == false);
    assert(debounce_step_pattern(pattern, false) == 0b1111_1110u8);
    assert(debounce_step_result(pattern, false) == DebounceResult::NoChange);
    assert(debounce_step_pattern(0b1111_1110u8, false) == 0b1111_1100u8);
    assert(debounce_step_result(0b1111_1110u8, false) == DebounceResult::NoChange);
    assert(debounce_step_pattern(0b1111_1100u8, false) == 0u8);
    assert(debounce_step_result(0b1111_1100u8, false) == DebounceResult::Released);
    assert(forall|i: int| 0 <= i < s3.len() ==> s3[i] == samples[i + 3]);
    lemma_idempotence_low(s3);
    assert forall|i: int| 0 <= i < samples.len() implies debounce_results(pattern, samples)[i]
        == (if i == 2 {
        DebounceResult::Released
    } else {
        DebounceResult::NoChange
    }) by {
        if i == 0 {
            lemma_results_index_zero(pattern, samples);
        } else {
            lemma_results_index(pattern, samples, i);
            if i == 1 {
                lemma_results_index_zero(0b1111_1110u8, s1);
            } else {
                lemma_results_index(0b1111_1110u8, s1, i - 1);
                if i == 2 {
                    lemma_results_index_zero(0b1111_1100u8, s2);
                } else {
                    lemma_results_index(0b1111_1100u8, s2, i - 2);
                }
            }
        }
    }
}


/// Results of a run split at any point: the tail run starts from the
/// pattern the head run left behind.
pub proof fn lemma_results_append(pattern: u8, head: Seq<bool>, tail: Seq<bool>)
    ensures
        debounce_results(pattern, head + tail) =~= debounce_results(pattern, head)
            + debounce_results(debounce_final_pattern(pattern, head), tail),
    decreases head.len(),
{
    if head.len() == 0 {
        assert(head + tail =~= tail);
        assert(debounce_results(pattern, head) + debounce_results(
            debounce_final_pattern(pattern, head),
            tail,
        ) =~= debounce_results(pattern, tail));
    } else {
        let p1 = debounce_step_pattern(pattern, head[0]);
        assert((head + tail)[0] == head[0]);
        assert((head + tail).drop_first() =~= head.drop_first() + tail);
        lemma_results_append(p1, head.drop_first(), tail);
        lemma_results_len(p1, head.drop_first());
        lemma_results_len(p1, head.drop_first() + tail);
        lemma_results_len(debounce_final_pattern(pattern, head), tail);
        assert(debounce_results(pattern, head + tail) =~= seq![
            debounce_step_result(pattern, head[0]),
        ] + debounce_results(p1, head.drop_first() + tail));
        assert(debounce_results(pattern, head) =~= seq![
            debounce_step_result(pattern, head[0]),
        ] + debounce_results(p1, head.drop_first()));
    }
}

/// The smaller of a run's length and eight, as a shift amount.
pub open spec fn settle_shift(len: nat) -> u8 {
    if len < 8 {
        len as u8
    } else {
        8u8
    }
}

/// During a run of low samples no press can be reported, and the channel
/// pattern is either forced to zero by a confirmed release or is just the
/// initial pattern shifted left once per sample.
proof fn lemma_lows_shift(pattern: u8, samples: Seq<bool>)
    requires
        forall|i: int| 0 <= i < samples.len() ==> samples[i] == false,
    ensures
        debounce_final_pattern(pattern, samples) == 0u8 || debounce_final_pattern(pattern, samples)
            == pattern << settle_shift(samples.len()),
        forall|i: int| 0 <= i < samples.len() ==> debounce_results(pattern, samples)[i]
            != DebounceResult::Pressed,
    decreases samples.len(),
{
    if samples.len() == 0 {
        assert(pattern << 0u8 == pattern) by (bit_vector);
    } else {
        assert(samples[0] == false);
        let shifted = shifted_pattern(pattern, false);
        assert(((pattern << 1) | 0u8) == (pattern << 1)) by (bit_vector);
        assert(((pattern << 1) & 0b1100_0111u8) != 0b0000_0111u8) by (bit_vector);
        assert(debounce_step_result(pattern, false) != DebounceResult::Pressed);
        let p1 = debounce_step_pattern(pattern, false);
        if p1 == 0u8 {
            lemma_idempotence_low(samples.drop_first());
            assert(debounce_final_pattern(0u8, samples.drop_first()) == 0u8);
        } else {
            assert(p1 == (pattern << 1));
            lemma_lows_shift(p1, samples.drop_first());
            let m1 = settle_shift((samples.len() - 1) as nat);
            if samples.len() - 1 >= 8 {
                assert(((pattern << 1) << 8u8) == 0u8) by (bit_vector);
            } else {
                assert(m1 <= 7);
                assert((((pattern << 1)) << m1) == (pattern << ((m1 + 1) as u8)))
                    by (bit_vector)
                    requires
                        m1 <= 7,
                ;
                assert(settle_shift(samples.len()) == (m1 + 1) as u8);
            }
        }
        assert forall|i: int| 0 <= i < samples.len() implies debounce_results(pattern, samples)[i]
            != DebounceResult::Pressed by {
            if i == 0 {
                lemma_results_index_zero(pattern, samples);
            } else {
                lemma_results_index(pattern, samples, i);
                if p1 == 0u8 {
                    lemma_idempotence_low(samples.drop_first());
                }
            }
        }
    }
}

/// Law: whatever a channel held, eight consistent low samples settle it
/// released - the pattern is all zeros afterwards - and no press is ever
/// reported on the way there.
pub proof fn lemma_lows_settle(pattern: u8, samples: Seq<bool>)
    requires
        samples.len() >= 8,
        forall|i: int| 0 <= i < samples.len() ==> samples[i] == false,
    ensures
        debounce_final_pattern(pattern, samples) == 0u8,
        forall|i: int| 0 <= i < samples.len() ==> debounce_results(pattern, samples)[i]
            != DebounceResult::Pressed,
{
    lemma_lows_shift(pattern, samples);
    assert((pattern << 8u8) == 0u8) by (bit_vector);
}

/// Law: from any state at all, a channel fed eight consistent low
/// samples and then a sustained run of high samples reports no press
/// during the lows, and then `Pressed` at the third high sample exactly,
/// and nowhere else however long the run.
pub proof fn lemma_single_press_after_quiet(pattern: u8, lows: Seq<bool>, highs: Seq<bool>)
    requires
        lows.len() >= 8,
        forall|i: int| 0 <= i < lows.len() ==> lows[i] == false,
        highs.len() >= 3,
        forall|i: int| 0 <= i < highs.len() ==> highs[i] == true,
    ensures
        forall|i: int| 0 <= i < lows.len() ==> debounce_results(pattern, lows + highs)[i]
            != DebounceResult::Pressed,
        forall|i: int| lows.len() <= i < lows.len() + highs.len() ==> debounce_results(
            pattern,
            lows + highs,
        )[i] == (if i == lows.len() + 2 {
            DebounceResult::Pressed
        } else {
            DebounceResult::NoChange
        }),
{
    lemma_results_append(pattern, lows, highs);
    lemma_lows_settle(pattern, lows);
    lemma_single_press(highs);
    lemma_results_len(pattern, lows);
    lemma_results_len(0u8, highs);
    let whole = debounce_results(pattern, lows) + debounce_results(0u8, highs);
    assert forall|i: int| 0 <= i < lows.len() implies debounce_results(pattern, lows + highs)[i]
        != DebounceResult::Pressed by {
        assert(whole[i] == debounce_results(pattern, lows)[i]);
    }
    assert forall|i: int| lows.len() <= i < lows.len() + highs.len() implies debounce_results(
        pattern,
        lows + highs,
    )[i] == (if i == lows.len() + 2 {
        DebounceResult::Pressed
    } else {
        DebounceResult::NoChange
    }) by {
        assert(whole[i] == debounce_results(0u8, highs)[i - lows.len()]);
    }
}


/// The all-ones pattern of a run's length, capped at eight bits.
pub open spec fn settle_ones(len: nat) -> u8 {
    if len < 8 {
        ((1u8 << (len as u8)) - 1) as u8
    } else {
        0b1111_1111u8
    }
}

/// During a run of high samples no release can be reported, and the
/// channel pattern is either settled high by a confirmed press or is the
/// initial pattern shifted left once per sample with ones shifted in.
proof fn lemma_highs_shift(pattern: u8, samples: Seq<bool>)
    requires
        forall|i: int| 0 <= i < samples.len() ==> samples[i] == true,
    ensures
        settled_high(debounce_final_pattern(pattern, samples)) || debounce_final_pattern(
            pattern,
            samples,
        ) == (pattern << settle_shift(samples.len())) | settle_ones(samples.len()),
        forall|i: int| 0 <= i < samples.len() ==> debounce_results(pattern, samples)[i]
            != DebounceResult::Released,
    decreases samples.len(),
{
    if samples.len() == 0 {
        assert(((pattern << 0u8) | ((1u8 << 0u8) - 1) as u8) == pattern) by (bit_vector);
    } else {
        assert(samples[0] == true);
        assert(((pattern << 1) | 1u8) & 0b1100_0111u8 != 0b1100_0000u8) by (bit_vector);
        assert(debounce_step_result(pattern, true) != DebounceResult::Released);
        let p1 = debounce_step_pattern(pattern, true);
        if p1 == 0b0111_1111u8 && ((pattern << 1) | 1u8) != 0b0111_1111u8 {
            lemma_idempotence_high(p1, samples.drop_first());
        } else {
            assert(p1 == ((pattern << 1) | 1u8));
            lemma_highs_shift(p1, samples.drop_first());
            let m1 = settle_shift((samples.len() - 1) as nat);
            if samples.len() - 1 >= 8 {
                assert(((((pattern << 1) | 1u8) << 8u8) | 0b1111_1111u8) == 0b1111_1111u8)
                    by (bit_vector);
                assert(settle_ones(samples.len()) == 0b1111_1111u8);
            } else {
                assert(m1 <= 7);
                assert(((((pattern << 1) | 1u8) << m1) | ((1u8 << m1) - 1) as u8) == ((pattern << (
                (m1 + 1) as u8)) | ((1u8 << ((m1 + 1) as u8)) - 1) as u8))
                    by (bit_vector)
                    requires
                        m1 <= 7,
                ;
                assert(settle_shift(samples.len()) == (m1 + 1) as u8);
                if samples.len() < 8 {
                    assert(settle_ones(samples.len()) == ((1u8 << ((m1 + 1) as u8)) - 1) as u8);
                } else {
                    assert((m1 + 1) as u8 == 8);
                    assert(((1u8 << 8u8) - 1) as u8 == 0b1111_1111u8) by (bit_vector);
                }
            }
        }
        assert forall|i: int| 0 <= i < samples.len() implies debounce_results(pattern, samples)[i]
            != DebounceResult::Released by {
            if i == 0 {
                lemma_results_index_zero(pattern, samples);
            } else {
                lemma_results_index(pattern, samples, i);
                if !(p1 == ((pattern << 1) | 1u8)) {
                    lemma_idempotence_high(p1, samples.drop_first());
                }
            }
        }
    }
}

/// Law: whatever a channel held, eight consistent high samples settle it
/// pressed, and no release is ever reported on the way there.
pub proof fn lemma_highs_settle(pattern: u8, samples: Seq<bool>)
    requires
        samples.len() >= 8,
        forall|i: int| 0 <= i < samples.len() ==> samples[i] == true,
    ensures
        settled_high(debounce_final_pattern(pattern, samples)),
        forall|i: int| 0 <= i < samples.len() ==> debounce_results(pattern, samples)[i]
            != DebounceResult::Released,
{
    lemma_highs_shift(pattern, samples);
    assert(((pattern << 8u8) | 0b1111_1111u8) == 0b1111_1111u8) by (bit_vector);
}

/// Law: from any state at all, a channel fed eight consistent high
/// samples and then a sustained run of low samples reports no release
/// during the highs, and then `Released` at the third low sample exactly,
/// and nowhere else however long the run.
pub proof fn lemma_single_release_after_quiet(pattern: u8, highs: Seq<bool>, lows: Seq<bool>)
    requires
        highs.len() >= 8,
        forall|i: int| 0 <= i < highs.len() ==> highs[i] == true,
        lows.len() >= 3,
        forall|i: int| 0 <= i < lows.len() ==> lows[i] == false,
    ensures
        forall|i: int| 0 <= i < highs.len() ==> debounce_results(pattern, highs + lows)[i]
            != DebounceResult::Released,
        forall|i: int| highs.len() <= i < highs.len() + lows.len() ==> debounce_results(
            pattern,
            highs + lows,
        )[i] == (if i == highs.len() + 2 {
            DebounceResult::Released
        } else {
            DebounceResult::NoChange
        }),
{
    lemma_results_append(pattern, highs, lows);
    lemma_highs_settle(pattern, highs);
    let settled = debounce_final_pattern(pattern, highs);
    lemma_single_release(settled, lows);
    lemma_results_len(pattern, highs);
    lemma_results_len(settled, lows);
    let whole = debounce_results(pattern, highs) + debounce_results(settled, lows);
    assert forall|i: int| 0 <= i < highs.len() implies debounce_results(pattern, highs + lows)[i]
        != DebounceResult::Released by {
        assert(whole[i] == debounce_results(pattern, highs)[i]);
    }
    assert forall|i: int| highs.len() <= i < highs.len() + lows.len() implies debounce_results(
        pattern,
        highs + lows,
    )[i] == (if i == highs.len() + 2 {
        DebounceResult::Released
    } else {
        DebounceResult::NoChange
    }) by {
        assert(whole[i] == debounce_results(settled, lows)[i - highs.len()]);
    }
}

/// One shift-register pattern per debounced input channel. A fresh
/// debouncer starts every channel settled released (all zeros).
pub struct Debouncer {
    patterns: Vec<u8>,
}

impl View for Debouncer {
    type V = Seq<u8>;

    closed spec fn view(&self) -> Seq<u8> {
        self.patterns@
    }
}

impl Debouncer {
    /// A debouncer over the given per-channel storage: one channel per
    /// element, each started settled released whatever the storage held.
    pub fn new(patterns: Vec<u8>) -> (r: Debouncer)
        ensures
            r@.len() == patterns@.len(),
            forall|i: int| 0 <= i < r@.len() ==> r@[i] == 0u8,
    {
        let mut patterns = patterns;
        let n = patterns.len();
        let mut i: usize = 0;
        while i < n
            invariant
                i <= n,
                patterns@.len() == n,
                forall|k: int| 0 <= k < i ==> patterns@[k] == 0u8,
            decreases n - i,
        {
            patterns.set(i, 0);
            i += 1;
        }
        Debouncer { patterns }
    }

    /// Feeds one raw sample to channel `key_no` and reports whether it
    /// confirms an edge. A channel index out of range is a caller error.
    pub fn update(&mut self, key_no: usize, pressed: bool) -> (r: DebounceResult)
        requires
            key_no < old(self)@.len(),
        ensures
            r == debounce_step_result(old(self)@[key_no as int], pressed),
            final(self)@ == old(self)@.update(
                key_no as int,
                debounce_step_pattern(old(self)@[key_no as int], pressed),
            ),
    {
        let next: u8 = if pressed { 1 } else { 0 };
        let shifted: u8 = (self.patterns[key_no] << 1) | next;
        self.patterns.set(key_no, shifted);
        let mut result = DebounceResult::NoChange;
        let seen = shifted & DEBOUNCE_MASK;
        if seen == PRESSED_PATTERN {
            result = DebounceResult::Pressed;
            self.patterns.set(key_no, 0b0111_1111);
        } else if seen == RELEASED_PATTERN {
            result = DebounceResult::Released;
            self.patterns.set(key_no, 0b0000_0000);
        }
        result
    }
}

} // verus!
