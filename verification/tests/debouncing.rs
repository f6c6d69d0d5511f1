use sequence_memory::debouncing::{DebounceResult, Debouncer};

#[test]
fn test_it_works() {
    let storage = vec![1];
    let mut db = Debouncer::new(storage);
    //activate
    assert!(db.update(0, true) == DebounceResult::NoChange);
    assert!(db.update(0, true) == DebounceResult::NoChange);
    assert!(db.update(0, true) == DebounceResult::Pressed);
    //deactivate
    assert!(db.update(0, false) == DebounceResult::NoChange);
    assert!(db.update(0, false) == DebounceResult::NoChange);
    assert!(db.update(0, false) == DebounceResult::Released);

    //let's do noise.
    assert!(db.update(0, true) == DebounceResult::NoChange);
    assert!(db.update(0, false) == DebounceResult::NoChange);
    assert!(db.update(0, false) == DebounceResult::NoChange);
    assert!(db.update(0, false) == DebounceResult::NoChange);
    assert!(db.update(0, false) == DebounceResult::NoChange);
    assert!(db.update(0, false) == DebounceResult::NoChange);
    assert!(db.update(0, false) == DebounceResult::NoChange);

    assert!(db.update(0, true) == DebounceResult::NoChange);
    assert!(db.update(0, true) == DebounceResult::NoChange);
    assert!(db.update(0, true) == DebounceResult::Pressed);
    assert!(db.update(0, true) == DebounceResult::NoChange);
    assert!(db.update(0, false) == DebounceResult::NoChange);
    assert!(db.update(0, false) == DebounceResult::NoChange);
    assert!(db.update(0, true) == DebounceResult::NoChange);
    assert!(db.update(0, true) == DebounceResult::NoChange);
    assert!(db.update(0, true) == DebounceResult::NoChange);
}

// From a settled released channel, three consistent high samples give one
// Pressed at the third sample exactly, and further highs report nothing.
#[test]
fn press_confirmed_at_third_high_sample() {
    let mut db = Debouncer::new(vec![0]);
    for _ in 0..5 {
        assert_eq!(db.update(0, false), DebounceResult::NoChange);
    }
    assert_eq!(db.update(0, true), DebounceResult::NoChange);
    assert_eq!(db.update(0, true), DebounceResult::NoChange);
    assert_eq!(db.update(0, true), DebounceResult::Pressed);
    for _ in 0..20 {
        assert_eq!(db.update(0, true), DebounceResult::NoChange);
    }
}

// Symmetric: from a settled pressed channel, three consistent low samples
// give one Released at the third sample exactly.
#[test]
fn release_confirmed_at_third_low_sample() {
    let mut db = Debouncer::new(vec![0]);
    assert_eq!(db.update(0, true), DebounceResult::NoChange);
    assert_eq!(db.update(0, true), DebounceResult::NoChange);
    assert_eq!(db.update(0, true), DebounceResult::Pressed);
    assert_eq!(db.update(0, false), DebounceResult::NoChange);
    assert_eq!(db.update(0, false), DebounceResult::NoChange);
    assert_eq!(db.update(0, false), DebounceResult::Released);
    for _ in 0..20 {
        assert_eq!(db.update(0, false), DebounceResult::NoChange);
    }
}

// A single noisy flip inside a stable run produces no spurious event:
// the sample row 1,1,1,0,1,1,1,1 reports exactly one Pressed.
#[test]
fn single_noise_flip_gives_one_event() {
    let mut db = Debouncer::new(vec![0]);
    let samples = [true, true, true, false, true, true, true, true];
    let mut presses = 0;
    let mut releases = 0;
    for &s in samples.iter() {
        match db.update(0, s) {
            DebounceResult::Pressed => presses += 1,
            DebounceResult::Released => releases += 1,
            DebounceResult::NoChange => {}
        }
    }
    assert_eq!(presses, 1);
    assert_eq!(releases, 0);
}

// Channels are independent: an edge on one never reports on the other.
#[test]
fn channels_are_independent() {
    let mut db = Debouncer::new(vec![0, 0]);
    assert_eq!(db.update(0, true), DebounceResult::NoChange);
    assert_eq!(db.update(1, false), DebounceResult::NoChange);
    assert_eq!(db.update(0, true), DebounceResult::NoChange);
    assert_eq!(db.update(1, false), DebounceResult::NoChange);
    assert_eq!(db.update(0, true), DebounceResult::Pressed);
    assert_eq!(db.update(1, false), DebounceResult::NoChange);
}
