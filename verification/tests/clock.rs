use inverse::clock::Clock;

#[test]
fn new_clock_is_empty() {
    assert_eq!(Clock::new(), Clock { pending: 0 });
    assert_eq!(Clock::PARTS_PER_STEP, 1_000_000);
}

#[test]
fn clock_hands_out_whole_steps_and_keeps_the_rest() {
    let mut clock = Clock::new();
    assert_eq!(clock.advance(999_999), 0);
    assert_eq!(clock.pending, 999_999);
    assert_eq!(clock.advance(1), 1);
    assert_eq!(clock.pending, 0);
    assert_eq!(clock.advance(2_500_000), 2);
    assert_eq!(clock.pending, 500_000);
    assert_eq!(clock.advance(600_000), 1);
    assert_eq!(clock.pending, 100_000);
    assert_eq!(clock.advance(0), 0);
    assert_eq!(clock.pending, 100_000);
}

#[test]
fn clock_runs_at_most_five_steps_and_drops_what_is_beyond() {
    let mut clock = Clock::new();
    assert_eq!(clock.advance(5_999_999), 5);
    assert_eq!(clock.pending, 999_999);
    let mut clock = Clock::new();
    assert_eq!(clock.advance(6_000_000), 5);
    assert_eq!(clock.pending, 1_000_000);
    // The step that was kept is run with the next frame.
    assert_eq!(clock.advance(0), 1);
    assert_eq!(clock.pending, 0);
    let mut clock = Clock::new();
    assert_eq!(clock.advance(60_000_000), 5);
    assert_eq!(clock.pending, 1_000_000);
    assert_eq!(clock.advance(250_000), 1);
    assert_eq!(clock.pending, 250_000);
}

#[test]
fn clock_saturates() {
    let mut clock = Clock { pending: u64::MAX };
    assert_eq!(clock.advance(u64::MAX), 5);
    assert_eq!(clock.pending, 1_000_000);
    let mut clock = Clock { pending: 3 };
    assert_eq!(clock.advance(u64::MAX - 2), 5);
    assert_eq!(clock.pending, 1_000_000);
}
