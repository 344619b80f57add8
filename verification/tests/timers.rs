use rust_survivors::timer::Timer;

#[test]
fn repeating_timer_edge_and_level() {
    let mut t = Timer::new(1000, true);
    assert!(!t.is_complete());
    assert!(!t.is_just_complete());

    t.advance(500);
    assert!(!t.is_complete());
    assert!(!t.is_just_complete());

    t.advance(500);
    assert!(t.is_complete());
    assert!(t.is_just_complete());

    // Auto-reset: the accumulator holds only the overshoot.
    assert_eq!(t.elapsed_ms, 0);
    t.advance(250);
    assert!(!t.is_complete());
    assert!(!t.is_just_complete());
}

#[test]
fn repeating_timer_keeps_overshoot() {
    let mut t = Timer::new(1000, true);
    t.advance(1300);
    assert!(t.is_just_complete());
    assert_eq!(t.elapsed_ms, 300);
    t.advance(700);
    assert!(t.is_just_complete());
    assert_eq!(t.elapsed_ms, 0);
}

#[test]
fn one_shot_timer_stays_complete() {
    let mut t = Timer::new(1000, false);
    t.advance(999);
    assert!(!t.is_complete());

    t.advance(1);
    assert!(t.is_complete());
    assert!(t.is_just_complete());

    // Level signal persists; edge signal fires only on the crossing tick.
    t.advance(400);
    assert!(t.is_complete());
    assert!(!t.is_just_complete());
    assert_eq!(t.elapsed_ms, 1000);
}

#[test]
fn zero_elapsed_changes_nothing() {
    let mut t = Timer::new(500, true);
    t.advance(0);
    assert!(!t.is_complete());
    assert_eq!(t.elapsed_ms, 0);
}
