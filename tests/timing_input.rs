use space_survival::clock::{TickClock, MICROS_PER_TICK};
use space_survival::input::{InputManager, Key};

#[test]
fn tick_length_is_rounded_down() {
    assert_eq!(MICROS_PER_TICK, 33333);
}

#[test]
fn whole_ticks_are_due() {
    let mut clock = TickClock::new();
    assert_eq!(clock.advance(10_000), 0);
    assert_eq!(clock.interp_micros(), 10_000);
    assert_eq!(clock.advance(30_000), 1);
    assert_eq!(clock.interp_micros(), 40_000 - 33_333);
    assert_eq!(clock.advance(100_000), 3);
    assert_eq!(clock.virtual_time(), 140_000);
    assert_eq!(clock.advance(0), 0);
}

#[test]
fn catch_up_runs_every_missed_tick() {
    let mut slow = TickClock::new();
    let mut fast = TickClock::new();
    let slow_ticks = slow.advance(1_000_000);
    let mut fast_ticks = 0;
    for _ in 0..100 {
        fast_ticks += fast.advance(10_000);
    }
    assert_eq!(slow_ticks, 30);
    assert_eq!(fast_ticks, 30);
    assert_eq!(slow.interp_micros(), fast.interp_micros());
}

#[test]
fn keys_held_and_events() {
    let mut input = InputManager::new();
    assert!(!input.input(Key::ArrowLeft, true));
    input.input(Key::ArrowLeft, true);
    assert!(input.is_down(Key::ArrowLeft));
    assert!(input.is_make(Key::ArrowLeft));
    assert!(!input.is_break(Key::ArrowLeft));
    input.input(Key::ArrowLeft, false);
    assert!(!input.is_down(Key::ArrowLeft));
    assert!(input.is_break(Key::ArrowLeft));
    input.input(Key::KeyW, true);
    input.clear_events();
    assert!(input.is_down(Key::KeyW));
    assert!(!input.is_make(Key::KeyW));
    assert!(!input.is_make(Key::ArrowLeft));
    assert!(!input.is_break(Key::ArrowLeft));
}

#[test]
fn escape_requests_exit() {
    let mut input = InputManager::new();
    assert!(!input.exit_requested());
    input.input(Key::Escape, false);
    assert!(input.exit_requested());
    input.clear_events();
    assert!(!input.exit_requested());
    input.input(Key::Escape, true);
    assert!(input.exit_requested());
}
