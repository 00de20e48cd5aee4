use crystallized_time::config::MidiConfig;
use crystallized_time::debounce::{rate_gate_open, voice_route, Debouncer};

#[test]
fn respects_debounce_window() {
    // A clean crossing each time; the last pulse was at tick 100 and the
    // window is 4 ticks.
    let mut d = Debouncer::new(4);
    assert!(d.fire(true, 100));
    // Inside the window (102 - 100 = 2, not > 4).
    assert!(!d.fire(true, 102));
    // Just outside (105 - 100 = 5 > 4).
    assert!(d.fire(true, 105));
    assert_eq!(d.last_fire_tick(), 105);
}

#[test]
fn no_crossing_never_fires() {
    let mut d = Debouncer::new(0);
    assert!(!d.fire(false, 1000));
    assert_eq!(d.last_fire_tick(), 0);
}

#[test]
fn window_counts_from_tick_zero_before_first_firing() {
    let mut d = Debouncer::new(2);
    assert!(!d.fire(true, 2));
    assert!(d.fire(true, 3));
}

#[test]
fn tick_before_last_firing_is_inside_the_window() {
    let mut d = Debouncer::new(1);
    assert!(d.fire(true, 50));
    assert!(!d.fire(true, 10));
    assert_eq!(d.last_fire_tick(), 50);
}

#[test]
fn rate_gate() {
    assert!(rate_gate_open(Some(100), None, 100));
    assert!(rate_gate_open(None, Some(50), 0));
    assert!(!rate_gate_open(Some(100), Some(50), 149));
    assert!(rate_gate_open(Some(100), Some(50), 150));
    // A clock that went backwards counts as no time passed.
    assert!(!rate_gate_open(Some(100), Some(1), 90));
    assert!(rate_gate_open(Some(100), Some(0), 90));
}

#[test]
fn voice_routes_fall_back_to_defaults() {
    let config = MidiConfig {
        voice_channels: vec![3, 4],
        voice_pitches: vec![60],
        gate_length_ms: 50,
    };
    assert_eq!(voice_route(&config, 0), (3, 60));
    assert_eq!(voice_route(&config, 1), (4, 48));
    assert_eq!(voice_route(&config, 2), (0, 48));
}
