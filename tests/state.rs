use fiv::config::{InputConfig, QualityTier};
use fiv::state::{Direction, InputState, SharedState, ViewState};
use std::time::{Duration, Instant};

#[test]
fn test_navigation() {
    let mut state = ViewState::new(10, 800, 600);

    // Forward
    state.navigate(1);
    assert_eq!(state.current_index, 1);

    // Backward
    state.navigate(-1);
    assert_eq!(state.current_index, 0);

    // Wrap forward (navigate to end then forward)
    state.navigate(i32::MAX); // Go to last image
    assert_eq!(state.current_index, 9);
    state.navigate(1);
    assert_eq!(state.current_index, 0);

    // Wrap backward
    state.navigate(-1);
    assert_eq!(state.current_index, 9);
}

#[test]
fn test_click_vs_hold() {
    let config = InputConfig {
        hold_threshold: Duration::from_millis(150),
        repeat_interval: Duration::from_millis(60),
    };

    let mut input = InputState::new();

    // Quick press-release should not navigate until release
    input.set_right(true);
    let result = input.process(&config);
    assert_eq!(result, None); // No navigation yet - waiting to see if it's a click or hold

    // Release quickly - should queue a click
    input.set_right(false);
    let result = input.process(&config);
    assert_eq!(result, Some(1)); // Click navigation

    // Should not navigate again
    let result = input.process(&config);
    assert_eq!(result, None);
}

fn wait(ms: u64) {
    let start = Instant::now();
    while start.elapsed() < Duration::from_millis(ms) {}
}

#[test]
fn test_hold_repeat() {
    let config = InputConfig {
        hold_threshold: Duration::from_millis(10), // Short for testing
        repeat_interval: Duration::from_millis(5),
    };

    let mut input = InputState::new();

    // Press and hold
    input.set_right(true);

    // Wait past threshold
    wait(15);

    // Should enter repeat mode
    let result = input.process(&config);
    assert_eq!(result, Some(1));

    // Wait for repeat interval
    wait(10);
    let result = input.process(&config);
    assert_eq!(result, Some(1));
}

#[test]
fn test_shared_state() {
    let mut state = SharedState::new();

    assert_eq!(state.current(), 0);

    state.set_current(5);
    assert_eq!(state.current(), 5);

    assert!(!state.is_shutdown());
    state.shutdown();
    assert!(state.is_shutdown());
}

#[test]
fn test_direction_tracking() {
    let mut state = SharedState::new();
    state.set_total(10);

    // Initial direction unknown
    assert_eq!(state.direction(), Direction::Unknown);

    // Move forward: 0 -> 1
    state.set_current(1);
    assert_eq!(state.direction(), Direction::Forward);

    // Move forward: 1 -> 2
    state.set_current(2);
    assert_eq!(state.direction(), Direction::Forward);

    // Move backward: 2 -> 1
    state.set_current(1);
    assert_eq!(state.direction(), Direction::Backward);

    // Wrap around forward: 9 -> 0
    state.set_current(9);
    state.set_current(0);
    assert_eq!(state.direction(), Direction::Forward);

    // Wrap around backward: 0 -> 9
    state.set_current(9);
    assert_eq!(state.direction(), Direction::Backward);
}

#[test]
fn direction_sequence_from_start() {
    let mut state = SharedState::new();
    state.set_total(10);
    let mut seen = vec![state.direction()];
    for i in [1usize, 2, 1] {
        state.set_current(i);
        seen.push(state.direction());
    }
    assert_eq!(
        seen,
        vec![Direction::Unknown, Direction::Forward, Direction::Forward, Direction::Backward]
    );
}

#[test]
fn direction_wraps_both_ways() {
    let mut state = SharedState::new();
    state.set_total(10);
    state.set_current(9);
    state.set_current(0);
    assert_eq!(state.direction(), Direction::Forward);
    state.set_current(9);
    assert_eq!(state.direction(), Direction::Backward);
}

#[test]
fn direction_of_jumps_and_no_move() {
    let mut state = SharedState::new();
    state.set_total(10);
    state.set_current(6);
    assert_eq!(state.direction(), Direction::Forward);
    state.set_current(2);
    assert_eq!(state.direction(), Direction::Backward);
    state.set_current(2);
    assert_eq!(state.direction(), Direction::Unknown);
    let mut no_total = SharedState::new();
    no_total.set_current(3);
    assert_eq!(no_total.direction(), Direction::Unknown);
}

#[test]
fn navigate_large_steps_and_home() {
    let mut state = ViewState::new(10, 800, 600);
    state.navigate(23);
    assert_eq!(state.current_index, 3);
    state.navigate(-7);
    assert_eq!(state.current_index, 6);
    state.navigate(-26);
    assert_eq!(state.current_index, 0);
    state.navigate(i32::MIN);
    assert_eq!(state.current_index, 0);
    state.navigate(i32::MIN + 1);
    assert_eq!(state.current_index, 3);
    let mut empty = ViewState::new(0, 800, 600);
    empty.needs_render = false;
    empty.navigate(1);
    assert_eq!(empty.current_index, 0);
    assert!(!empty.needs_render);
}

#[test]
fn view_render_bookkeeping() {
    let mut state = ViewState::new(3, 800, 600);
    assert!(state.needs_render);
    state.render_complete(QualityTier::Preview);
    assert!(!state.needs_render);
    assert!(state.needs_quality_upgrade());
    state.signal_quality_upgrade();
    assert!(state.needs_render);
    state.render_complete(QualityTier::Full);
    assert!(!state.needs_quality_upgrade());
    state.resize(0, 10);
    assert_eq!((state.window_width, state.window_height), (800, 600));
    assert!(!state.needs_render);
    state.resize(1024, 768);
    assert_eq!((state.window_width, state.window_height), (1024, 768));
    assert!(state.needs_render);
}

#[test]
fn view_titles() {
    let mut state = ViewState::new(12, 800, 600);
    state.navigate(9);
    assert_eq!(state.title("cat.png"), "Fiv - cat.png [10/12]");
    state.render_complete(QualityTier::Thumbnail);
    assert_eq!(state.title("cat.png"), "Fiv - cat.png [10/12] [loading...]");
    state.render_complete(QualityTier::Preview);
    assert_eq!(state.title("cat.png"), "Fiv - cat.png [10/12] [preview]");
    assert_eq!(ViewState::new(0, 1, 1).title("x"), "Fiv - No images found");
}

#[test]
fn input_home_end_and_left_click() {
    let config = InputConfig::default();
    let mut input = InputState::new();
    assert!(!input.is_navigating());
    input.home_pressed = true;
    input.end_pressed = true;
    assert!(input.is_navigating());
    assert_eq!(input.process(&config), Some(i32::MIN));
    assert_eq!(input.process(&config), Some(i32::MAX));
    assert_eq!(input.process(&config), None);
    input.set_left(true);
    assert!(input.is_navigating());
    assert_eq!(input.process(&config), None);
    input.set_left(false);
    assert_eq!(input.process(&config), Some(-1));
    assert!(!input.is_navigating());
}

#[test]
fn advance_hold_decisions() {
    let mut input = InputState::new();
    input.set_right(true);
    let now = Instant::now();
    assert_eq!(input.advance_hold(now, false, true), None);
    assert_eq!(input.advance_hold(now, true, false), Some(1));
    assert_eq!(input.advance_hold(now, true, false), None);
    assert_eq!(input.advance_hold(now, false, true), Some(1));
    // releasing after repeating queues no click
    input.set_right(false);
    assert_eq!(input.process(&InputConfig::default()), None);
}
