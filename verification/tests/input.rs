use renderer::input::keyboard::Keyboard;
use renderer::input::universal::{Button, ButtonBindings, InputSource};
use renderer::input::{ElementState, Input, KeyboardInput};

fn press(key: u32) -> KeyboardInput {
    KeyboardInput { virtual_keycode: Some(key), state: ElementState::Pressed }
}

fn release(key: u32) -> KeyboardInput {
    KeyboardInput { virtual_keycode: Some(key), state: ElementState::Released }
}

#[test]
fn keyboard_starts_enabled_with_all_keys_up() {
    let mut kb = Keyboard::default();
    assert!(kb.is_enabled());
    for key in 0..512u32 {
        assert!(kb.is_key_up(key));
        assert!(!kb.is_key_down(key));
        assert!(!kb.was_key_pressed(key));
        assert!(!kb.was_key_released(key));
    }
}

#[test]
fn keyboard_press_is_seen_once() {
    let mut kb = Keyboard::default();
    kb.handle_event(press(22));
    assert!(kb.is_key_down(22));
    assert!(kb.was_key_pressed(22));
    assert!(!kb.was_key_released(22));
    assert!(kb.is_key_up(23));
    kb.frame_finished();
    assert!(kb.is_key_down(22));
    assert!(!kb.was_key_pressed(22));
    assert!(!kb.was_key_released(22));
}

#[test]
fn keyboard_release_is_seen_once() {
    let mut kb = Keyboard::default();
    kb.handle_event(press(5));
    kb.frame_finished();
    kb.handle_event(release(5));
    assert!(kb.is_key_up(5));
    assert!(kb.was_key_released(5));
    assert!(!kb.was_key_pressed(5));
    kb.frame_finished();
    assert!(!kb.was_key_released(5));
}

#[test]
fn keyboard_press_and_release_in_one_frame_leaves_no_edge() {
    let mut kb = Keyboard::default();
    kb.handle_event(press(100));
    kb.handle_event(release(100));
    assert!(!kb.was_key_pressed(100));
    assert!(!kb.was_key_released(100));
    assert!(kb.is_key_up(100));
}

#[test]
fn keyboard_ignores_events_without_key_code() {
    let mut kb = Keyboard::default();
    kb.handle_event(KeyboardInput { virtual_keycode: None, state: ElementState::Pressed });
    for key in 0..512u32 {
        assert!(kb.is_key_up(key));
    }
}

#[test]
fn keyboard_disabled_ignores_events_and_releases_keys() {
    let mut kb = Keyboard::default();
    kb.handle_event(press(1));
    kb.handle_event(press(511));
    kb.set_enabled(false);
    assert!(!kb.is_enabled());
    assert!(kb.is_key_up(1));
    assert!(kb.is_key_up(511));
    kb.handle_event(press(2));
    assert!(kb.is_key_up(2));
    kb.set_enabled(true);
    assert!(kb.is_enabled());
    kb.handle_event(press(2));
    assert!(kb.is_key_down(2));
}

#[test]
fn keyboard_enabling_keeps_held_keys() {
    let mut kb = Keyboard::default();
    kb.handle_event(press(7));
    kb.set_enabled(true);
    assert!(kb.is_key_down(7));
}

#[test]
fn keyboard_disable_makes_held_key_released_next_frame() {
    let mut kb = Keyboard::default();
    kb.handle_event(press(9));
    kb.frame_finished();
    kb.set_enabled(false);
    assert!(kb.was_key_released(9));
}

#[test]
fn input_tracks_key_state() {
    let mut input = Input::default();
    assert!(input.input_enabled);
    assert!(input.is_key_up(30));
    input.handle_event(press(30));
    assert!(input.is_key_down(30));
    assert!(!input.is_key_up(30));
    input.handle_event(release(30));
    assert!(input.is_key_up(30));
}

#[test]
fn input_disabling_releases_and_ignores() {
    let mut input = Input::default();
    input.handle_event(press(3));
    input.set_input_enabled(false);
    assert!(input.is_key_up(3));
    input.handle_event(press(4));
    assert!(input.is_key_up(4));
    input.set_input_enabled(true);
    input.handle_event(press(4));
    assert!(input.is_key_down(4));
}

#[test]
fn button_starts_released() {
    let b = Button::new();
    assert!(!b.down);
    assert!(!b.was_pressed);
    assert!(!b.was_released);
}

#[test]
fn button_reports_edges() {
    let mut b = Button::new();
    b.accept_state(true);
    assert!(b.down && b.was_pressed && !b.was_released);
    b.accept_state(true);
    assert!(b.down && !b.was_pressed && !b.was_released);
    b.accept_state(false);
    assert!(!b.down && !b.was_pressed && b.was_released);
    b.accept_state(false);
    assert!(!b.down && !b.was_pressed && !b.was_released);
}

#[test]
fn bound_key_drives_its_button() {
    let mut b = ButtonBindings::new(2, vec![(InputSource::Key(42), 1)]);
    assert!(!b.button(0).down && !b.button(1).down);
    b.accept(InputSource::Key(42), true);
    assert!(b.button(1).down);
    assert!(b.button(1).was_pressed);
    assert!(!b.button(0).down && !b.button(0).was_pressed);
    b.accept(InputSource::Key(42), true);
    assert!(b.button(1).down && !b.button(1).was_pressed);
    b.accept(InputSource::Key(42), false);
    assert!(!b.button(1).down && b.button(1).was_released);
}

#[test]
fn unbound_sources_leave_buttons_alone() {
    let mut b = ButtonBindings::new(1, vec![(InputSource::Key(7), 0)]);
    b.accept(InputSource::Key(8), true);
    b.accept(InputSource::MouseMovementX, true);
    assert!(!b.button(0).down && !b.button(0).was_pressed);
}

#[test]
fn one_source_can_drive_several_buttons_and_missing_ones_are_skipped() {
    let mut b = ButtonBindings::new(
        2,
        vec![
            (InputSource::MouseMovementY, 0),
            (InputSource::MouseMovementY, 5),
            (InputSource::MouseMovementY, 1),
        ],
    );
    b.accept(InputSource::MouseMovementY, true);
    assert!(b.button(0).down && b.button(0).was_pressed);
    assert!(b.button(1).down && b.button(1).was_pressed);
}

#[test]
fn button_bound_twice_to_a_key_loses_its_edge() {
    let mut b = ButtonBindings::new(1, vec![(InputSource::Key(3), 0), (InputSource::Key(3), 0)]);
    b.accept(InputSource::Key(3), true);
    assert!(b.button(0).down);
    assert!(!b.button(0).was_pressed);
}

#[test]
fn release_all_lifts_every_button() {
    let mut b = ButtonBindings::new(2, vec![(InputSource::Key(1), 0)]);
    b.accept(InputSource::Key(1), true);
    b.release_all();
    assert!(!b.button(0).down && b.button(0).was_released);
    assert!(!b.button(1).down && !b.button(1).was_released);
}
