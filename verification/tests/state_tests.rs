use autoclicker::config::Config;
use autoclicker::keys::Key;
use autoclicker::state::{click_interval_micros, MouseButton, Pace, RuntimeState};

#[test]
fn fresh_state_is_idle_with_defaults() {
    let s = RuntimeState::default();
    assert!(!s.running);
    assert!(!s.rebinding);
    assert_eq!(s.hotkey, Key::Insert);
    assert!(s.fast_mode);
    assert_eq!(s.target_cps_milli, 10_000);
    assert_eq!(s.selected_buttons, vec![MouseButton::Left]);
    assert!(s.click_times.is_empty());
}

#[test]
fn unparsed_hotkey_name_falls_back_to_insert() {
    let mut c = Config::default();
    c.hotkey = b"zzz".to_vec();
    let s = RuntimeState::from_config(&c);
    assert_eq!(s.hotkey, Key::Insert);
}

#[test]
fn zero_rate_falls_back_on_load() {
    let mut c = Config::default();
    c.target_cps_milli = 0;
    let s = RuntimeState::from_config(&c);
    assert_eq!(s.target_cps_milli, 10_000);
}

#[test]
fn toggling_twice_restores_the_original_state() {
    let mut s = RuntimeState::default();
    assert!(!s.running);
    s.toggle_running();
    assert!(s.running);
    s.toggle_running();
    assert!(!s.running);
    assert_eq!(s.hotkey, Key::Insert);
    assert!(!s.rebinding);
}

#[test]
fn rebinding_captures_the_next_key_press() {
    let mut s = RuntimeState::default();
    s.begin_rebind();
    assert!(s.rebinding);
    s.on_key_press(Key::F(5));
    assert_eq!(s.hotkey, Key::F(5));
    assert!(!s.rebinding);
    assert!(!s.running);
    // a subsequent press of the captured key toggles
    s.on_key_press(Key::F(5));
    assert!(s.running);
    // the old hotkey no longer does anything
    s.on_key_press(Key::Insert);
    assert!(s.running);
    assert_eq!(s.hotkey, Key::F(5));
}

#[test]
fn hotkey_press_toggles_and_others_are_ignored() {
    let mut s = RuntimeState::default();
    s.on_key_press(Key::Letter(b'Q'));
    assert!(!s.running);
    s.on_key_press(Key::Insert);
    assert!(s.running);
    s.on_key_press(Key::Insert);
    assert!(!s.running);
}

#[test]
fn idle_emitter_does_nothing_but_wait() {
    let s = RuntimeState::default();
    let step = s.emitter_step();
    assert!(step.buttons.is_empty());
    assert!(!step.play_sound);
    assert!(matches!(step.pace, Pace::IdleWait));
}

#[test]
fn empty_selection_falls_back_to_one_primary_click() {
    let mut s = RuntimeState::default();
    s.set_buttons(false, false, false);
    s.toggle_running();
    let step = s.emitter_step();
    assert_eq!(step.buttons, vec![MouseButton::Left]);
}

#[test]
fn selected_buttons_are_emitted_in_order() {
    let mut s = RuntimeState::default();
    s.set_buttons(true, false, true);
    s.toggle_running();
    s.set_play_sound(true);
    let step = s.emitter_step();
    assert_eq!(step.buttons, vec![MouseButton::Left, MouseButton::Right]);
    assert!(step.play_sound);
    assert!(matches!(step.pace, Pace::Spin));
}

#[test]
fn fixed_rate_paces_at_the_inter_click_interval() {
    let mut s = RuntimeState::default();
    s.toggle_running();
    s.set_fast_mode(false);
    s.set_target_cps_milli(20_000);  // 20 clicks per second
    let step = s.emitter_step();
    assert!(matches!(step.pace, Pace::SleepMicros(50_000)));
}

#[test]
fn interval_is_the_reciprocal_of_the_rate() {
    assert_eq!(click_interval_micros(20_000), 50_000);  // 20 cps -> 50 ms
    assert_eq!(click_interval_micros(1_000), 1_000_000);  // 1 cps -> 1 s
    assert_eq!(click_interval_micros(500), 2_000_000);  // 0.5 cps -> 2 s
    assert_eq!(click_interval_micros(1_000_000), 1_000);  // 1000 cps -> 1 ms
}

#[test]
fn clicks_are_recorded_whether_or_not_running() {
    let mut s = RuntimeState::default();
    s.record_click(10);
    s.toggle_running();
    s.record_click(20);
    assert_eq!(s.click_times, vec![10, 20]);
}

#[test]
fn pruning_keeps_only_the_rolling_window() {
    let mut s = RuntimeState::default();
    s.record_click(0);
    s.record_click(500_000);
    s.record_click(1_500_000);
    s.prune_clicks(1_600_000);
    assert_eq!(s.click_times, vec![1_500_000]);
    assert_eq!(s.click_count(), 1);
}

#[test]
fn pruning_window_is_inclusive_of_its_edge() {
    let mut s = RuntimeState::default();
    s.record_click(0);
    s.record_click(500_000);
    s.record_click(1_500_000);
    s.prune_clicks(1_500_000);
    assert_eq!(s.click_times, vec![500_000, 1_500_000]);
}

#[test]
fn pruning_keeps_timestamps_from_after_the_snapshot() {
    let mut s = RuntimeState::default();
    s.record_click(2_000_000);
    s.prune_clicks(1_000_000);
    assert_eq!(s.click_times, vec![2_000_000]);
}

#[test]
fn settings_snapshot_round_trips_through_the_state() {
    let mut c = Config::default();
    c.hotkey = b"K".to_vec();
    c.fast_mode = false;
    c.target_cps_milli = 2_500;
    c.middle_click = true;
    c.play_sound = true;
    let s = RuntimeState::from_config(&c);
    assert_eq!(s.hotkey, Key::Letter(b'K'));
    let back = s.to_config();
    assert_eq!(back.hotkey, b"K".to_vec());
    assert_eq!(back.fast_mode, false);
    assert_eq!(back.target_cps_milli, 2_500);
    assert_eq!(back.left_click, true);
    assert_eq!(back.middle_click, true);
    assert_eq!(back.right_click, false);
    assert_eq!(back.play_sound, true);
}
