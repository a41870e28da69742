use arrowner::calibration::{nudge_sync_down, nudge_sync_up, CoordinationData, GameLogic};
use arrowner::clock::ClockState;
use arrowner::key::beat_line_ticks;
use arrowner::keybutton::{stamp_song, KeyButton};
use arrowner::song::{empty_song, Note};
use arrowner::state::{
    main_menu_select, menu_down, menu_up, select_down, select_up, settings_select, AppState,
    GameController, GameState, Visualizer,
};

#[test]
fn clock_counts_whole_ticks() {
    let clock = ClockState::start(1000, 700);
    assert_eq!(clock.elapsed_ticks(1000), 0);
    assert_eq!(clock.elapsed_ticks(1009), 0);
    assert_eq!(clock.elapsed_ticks(1010), 1);
    assert_eq!(clock.elapsed_ticks(1525), 52);
    // Before the start instant the song time clamps to zero.
    assert_eq!(clock.elapsed_ticks(900), 0);
}

#[test]
fn clock_freezes_across_pause_and_resume() {
    let mut clock = ClockState::start(0, 700);
    assert_eq!(clock.elapsed_ticks(2000), 200);
    clock.pause(2000);
    assert_eq!(clock.key_speed, 0);
    clock.resume(5000);
    assert_eq!(clock.key_speed, 700);
    // Right after resuming, the song time is what it was at the pause.
    assert_eq!(clock.elapsed_ticks(5000), 200);
    // And it only grows from there.
    assert_eq!(clock.elapsed_ticks(5010), 201);
    assert_eq!(clock.elapsed_ticks(6000), 300);
}

#[test]
fn clock_testing_offset() {
    let clock = ClockState::start(0, 700);
    // Test-playing from tick 400: the lead-in of 300 ticks is added on top.
    assert_eq!(clock.elapsed_ticks_testing(1000, 400), 100 + 400 + 300);
}

#[test]
fn calibration_measures_window_width() {
    // Band of 30 ticks at 7 pixels per tick: the measured width comes out
    // at the window width, give or take one tick.
    let mut cal = GameLogic::new(7, 930, 1140);
    let mut t: u128 = 0;
    while !cal.done && t < 5000 {
        cal.handle_notes(t);
        t += 1;
    }
    assert!(cal.done);
    // With these numbers the width lands on the window exactly.
    let width = cal.end_time - cal.base_time;
    assert_eq!(width, 30);
    // The session auto-exits 50 ticks after the exit capture.
    assert_eq!(t - 1, cal.end_time + 50);
}

#[test]
fn manual_calibration_clamps_at_zero() {
    let mut cd = CoordinationData { base_time: 5, end_time: 0 };
    cd.nudge_base_down();
    assert_eq!(cd.base_time, 0);
    cd.nudge_base_down();
    assert_eq!(cd.base_time, 0);
    cd.nudge_base_up();
    assert_eq!(cd.base_time, 10);
    cd.nudge_base_up();
    assert_eq!(cd.base_time, 20);
    cd.nudge_base_down();
    assert_eq!(cd.base_time, 10);
}

#[test]
fn sync_nudges_step_by_five() {
    let mut sync: i128 = 0;
    sync = nudge_sync_down(sync);
    sync = nudge_sync_down(sync);
    assert_eq!(sync, -10);
    sync = nudge_sync_up(sync);
    assert_eq!(sync, -5);
}

#[test]
fn latch_fires_one_edge_per_press() {
    let mut latch = KeyButton::new();
    latch.key_down(10);
    assert!(latch.pressed);
    assert_eq!(latch.pressed_time, 10);
    // The key repeating while held must not restart the press.
    latch.key_down(12);
    assert_eq!(latch.pressed_time, 10);
    let note = latch.key_up(30).expect("a press was in flight");
    assert_eq!(note, Note { time: 10, holding: 20 });
    assert!(!latch.pressed);
    // A key-up without a press does nothing.
    assert_eq!(latch.key_up(31), None);
}

#[test]
fn latch_records_notes_per_lane() {
    let mut latch = KeyButton::new();
    latch.key_down(100);
    let note = latch.key_up(160).expect("a press was in flight");
    latch.record_note(1, note);
    assert_eq!(latch.up_keys, vec![Note { time: 100, holding: 60 }]);
    assert!(latch.left_keys.is_empty());
    assert!(latch.down_keys.is_empty());
    assert!(latch.right_keys.is_empty());
}

#[test]
fn stamp_song_snapshots_the_recording() {
    let mut latch = KeyButton::new();
    latch.key_down(100);
    let note = latch.key_up(160).expect("a press was in flight");
    latch.record_note(0, note);
    let mut song = empty_song();
    stamp_song(&latch, &mut song, 500);
    assert_eq!(song.end, 500);
    assert!(song.id.is_some());
    assert_eq!(song.left_keys, vec![Note { time: 100, holding: 60 }]);
    assert!(song.up_keys.is_empty());
}

#[test]
fn menu_navigation_bounds_and_wrapping() {
    assert_eq!(menu_up(0), 0);
    assert_eq!(menu_up(2), 1);
    assert_eq!(menu_down(1, 3), 2);
    assert_eq!(menu_down(2, 3), 2);
    assert_eq!(select_up(0, 4), 3);
    assert_eq!(select_up(2, 4), 1);
    assert_eq!(select_down(3, 4), 0);
    assert_eq!(select_down(1, 4), 2);
}

#[test]
fn menu_selections_reach_their_screens() {
    assert_eq!(main_menu_select(0), GameState::SelectingSong);
    assert_eq!(main_menu_select(1), GameState::Settings);
    assert_eq!(main_menu_select(2), GameState::Quitting);
    assert_eq!(settings_select(0), GameState::Controlers);
    assert_eq!(settings_select(1), GameState::Calibrating);
    assert_eq!(settings_select(2), GameState::ManualCalibrating);
    assert_eq!(settings_select(3), GameState::MainMenu);
}

#[test]
fn session_state_carries_selection() {
    let state = AppState {
        is_running: true,
        state: GameState::SelectingSong,
        song_folder: Some(String::from("demo")),
    };
    assert!(state.is_running);
    assert_eq!(state.state, GameState::SelectingSong);
    assert_eq!(state.song_folder.as_deref(), Some("demo"));
    let controller = GameController { controller_array: [100, 102, 106, 107] };
    assert_eq!(controller.controller_array[2], 106);
    let viz = Visualizer { bars: true, circle: false };
    assert!(viz.bars && !viz.circle);
}

#[test]
fn calibration_stream_has_fixed_cadence() {
    let notes = arrowner::calibration::calibration_notes(100, 300, 400);
    assert_eq!(notes.len(), 100);
    assert_eq!(notes[0].mili, 300);
    assert_eq!(notes[1].mili, 700);
    assert_eq!(notes[99].mili, 300 + 99 * 400);
    assert!(notes.iter().all(|k| !k.holding && k.active && !k.muted));
}

#[test]
fn beat_lines_follow_the_tempo() {
    // 120 bpm: one beat line every 6000 / 120 = 50 ticks from the lead-in.
    let ticks = beat_line_ticks(500, Some(120));
    assert_eq!(ticks, vec![300, 350, 400, 450]);
    // No tempo, zero tempo, or a tempo faster than a tick: no lines.
    assert_eq!(beat_line_ticks(500, None), Vec::<u128>::new());
    assert_eq!(beat_line_ticks(500, Some(0)), Vec::<u128>::new());
    assert_eq!(beat_line_ticks(500, Some(9000)), Vec::<u128>::new());
}
