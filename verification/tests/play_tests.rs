use arrowner::play::{GameLogic, KeyState, Note, PressTimes};
use arrowner::song::{Note as SongNote, Song};

fn song_with_left(notes: Vec<SongNote>, end: u128) -> Song {
    Song {
        name: b"t".to_vec(),
        id: Some(0),
        left_keys: notes,
        up_keys: vec![],
        bottom_keys: vec![],
        right_keys: vec![],
        end,
        sync: Some(0),
        bpm: Some(0),
    }
}

fn idle() -> Note {
    Note { state: false, active: true }
}

fn keys_left(pressed: bool) -> KeyState {
    KeyState { left: Note { state: pressed, active: true }, top: idle(), bottom: idle(), right: idle() }
}

fn presses_left(t: i128) -> PressTimes {
    PressTimes { left: t, top: 0, bottom: 0, right: 0 }
}

/// Runs a session frame by frame; the left key is held over
/// `[press_at, release_at)` with its press edge at `press_at`.
fn run_left(game: &mut GameLogic, ticks: i128, press_at: i128, release_at: i128) {
    let mut t: i128 = 0;
    while t < ticks {
        let held = press_at <= t && t < release_at;
        game.handle_notes(&keys_left(held), &presses_left(press_at), 0, t);
        game.check_end(t as u128);
        t += 1;
    }
}

#[test]
fn scenario_a_press_in_window_scores() {
    // A press beginning at tick 95 is still fresh when the note enters the
    // window at tick 100: 100 points, combo 1.
    let song = song_with_left(vec![SongNote { time: 100, holding: 0 }], 150);
    let mut game = GameLogic::new(&song, 0, false);
    run_left(&mut game, 150, 95, 150);
    assert_eq!(game.score.points, 100);
    assert_eq!(game.score.combo, 1);
    assert_eq!(game.score.max_combo, 1);
    game.check_end(151);
    assert!(game.end);
}

#[test]
fn scenario_a_press_at_window_edge_scores() {
    // A fresh press at tick 105 also hits the note.
    let song = song_with_left(vec![SongNote { time: 100, holding: 0 }], 150);
    let mut game = GameLogic::new(&song, 0, false);
    run_left(&mut game, 150, 105, 150);
    assert_eq!(game.score.points, 100);
    assert_eq!(game.score.combo, 1);
}

#[test]
fn scenario_a_nothing_scores_before_entry() {
    // Holding from tick 95, the points appear exactly when the note enters
    // the window at tick 100 and not a tick earlier.
    let song = song_with_left(vec![SongNote { time: 100, holding: 0 }], 150);
    let mut game = GameLogic::new(&song, 0, false);
    run_left(&mut game, 100, 95, 150);
    assert_eq!(game.score.points, 0);
    game.handle_notes(&keys_left(true), &presses_left(95), 0, 100);
    assert_eq!(game.score.points, 100);
}

#[test]
fn scenario_b_unpressed_note_mutes_at_window_exit() {
    // A first note is hit to make the combo nonzero; the second is never
    // pressed and becomes muted at tick 130 (its window exit), resetting the
    // combo to 0.
    let song = song_with_left(
        vec![SongNote { time: 50, holding: 0 }, SongNote { time: 100, holding: 0 }],
        200,
    );
    let mut game = GameLogic::new(&song, 0, false);
    run_left(&mut game, 130, 50, 60);
    assert_eq!(game.score.points, 100);
    assert_eq!(game.score.combo, 1);
    assert!(!game.left_lane.keys[1].muted);
    // Tick 130 is the exit: the miss lands now.
    game.handle_notes(&keys_left(false), &presses_left(50), 0, 130);
    assert!(game.left_lane.keys[1].muted);
    assert!(!game.left_lane.keys[1].active);
    assert_eq!(game.score.combo, 0);
    assert_eq!(game.score.max_combo, 1);
    assert_eq!(game.score.points, 100);
}

#[test]
fn scenario_c_hold_scores_once_per_ten_ticks() {
    // A hold of 60 ticks, held throughout, collects exactly 60/10 = 6
    // points: at ticks 100, 110, 120, 130, 140, 150, and never more.
    let song = song_with_left(vec![SongNote { time: 100, holding: 60 }], 250);
    let mut game = GameLogic::new(&song, 0, false);
    run_left(&mut game, 250, 100, 250);
    assert_eq!(game.score.points, 6);
}

#[test]
fn hold_release_stops_scoring() {
    // Releasing after 20 ticks of a 60-tick hold keeps only the first two
    // hold points.
    let song = song_with_left(vec![SongNote { time: 100, holding: 60 }], 250);
    let mut game = GameLogic::new(&song, 0, false);
    run_left(&mut game, 250, 100, 120);
    assert_eq!(game.score.points, 2);
}

#[test]
fn consumed_note_never_scores_again() {
    // The tap is consumed at tick 100; the key stays down with fresh
    // re-presses every few ticks, yet the points stay at 100.
    let song = song_with_left(vec![SongNote { time: 100, holding: 0 }], 200);
    let mut game = GameLogic::new(&song, 0, false);
    game.handle_notes(&keys_left(true), &presses_left(100), 0, 100);
    assert_eq!(game.score.points, 100);
    assert!(!game.left_lane.keys[0].active);
    let mut t: i128 = 101;
    while t < 130 {
        // Each frame pretends the press just happened, so freshness is no
        // obstacle: only the cleared `active` flag protects the note.
        game.handle_notes(&keys_left(true), &presses_left(t), 0, t);
        t += 1;
    }
    assert_eq!(game.score.points, 100);
    assert_eq!(game.score.combo, 1);
}

#[test]
fn muted_note_never_scores() {
    // The note is missed and muted at tick 130; a fresh press right after
    // cannot score or revive it.
    let song = song_with_left(vec![SongNote { time: 100, holding: 0 }], 200);
    let mut game = GameLogic::new(&song, 0, false);
    run_left(&mut game, 131, 200, 200);
    assert!(game.left_lane.keys[0].muted);
    game.handle_notes(&keys_left(true), &presses_left(131), 0, 131);
    assert_eq!(game.score.points, 0);
    assert!(game.left_lane.keys[0].muted);
    assert!(!game.left_lane.keys[0].active);
}

#[test]
fn stale_press_does_not_trigger_taps() {
    // A key held since tick 0 is no longer fresh when the note enters the
    // window at 100: the note is not hit and eventually mutes.
    let song = song_with_left(vec![SongNote { time: 100, holding: 0 }], 200);
    let mut game = GameLogic::new(&song, 0, false);
    run_left(&mut game, 135, 0, 200);
    assert_eq!(game.score.points, 0);
    assert!(game.left_lane.keys[0].muted);
}

#[test]
fn base_time_drops_already_passed_notes() {
    // With a calibration point of 100 ticks, notes at or before tick 100
    // never spawn; only the later note remains.
    let song = song_with_left(
        vec![SongNote { time: 50, holding: 0 }, SongNote { time: 100, holding: 0 }, SongNote {
            time: 140,
            holding: 0,
        }],
        200,
    );
    let game = GameLogic::new(&song, 100, false);
    assert_eq!(game.left_lane.keys.len(), 1);
    assert_eq!(game.left_lane.keys[0].mili, 140);
}

#[test]
fn sync_offset_shifts_judgment() {
    // With sync = -20 the note's effective time moves from 100 to 80, so a
    // fresh press at 85 hits it.
    let mut song = song_with_left(vec![SongNote { time: 100, holding: 0 }], 200);
    song.sync = Some(-20);
    let mut game = GameLogic::new(&song, 0, false);
    run_left(&mut game, 90, 85, 95);
    assert_eq!(game.score.points, 100);
}

#[test]
fn retire_passed_drops_far_notes() {
    let song = song_with_left(
        vec![SongNote { time: 10, holding: 0 }, SongNote { time: 180, holding: 0 }],
        200,
    );
    let mut game = GameLogic::new(&song, 0, false);
    // At tick 150 with a 100-tick horizon, the tick-10 note is far past and
    // is dropped; the tick-180 note stays.
    game.left_lane.retire_passed(0, 0, 150, 100);
    assert_eq!(game.left_lane.keys.len(), 1);
    assert_eq!(game.left_lane.keys[0].mili, 180);
}

#[test]
fn session_ends_after_song_end() {
    let song = song_with_left(vec![], 50);
    let mut game = GameLogic::new(&song, 0, false);
    game.check_end(50);
    assert!(!game.end);
    game.check_end(51);
    assert!(game.end);
}
