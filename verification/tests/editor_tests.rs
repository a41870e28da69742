use arrowner::codec::{parse_song, serialize_song};
use arrowner::editor::{delete_key, insert_note, move_key, GameLogic, Selected};
use arrowner::key::{GameKey, KeyFlag};
use arrowner::song::{Note, Song};

fn grid_song() -> Song {
    Song {
        name: b"grid".to_vec(),
        id: Some(1),
        left_keys: vec![Note { time: 3, holding: 0 }, Note { time: 5, holding: 4 }],
        up_keys: vec![],
        bottom_keys: vec![],
        right_keys: vec![],
        end: 600,
        sync: Some(0),
        bpm: Some(0),
    }
}

#[test]
fn scenario_d_insert_save_reload() {
    // The editor inserts a note at tick 500 in the up lane and saves;
    // reloading shows exactly one note {500, 0} in up_keys and nowhere else.
    let song = grid_song();
    let mut editor = GameLogic::new(song, false);
    insert_note(&mut editor.keys_up, 500, KeyFlag::Up);
    let saved = editor.generate_array();
    let bytes = serialize_song(&saved);
    let reloaded = parse_song(&bytes).expect("saved song must reload");
    assert_eq!(reloaded.up_keys, vec![Note { time: 500, holding: 0 }]);
    assert_eq!(reloaded.left_keys, vec![Note { time: 3, holding: 0 }, Note {
        time: 5,
        holding: 4,
    }]);
    assert_eq!(reloaded.bottom_keys, vec![]);
    assert_eq!(reloaded.right_keys, vec![]);
    assert_eq!(reloaded.end, 600);
}

#[test]
fn edit_grid_layout() {
    let editor = GameLogic::new(grid_song(), false);
    assert_eq!(editor.keys_left.len(), 600);
    // Tap cell at tick 3.
    let tap = editor.keys_left[3];
    assert_eq!(tap.flag, Some(KeyFlag::Left));
    assert_eq!(tap.connected, None);
    // Hold head at 5, tail at 9, pointing at each other.
    let head = editor.keys_left[5];
    assert_eq!(head.flag, Some(KeyFlag::Left));
    assert_eq!(head.connected, Some(9));
    let tail = editor.keys_left[9];
    assert_eq!(tail.flag, Some(KeyFlag::Left));
    assert_eq!(tail.connected, Some(5));
    // Everything in between is an empty placeholder.
    assert_eq!(editor.keys_left[4].flag, None);
    assert_eq!(editor.keys_left[7].flag, None);
    // The untouched lane is all placeholders.
    assert_eq!(editor.keys_up[3].flag, None);
}

#[test]
fn generate_array_reads_grid_back() {
    let song = grid_song();
    let editor = GameLogic::new(song.clone(), false);
    let out = editor.generate_array();
    assert_eq!(out.left_keys, song.left_keys);
    assert_eq!(out.up_keys, song.up_keys);
    assert_eq!(out.name, song.name);
    assert_eq!(out.id, song.id);
    assert_eq!(out.end, song.end);
    assert_eq!(out.sync, song.sync);
    assert_eq!(out.bpm, song.bpm);
}

#[test]
fn delete_hold_clears_both_ends() {
    let mut editor = GameLogic::new(grid_song(), false);
    let empty = GameKey {
        mili: 0,
        holding: false,
        flag: None,
        connected: None,
        active: true,
        muted: false,
    };
    let selected = Selected { key: 5, flag: KeyFlag::Left };
    delete_key(&selected, empty, &mut editor.keys_left);
    assert_eq!(editor.keys_left[5].flag, None);
    assert_eq!(editor.keys_left[9].flag, None);
    let out = editor.generate_array();
    assert_eq!(out.left_keys, vec![Note { time: 3, holding: 0 }]);
}

#[test]
fn move_key_repoints_hold_partner() {
    let mut editor = GameLogic::new(grid_song(), false);
    // Drag the hold's head from cell 5 onto cell 6.
    move_key(&mut editor.keys_left, 5, 6);
    assert_eq!(editor.keys_left[6].connected, Some(9));
    assert_eq!(editor.keys_left[9].connected, Some(6));
    assert_eq!(editor.keys_left[5].flag, None);
    let out = editor.generate_array();
    assert_eq!(out.left_keys, vec![Note { time: 3, holding: 0 }, Note { time: 6, holding: 3 }]);
}

#[test]
fn insert_overwrites_on_collision() {
    let mut editor = GameLogic::new(grid_song(), false);
    // Dropping a tap on the hold's head cell replaces it.
    insert_note(&mut editor.keys_left, 5, KeyFlag::Left);
    assert_eq!(editor.keys_left[5].connected, None);
    let out = editor.generate_array();
    assert_eq!(out.left_keys, vec![Note { time: 3, holding: 0 }, Note { time: 5, holding: 0 }]);
}

#[test]
fn contains_note_finds_first_match() {
    let lane = vec![Note { time: 3, holding: 0 }, Note { time: 5, holding: 4 }, Note {
        time: 5,
        holding: 9,
    }];
    assert_eq!(Song::contains_note(5, lane.clone()), Some(Note { time: 5, holding: 4 }));
    assert_eq!(Song::contains_note(4, lane), None);
}
