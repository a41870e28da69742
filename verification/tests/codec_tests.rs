use arrowner::codec::{parse_song, serialize_song};
use arrowner::song::{check_song, empty_song, Note, Song};

fn tap_song() -> Song {
    Song {
        name: b"abc".to_vec(),
        id: Some(7),
        left_keys: vec![Note { time: 100, holding: 0 }],
        up_keys: vec![],
        bottom_keys: vec![],
        right_keys: vec![],
        end: 150,
        sync: Some(0),
        bpm: Some(0),
    }
}

fn hold_song() -> Song {
    Song {
        name: b"Hold Song 2".to_vec(),
        id: None,
        left_keys: vec![Note { time: 100, holding: 60 }, Note { time: 180, holding: 0 }],
        up_keys: vec![Note { time: 5, holding: 3 }],
        bottom_keys: vec![],
        right_keys: vec![Note { time: 9, holding: 0 }],
        end: 300,
        sync: Some(-15),
        bpm: None,
    }
}

#[test]
fn round_trip_tap_only() {
    let song = tap_song();
    let bytes = serialize_song(&song);
    let back = parse_song(&bytes).expect("canonical form must parse");
    assert_eq!(back, song);
}

#[test]
fn round_trip_holds_and_none_fields() {
    let song = hold_song();
    let bytes = serialize_song(&song);
    let back = parse_song(&bytes).expect("canonical form must parse");
    assert_eq!(back, song);
}

#[test]
fn round_trip_extreme_numbers() {
    let song = Song {
        name: vec![],
        id: Some(-170141183460469231731687303715884105728),
        left_keys: vec![Note { time: 0, holding: 0 }],
        up_keys: vec![],
        bottom_keys: vec![],
        right_keys: vec![],
        end: 340282366920938463463374607431768211455,
        sync: Some(170141183460469231731687303715884105727),
        bpm: Some(1),
    };
    let bytes = serialize_song(&song);
    let back = parse_song(&bytes).expect("extreme values must survive");
    assert_eq!(back, song);
}

#[test]
fn serialized_text_is_exact() {
    let song = tap_song();
    let bytes = serialize_song(&song);
    let expected = "{\"name\":\"abc\",\"id\":7,\"left_keys\":[{\"time\":100,\"holding\":0}],\"up_keys\":[],\"bottom_keys\":[],\"right_keys\":[],\"end\":150,\"sync\":0,\"bpm\":0}";
    assert_eq!(bytes, expected.as_bytes().to_vec());
}

#[test]
fn string_level_round_trip() {
    // serialize(deserialize(song_json)) gives the same text back, with
    // sync and bpm both in their null legacy shape.
    let text = "{\"name\":\"n\",\"id\":null,\"left_keys\":[{\"time\":3,\"holding\":2}],\"up_keys\":[],\"bottom_keys\":[{\"time\":1,\"holding\":0}],\"right_keys\":[],\"end\":9,\"sync\":null,\"bpm\":null}";
    let bytes = text.as_bytes().to_vec();
    let song = parse_song(&bytes).expect("well-formed text must parse");
    assert_eq!(serialize_song(&song), bytes);
}

#[test]
fn legacy_files_without_sync_or_bpm_parse() {
    let text = "{\"name\":\"old\",\"id\":0,\"left_keys\":[],\"up_keys\":[],\"bottom_keys\":[],\"right_keys\":[],\"end\":40}";
    let song = parse_song(&text.as_bytes().to_vec()).expect("legacy shape must parse");
    assert_eq!(song.sync, None);
    assert_eq!(song.bpm, None);
    assert_eq!(song.end, 40);
}

#[test]
fn negative_sync_parses() {
    let text = "{\"name\":\"s\",\"id\":1,\"left_keys\":[],\"up_keys\":[],\"bottom_keys\":[],\"right_keys\":[],\"end\":10,\"sync\":-45,\"bpm\":120}";
    let song = parse_song(&text.as_bytes().to_vec()).expect("negative sync must parse");
    assert_eq!(song.sync, Some(-45));
    assert_eq!(song.bpm, Some(120));
}

#[test]
fn truncated_input_is_rejected() {
    let text = "{\"name\":\"abc\",\"id\":7";
    assert!(parse_song(&text.as_bytes().to_vec()).is_none());
}

#[test]
fn wrong_field_name_is_rejected() {
    let text = "{\"name\":\"x\",\"id\":0,\"wrong_keys\":[],\"up_keys\":[],\"bottom_keys\":[],\"right_keys\":[],\"end\":5,\"sync\":0,\"bpm\":0}";
    assert!(parse_song(&text.as_bytes().to_vec()).is_none());
}

#[test]
fn oversized_number_is_rejected() {
    // One more than the largest storable tick count.
    let text = "{\"name\":\"x\",\"id\":0,\"left_keys\":[],\"up_keys\":[],\"bottom_keys\":[],\"right_keys\":[],\"end\":340282366920938463463374607431768211456,\"sync\":0,\"bpm\":0}";
    assert!(parse_song(&text.as_bytes().to_vec()).is_none());
}

#[test]
fn unescapable_name_byte_is_rejected() {
    let bytes = b"{\"name\":\"a\\b\",\"id\":0,\"left_keys\":[],\"up_keys\":[],\"bottom_keys\":[],\"right_keys\":[],\"end\":5,\"sync\":0,\"bpm\":0}".to_vec();
    assert!(parse_song(&bytes).is_none());
}

#[test]
fn trailing_garbage_is_rejected() {
    let text = "{\"name\":\"x\",\"id\":0,\"left_keys\":[],\"up_keys\":[],\"bottom_keys\":[],\"right_keys\":[],\"end\":5,\"sync\":0,\"bpm\":0} ";
    assert!(parse_song(&text.as_bytes().to_vec()).is_none());
}

#[test]
fn load_song_falls_back_on_corrupt_input() {
    let (song, error) = arrowner::codec::load_song(&b"not json at all".to_vec());
    assert!(error);
    assert_eq!(song, empty_song());
}

#[test]
fn load_song_falls_back_on_invalid_song() {
    // The note runs past the song's end, breaking the song invariant.
    let text = "{\"name\":\"x\",\"id\":0,\"left_keys\":[{\"time\":100,\"holding\":60}],\"up_keys\":[],\"bottom_keys\":[],\"right_keys\":[],\"end\":150,\"sync\":0,\"bpm\":0}";
    let (song, error) = arrowner::codec::load_song(&text.as_bytes().to_vec());
    assert!(error);
    assert_eq!(song, empty_song());
}

#[test]
fn load_song_accepts_valid_song() {
    let before = hold_song();
    let bytes = serialize_song(&before);
    let (song, error) = arrowner::codec::load_song(&bytes);
    assert!(!error);
    assert_eq!(song, before);
}

#[test]
fn check_song_enforces_ordering_and_end() {
    let mut song = tap_song();
    assert!(check_song(&song));
    song.left_keys = vec![Note { time: 120, holding: 0 }, Note { time: 100, holding: 0 }];
    assert!(!check_song(&song));
    song.left_keys = vec![Note { time: 150, holding: 0 }];
    assert!(!check_song(&song));
    song.left_keys = vec![];
    song.name = vec![0x22];
    assert!(!check_song(&song));
}
