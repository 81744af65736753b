use hark::path::FilePath;
use hark::queue::Repeat;
use hark::single::Single;
use hark::state::{
    decode, draft_file, encode, is_usable, opening, read_record, restored, state_dir, state_file,
    Figures, Opening, State, Window, DEFAULT_HEIGHT, DEFAULT_VOLUME, DEFAULT_WIDTH, MIN_HEIGHT,
    MIN_WIDTH, VERSION,
};
use hark::time::Duration;
use serde_json::{Number, Value};

fn single(value: f32) -> Single {
    Single {
        bits: value.to_bits(),
    }
}

fn value(single: Single) -> f32 {
    f32::from_bits(single.bits)
}

fn path(text: &str) -> FilePath {
    FilePath::from_text(text)
}

fn window(x: f32, y: f32, width: f32, height: f32) -> Window {
    Window {
        x: single(x),
        y: single(y),
        width: single(width),
        height: single(height),
    }
}

/// The numbers of a session as the record writes them: each single widened.
fn figures(state: &State) -> Figures {
    let figure = |single: Single| Number::from_f64(value(single) as f64);
    Figures {
        volume: figure(state.volume),
        x: state.window.and_then(|w| figure(w.x)),
        y: state.window.and_then(|w| figure(w.y)),
        width: state.window.and_then(|w| figure(w.width)),
        height: state.window.and_then(|w| figure(w.height)),
    }
}

fn full() -> State {
    State {
        track: Some(path("/home/milan/Music/Forndom - Flykt.opus")),
        position: Duration::from_millis(913_500),
        volume: single(0.42),
        shuffle: true,
        repeat: Repeat::One,
        playlist: true,
        folders: vec![
            path("/home/milan/hamstor/Music"),
            path("/home/milan/Downloads/new"),
        ],
        window: Some(window(120., 64., 480., 720.)),
    }
}

fn round_trip(state: &State) -> State {
    let Some(bytes) = encode(state, &figures(state)) else {
        panic!("encode refused a state");
    };
    let Some(decoded) = decode(&bytes) else {
        panic!("decode refused its own output");
    };
    decoded
}

fn read(record: &str) -> Option<State> {
    decode(record.as_bytes())
}

#[test]
fn a_full_session_survives_a_round_trip() {
    let state = round_trip(&full());

    assert_eq!(
        state.track,
        Some(path("/home/milan/Music/Forndom - Flykt.opus"))
    );
    assert_eq!(state.position, Duration::from_millis(913_500));
    assert_eq!(value(state.volume), 0.42);
    assert!(state.shuffle);
    assert_eq!(state.repeat, Repeat::One);
    assert!(state.playlist);
    assert_eq!(
        state.folders,
        vec![
            path("/home/milan/hamstor/Music"),
            path("/home/milan/Downloads/new"),
        ]
    );

    let window = state.window.expect("a usable window was dropped");
    assert_eq!(value(window.x), 120.);
    assert_eq!(value(window.width), 480.);
    assert_eq!(value(window.height), 720.);
}

#[test]
fn a_session_that_never_played_anything_survives_too() {
    let state = round_trip(&State::default());

    assert!(state.track.is_none());
    assert_eq!(state.position, Duration::zero());
    assert_eq!(state.volume.bits, DEFAULT_VOLUME);
    assert!(state.folders.is_empty());
    assert!(state.window.is_none());
}

/// The whole case for adding `folders` without bumping `VERSION`: a record
/// written before hark remembered folders still restores the session it does
/// describe, and simply has no folders in it.
#[test]
fn a_record_from_before_folders_were_remembered_still_loads() {
    let record = format!(r#"{{"v":{VERSION},"volume":0.3,"track":"/music/x.flac"}}"#);

    let state = read(&record).expect("an old record was refused outright");
    assert!(state.folders.is_empty());
    assert_eq!(value(state.volume), 0.3);
    assert!(state.track.is_some());
}

#[test]
fn a_folder_that_is_not_a_path_is_dropped_without_losing_the_rest() {
    for (folders, expected) in [
        (
            r#"["/music/a",7,null,"/music/b"]"#,
            vec![path("/music/a"), path("/music/b")],
        ),
        (r#""nonsense""#, Vec::new()),
        ("42", Vec::new()),
    ] {
        let record = format!(r#"{{"v":{VERSION},"volume":0.3,"folders":{folders}}}"#);

        let state = read(&record).expect("a bad folder list voided the whole record");
        assert_eq!(state.folders, expected);
        assert_eq!(value(state.volume), 0.3);
    }
}

/// The same trade the `track` field makes: base64 in a file meant to be read
/// by a person would cost more than the folder it saves.
#[test]
fn a_folder_whose_name_is_not_utf8_is_left_out() {
    let state = State {
        folders: vec![
            path("/music/a"),
            FilePath::new(vec![b'/', 0xff, 0xfe]),
            path("/music/b"),
        ],
        ..State::default()
    };

    let decoded = round_trip(&state);
    assert_eq!(decoded.folders, vec![path("/music/a"), path("/music/b")]);
}

#[test]
fn state_another_version_is_a_miss() {
    let record = format!(r#"{{"v":{},"volume":0.1}}"#, VERSION + 1);

    assert!(decode(record.as_bytes()).is_none());
}

#[test]
fn state_nonsense_decodes_to_nothing_without_panicking() {
    for bytes in [
        &b""[..],
        &b"not json"[..],
        &b"{"[..],
        &b"[]"[..],
        &b"null"[..],
        &b"\"\""[..],
    ] {
        assert!(decode(bytes).is_none());
    }
}

/// The whole point of decoding field by field: one nonsensical value must
/// not cost the others.
#[test]
fn an_absurd_window_is_dropped_without_losing_the_session() {
    for window in [
        r#"{"x":0,"y":0,"width":1,"height":1}"#,
        r#"{"x":0,"y":0,"width":99999,"height":720}"#,
        r#"{"x":0,"y":0,"width":480}"#,
        r#""nonsense""#,
    ] {
        let record = format!(
            r#"{{"v":{VERSION},"volume":0.3,"track":"/music/x.flac","window":{window}}}"#
        );

        let state = read(&record).expect("a bad window voided the whole record");
        assert!(state.window.is_none());
        assert_eq!(value(state.volume), 0.3);
        assert!(state.track.is_some());
    }
}

#[test]
fn an_unknown_repeat_mode_falls_back_to_off() {
    for repeat in [r#""shuffle-all-forever""#, "7", "null"] {
        let record = format!(r#"{{"v":{VERSION},"repeat":{repeat}}}"#);

        let state = read(&record).expect("a bad repeat mode voided the whole record");
        assert_eq!(state.repeat, Repeat::Off);
    }
}

#[test]
fn a_volume_outside_the_range_is_clamped() {
    for (stored, expected) in [("-3.0", 0.0), ("17.0", 1.0)] {
        let record = format!(r#"{{"v":{VERSION},"volume":{stored}}}"#);

        let state = read(&record).expect("a bad volume voided the whole record");
        assert_eq!(value(state.volume), expected);
    }
}

#[test]
fn the_constants_are_the_numbers_they_stand_for() {
    assert_eq!(f32::from_bits(DEFAULT_VOLUME), 0.7);
    assert_eq!(f32::from_bits(DEFAULT_WIDTH), 420.0);
    assert_eq!(f32::from_bits(DEFAULT_HEIGHT), 690.0);
    assert_eq!(f32::from_bits(MIN_WIDTH), 360.0);
    assert_eq!(f32::from_bits(MIN_HEIGHT), 560.0);
}

#[test]
fn a_volume_that_is_no_number_is_the_usual_one() {
    for volume in ["\"loud\"", "null", "true", "[]"] {
        let state = read(&format!(r#"{{"v":{VERSION},"volume":{volume}}}"#)).unwrap();
        assert_eq!(state.volume.bits, DEFAULT_VOLUME);
    }
}

#[test]
fn every_repeat_mode_survives() {
    for repeat in [Repeat::Off, Repeat::All, Repeat::One] {
        let state = State {
            repeat,
            ..State::default()
        };
        assert_eq!(round_trip(&state).repeat, repeat);
    }
}

/// No record, one that cannot be read and one of another version are all the same.
#[test]
fn a_player_without_a_session_starts_afresh() {
    let other = format!(r#"{{"v":{},"volume":0.25}}"#, VERSION + 1);
    for record in [None, Some(&b"{"[..]), Some(&b"[]"[..]), Some(other.as_bytes())] {
        let state = restored(record);
        assert_eq!(state.track, None);
        assert_eq!(state.position, Duration::zero());
        assert_eq!(state.volume.bits, DEFAULT_VOLUME);
        assert_eq!((state.shuffle, state.repeat, state.playlist), (false, Repeat::Off, false));
        assert_eq!(state.folders, Vec::new());
        assert_eq!(state.window, None);
    }

    let bytes = encode(&full(), &figures(&full())).unwrap();
    let state = restored(Some(&bytes));
    assert_eq!(state.track, full().track);
    assert_eq!(state.volume, full().volume);
    assert_eq!(state.window, full().window);
}

#[test]
fn a_parsed_record_makes_a_session() {
    let mut record = Value::Object(serde_json::Map::new());
    assert!(read_record(&record).is_none());
    assert!(read_record(&Value::Null).is_none());

    record["v"] = Value::from(VERSION);
    let state = read_record(&record).unwrap();
    assert_eq!(state.volume.bits, DEFAULT_VOLUME);

    // A whole number is as good as any other.
    record["volume"] = Value::from(1);
    record["window"] = Value::Object(serde_json::Map::new());
    record["window"]["x"] = Value::from(-7);
    record["window"]["y"] = Value::from(0.1);
    record["window"]["width"] = Value::from(480);
    record["window"]["height"] = Value::from(10_000);
    let state = read_record(&record).unwrap();
    assert_eq!(state.volume, single(1.));
    assert_eq!(state.window, Some(window(-7., 0.1, 480., 10_000.)));

    // Too large for single precision.
    record["window"]["x"] = Value::from(1e300);
    record["volume"] = Value::from(-1e300);
    let state = read_record(&record).unwrap();
    assert_eq!(state.window, None);
    assert_eq!(state.volume, single(0.));
}

/// The numbers to write are those of the session, to the bit.
#[test]
fn another_sessions_numbers_make_no_record() {
    let mut wrong = figures(&full());
    wrong.volume = Number::from_f64(0.42);
    assert!(encode(&full(), &wrong).is_none());

    let mut wrong = figures(&full());
    wrong.width = None;
    assert!(encode(&full(), &wrong).is_none());

    let mut wrong = figures(&full());
    wrong.height = Some(Number::from(720));
    assert!(encode(&full(), &wrong).is_none());

    // Without a window its numbers do not matter.
    let mut state = full();
    state.window = None;
    assert!(encode(&state, &figures(&full())).is_some());
}

/// Everything but the paths that are not text comes back, bit for bit.
#[test]
fn a_session_comes_back_without_what_is_not_text() {
    let dumb = FilePath::new(vec![b'/', 0xff]);
    for step in 0..=100u32 {
        let mut state = full();
        state.track = Some(dumb.clone());
        state.folders.insert(1, dumb.clone());
        state.position = Duration::from_millis(u64::from(step) * 977);
        state.volume = single(step as f32 / 100.);
        state.window = Some(window(
            -1.5 - step as f32 / 3.,
            step as f32 * 0.1,
            420. + step as f32 / 7.,
            690. + step as f32 / 9.,
        ));

        let back = round_trip(&state);
        assert_eq!(back.track, None);
        assert_eq!(back.folders, full().folders);
        assert_eq!(back.position, state.position);
        assert_eq!(back.volume, state.volume);
        assert_eq!((back.shuffle, back.repeat, back.playlist), (true, Repeat::One, true));
        assert_eq!(back.window, state.window);
    }
}

#[test]
fn a_track_whose_name_is_not_utf8_is_left_out() {
    let state = State {
        track: Some(FilePath::new(vec![b'/', 0xff])),
        position: Duration::from_secs(9),
        ..State::default()
    };

    let decoded = round_trip(&state);
    assert!(decoded.track.is_none());
    assert_eq!(decoded.position, Duration::from_secs(9));
}

/// Written for a person to read: pretty-printed, with two spaces of indent.
#[test]
fn the_record_is_meant_to_be_read() {
    let state = State {
        volume: single(0.5),
        ..State::default()
    };
    let bytes = encode(&state, &figures(&state)).unwrap();
    let text = String::from_utf8(bytes).unwrap();

    assert!(text.starts_with("{\n  \""));
    assert!(text.contains("\n  \"volume\": 0.5"));
    assert!(text.contains("\n  \"repeat\": \"off\""));
}

#[test]
fn a_window_is_usable_between_the_limits() {
    assert!(is_usable(window(0., 0., 360., 560.)));
    assert!(is_usable(window(-50., -50., 10_000., 10_000.)));
    assert!(!is_usable(window(0., 0., 359.9, 560.)));
    assert!(!is_usable(window(0., 0., 360., 559.9)));
    assert!(!is_usable(window(0., 0., 10_001., 560.)));
    assert!(!is_usable(window(f32::NAN, 0., 400., 600.)));
    assert!(!is_usable(window(0., f32::INFINITY, 400., 600.)));
    assert!(!is_usable(window(0., 0., f32::NAN, 600.)));
}

#[test]
fn the_window_comes_back_where_it_was() {
    assert_eq!(
        opening(Some(window(12., 34., 500., 700.))),
        Opening {
            width: single(500.),
            height: single(700.),
            corner: Some((single(12.), single(34.))),
        }
    );
    // A corner of nought means that nobody said where the window was.
    assert_eq!(opening(Some(window(0., 0., 500., 700.))).corner, None);
    assert!(opening(Some(window(0., 1., 500., 700.))).corner.is_some());
    assert_eq!(
        opening(None),
        Opening {
            width: single(420.),
            height: single(690.),
            corner: None,
        }
    );
}

#[test]
fn the_session_file_stands_in_the_state_folder() {
    let home = Some(path("/home/x"));

    let named = state_dir(&Some(path("/var/state")), &home).unwrap();
    assert_eq!(named, path("/var/state/hark"));

    let usual = state_dir(&None, &home).unwrap();
    assert_eq!(usual, path("/home/x/.local/state/hark"));
    assert_eq!(state_dir(&None, &None), None);

    assert_eq!(state_file(&usual), path("/home/x/.local/state/hark/state.json"));
    assert_ne!(draft_file(&usual), state_file(&usual));
}

#[test]
fn positions_are_kept_to_the_millisecond() {
    let state = State {
        position: Duration { nanos: 1_999_999 },
        ..State::default()
    };

    assert_eq!(round_trip(&state).position, Duration::from_millis(1));
}
