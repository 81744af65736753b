use hark::fingerprint::Identification;
use hark::id_cache::{
    decode, encode, read, read_record, write_found, write_unknown, Cached, MAX_RECORD, VERSION,
};
use hark::meta_cache::Stamp;
use serde_json::Value;

const STAMP: Stamp = Stamp {
    mtime_ns: 1_721_742_401_123_456_789,
    size: 8_123_456,
};

fn full() -> Identification {
    Identification {
        mbid: "b1a9c0e8-d59d-4f0a-9b8c-2e4f6a1d3c57".to_string(),
        artist: Some("Forndom".to_string()),
        album: Some("Flykt".to_string()),
        chapter_titles: vec![
            Some("Fajr".to_string()),
            // A chapter AcoustID could not place, in the middle where it can
            // shift everything after it if the position is not held.
            None,
            Some("Hemmet".to_string()),
        ],
    }
}

fn found(bytes: &[u8]) -> Identification {
    match decode(bytes, STAMP) {
        Some(Cached::Found(id)) => id,
        Some(Cached::Unknown) => panic!("decode read an answer as a miss"),
        None => panic!("decode refused a good record"),
    }
}

/// A record of this version and this stamp, with `rest` after the stamp.
fn record(version: u64, rest: &str) -> String {
    format!(
        r#"{{"v":{version},"mtime_ns":{},"size":{}{rest}}}"#,
        STAMP.mtime_ns, STAMP.size
    )
}

#[test]
fn id_cache_a_full_record_survives_a_round_trip() {
    let bytes = encode(STAMP, Some(&full())).expect("encode refused a small record");
    let id = found(&bytes);

    assert_eq!(id.mbid, "b1a9c0e8-d59d-4f0a-9b8c-2e4f6a1d3c57");
    assert_eq!(id.artist.as_deref(), Some("Forndom"));
    assert_eq!(id.album.as_deref(), Some("Flykt"));
    assert_eq!(id.chapter_titles.len(), 3);
    assert_eq!(id.chapter_titles[0].as_deref(), Some("Fajr"));
    assert_eq!(id.chapter_titles[1], None);
    assert_eq!(id.chapter_titles[2].as_deref(), Some("Hemmet"));
}

#[test]
fn a_parsed_answer_says_what_it_holds() {
    let mut record = Value::Object(serde_json::Map::new());
    assert!(read_record(&record, STAMP).is_none());

    record["v"] = Value::from(VERSION);
    record["mtime_ns"] = Value::from(STAMP.mtime_ns);
    record["size"] = Value::from(STAMP.size);
    assert!(matches!(read_record(&record, STAMP), Some(Cached::Unknown)));

    record["mbid"] = Value::from("b1a9");
    record["titles"] = Value::Array(vec![Value::Null, Value::from("Fajr")]);
    let Some(Cached::Found(id)) = read_record(&record, STAMP) else {
        panic!("a good record was refused");
    };
    assert_eq!(id.mbid, "b1a9");
    assert_eq!(id.chapter_titles, vec![None, Some("Fajr".to_string())]);
}

#[test]
fn a_record_without_an_mbid_is_a_definitive_miss() {
    let bytes = encode(STAMP, None).expect("encode refused a miss");

    assert!(matches!(decode(&bytes, STAMP), Some(Cached::Unknown)));
}

#[test]
fn id_cache_a_changed_file_invalidates_the_record() {
    let bytes = encode(STAMP, Some(&full())).expect("encode refused a small record");

    let touched = Stamp {
        mtime_ns: STAMP.mtime_ns + 1,
        ..STAMP
    };
    let resized = Stamp {
        size: STAMP.size + 1,
        ..STAMP
    };

    assert!(decode(&bytes, touched).is_none());
    assert!(decode(&bytes, resized).is_none());
}

#[test]
fn id_cache_another_version_is_a_miss() {
    let rest = r#","mbid":"b1a9c0e8-d59d-4f0a-9b8c-2e4f6a1d3c57""#;

    assert!(decode(record(VERSION + 1, rest).as_bytes(), STAMP).is_none());
    assert!(decode(record(VERSION, rest).as_bytes(), STAMP).is_some());
}

#[test]
fn id_cache_nonsense_decodes_to_nothing_without_panicking() {
    for bytes in [
        &b""[..],
        &b"not json"[..],
        &b"{"[..],
        &b"[]"[..],
        &b"null"[..],
        &b"\"\""[..],
    ] {
        assert!(decode(bytes, STAMP).is_none());
    }
}

/// An MBID that is not a non-empty string is not something hark wrote, and
/// guessing at it fetches the wrong album's cover.
#[test]
fn an_unusable_mbid_is_a_miss_rather_than_a_guess() {
    for mbid in ["\"\"", "7", "{}", "[]"] {
        let bytes = record(VERSION, &format!(r#","mbid":{mbid}"#));

        assert!(decode(bytes.as_bytes(), STAMP).is_none());
    }
}

#[test]
fn one_malformed_title_voids_the_whole_record() {
    let bytes = record(
        VERSION,
        r#","mbid":"b1a9c0e8-d59d-4f0a-9b8c-2e4f6a1d3c57","titles":["Fajr",7,"Hemmet"]"#,
    );

    assert!(decode(bytes.as_bytes(), STAMP).is_none());
}

#[test]
fn an_empty_mbid_is_never_written() {
    let id = Identification {
        mbid: String::new(),
        ..full()
    };

    assert!(encode(STAMP, Some(&id)).is_none());
}

#[test]
fn id_cache_an_oversized_record_is_refused() {
    let id = Identification {
        chapter_titles: (0..500).map(|i| Some(format!("Chapter number {i}"))).collect(),
        ..full()
    };

    assert!(encode(STAMP, Some(&id)).is_none());
}

#[test]
fn an_answer_is_these_bytes() {
    let bytes = write_found(Stamp { mtime_ns: 3, size: 4 }, &full()).unwrap();

    assert_eq!(
        String::from_utf8(bytes).unwrap(),
        r#"{"album":"Flykt","artist":"Forndom","mbid":"b1a9c0e8-d59d-4f0a-9b8c-2e4f6a1d3c57","mtime_ns":3,"size":4,"titles":["Fajr",null,"Hemmet"],"v":1}"#
    );
}

#[test]
fn a_miss_is_these_bytes() {
    let bytes = write_unknown(Stamp { mtime_ns: 3, size: 4 }).unwrap();

    assert_eq!(
        String::from_utf8(bytes).unwrap(),
        r#"{"mtime_ns":3,"size":4,"v":1}"#
    );
}

#[test]
fn an_answer_may_be_as_long_as_the_limit_and_no_longer() {
    let id = |mbid: String| Identification {
        mbid,
        artist: None,
        album: None,
        chapter_titles: Vec::new(),
    };
    let room = MAX_RECORD - encode(STAMP, Some(&id("x".to_string()))).unwrap().len();

    assert_eq!(
        encode(STAMP, Some(&id("x".repeat(1 + room)))).unwrap().len(),
        MAX_RECORD
    );
    assert!(encode(STAMP, Some(&id("x".repeat(2 + room)))).is_none());
}

#[test]
fn a_file_that_was_never_looked_up_has_no_answer() {
    assert!(read(None, STAMP).is_none());
    let attribute = write_unknown(STAMP).unwrap();
    assert!(matches!(read(Some(&attribute), STAMP), Some(Cached::Unknown)));
}

#[test]
fn a_null_mbid_is_the_recorded_miss() {
    let bytes = record(VERSION, r#","mbid":null"#);

    assert!(matches!(decode(bytes.as_bytes(), STAMP), Some(Cached::Unknown)));
}
