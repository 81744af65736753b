use hark::meta_cache::{decode, encode, read, read_record, stamp, Stamp, MAX_RECORD, VERSION};
use hark::time::Duration;
use hark::track::{Chapter, Meta};
use serde_json::Value;

const STAMP: Stamp = Stamp {
    mtime_ns: 1_721_742_401_123_456_789,
    size: 8_123_456,
};

fn full() -> Meta {
    Meta {
        title: Some("Sunday Morning".to_string()),
        artist: Some("The Velvet Underground".to_string()),
        album: Some("The Velvet Underground & Nico".to_string()),
        duration: Duration::from_millis(175_000),
        chapters: vec![
            Chapter {
                title: "One".to_string(),
                start: Duration::zero(),
                end: Duration::from_millis(90_000),
            },
            Chapter {
                title: "Two".to_string(),
                start: Duration::from_millis(90_000),
                end: Duration::from_millis(175_000),
            },
        ],
        has_art: true,
    }
}

fn round_trip(meta: &Meta) -> Meta {
    let Some(bytes) = encode(STAMP, meta) else {
        panic!("encode refused a small record");
    };
    let Some(decoded) = decode(&bytes, STAMP) else {
        panic!("decode refused its own output");
    };
    decoded
}

#[test]
fn meta_cache_a_full_record_survives_a_round_trip() {
    let meta = round_trip(&full());

    assert_eq!(meta.title.as_deref(), Some("Sunday Morning"));
    assert_eq!(meta.artist.as_deref(), Some("The Velvet Underground"));
    assert_eq!(meta.album.as_deref(), Some("The Velvet Underground & Nico"));
    assert_eq!(meta.duration, Duration::from_millis(175_000));
    assert!(meta.has_art);
    assert_eq!(meta.chapters.len(), 2);
    assert_eq!(meta.chapters[1].title, "Two");
    assert_eq!(meta.chapters[1].start, Duration::from_millis(90_000));
    assert_eq!(meta.chapters[1].end, Duration::from_millis(175_000));
}

#[test]
fn a_parsed_tag_record_says_what_it_holds() {
    let mut record = Value::Object(serde_json::Map::new());
    record["v"] = Value::from(VERSION);
    record["mtime_ns"] = Value::from(STAMP.mtime_ns);
    record["size"] = Value::from(STAMP.size);
    assert!(read_record(&record, STAMP).is_none());

    record["duration_ms"] = Value::from(4_200);
    record["title"] = Value::from("Sunday Morning");
    let meta = read_record(&record, STAMP).unwrap();
    assert_eq!(meta.title.as_deref(), Some("Sunday Morning"));
    assert_eq!(meta.duration, Duration::from_millis(4_200));
    assert!(meta.chapters.is_empty());

    record["size"] = Value::from(STAMP.size + 1);
    assert!(read_record(&record, STAMP).is_none());
}

#[test]
fn a_bare_record_keeps_its_absent_tags_absent() {
    let meta = round_trip(&Meta {
        duration: Duration::from_millis(4_200),
        ..Meta::default()
    });

    assert_eq!(meta.title, None);
    assert_eq!(meta.artist, None);
    assert_eq!(meta.album, None);
    assert_eq!(meta.duration, Duration::from_millis(4_200));
    assert!(!meta.has_art);
    assert!(meta.chapters.is_empty());
}

#[test]
fn meta_cache_a_changed_file_invalidates_the_record() {
    let Some(bytes) = encode(STAMP, &full()) else {
        panic!("encode refused a small record");
    };

    let retagged = Stamp {
        mtime_ns: STAMP.mtime_ns + 1,
        ..STAMP
    };
    let regrown = Stamp {
        size: STAMP.size + 1,
        ..STAMP
    };
    assert!(decode(&bytes, retagged).is_none());
    assert!(decode(&bytes, regrown).is_none());
}

#[test]
fn meta_cache_another_version_is_a_miss() {
    for version in ["0", "2"] {
        let record = format!(
            r#"{{"v":{version},"mtime_ns":{},"size":{},"duration_ms":1}}"#,
            STAMP.mtime_ns, STAMP.size
        );
        assert!(decode(record.as_bytes(), STAMP).is_none());
    }
}

#[test]
fn meta_cache_nonsense_decodes_to_nothing_without_panicking() {
    for bytes in [
        &b""[..],
        &b"not json"[..],
        &b"{"[..],
        &b"[]"[..],
        &b"null"[..],
        &b"\"\""[..],
    ] {
        assert!(decode(bytes, STAMP).is_none());
    }
}

#[test]
fn a_record_without_a_duration_is_a_miss() {
    let record = format!(
        r#"{{"v":1,"mtime_ns":{},"size":{}}}"#,
        STAMP.mtime_ns, STAMP.size
    );
    assert!(decode(record.as_bytes(), STAMP).is_none());
}

#[test]
fn one_malformed_chapter_voids_the_whole_record() {
    let record = format!(
        r#"{{"v":1,"mtime_ns":{},"size":{},"duration_ms":10,
           "chapters":[{{"t":"a","s":0,"e":5}},{{"t":"b","s":5}}]}}"#,
        STAMP.mtime_ns, STAMP.size
    );
    assert!(decode(record.as_bytes(), STAMP).is_none());
}

#[test]
fn meta_cache_an_oversized_record_is_refused() {
    let mut meta = full();
    meta.chapters = (0..2_000)
        .map(|i| Chapter {
            title: format!("Chapter {i}"),
            start: Duration::from_secs(i),
            end: Duration::from_secs(i + 1),
        })
        .collect();

    assert!(encode(STAMP, &meta).is_none());
}

/// The record is plain JSON: this is every byte of one.
#[test]
fn a_bare_record_is_these_bytes() {
    let meta = Meta {
        duration: Duration::from_millis(4_200),
        ..Meta::default()
    };
    let bytes = encode(Stamp { mtime_ns: -5, size: 7 }, &meta).unwrap();

    assert_eq!(
        String::from_utf8(bytes).unwrap(),
        r#"{"duration_ms":4200,"mtime_ns":-5,"size":7,"v":1}"#
    );
}

#[test]
fn a_chaptered_record_is_these_bytes() {
    let meta = Meta {
        title: Some("Ä \"b\"".to_string()),
        chapters: vec![Chapter {
            title: "One".to_string(),
            start: Duration { nanos: 1_999_999 },
            end: Duration::from_secs(2),
        }],
        ..Meta::default()
    };
    let bytes = encode(Stamp { mtime_ns: 1, size: 2 }, &meta).unwrap();

    assert_eq!(
        String::from_utf8(bytes).unwrap(),
        r#"{"chapters":[{"e":2000,"s":1,"t":"One"}],"duration_ms":0,"mtime_ns":1,"size":2,"title":"Ä \"b\"","v":1}"#
    );
}

#[test]
fn spans_are_kept_to_the_millisecond() {
    let meta = round_trip(&Meta {
        duration: Duration { nanos: 1_234_567_890 },
        ..Meta::default()
    });

    assert_eq!(meta.duration, Duration::from_millis(1_234));
}

#[test]
fn a_record_may_be_as_long_as_the_limit_and_no_longer() {
    let empty = encode(STAMP, &Meta { title: Some(String::new()), ..Meta::default() }).unwrap();
    let room = MAX_RECORD - empty.len();

    let fits = Meta { title: Some("x".repeat(room)), ..Meta::default() };
    let too_long = Meta { title: Some("x".repeat(room + 1)), ..Meta::default() };

    assert_eq!(encode(STAMP, &fits).unwrap().len(), MAX_RECORD);
    assert!(encode(STAMP, &too_long).is_none());
}

#[test]
fn fields_of_the_wrong_kind_read_as_absent() {
    let record = format!(
        r#"{{"v":1,"mtime_ns":{},"size":{},"duration_ms":10,"title":7,"artist":null,"art":"yes","chapters":null}}"#,
        STAMP.mtime_ns, STAMP.size
    );
    let meta = decode(record.as_bytes(), STAMP).unwrap();

    assert_eq!(meta.title, None);
    assert_eq!(meta.artist, None);
    assert!(!meta.has_art);
    assert!(meta.chapters.is_empty());
    assert_eq!(meta.duration, Duration::from_millis(10));
}

#[test]
fn a_file_without_the_attribute_has_no_record() {
    assert!(read(None, STAMP).is_none());

    let attribute = hark::meta_cache::write(STAMP, &full()).unwrap();
    let meta = read(Some(&attribute), STAMP).unwrap();
    assert_eq!(meta.title.as_deref(), Some("Sunday Morning"));
}

#[test]
fn a_stamp_counts_nanoseconds_and_saturates() {
    assert_eq!(stamp(12, 345, 6), Stamp { mtime_ns: 12_000_000_345, size: 6 });
    assert_eq!(stamp(-1, 1, 0), Stamp { mtime_ns: -999_999_999, size: 0 });
    assert_eq!(stamp(i64::MAX, 5, 1), Stamp { mtime_ns: i64::MAX, size: 1 });
    assert_eq!(stamp(i64::MIN, 0, 1), Stamp { mtime_ns: i64::MIN, size: 1 });
}
