use hark::artwork::ImageFormat;
use hark::chapters::{can_read, can_read_timecode, clean_title, collect_marks, parse_timecode, read_chapters};
use hark::meta_cache::{encode, Stamp};
use hark::path::FilePath;
use hark::time::Duration;
use hark::track::{
    chapter_container, format_time, is_supported, Chapter, Container, Loading, Meta, Tags, Track,
    SUPPORTED, UNKNOWN_ALBUM, UNKNOWN_ARTIST, UNKNOWN_TRACK,
};

const STAMP: Stamp = Stamp {
    mtime_ns: 5,
    size: 6,
};

fn path(text: &str) -> FilePath {
    FilePath::from_text(text)
}

fn secs(n: u64) -> Duration {
    Duration::from_secs(n)
}

#[test]
fn these_files_can_be_played() {
    for extension in SUPPORTED {
        assert!(is_supported(&path(&format!("/a.{extension}"))));
        assert!(is_supported(&path(&format!("/a.{}", extension.to_uppercase()))));
    }
    for name in ["/a.txt", "/mp3", "/.mp3", "/a.mp3/", "/a.mp3.part", "/a.", ""] {
        let expected = std::path::Path::new(name)
            .extension()
            .and_then(|e| e.to_str())
            .map(|e| SUPPORTED.contains(&e.to_lowercase().as_str()))
            .unwrap_or(false);
        assert_eq!(is_supported(&path(name)), expected, "{name}");
    }
    assert!(!is_supported(&FilePath::new(vec![b'/', b'a', b'.', 0xff])));
    // Lower-casing goes beyond ASCII: this is a Kelvin sign, and no letter K of
    // any extension here.
    assert!(!is_supported(&path("/a.\u{212a}")));
}

#[test]
fn a_track_without_tags_goes_by_its_file_name() {
    let track = Track::from_meta(path("/music/01 Song.flac"), Meta::default(), true);

    assert_eq!(track.title, "01 Song");
    assert_eq!(track.artist, UNKNOWN_ARTIST);
    assert_eq!(track.album, UNKNOWN_ALBUM);
    assert_eq!(track.art, None);
    assert!(track.loved);

    let odd = Track::from_meta(FilePath::new(vec![b'/', 0xff]), Meta::default(), false);
    assert_eq!(odd.title, UNKNOWN_TRACK);
    assert!(!odd.loved);
}

#[test]
fn a_track_goes_by_its_tags() {
    let meta = Meta {
        title: Some("T".to_string()),
        artist: Some("A".to_string()),
        album: Some("B".to_string()),
        duration: secs(9),
        chapters: Vec::new(),
        has_art: true,
    };
    let track = Track::from_meta(path("/x.mp3"), meta, false);

    assert_eq!(track.title, "T");
    assert_eq!(track.artist, "A");
    assert_eq!(track.album, "B");
    assert_eq!(track.duration, secs(9));
    assert!(track.has_art);
}

#[test]
fn a_good_record_spares_the_file() {
    let meta = Meta {
        title: Some("T".to_string()),
        ..Meta::default()
    };
    let record = encode(STAMP, &meta).unwrap();

    let Loading::Cached(track) = Track::load(path("/x.mp3"), Some(STAMP), Some(&record), true)
    else {
        panic!("a good record was not used");
    };
    assert_eq!(track.title, "T");
    assert!(track.loved);

    let other = Stamp { size: 7, ..STAMP };
    for (stamp, attribute) in [
        (Some(other), Some(&record[..])),
        (None, Some(&record[..])),
        (Some(STAMP), None),
        (Some(STAMP), Some(&b"nonsense"[..])),
    ] {
        assert!(matches!(
            Track::load(path("/x.mp3"), stamp, attribute, false),
            Loading::Parse(p) if p == path("/x.mp3")
        ));
    }
}

#[test]
fn a_parsed_file_gets_a_record() {
    let meta = || Meta {
        title: Some("T".to_string()),
        ..Meta::default()
    };

    let (track, record) = Track::parsed(path("/x.mp3"), Some(STAMP), Some(meta()), false);
    assert_eq!(track.title, "T");
    assert_eq!(record, encode(STAMP, &meta()));

    let (_, record) = Track::parsed(path("/x.mp3"), None, Some(meta()), false);
    assert_eq!(record, None);

    // A file that could not be read must not be frozen as one that has nothing.
    let (track, record) = Track::parsed(path("/x.mp3"), Some(STAMP), None, false);
    assert_eq!(track.title, "x");
    assert_eq!(record, None);
}

#[test]
fn a_record_and_a_parse_build_the_same_track() {
    let meta = || Meta {
        artist: Some("A".to_string()),
        duration: secs(3),
        ..Meta::default()
    };
    let (parsed, record) = Track::parsed(path("/y.mp3"), Some(STAMP), Some(meta()), false);
    let Loading::Cached(cached) =
        Track::load(path("/y.mp3"), Some(STAMP), record.as_deref(), false)
    else {
        panic!("the record was not used");
    };

    assert_eq!(parsed.title, cached.title);
    assert_eq!(parsed.artist, cached.artist);
    assert_eq!(parsed.album, cached.album);
    assert_eq!(parsed.duration, cached.duration);

    // And a renamed file follows its name.
    let Loading::Cached(renamed) =
        Track::load(path("/z.mp3"), Some(STAMP), record.as_deref(), false)
    else {
        panic!("the record was not used");
    };
    assert_eq!(renamed.title, "z");
}

#[test]
fn blank_tags_are_no_tags() {
    let pictures: [&[u8]; 2] = [b"BM not this", b"\x89PNG this"];
    let tags = |pictures| Tags {
        title: Some(" \t\u{3000}".to_string()),
        artist: Some(" A ".to_string()),
        album: None,
        pictures,
    };

    let meta = Meta::from_tags(secs(1), Vec::new(), Some(tags(&pictures)));
    assert_eq!(meta.title, None);
    assert_eq!(meta.artist.as_deref(), Some(" A "));
    assert_eq!(meta.album, None);
    assert_eq!(meta.duration, secs(1));
    assert!(meta.has_art);

    assert!(!Meta::from_tags(secs(1), Vec::new(), Some(tags(&pictures[..1]))).has_art);

    let untagged = Meta::from_tags(secs(1), Vec::new(), None);
    assert_eq!(untagged.title, None);
    assert!(!untagged.has_art);
    assert_eq!(hark::artwork::sniff(pictures[1]), Some(ImageFormat::Png));
}

#[test]
fn times_are_minutes_and_seconds() {
    for (seconds, expected) in [
        (0, "0:00"),
        (9, "0:09"),
        (66, "1:06"),
        (600, "10:00"),
        (3_725, "62:05"),
        (u64::MAX, "307445734561825860:15"),
    ] {
        assert_eq!(format_time(secs(seconds)), expected);
    }
    assert_eq!(format_time(Duration::from_millis(1_999)), "0:01");
}

#[test]
fn ogg_files_may_hold_chapters() {
    assert_eq!(chapter_container(&path("/a.OPUS")), Some(Container::Opus));
    assert_eq!(chapter_container(&path("/a.ogg")), Some(Container::Vorbis));
    assert_eq!(chapter_container(&path("/a.oga")), Some(Container::Vorbis));
    assert_eq!(chapter_container(&path("/a.flac")), None);
    assert_eq!(chapter_container(&path("/opus")), None);
}

#[test]
fn timecodes_are_read_to_the_millisecond() {
    for (text, millis) in [
        ("00:00:00.000", Some(0)),
        ("01:02:03.456", Some(3_723_456)),
        (" 1 :2:3", Some(3_723_000)),
        ("0:0:1.5", Some(1_500)),
        ("0:0:1.", Some(1_000)),
        ("0:0:1.23456", Some(1_230 + 4)),
        ("100:99:99.9", Some((((100 * 60 + 99) * 60 + 99) * 1000) + 900)),
        ("+1:2:3", Some(3_723_000)),
        ("1:2", None),
        ("1:2:3:4", None),
        ("1:2:x", None),
        ("1: 2:3", None),
        ("1:2:3.x", None),
        ("", None),
        ("-1:0:0", None),
    ] {
        assert!(can_read_timecode(text), "{text}");
        assert_eq!(
            parse_timecode(text),
            millis.map(Duration::from_millis),
            "{text}"
        );
    }
}

/// Cutting a fraction at three bytes, or counting milliseconds past the largest
/// number, is not possible on these.
#[test]
fn some_timecodes_cannot_be_read() {
    assert!(!can_read_timecode("0:0:0.é€"));
    assert!(!can_read_timecode("18446744073709551615:0:0"));
    assert!(!can_read_timecode("0:0:0.ab€"));
    // Neither is attempted where the rest says no already.
    for text in ["0:0:0.abc€", "x:0:0.ab€", "0:0.ab€", "18446744073709551615:0:x"] {
        assert!(can_read_timecode(text), "{text}");
        assert_eq!(parse_timecode(text), None, "{text}");
    }
}

#[test]
fn a_track_number_is_no_part_of_a_title() {
    for (raw, clean) in [
        ("01. Fajr", "Fajr"),
        ("  7.   Hemmet ", "Hemmet"),
        ("No number", "No number"),
        (". x", ". x"),
        ("1.x", "1.x"),
        ("1a. x", "1a. x"),
        ("12. 3. x", "3. x"),
        ("٣. x", "٣. x"),
        ("", ""),
    ] {
        assert_eq!(clean_title(raw), clean, "{raw}");
    }
}

fn comments(pairs: &[(&str, &str)]) -> Vec<(String, String)> {
    pairs
        .iter()
        .map(|(key, value)| (key.to_string(), value.to_string()))
        .collect()
}

#[test]
fn chapters_are_marks_with_names() {
    let comments = comments(&[
        ("TITLE", "Album"),
        ("CHAPTER001NAME", "02. Second"),
        ("chapter000", "00:00:00.000"),
        ("CHAPTER001", "00:01:40.000"),
        ("CHAPTERxNAME", "lost"),
        ("CHAPTER002", "not a time"),
        ("CHAPTER003", "00:03:20.500"),
    ]);
    assert!(can_read(&comments));

    let mut marks = collect_marks(&comments);
    marks.sort_by_key(|mark| mark.start.nanos);
    let marks: Vec<(Duration, String)> = marks.into_iter().map(|m| (m.start, m.title)).collect();
    assert_eq!(
        marks,
        vec![
            (secs(0), "Chapter 1".to_string()),
            (secs(100), "Second".to_string()),
            (Duration::from_millis(200_500), "Chapter 4".to_string()),
        ]
    );
}

#[test]
fn a_chapter_runs_to_the_next() {
    let marks = comments(&[
        ("CHAPTER2", "0:03:20"),
        ("CHAPTER1", "0:01:40"),
        ("CHAPTER0", "0:00:00"),
        ("CHAPTER0NAME", "One"),
    ]);

    let chapters = read_chapters(Some(marks), secs(300));
    let chapters: Vec<(String, Duration, Duration)> = chapters
        .into_iter()
        .map(|Chapter { title, start, end }| (title, start, end))
        .collect();
    assert_eq!(
        chapters,
        vec![
            ("One".to_string(), secs(0), secs(100)),
            ("Chapter 2".to_string(), secs(100), secs(200)),
            ("Chapter 3".to_string(), secs(200), secs(300)),
        ]
    );
}

#[test]
fn a_last_chapter_past_the_end_is_empty() {
    let marks = comments(&[("CHAPTER0", "0:0:0"), ("CHAPTER1", "0:0:50")]);

    let chapters = read_chapters(Some(marks), secs(20));
    assert_eq!(chapters[1].start, secs(50));
    assert_eq!(chapters[1].end, secs(50));
}

#[test]
fn one_chapter_is_none() {
    assert!(read_chapters(Some(comments(&[("CHAPTER0", "0:0:0")])), secs(9)).is_empty());
    assert!(read_chapters(Some(Vec::new()), secs(9)).is_empty());
    assert!(read_chapters(None, secs(9)).is_empty());
}

#[test]
fn a_mark_that_is_given_twice_counts_as_it_was_given_last() {
    let marks = comments(&[
        ("CHAPTER0", "0:0:5"),
        ("CHAPTER00", "0:0:7"),
        ("CHAPTER0", "bad"),
        ("CHAPTER0NAME", "A"),
        ("CHAPTER000NAME", "B"),
    ]);

    let marks = collect_marks(&marks);
    assert_eq!(marks.len(), 1);
    assert_eq!(marks[0].start, secs(7));
    assert_eq!(marks[0].title, "B");
}
