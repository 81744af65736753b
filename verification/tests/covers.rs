use hark::artwork::key;
use hark::covers::{apply, apply_identity, plan, CoverPlan, Outcome, Step};
use hark::fingerprint::Identification;
use hark::path::FilePath;
use hark::queue::Queue;
use hark::sets::{KeySet, PathSet};
use hark::time::Duration;
use hark::track::{Chapter, Meta, Track};

fn path(text: &str) -> FilePath {
    FilePath::from_text(text)
}

fn track(name: &str, tags: Option<(&str, &str)>, has_art: bool) -> Track {
    let meta = Meta {
        artist: tags.map(|(artist, _)| artist.to_string()),
        album: tags.map(|(_, album)| album.to_string()),
        has_art,
        ..Meta::default()
    };
    Track::from_meta(path(name), meta, false)
}

fn planned(t: &Track, fp_enabled: bool) -> Option<CoverPlan> {
    plan(t, fp_enabled, &mut KeySet::new(), &mut PathSet::new())
}

fn identity() -> Identification {
    Identification {
        mbid: "m".to_string(),
        artist: Some("A".to_string()),
        album: Some(String::new()),
        chapter_titles: vec![Some("T".to_string())],
    }
}

#[test]
fn a_track_with_a_cover_needs_none() {
    let mut t = track("/a.mp3", Some(("A", "B")), true);
    t.art = Some(1);

    assert!(planned(&t, true).is_none());
}

#[test]
fn an_album_is_asked_about_once() {
    let (mut keys, mut paths) = (KeySet::new(), PathSet::new());
    let t = track("/a.mp3", Some(("A", "B")), false);

    let first = plan(&t, true, &mut keys, &mut paths).unwrap();
    assert!(first.run_itunes);
    assert!(!first.run_embedded);
    assert!(!first.run_fingerprint);
    assert_eq!(first.album_key, Some(key("A", "B")));
    assert!(matches!(first.begin(), Step::Itunes));

    assert!(plan(&t, true, &mut keys, &mut paths).is_none());
}

#[test]
fn a_file_without_tags_is_listened_to_once() {
    let (mut keys, mut paths) = (KeySet::new(), PathSet::new());
    let t = track("/a.mp3", None, false);

    let first = plan(&t, true, &mut keys, &mut paths).unwrap();
    assert!(first.run_fingerprint);
    assert_eq!(first.album_key, None);
    assert!(matches!(first.begin(), Step::Identify));
    assert!(plan(&t, true, &mut keys, &mut paths).is_none());

    assert!(planned(&t, false).is_none());
}

#[test]
fn a_picture_in_the_file_comes_first() {
    let p = planned(&track("/a.mp3", Some(("A", "B")), true), true).unwrap();

    assert!(matches!(p.begin(), Step::Embedded));
    let Step::Done(Outcome::TrackCover { path: at, image, release }) = p.after_embedded(Some(7))
    else {
        panic!("the picture was not used");
    };
    assert_eq!(at, path("/a.mp3"));
    assert_eq!(image, 7);
    assert_eq!(release, Some(key("A", "B")));

    // The picture went away since the scan.
    assert!(matches!(p.after_embedded(None), Step::Itunes));
}

#[test]
fn a_picture_that_went_away_leads_only_where_there_is_a_way() {
    let (mut keys, mut paths) = (KeySet::new(), PathSet::new());
    keys.insert(&key("A", "B"));
    let t = track("/a.mp3", Some(("A", "B")), true);

    let p = plan(&t, true, &mut keys, &mut paths).unwrap();
    assert!(!p.run_itunes);
    assert!(matches!(p.after_embedded(None), Step::Done(Outcome::Nothing)));

    let p = planned(&track("/a.mp3", None, true), true).unwrap();
    assert!(matches!(p.after_embedded(None), Step::Identify));
}

#[test]
fn an_album_nobody_knows_is_listened_to() {
    let t = track("/a.mp3", Some(("A", "B")), false);
    let p = planned(&t, true).unwrap();

    assert!(matches!(
        p.after_itunes(Some(3), false),
        Step::Done(Outcome::AlbumCover { key: k, image: 3 }) if k == key("A", "B")
    ));
    assert!(matches!(
        p.after_itunes(None, true),
        Step::Done(Outcome::RetryAlbum { key: k }) if k == key("A", "B")
    ));
    assert!(matches!(p.after_itunes(None, false), Step::Identify));

    let keyless = planned(&t, false).unwrap();
    assert!(matches!(
        keyless.after_itunes(None, false),
        Step::Done(Outcome::Nothing)
    ));
}

#[test]
fn listening_may_come_to_nothing() {
    let p = planned(&track("/a.mp3", None, false), true).unwrap();

    assert!(matches!(
        p.after_identify(None, None),
        Outcome::RetryPath { path: at } if at == path("/a.mp3")
    ));
    assert!(matches!(
        p.after_identify(Some(identity()), Some(9)),
        Outcome::Identified { path: at, id, .. } if at == path("/a.mp3") && id.mbid == "m"
    ));
}

#[test]
fn an_identity_fills_what_it_has() {
    let mut t = track("/a.mp3", Some(("X", "Y")), false);
    apply_identity(&mut t, &identity());

    assert_eq!(t.artist, "A");
    assert_eq!(t.album, "Y");
    assert_eq!(t.title, "T");
}

#[test]
fn an_identity_names_the_chapters_in_order() {
    let chapter = |title: &str| Chapter {
        title: title.to_string(),
        start: Duration::zero(),
        end: Duration::zero(),
    };
    let mut t = track("/a.mp3", None, false);
    t.title = "File".to_string();
    t.chapters = vec![chapter("1"), chapter("2"), chapter("3"), chapter("4")];

    let id = Identification {
        chapter_titles: vec![
            Some("One".to_string()),
            None,
            Some(String::new()),
        ],
        ..identity()
    };
    apply_identity(&mut t, &id);

    let titles: Vec<&str> = t.chapters.iter().map(|c| c.title.as_str()).collect();
    assert_eq!(titles, vec!["One", "2", "3", "4"]);
    assert_eq!(t.title, "File");
}

fn queue(tracks: Vec<Track>) -> Queue {
    let mut queue = Queue::default();
    queue.extend(tracks);
    queue
}

fn arts(queue: &Queue) -> Vec<Option<u64>> {
    queue.tracks.iter().map(|t| t.art).collect()
}

#[test]
fn an_album_cover_fills_the_gaps_of_its_album() {
    let mut other = track("/d.mp3", Some(("a", " B ")), false);
    other.art = Some(5);
    let mut q = queue(vec![
        track("/a.mp3", Some(("A", "B")), false),
        track("/b.mp3", Some(("A", "B")), true),
        track("/c.mp3", Some(("A", "C")), false),
        other,
        track("/e.mp3", Some((" a", "b")), false),
    ]);

    let outcome = Outcome::AlbumCover { key: key("A", "B"), image: 1 };
    apply(&mut q, &mut KeySet::new(), &mut PathSet::new(), &outcome);

    assert_eq!(arts(&q), vec![Some(1), None, None, Some(5), Some(1)]);
}

#[test]
fn a_picture_out_of_a_file_is_that_files() {
    let mut q = queue(vec![
        track("/a.mp3", Some(("A", "B")), true),
        track("/b.mp3", Some(("A", "B")), true),
    ]);
    let mut keys = KeySet::new();
    keys.insert("k");

    let outcome = Outcome::TrackCover {
        path: path("/b.mp3"),
        image: 2,
        release: Some("k".to_string()),
    };
    apply(&mut q, &mut keys, &mut PathSet::new(), &outcome);

    assert_eq!(arts(&q), vec![None, Some(2)]);
    assert!(!keys.contains("k"));
}

#[test]
fn an_identity_is_that_files() {
    let mut q = queue(vec![track("/a.mp3", None, true), track("/b.mp3", None, false)]);

    let outcome = Outcome::Identified {
        path: path("/a.mp3"),
        id: identity(),
        cover: Some(4),
    };
    apply(&mut q, &mut KeySet::new(), &mut PathSet::new(), &outcome);

    assert_eq!(arts(&q), vec![Some(4), None]);
    assert_eq!(q.tracks[0].artist, "A");
    assert_eq!(q.tracks[0].title, "T");
    assert_eq!(q.tracks[1].title, "b");
}

#[test]
fn what_failed_in_passing_may_be_tried_again() {
    let mut q = queue(vec![track("/a.mp3", None, false)]);
    let (mut keys, mut paths) = (KeySet::new(), PathSet::new());
    keys.insert("k");
    paths.insert(&path("/a.mp3"));

    apply(&mut q, &mut keys, &mut paths, &Outcome::Nothing);
    assert!(keys.contains("k"));
    assert!(!paths.insert(&path("/a.mp3")));

    apply(&mut q, &mut keys, &mut paths, &Outcome::RetryAlbum { key: "k".to_string() });
    assert!(!keys.contains("k"));

    apply(&mut q, &mut keys, &mut paths, &Outcome::RetryPath { path: path("/a.mp3") });
    assert!(paths.insert(&path("/a.mp3")));
    assert_eq!(arts(&q), vec![None]);
}
