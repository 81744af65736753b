use hark::audio::{needs_reopening, Audio};
use hark::decode::{plan, Decoder, Plan};
use hark::meta_cache::Stamp;
use hark::mpris::{position_micros, Mpris, State, TrackInfo, BUS_NAME};
use hark::opus_source::{read_head, Head, HeadError, Next, Playout, MAX_FRAME};
use hark::path::FilePath;
use hark::peak_cache;
use hark::single::Single;
use hark::time::Duration;
use hark::waveform::{remembered, resample, stretch, to_remember, PEAKS};

fn single(value: f32) -> Single {
    Single {
        bits: value.to_bits(),
    }
}

#[test]
fn a_new_transport_is_silent() {
    let t = Audio::new(single(0.7));

    assert!(!t.is_playing(false));
    assert!(!t.finished(true));
    assert!(!t.can_seek());
    assert_eq!(t.position(Duration::from_secs(9)), Duration::zero());
    assert_eq!(t.fade, single(1.0));
}

#[test]
fn a_loaded_track_plays_and_finishes() {
    let mut t = Audio::new(single(0.7));
    t.set_fade(single(0.25));
    t.play_file(true);

    assert_eq!(t.fade, single(1.0));
    assert!(t.is_playing(false));
    assert!(!t.is_playing(true));
    assert!(t.finished(true));
    assert!(!t.finished(false));
    assert!(t.can_seek());
    assert_eq!(t.position(Duration::from_secs(9)), Duration::from_secs(9));

    t.begin_pause();
    assert!(!t.is_playing(false));
    t.resume();
    assert!(t.is_playing(false));
    t.stop();
    assert!(!t.is_playing(false));
    assert!(!t.finished(true));

    t.play_file(false);
    assert!(!t.is_playing(false));
}

#[test]
fn volumes_and_fades_stay_in_range() {
    let mut t = Audio::new(single(0.7));
    for (given, kept) in [(-1.0, 0.0), (0.5, 0.5), (3.0, 1.0), (-0.0, -0.0)] {
        t.set_volume(single(given));
        assert_eq!(t.volume, single(kept));
        t.set_fade(single(given));
        assert_eq!(t.fade, single(kept));
    }
}

#[test]
fn the_device_follows_the_rate_of_the_track() {
    assert!(needs_reopening(44_100, 48_000));
    assert!(!needs_reopening(48_000, 48_000));
}

#[test]
fn ogg_files_may_be_opus() {
    let planned = |name: &str| plan(&FilePath::from_text(name));

    assert_eq!(
        planned("/a.Opus"),
        Plan { first: Decoder::Opus, otherwise: None }
    );
    for name in ["/a.ogg", "/a.OGA"] {
        assert_eq!(
            planned(name),
            Plan { first: Decoder::Opus, otherwise: Some(Decoder::Symphonia) }
        );
    }
    for name in ["/a.flac", "/opus", "/a"] {
        assert_eq!(
            planned(name),
            Plan { first: Decoder::Symphonia, otherwise: None }
        );
    }
}

fn head(channels: u8, pre_skip: [u8; 2]) -> Vec<u8> {
    let mut data = b"OpusHead\x01".to_vec();
    data.push(channels);
    data.extend(pre_skip);
    data.extend([0; 7]);
    data
}

#[test]
fn an_opus_head_says_how_to_decode() {
    assert_eq!(
        read_head(&head(2, [0x38, 0x01])),
        Ok(Head { channels: 2, pre_skip: 312 })
    );
    assert_eq!(read_head(&head(1, [0, 0])), Ok(Head { channels: 1, pre_skip: 0 }));
    assert_eq!(read_head(&head(6, [0, 0])), Err(HeadError::Channels(6)));
    assert_eq!(read_head(&head(0, [0, 0])), Err(HeadError::Channels(0)));
    assert_eq!(read_head(&head(2, [0, 0])[..18]), Err(HeadError::NotOpus));
    assert_eq!(read_head(b"\x01vorbis and more than that"), Err(HeadError::NotOpus));
}

#[test]
fn the_delay_is_dropped_from_the_front() {
    let mut playout = Playout::new(Head { channels: 2, pre_skip: 5 });
    assert_eq!(playout.next(), Next::Decode);

    // Three frames are all delay, and two of the next four.
    playout.decoded(3);
    assert_eq!(playout.next(), Next::Decode);
    playout.decoded(4);
    assert_eq!(playout.left(), 4);
    for at in 4..8 {
        assert_eq!(playout.next(), Next::At(at));
    }
    assert_eq!(playout.next(), Next::Decode);

    playout.decoded(MAX_FRAME);
    assert_eq!(playout.next(), Next::At(0));
    playout.moved();
    assert_eq!(playout.left(), 0);
    assert_eq!(playout.next(), Next::Decode);
    playout.end();
    assert_eq!(playout.next(), Next::End);
    playout.moved();
    assert_eq!(playout.next(), Next::Decode);
}

fn singles(values: &[f32]) -> Vec<Single> {
    values.iter().map(|&value| single(value)).collect()
}

#[test]
fn bars_keep_the_loudest() {
    let peaks = singles(&[0.1, 0.9, 0.3, 0.2, 0.5]);

    assert_eq!(resample(&peaks, 2), singles(&[0.9, 0.5]));
    assert_eq!(resample(&peaks, 5), peaks);
    assert_eq!(resample(&peaks, 1), singles(&[0.9]));
    assert_eq!(
        resample(&peaks, 10),
        singles(&[0.1, 0.1, 0.9, 0.9, 0.3, 0.3, 0.2, 0.2, 0.5, 0.5])
    );
    assert_eq!(resample(&peaks, 0), Vec::new());
    assert_eq!(resample(&[], 4), Vec::new());
    // What is no number, or below nought, counts as nought.
    assert_eq!(resample(&singles(&[f32::NAN, -1.0]), 1), singles(&[0.0]));
}

#[test]
fn a_chapter_takes_up_a_stretch_of_the_peaks() {
    let peaks = singles(&[0.1, 0.2, 0.3]);

    assert_eq!(stretch(&peaks, 1, 3), singles(&[0.2, 0.3]));
    assert_eq!(stretch(&peaks, 0, 9), peaks);
    assert_eq!(stretch(&peaks, 2, 1), Vec::new());
    assert_eq!(stretch(&peaks, 8, 9), Vec::new());
}

#[test]
fn peaks_are_remembered_for_the_file_as_it_is() {
    let stamp = Stamp { mtime_ns: 1, size: 2 };
    let levels = vec![7; PEAKS];
    let attribute = to_remember(Some(stamp), &levels).unwrap();

    assert_eq!(Some(attribute.clone()), peak_cache::encode(stamp, &levels));
    assert_eq!(remembered(Some(stamp), Some(&attribute)), Some(levels.clone()));
    assert_eq!(remembered(None, Some(&attribute)), None);
    assert_eq!(remembered(Some(stamp), None), None);
    assert_eq!(to_remember(None, &levels), None);
    assert_eq!(to_remember(Some(stamp), &[]), None);
}

fn info() -> TrackInfo {
    TrackInfo {
        index: 12,
        title: "T".to_string(),
        artist: "A".to_string(),
        album: "B".to_string(),
        duration: Duration { nanos: 1_500_999 },
    }
}

fn state(playing: bool, track: Option<TrackInfo>) -> State {
    State {
        playing,
        volume: single(0.5),
        track,
    }
}

#[test]
fn the_desktop_is_told_the_status() {
    assert_eq!(state(true, None).playback_status(), "Stopped");
    assert_eq!(state(true, Some(info())).playback_status(), "Playing");
    assert_eq!(state(false, Some(info())).playback_status(), "Paused");
    assert_eq!(State::default().playback_status(), "Stopped");
    assert_eq!(BUS_NAME, "org.mpris.MediaPlayer2.hark");
}

#[test]
fn the_desktop_is_told_the_track() {
    let metadata = state(true, Some(info())).metadata().unwrap();

    assert_eq!(metadata.track_id, "/org/mpris/MediaPlayer2/track/12");
    assert_eq!(metadata.length, 1_500);
    assert_eq!(metadata.title, "T");
    assert_eq!(metadata.artists, vec!["A".to_string()]);
    assert_eq!(metadata.album, "B");
    assert!(state(true, None).metadata().is_none());
    assert!(zbus::zvariant::ObjectPath::try_from(metadata.track_id).is_ok());
}

#[test]
fn only_changes_are_announced() {
    let mut announcer = Mpris::new();

    assert!(!announcer.publish(State::default()));
    assert!(announcer.publish(state(true, Some(info()))));
    assert!(!announcer.publish(state(true, Some(info()))));
    assert!(announcer.publish(state(false, Some(info()))));
    let mut other = info();
    other.title = "U".to_string();
    assert!(announcer.publish(state(false, Some(other))));
    assert!(announcer.publish(state(false, None)));
    assert_eq!(position_micros(Duration { nanos: 2_999_999 }), 2_999);
}
