use hark::mpris::Command;
use hark::panels::{folder_heading, play_icon, resize_edge, Arrows, Body, Edge, Row};
use hark::path::FilePath;
use hark::player_view::{fade_steps, Action, Arrival, PlayerView, Tick};
use hark::queue::Repeat;
use hark::single::Single;
use hark::state::{State, Window, DEFAULT_VOLUME};
use hark::time::Duration;
use hark::track::{Chapter, Meta, Track};

fn path(text: &str) -> FilePath {
    FilePath::from_text(text)
}

fn single(value: f32) -> Single {
    Single {
        bits: value.to_bits(),
    }
}

fn secs(n: u64) -> Duration {
    Duration::from_secs(n)
}

fn window() -> Window {
    Window {
        x: single(1.),
        y: single(2.),
        width: single(420.),
        height: single(690.),
    }
}

fn session() -> State {
    State {
        track: Some(path("/music/b.flac")),
        position: secs(42),
        volume: single(0.25),
        shuffle: false,
        repeat: Repeat::All,
        playlist: true,
        folders: vec![path("/more")],
        window: None,
    }
}

fn player() -> PlayerView {
    PlayerView::new(false, &session(), Some(path("/music")), Ok(()), window())
}

fn track(name: &str, seconds: u64) -> Track {
    let meta = Meta {
        duration: secs(seconds),
        ..Meta::default()
    };
    Track::from_meta(path(name), meta, false)
}

/// An album of three songs in one file: at 0 s, 100 s and 200 s, of 300 s.
fn album() -> Track {
    let song = |title: &str, start: u64| Chapter {
        title: title.to_string(),
        start: secs(start),
        end: secs(start + 100),
    };
    let meta = Meta {
        title: Some("Album".to_string()),
        artist: Some("Artist".to_string()),
        album: Some("Record".to_string()),
        duration: secs(300),
        chapters: vec![song("One", 0), song("Two", 100), song("Three", 200)],
        has_art: false,
    };
    Track::from_meta(path("/music/album.opus"), meta, false)
}

/// A player with the album loaded and heard.
fn album_player() -> PlayerView {
    let mut view = PlayerView::new(true, &session(), None, Ok(()), window());
    view.queue.extend(vec![album(), track("/music/b.flac", 60)]);
    view.opened(0, true, Ok(()));
    view
}

fn loads(action: &Action) -> Option<(usize, Duration, bool)> {
    match action {
        Action::Load(load) => Some((load.index, load.at, load.audible)),
        _ => None,
    }
}

fn seeks(action: &Action) -> Option<Duration> {
    match action {
        Action::Seek(at) => Some(*at),
        _ => None,
    }
}

#[test]
fn the_last_session_comes_back() {
    let view = player();

    assert!(view.show_playlist);
    assert_eq!(view.queue.repeat, Repeat::All);
    assert!(view.queue.is_empty());
    let resume = view.resume.as_ref().unwrap();
    assert_eq!(resume.path, path("/music/b.flac"));
    assert_eq!(resume.position, secs(42));
    assert_eq!(view.audio.unwrap().volume, single(0.25));
    assert_eq!(view.error, None);
}

#[test]
fn files_named_at_the_start_are_what_was_asked_for() {
    let view = PlayerView::new(true, &session(), None, Ok(()), window());

    assert!(view.resume.is_none());
}

#[test]
fn a_player_without_a_device_says_why() {
    let view = PlayerView::new(false, &session(), None, Err("no device".to_string()), window());

    assert!(view.audio.is_none());
    assert_eq!(view.error.as_deref(), Some("no device"));
    assert_eq!(view.snapshot(secs(0)).volume.bits, DEFAULT_VOLUME);
    assert_eq!(view.mpris_state(false).volume, single(0.));
}

#[test]
fn a_restored_session_comes_up_paused_where_it_was_left() {
    let mut view = player();

    let arrival = view.arrive(vec![track("/music/a.flac", 60), track("/music/b.flac", 90)], false);

    let Arrival::Queued(2, action) = arrival else {
        panic!("two tracks were not queued");
    };
    assert_eq!(loads(&action), Some((1, secs(42), false)));
    assert!(view.resume.is_none());
}

#[test]
fn a_session_goes_on_waiting_until_its_file_turns_up() {
    let mut view = player();

    let arrival = view.arrive(vec![track("/music/a.flac", 60)], false);
    assert!(matches!(arrival, Arrival::Queued(1, Action::Nothing)));
    assert!(view.resume.is_some());

    let arrival = view.arrive(vec![track("/music/b.flac", 60)], false);
    let Arrival::Queued(1, action) = arrival else {
        panic!("the track was not queued");
    };
    assert_eq!(loads(&action), Some((1, secs(42), false)));
}

#[test]
fn named_files_start_at_once() {
    let mut view = player();

    let Arrival::Queued(1, action) = view.arrive(vec![track("/x.flac", 60)], true) else {
        panic!("the track was not queued");
    };
    assert_eq!(loads(&action), Some((0, secs(0), true)));
    assert!(view.resume.is_none());
}

#[test]
fn what_arrives_is_ordered_with_the_rest() {
    let mut view = player();
    view.arrive(vec![track("/a.flac", 60), track("/b.flac", 60)], true);
    view.queue.current = Some(1);
    view.arrive(vec![track("/c.flac", 60)], true);
    assert_eq!(view.queue.order, vec![0, 1, 2]);

    view.queue.set_shuffle(true);
    view.arrive((0..9).map(|n| track(&format!("/{n}.flac"), 60)).collect(), true);
    assert_eq!(view.queue.order[0], 1);
    let mut all = view.queue.order.clone();
    all.sort_unstable();
    assert_eq!(all, (0..12).collect::<Vec<usize>>());
}

#[test]
fn tracks_that_are_there_already_do_not_arrive_twice() {
    let mut view = player();
    view.arrive(vec![track("/x.flac", 60)], true);

    assert!(matches!(
        view.arrive(vec![track("/x.flac", 60)], true),
        Arrival::Nothing
    ));
    assert_eq!(view.queue.tracks.len(), 1);
}

#[test]
fn opening_the_player_and_closing_it_forgets_nothing() {
    let view = player();
    let snapshot = view.snapshot(secs(0));

    assert_eq!(snapshot.track, Some(path("/music/b.flac")));
    assert_eq!(snapshot.position, secs(42));
    assert_eq!(snapshot.volume, single(0.25));
    assert_eq!(snapshot.repeat, Repeat::All);
    assert!(snapshot.playlist);
    assert_eq!(snapshot.folders, vec![path("/more")]);
    assert_eq!(snapshot.window, Some(window()));
}

#[test]
fn a_track_that_has_effectively_finished_starts_over() {
    let mut view = player();
    view.queue.extend(vec![track("/music/a.flac", 60)]);
    view.opened(0, true, Ok(()));

    assert_eq!(view.snapshot(secs(54)).position, secs(54));
    assert_eq!(view.snapshot(secs(55)).position, secs(0));
    assert_eq!(view.snapshot(secs(99)).position, secs(0));
}

#[test]
fn a_track_of_unknown_length_never_finishes() {
    let mut view = player();
    view.queue.extend(vec![track("/music/a.flac", 0)]);
    view.opened(0, true, Ok(()));

    assert_eq!(view.snapshot(secs(1)).position, secs(1));
}

#[test]
fn an_unchanged_session_is_not_written() {
    let mut view = player();
    let snapshot = view.snapshot(secs(0));

    let written = view.save_now(snapshot).expect("the window changed");
    assert_eq!(written.window, Some(window()));

    let snapshot = view.snapshot(secs(0));
    assert!(view.save_now(snapshot).is_none());

    view.show_playlist = false;
    let snapshot = view.snapshot(secs(0));
    assert!(view.save_now(snapshot).is_some());
}

#[test]
fn the_session_is_looked_at_every_five_seconds() {
    assert!(!PlayerView::save_due(Duration::from_millis(4_999)));
    assert!(PlayerView::save_due(secs(5)));
}

#[test]
fn a_position_is_in_the_last_chapter_that_started() {
    let view = album_player();

    assert_eq!(view.current_chapter(secs(0)), Some(0));
    assert_eq!(view.current_chapter(Duration::from_millis(99_999)), Some(0));
    assert_eq!(view.current_chapter(secs(100)), Some(1));
    assert_eq!(view.current_chapter(secs(500)), Some(2));
    assert_eq!(view.active_span(secs(150)), (secs(100), secs(200)));
    assert_eq!(player().current_chapter(secs(0)), None);
}

#[test]
fn the_times_are_those_of_the_chapter() {
    let view = album_player();

    assert_eq!(view.elapsed(secs(150), secs(150)), secs(50));
    assert_eq!(view.remaining(secs(150), secs(150)), secs(50));
    // Dragging shows another position, within the same chapter.
    assert_eq!(view.elapsed(secs(150), secs(250)), secs(100));
    assert_eq!(view.elapsed(secs(150), secs(20)), secs(0));
    assert_eq!(
        view.times(secs(150), secs(163)),
        ("1:03".to_string(), "−0:37".to_string())
    );
}

#[test]
fn without_chapters_the_times_are_those_of_the_file() {
    let mut view = album_player();
    view.opened(1, true, Ok(()));

    assert_eq!(view.active_span(secs(10)), (secs(0), secs(60)));
    assert_eq!(
        view.times(secs(10), secs(10)),
        ("0:10".to_string(), "−0:50".to_string())
    );
    assert_eq!(view.duration(), secs(60));
    assert!(view.can_scrub());
    assert!(!player().can_scrub());
}

#[test]
fn next_goes_through_the_chapters_and_then_the_queue() {
    let mut view = album_player();

    assert_eq!(seeks(&view.skip_next(secs(20))), Some(secs(100)));
    assert_eq!(seeks(&view.skip_next(secs(100))), Some(secs(200)));
    assert_eq!(loads(&view.skip_next(secs(200))), Some((1, secs(0), true)));
}

#[test]
fn previous_goes_back_through_the_chapters() {
    let mut view = album_player();
    let three_and_a_bit = Duration::from_millis(103_001);

    assert_eq!(
        seeks(&view.skip_previous(three_and_a_bit, three_and_a_bit)),
        Some(secs(100))
    );
    assert_eq!(seeks(&view.skip_previous(secs(103), secs(103))), Some(secs(0)));
    // Ahead of the first chapter it goes back a track, round the queue.
    assert_eq!(
        loads(&view.skip_previous(secs(2), secs(2))),
        Some((1, secs(0), true))
    );
}

#[test]
fn skipping_a_chapter_and_going_back_comes_back() {
    let mut view = album_player();

    let on = seeks(&view.skip_next(secs(0))).unwrap();
    assert_eq!(on, secs(100));
    assert_eq!(seeks(&view.skip_previous(on, on)), Some(secs(0)));
}

#[test]
fn previous_starts_the_track_over_after_three_seconds() {
    let mut view = album_player();

    assert_eq!(seeks(&view.previous(Duration::from_millis(3_001))), Some(secs(0)));
    assert_eq!(loads(&view.previous(secs(3))), Some((1, secs(0), true)));
}

#[test]
fn the_end_of_the_queue_is_silence() {
    let mut view = album_player();
    view.queue.repeat = Repeat::Off;
    view.opened(1, true, Ok(()));

    assert!(matches!(view.advance(false), Action::Stop));
    let audio = view.audio.unwrap();
    assert!(!audio.playing);
    assert!(!audio.loaded);
}

#[test]
fn a_tick_notices_the_end_of_a_track() {
    let mut view = album_player();

    assert!(matches!(view.tick(false), Tick::Repaint));
    let Tick::Over(action) = view.tick(true) else {
        panic!("the end was not noticed");
    };
    assert_eq!(loads(&action), Some((1, secs(0), true)));

    view.begin_fade(false);
    assert!(matches!(view.tick(false), Tick::Nothing));
    assert!(matches!(player().tick(true), Tick::Nothing));
    assert_eq!(fade_steps(), 15);
}

#[test]
fn playing_toggles() {
    let mut view = player();
    assert!(matches!(view.toggle_play(false), Action::Nothing));

    view.queue.extend(vec![track("/a.flac", 10), track("/b.flac", 10)]);
    assert_eq!(loads(&view.toggle_play(false)), Some((0, secs(0), true)));
    assert!(view.resume.is_none());

    view.opened(0, true, Ok(()));
    assert!(view.is_playing(false));
    assert!(matches!(view.toggle_play(false), Action::Fade(false)));
    view.begin_fade(false);
    assert!(!view.is_playing(false));
    assert!(matches!(view.toggle_play(false), Action::Fade(true)));
    view.begin_fade(true);
    assert!(view.is_playing(false));
    // The device has run dry.
    assert!(!view.is_playing(true));
}

#[test]
fn a_track_that_would_not_open_leaves_the_queue_alone() {
    let mut view = album_player();

    view.opened(1, true, Err("cannot decode".to_string()));

    assert_eq!(view.error.as_deref(), Some("cannot decode"));
    assert_eq!(view.queue.current, Some(0));
    view.opened(1, true, Ok(()));
    assert_eq!(view.error, None);
    assert_eq!(view.queue.current, Some(1));
}

#[test]
fn a_heart_shows_only_what_the_file_has() {
    let mut view = album_player();
    assert!(player().press_heart().is_none());

    let press = view.press_heart().unwrap();
    assert_eq!(press.index, 0);
    assert!(press.loved);
    assert_eq!(press.path, path("/music/album.opus"));

    view.heart_written(&press, Err("disk full".to_string()));
    assert!(!view.queue.tracks[0].loved);
    assert_eq!(
        view.error.as_deref(),
        Some("could not write the heart onto the file: disk full")
    );

    view.heart_written(&press, Ok(()));
    assert!(view.queue.tracks[0].loved);
    assert!(!view.queue.tracks[1].loved);
    assert_eq!(view.error, None);
    assert!(!view.press_heart().unwrap().loved);
}

#[test]
fn closing_fades_out_what_is_heard() {
    let mut view = album_player();

    assert!(!view.begin_close(false));
    assert!(view.closing);
    assert!(!view.is_playing(false));
    assert!(view.begin_close(false));

    let mut silent = player();
    assert!(silent.begin_close(false));
    assert!(silent.closing);
}

#[test]
fn the_desktop_can_do_what_the_buttons_do() {
    let mut view = album_player();
    let now = secs(20);

    assert!(matches!(view.command(Command::Play, now, now, false), Action::Nothing));
    assert!(matches!(view.command(Command::Pause, now, now, false), Action::Fade(false)));
    assert!(matches!(view.command(Command::TogglePlay, now, now, false), Action::Fade(false)));
    assert_eq!(
        seeks(&view.command(Command::Next, now, now, false)),
        Some(secs(100))
    );
    assert_eq!(
        seeks(&view.command(Command::Previous, now, now, false)),
        Some(secs(0))
    );

    view.begin_fade(false);
    assert!(matches!(view.command(Command::Pause, now, now, false), Action::Nothing));
    assert!(matches!(view.command(Command::Play, now, now, false), Action::Fade(true)));

    assert!(matches!(
        view.command(Command::SetVolume(single(7.)), now, now, false),
        Action::Nothing
    ));
    assert_eq!(view.audio.unwrap().volume, single(1.));
}

#[test]
fn the_desktop_sees_the_track() {
    let view = album_player();
    let state = view.mpris_state(false);

    assert!(state.playing);
    assert_eq!(state.volume, single(0.25));
    let info = state.track.unwrap();
    assert_eq!(info.index, 0);
    assert_eq!(info.title, "Album");
    assert_eq!(info.artist, "Artist");
    assert_eq!(info.duration, secs(300));
    assert!(player().mpris_state(false).track.is_none());
}

#[test]
fn with_chapters_the_song_leads() {
    let view = album_player();

    let showing = view.showing(secs(150));
    assert_eq!(showing.title, "Two");
    assert_eq!(showing.artist, "Artist");
    assert_eq!(showing.album, "Record");
    assert_eq!(showing.counter.as_deref(), Some("2 / 3"));

    let nothing = player().showing(secs(0));
    assert_eq!(nothing.title, "Nothing playing");
    assert_eq!(nothing.artist, "");
    assert_eq!(nothing.counter, None);
}

#[test]
fn the_queue_panel_counts_what_it_shows() {
    let mut view = album_player();
    view.queue.extend(vec![track("/music/c.flac", 1)]);
    view.queue.tracks[0].loved = true;
    view.queue.tracks[2].loved = true;

    let rows = view.rows();
    assert_eq!(rows.len(), 3);
    assert_eq!(rows[1], Row { index: 1, number: 2, current: false });
    assert_eq!(view.queue_heading(rows.len()), "Queue · 3");

    view.show_loved = true;
    let rows = view.rows();
    assert_eq!(
        rows,
        vec![
            Row { index: 0, number: 1, current: true },
            Row { index: 2, number: 2, current: false },
        ]
    );
    assert_eq!(view.queue_heading(rows.len()), "Loved · 2");
}

#[test]
fn the_window_shows_what_there_is() {
    let mut view = album_player();
    assert_eq!(
        view.body(),
        Body {
            drop_zone: false,
            playlist: true,
            folders: false,
            scrolls: false,
            footer: true,
        }
    );
    view.show_playlist = false;
    assert!(view.body().scrolls);
    view.show_folders = true;
    assert!(!view.body().scrolls);

    let mut empty = player();
    empty.show_folders = true;
    assert_eq!(
        empty.body(),
        Body {
            drop_zone: true,
            playlist: false,
            folders: true,
            scrolls: false,
            footer: false,
        }
    );
}

#[test]
fn the_buttons_show_how_things_stand() {
    let mut view = album_player();
    let footer = view.footer();
    assert!(footer.playlist);
    assert!(footer.loaded);
    assert!(!footer.loved);
    assert_eq!(footer.heart, "icons/heart.svg");
    assert_eq!(footer.repeat, "icons/repeat.svg");
    assert!(footer.repeats);

    view.queue.tracks[0].loved = true;
    view.queue.repeat = Repeat::One;
    assert_eq!(view.footer().heart, "icons/heart_filled.svg");
    assert_eq!(view.footer().repeat, "icons/repeat_one.svg");

    let footer = player().footer();
    assert!(!footer.loaded);
    assert!(!footer.loved);
    assert_eq!(play_icon(true), "icons/pause.svg");
    assert_eq!(play_icon(false), "icons/play.svg");
    assert_eq!(folder_heading(3), "Folders · 3");
    let row = Row { index: 4, number: 2, current: false };
    assert_eq!(row.label(), "2");
    assert_eq!(Row { current: true, ..row }.label(), "▶");
}

#[test]
fn the_folder_panel_lists_the_roots() {
    let mut view = player();
    view.queue.extend(vec![
        track("/music/a.flac", 1),
        track("/music/x/b.flac", 1),
        track("/elsewhere/c.flac", 1),
    ]);

    let rows = view.folder_rows();
    assert_eq!(rows.len(), 2);
    assert_eq!(rows[0].name, "music");
    assert_eq!(rows[0].full_name, "/music");
    assert!(!rows[0].removable);
    assert_eq!(rows[0].tracks, 2);
    assert_eq!(rows[1].path, path("/more"));
    assert!(rows[1].removable);
    assert!(rows[1].available);
    assert_eq!(rows[1].tracks, 0);
}

/// A name that is not text is shown with marks where it is not.
#[test]
fn a_folder_is_named_as_well_as_it_can_be() {
    let odd = FilePath::new(vec![b'/', b'a', 0xff, b'b']);
    let view = PlayerView::new(true, &session(), Some(odd), Ok(()), window());
    assert_eq!(view.folder_rows()[0].name, "a\u{fffd}b");

    let root = PlayerView::new(true, &session(), Some(path("/")), Ok(()), window());
    assert_eq!(root.folder_rows()[0].name, "/");
}

#[test]
fn the_margin_of_the_window_resizes_it() {
    let at = |x: f32, y: f32| {
        resize_edge(single(x), single(y), single(90.), single(190.), single(10.))
    };

    assert_eq!(at(5., 5.), Some(Edge::TopLeft));
    assert_eq!(at(95., 5.), Some(Edge::TopRight));
    assert_eq!(at(50., 5.), Some(Edge::Top));
    assert_eq!(at(5., 195.), Some(Edge::BottomLeft));
    assert_eq!(at(95., 195.), Some(Edge::BottomRight));
    assert_eq!(at(50., 195.), Some(Edge::Bottom));
    assert_eq!(at(5., 100.), Some(Edge::Left));
    assert_eq!(at(95., 100.), Some(Edge::Right));
    assert_eq!(at(50., 100.), None);
    assert_eq!(at(10., 10.), None);
    assert_eq!(at(90., 190.), None);
    assert_eq!(Edge::Top.arrows(), Arrows::UpDown);
    assert_eq!(Edge::Right.arrows(), Arrows::LeftRight);
    assert_eq!(Edge::TopLeft.arrows(), Arrows::UpLeftDownRight);
    assert_eq!(Edge::BottomLeft.arrows(), Arrows::UpRightDownLeft);
}
