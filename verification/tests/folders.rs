use hark::folders::{adopt, is_library_change, Adopt, EventKind, Watch, Watching};
use hark::library::Scan;
use hark::path::FilePath;
use hark::player_view::PlayerView;
use hark::queue::Repeat;
use hark::single::Single;
use hark::state::{State, Window};
use hark::time::Duration;
use hark::track::{Meta, Track};

fn path(text: &str) -> FilePath {
    FilePath::from_text(text)
}

fn paths(paths: &[&str]) -> Vec<FilePath> {
    paths.iter().map(|text| path(text)).collect()
}

#[test]
fn a_folder_under_a_root_is_not_remembered_twice() {
    let roots = paths(&["/music"]);

    for dir in ["/music", "/music/rock/live"] {
        assert!(matches!(
            adopt(&path(dir), &roots, &roots),
            Adopt::Covered
        ));
    }
}

#[test]
fn a_folder_that_contains_a_remembered_one_replaces_it() {
    let roots = paths(&["/music/rock", "/music/folk", "/elsewhere"]);

    let Adopt::Adopted { superseded } = adopt(&path("/music"), &roots, &roots) else {
        panic!("a folder covering two roots was taken for one of them");
    };
    assert_eq!(superseded, paths(&["/music/rock", "/music/folk"]));
}

/// The music folder comes back from the desktop's configuration on every
/// start, so a root that swallowed it would leave hark scanning it twice
/// with only one of the two removable.
#[test]
fn the_music_folder_is_never_superseded() {
    let roots = paths(&["/home/x/Music", "/home/x/more"]);
    let removable = paths(&["/home/x/more"]);

    let Adopt::Adopted { superseded } = adopt(&path("/home/x"), &roots, &removable) else {
        panic!("a folder above the music folder was refused");
    };
    assert_eq!(superseded, paths(&["/home/x/more"]));
}

fn window() -> Window {
    let zero = Single { bits: 0 };
    Window {
        x: zero,
        y: zero,
        width: Single { bits: 420f32.to_bits() },
        height: Single { bits: 690f32.to_bits() },
    }
}

fn state(folders: &[&str]) -> State {
    State {
        track: None,
        position: Duration::zero(),
        volume: Single { bits: 0.5f32.to_bits() },
        shuffle: false,
        repeat: Repeat::Off,
        playlist: false,
        folders: paths(folders),
        window: None,
    }
}

fn player(music: Option<&str>, folders: &[&str]) -> PlayerView {
    PlayerView::new(false, &state(folders), music.map(path), Ok(()), window())
}

fn track(name: &str) -> Track {
    Track::from_meta(path(name), Meta::default(), false)
}

fn scanned(root: &str, files: &[&str], complete: bool) -> Scan {
    Scan {
        root: path(root),
        files: paths(files),
        complete,
    }
}

fn names(view: &PlayerView) -> Vec<FilePath> {
    view.queue.tracks.iter().map(|t| t.path.clone()).collect()
}

#[test]
fn the_music_folder_is_the_first_root() {
    let view = player(Some("/music"), &["/more", "/most"]);

    assert_eq!(view.roots(), paths(&["/music", "/more", "/most"]));
    assert_eq!(player(None, &["/more"]).roots(), paths(&["/more"]));
}

#[test]
fn remembering_a_folder_starts_watching_it() {
    let mut view = player(Some("/music"), &["/more/rock"]);

    let changes = view.remember(paths(&["/music/folk", "/more"]));

    assert_eq!(view.roots(), paths(&["/music", "/more"]));
    assert_eq!(changes.len(), 2);
    assert!(matches!(&changes[0], Watch::Stop(dir) if *dir == path("/more/rock")));
    assert!(matches!(&changes[1], Watch::Start(dir) if *dir == path("/more")));
}

#[test]
fn remembering_a_folder_twice_changes_nothing() {
    let mut view = player(None, &[]);

    assert_eq!(view.remember(paths(&["/more"])).len(), 1);
    assert_eq!(view.remember(paths(&["/more"])).len(), 0);
    assert_eq!(view.roots(), paths(&["/more"]));
}

#[test]
fn forgetting_a_folder_takes_its_tracks() {
    let mut view = player(None, &["/more"]);
    view.queue.extend(vec![track("/more/a.mp3"), track("/else/b.mp3")]);

    assert!(!view.forget(&path("/unknown")));
    assert_eq!(names(&view), paths(&["/more/a.mp3", "/else/b.mp3"]));

    assert!(view.forget(&path("/more")));
    assert_eq!(view.roots(), Vec::new());
    assert_eq!(names(&view), paths(&["/else/b.mp3"]));
}

/// A change to the library makes a new order: it begins with the track that is playing,
/// when tracks come shuffled.
#[test]
fn a_changed_library_is_ordered_anew() {
    let shuffled = || {
        let mut view = player(Some("/music"), &["/more/rock"]);
        view.queue.extend(
            (0..20)
                .map(|n| track(&format!("/{}/{n}.mp3", ["music", "more/rock"][n % 2])))
                .collect(),
        );
        view.queue.current = Some(6);
        view.queue.set_shuffle(true);
        view
    };
    let check = |view: &PlayerView| {
        let len = view.queue.tracks.len();
        let mut all = view.queue.order.clone();
        all.sort_unstable();
        assert_eq!(all, (0..len).collect::<Vec<usize>>());
        assert_eq!(Some(view.queue.order[0]), view.queue.current);
        assert_eq!(view.queue.tracks[view.queue.order[0]].path, path("/music/6.mp3"));
        len
    };

    let mut view = shuffled();
    assert_eq!(check(&view), 20);
    assert_eq!(view.remember(paths(&["/more"])).len(), 2);
    assert_eq!(check(&view), 10);

    let mut view = shuffled();
    assert!(view.forget(&path("/more/rock")));
    assert_eq!(check(&view), 10);

    let mut view = shuffled();
    view.library_changed(&[scanned("/music", &["/music/0.mp3", "/music/6.mp3"], true)]);
    assert_eq!(check(&view), 12);
}

#[test]
fn a_complete_scan_drops_what_is_gone_and_names_what_is_new() {
    let mut view = player(Some("/music"), &[]);
    view.queue.extend(vec![track("/music/a.mp3"), track("/music/b.mp3")]);

    let added = view.library_changed(&[scanned("/music", &["/music/b.mp3", "/music/c.mp3"], true)]);

    assert_eq!(names(&view), paths(&["/music/b.mp3"]));
    assert_eq!(added, paths(&["/music/c.mp3"]));
}

#[test]
fn an_incomplete_scan_drops_nothing() {
    let mut view = player(Some("/music"), &[]);
    view.queue.extend(vec![track("/music/a.mp3")]);

    let added = view.library_changed(&[scanned("/music", &[], false)]);

    assert_eq!(names(&view), paths(&["/music/a.mp3"]));
    assert_eq!(added, Vec::new());
}

#[test]
fn only_new_files_are_loaded_each_once() {
    let mut view = player(None, &[]);
    view.queue.extend(vec![track("/a.mp3")]);

    let load = view.to_load(paths(&["/b.mp3", "/a.mp3", "/b.mp3"]));

    assert_eq!(load, paths(&["/b.mp3"]));
}

#[test]
fn changes_are_left_to_settle() {
    assert_eq!(Watching::Waiting.pause(), 700);
    assert_eq!(Watching::Settling.pause(), 800);
    assert_eq!(Watching::Waiting.wake(false), (Watching::Waiting, false));
    assert_eq!(Watching::Waiting.wake(true), (Watching::Settling, false));
    assert_eq!(Watching::Settling.wake(true), (Watching::Waiting, true));
    assert_eq!(Watching::Settling.wake(false), (Watching::Waiting, true));
}

#[test]
fn these_events_change_the_library() {
    assert!(is_library_change(EventKind::Create));
    assert!(is_library_change(EventKind::Remove));
    assert!(is_library_change(EventKind::Modify));
    assert!(!is_library_change(EventKind::Metadata));
    assert!(!is_library_change(EventKind::Other));
}
