use hark::path::FilePath;
use hark::queue::{shuffle, Queue, Repeat, FALLBACK_SEED};
use hark::time::Duration;
use hark::track::Track;

fn track(path: &str) -> Track {
    Track {
        path: FilePath::from_text(path),
        title: String::new(),
        artist: String::new(),
        album: String::new(),
        duration: Duration::zero(),
        art: None,
        chapters: Vec::new(),
        has_art: false,
        loved: false,
    }
}

fn queue(paths: &[&str]) -> Queue {
    let mut queue = Queue::default();
    queue.extend(paths.iter().map(|path| track(path)).collect());
    queue
}

fn paths(queue: &Queue) -> Vec<FilePath> {
    queue.tracks.iter().map(|track| track.path.clone()).collect()
}

fn found(paths: &[&str]) -> Vec<FilePath> {
    paths.iter().map(|path| FilePath::from_text(path)).collect()
}

#[test]
fn a_track_the_scan_no_longer_finds_is_dropped() {
    let mut queue = queue(&["/music/a.flac", "/music/b.flac"]);

    queue.retain_scanned(&found(&["/music"]), &found(&["/music/a.flac"]));

    assert_eq!(paths(&queue), found(&["/music/a.flac"]));
}

/// A file dropped on the window belongs to no root, so no scan of the
/// library has anything to say about it.
#[test]
fn a_track_from_outside_every_root_is_left_alone() {
    let mut queue = queue(&["/music/a.flac", "/elsewhere/b.flac"]);

    queue.retain_scanned(&found(&["/music"]), &found(&["/music/a.flac"]));

    assert_eq!(paths(&queue), found(&["/music/a.flac", "/elsewhere/b.flac"]));
}

/// The mount that is not up: its scan came back empty, so it was left out of
/// the roots that get to prune, and its thousand rows stay.
#[test]
fn a_root_whose_scan_could_not_be_believed_keeps_its_tracks() {
    let mut queue = queue(&["/mnt/music/a.flac", "/music/b.flac"]);

    queue.retain_scanned(&found(&["/music"]), &found(&["/music/b.flac"]));

    assert_eq!(paths(&queue), found(&["/mnt/music/a.flac", "/music/b.flac"]));
}

#[test]
fn the_playing_track_survives_its_folder_vanishing() {
    let mut queue = queue(&["/music/a.flac", "/music/b.flac"]);
    queue.current = Some(1);

    queue.retain_scanned(&found(&["/music"]), &found(&[]));

    assert_eq!(paths(&queue), found(&["/music/b.flac"]));
    // Indices shifted underneath it, so this is the interesting half.
    assert_eq!(queue.current, Some(0));
}

#[test]
fn removing_a_folder_takes_its_tracks_but_not_the_one_playing() {
    let mut queue = queue(&["/music/a.flac", "/music/b.flac", "/other/c.flac"]);
    queue.current = Some(1);

    queue.remove_under(&FilePath::from_text("/music"));

    assert_eq!(paths(&queue), found(&["/music/b.flac", "/other/c.flac"]));
    assert_eq!(queue.current, Some(0));
}

/// `starts_with` compares whole components, which is the only reason this
/// holds — a prefix match on the string would take the sibling too.
#[test]
fn removing_a_folder_leaves_a_sibling_with_a_longer_name_alone() {
    let mut queue = queue(&["/music/rock/a.flac", "/music/rockabilly/b.flac"]);

    queue.remove_under(&FilePath::from_text("/music/rock"));

    assert_eq!(paths(&queue), found(&["/music/rockabilly/b.flac"]));
}

#[test]
fn repeat_goes_round() {
    assert_eq!(Repeat::default(), Repeat::Off);
    assert_eq!(Repeat::Off.cycle(), Repeat::All);
    assert_eq!(Repeat::All.cycle(), Repeat::One);
    assert_eq!(Repeat::One.cycle(), Repeat::Off);
}

#[test]
fn a_new_queue_is_empty() {
    let queue = Queue::default();

    assert!(queue.is_empty());
    assert!(queue.current_track().is_none());
    assert_eq!(queue.next(true), None);
    assert_eq!(queue.previous(), None);
}

#[test]
fn playing_on_goes_through_the_queue_and_stops() {
    let mut queue = queue(&["/a.flac", "/b.flac", "/c.flac"]);

    assert_eq!(queue.next(false), Some(0));
    queue.current = Some(0);
    assert_eq!(queue.next(false), Some(1));
    queue.current = Some(2);
    assert_eq!(queue.next(false), None);
    assert_eq!(queue.next(true), Some(0));
    assert_eq!(queue.previous(), Some(1));
}

#[test]
fn repeating_all_goes_round() {
    let mut queue = queue(&["/a.flac", "/b.flac", "/c.flac"]);
    queue.repeat = Repeat::All;
    queue.current = Some(2);

    assert_eq!(queue.next(false), Some(0));
    queue.current = Some(0);
    assert_eq!(queue.previous(), Some(2));
}

#[test]
fn repeating_one_stays_unless_the_listener_asks() {
    let mut queue = queue(&["/a.flac", "/b.flac"]);
    queue.repeat = Repeat::One;
    queue.current = Some(1);

    assert_eq!(queue.next(false), Some(1));
    assert_eq!(queue.next(true), Some(0));
}

/// The same generator, written out: 64-bit xorshift, each draw taken modulo the
/// length of what is left.
fn shuffled(n: usize, seed: u64) -> Vec<usize> {
    let mut items: Vec<usize> = (0..n).collect();
    let mut state = seed;
    for i in (1..n).rev() {
        state ^= state << 13;
        state ^= state >> 7;
        state ^= state << 17;
        items.swap(i, (state % (i as u64 + 1)) as usize);
    }
    items
}

#[test]
fn a_seed_gives_this_order() {
    for (n, seed) in [(0, 1), (1, 2), (2, 3), (10, 42), (1000, FALLBACK_SEED), (5, u64::MAX)] {
        let mut items: Vec<usize> = (0..n).collect();
        shuffle(&mut items, seed);
        assert_eq!(items, shuffled(n, seed));
    }
}

#[test]
fn the_moment_decides_the_order() {
    let names: Vec<String> = (0..50).map(|i| format!("/{i}.flac")).collect();
    let names: Vec<&str> = names.iter().map(|name| name.as_str()).collect();
    let mut queue = queue(&names);
    queue.shuffle = true;

    queue.reorder_at(Some(1_700_000_000_123_456_788));
    assert_eq!(queue.order, shuffled(50, 1_700_000_000_123_456_789));

    // Only the low bits of a moment far ahead count.
    queue.reorder_at(Some((7 << 64) + 3));
    assert_eq!(queue.order, shuffled(50, 3));

    queue.reorder_at(None);
    assert_eq!(queue.order, shuffled(50, FALLBACK_SEED));

    queue.shuffle = false;
    queue.reorder_at(Some(7));
    assert_eq!(queue.order, (0..50).collect::<Vec<usize>>());
}

#[test]
fn shuffling_plays_every_track_once() {
    let names: Vec<String> = (0..40).map(|i| format!("/{i}.flac")).collect();
    let names: Vec<&str> = names.iter().map(|name| name.as_str()).collect();
    let mut queue = queue(&names);
    queue.set_shuffle(true);
    queue.current = Some(queue.order[0]);

    let mut played = vec![queue.order[0]];
    while let Some(next) = queue.next(false) {
        played.push(next);
        queue.current = Some(next);
    }
    assert_eq!(played, queue.order);
    played.sort();
    assert_eq!(played, (0..40).collect::<Vec<usize>>());

    queue.set_shuffle(false);
    assert_eq!(queue.order, (0..40).collect::<Vec<usize>>());
}

#[test]
fn going_back_undoes_going_on() {
    let mut queue = queue(&["/a.flac", "/b.flac", "/c.flac", "/d.flac"]);
    queue.set_shuffle(true);
    let here = queue.order[1];
    queue.current = Some(here);

    queue.current = queue.next(true);
    assert_eq!(queue.current, Some(queue.order[2]));
    assert_eq!(queue.previous(), Some(here));
}

#[test]
fn several_folders_go_at_once() {
    let mut queue = queue(&["/a/1.flac", "/b/2.flac", "/c/3.flac"]);

    queue.remove_under_any(&found(&["/a", "/c"]));

    assert_eq!(paths(&queue), found(&["/b/2.flac"]));
}

#[test]
fn what_is_queued_already_is_not_queued_again() {
    let queue = queue(&["/a.flac", "/b.flac"]);

    assert_eq!(
        queue.unknown_paths(found(&["/a.flac", "/c.flac"])),
        found(&["/c.flac"])
    );
    let fresh = queue.unknown_tracks(vec![track("/b.flac"), track("/d.flac")]);
    assert_eq!(fresh.len(), 1);
    assert_eq!(fresh[0].path, FilePath::from_text("/d.flac"));
}
