use hark::library::{collect, config_file, music_dirs, scan, scan_roots, Contents, Node};
use hark::path::FilePath;

fn path(text: &str) -> FilePath {
    FilePath::from_text(text)
}

fn file(name: &str) -> Node {
    Node {
        path: path(name),
        contents: Contents::File,
    }
}

fn folder(name: &str, nodes: Vec<Node>) -> Node {
    Node {
        path: path(name),
        contents: Contents::Folder(nodes),
    }
}

fn closed(name: &str) -> Node {
    Node {
        path: path(name),
        contents: Contents::Closed,
    }
}

/// A path that leads nowhere is not a directory, so it stands for a file — one
/// that is not playable.
#[test]
fn a_folder_that_is_not_there_is_not_a_complete_scan() {
    let scan = scan(&file("/nowhere/hark-has-never-been-here"));

    assert!(scan.files.is_empty());
    assert!(!scan.complete);
}

/// The case the whole flag exists for: a mount point whose mount is not up
/// reads as an ordinary empty folder, and pruning against it would empty the
/// queue of a library that is merely offline.
#[test]
fn an_empty_folder_is_not_a_complete_scan() {
    assert!(!scan(&folder("/tmp/hark-library-empty", Vec::new())).complete);
}

#[test]
fn a_folder_with_music_in_it_is_a_complete_scan() {
    let dir = folder(
        "/tmp/hark-library-music",
        vec![
            folder(
                "/tmp/hark-library-music/album",
                vec![file("/tmp/hark-library-music/album/a.flac")],
            ),
            file("/tmp/hark-library-music/notes.txt"),
        ],
    );

    let scan = scan(&dir);

    assert!(scan.complete);
    assert_eq!(scan.files, vec![path("/tmp/hark-library-music/album/a.flac")]);
}

#[test]
fn a_folder_that_would_not_open_makes_the_scan_incomplete() {
    let dir = folder("/m", vec![closed("/m/private"), file("/m/a.mp3")]);

    let scan = scan(&dir);

    assert!(!scan.complete);
    assert_eq!(scan.files, vec![path("/m/a.mp3")]);
}

/// What an entry is that could not be read, nobody knows. It stands under the path of
/// its folder.
#[test]
fn an_entry_that_could_not_be_read_makes_the_scan_incomplete() {
    let dir = folder(
        "/m",
        vec![folder("/m/b", vec![file("/m/b/1.ogg"), closed("/m/b")]), file("/m/a.mp3")],
    );

    let scan = scan(&dir);

    assert!(!scan.complete);
    assert_eq!(scan.files, vec![path("/m/a.mp3"), path("/m/b/1.ogg")]);
}

#[test]
fn files_come_out_in_order() {
    let dir = folder(
        "/m",
        vec![
            file("/m/c.mp3"),
            folder("/m/b", vec![file("/m/b/2.ogg"), file("/m/b/1.ogg")]),
            file("/m/a.FLAC"),
            file("/m/b.wav"),
        ],
    );

    assert_eq!(
        scan(&dir).files,
        vec![
            path("/m/a.FLAC"),
            path("/m/b/1.ogg"),
            path("/m/b/2.ogg"),
            path("/m/b.wav"),
            path("/m/c.mp3"),
        ]
    );
}

#[test]
fn roots_are_scanned_in_the_order_given() {
    let scans = scan_roots(&[folder("/z", vec![file("/z/a.mp3")]), closed("/a")]);

    assert_eq!(scans.len(), 2);
    assert_eq!(scans[0].root, path("/z"));
    assert!(scans[0].complete);
    assert_eq!(scans[1].root, path("/a"));
    assert!(!scans[1].complete);
}

#[test]
fn collecting_adds_to_what_is_there() {
    let mut out = vec![path("/x.mp3")];

    assert!(collect(&file("/y.mp3"), &mut out));
    assert!(collect(&file("/y.txt"), &mut out));
    assert!(!collect(&closed("/z"), &mut out));

    assert_eq!(out, vec![path("/x.mp3"), path("/y.mp3")]);
}

#[test]
fn the_music_is_looked_for_in_these_places() {
    let home = Some(path("/home/x"));
    let config = "# comment\nXDG_DESKTOP_DIR=\"$HOME/Desktop\"\nXDG_MUSIC_DIR=\"$HOME/Tunes\"\r\n  XDG_MUSIC_DIR=\"/no\"\nXDG_MUSIC_DIR= /srv/music \n";

    assert_eq!(
        music_dirs(&Some(path("/named")), &home, Some(config)),
        vec![
            path("/named"),
            path("/home/x/Tunes"),
            path("/srv/music"),
            path("/home/x/Music"),
        ]
    );
    assert_eq!(music_dirs(&None, &home, None), vec![path("/home/x/Music")]);
    assert_eq!(music_dirs(&Some(path("/named")), &None, Some(config)), vec![path("/named")]);
    assert_eq!(music_dirs(&None, &None, None), Vec::new());
    assert_eq!(
        config_file(&path("/home/x")),
        path("/home/x/.config/user-dirs.dirs")
    );
}
