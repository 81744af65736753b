//! What the window says: the track and its times, the rows of the queue panel and of
//! the folder panel, and which edge of the window the pointer is on.

use crate::path;
use crate::path::{parts_start, FilePath};

use crate::folders::Folder;
use crate::player_view::PlayerView;
use crate::queue::Repeat;
use crate::single::Single;
use crate::text;
use crate::text::{decimal_text, join_text, lossy_text};
use crate::time::{Duration, NANOS_PER_SEC};
use crate::track;
use crate::track::{format_time, Track, TrackModel};
use vstd::prelude::*;

verus! {

/// What is shown of the track.
pub struct Showing {
    pub title: String,
    pub artist: String,
    pub album: String,
    /// Which chapter of how many.
    pub counter: Option<String>,
}

/// A row of the queue panel.
#[derive(Clone, Copy, PartialEq, Eq, Structural, Debug)]
pub struct Row {
    /// The place in the queue, which is what playing the row goes by.
    pub index: usize,
    /// The number in the margin, counted over what is on screen.
    pub number: usize,
    pub current: bool,
}

/// A row of the folder panel.
pub struct FolderRow {
    pub path: FilePath,
    pub name: String,
    pub full_name: String,
    pub available: bool,
    /// The listener added it, so it can be taken out again.
    pub removable: bool,
    /// How many tracks of the queue are in it.
    pub tracks: usize,
}

/// What a row of the folder panel is.
#[verifier::ext_equal]
pub struct FolderRowModel {
    pub path: Seq<u8>,
    pub name: Seq<char>,
    pub full_name: Seq<char>,
    pub available: bool,
    pub removable: bool,
    pub tracks: nat,
}

impl View for FolderRow {
    type V = FolderRowModel;

    open spec fn view(&self) -> FolderRowModel {
        FolderRowModel {
            path: self.path@,
            name: self.name@,
            full_name: self.full_name@,
            available: self.available,
            removable: self.removable,
            tracks: self.tracks as nat,
        }
    }
}

/// The rows of the queue panel up to a place in the queue. The number in the margin
/// counts the rows and not the queue.
pub open spec fn rows_up_to(
    tracks: Seq<TrackModel>,
    n: int,
    loved_only: bool,
    current: Option<usize>,
) -> Seq<Row>
    decreases n,
{
    if n <= 0 {
        seq![]
    } else {
        let before = rows_up_to(tracks, n - 1, loved_only, current);
        if !loved_only || tracks[n - 1].loved {
            before.push(
                Row {
                    index: (n - 1) as usize,
                    number: (before.len() + 1) as usize,
                    current: current == Some((n - 1) as usize),
                },
            )
        } else {
            before
        }
    }
}

/// How many tracks lie in a folder.
pub open spec fn tracks_in(tracks: Seq<TrackModel>, dir: Seq<u8>) -> nat
    decreases tracks.len(),
{
    if tracks.len() == 0 {
        0
    } else {
        tracks_in(tracks.drop_last(), dir) + if path::under(tracks.last().path, dir) {
            1nat
        } else {
            0
        }
    }
}

/// How a folder is called: by its own name, and by its whole path when it has none.
pub open spec fn folder_name(dir: Seq<u8>) -> Seq<char> {
    match path::file_name(dir) {
        Some(name) => text::lossy(name),
        None => text::lossy(dir),
    }
}

/// The row of a folder.
pub open spec fn folder_row(
    tracks: Seq<TrackModel>,
    dir: Seq<u8>,
    available: bool,
    removable: bool,
) -> FolderRowModel {
    FolderRowModel {
        path: dir,
        name: folder_name(dir),
        full_name: text::lossy(dir),
        available,
        removable,
        tracks: tracks_in(tracks, dir),
    }
}

pub open spec fn row_views(rows: Seq<FolderRow>) -> Seq<FolderRowModel> {
    rows.map_values(|r: FolderRow| r@)
}

fn count_in(tracks: &Vec<Track>, dir: &FilePath) -> (n: usize)
    ensures
        n == tracks_in(track::track_views(tracks@), dir@),
{
    let ghost all = track::track_views(tracks@);
    let parts = dir.components();
    let mut n: usize = 0;
    let mut i: usize = 0;
    while i < tracks.len()
        invariant
            i <= tracks@.len(),
            all == track::track_views(tracks@),
            parts.deep_view() == path::components(dir@),
            n == tracks_in(all.take(i as int), dir@),
            n <= i,
        decreases tracks@.len() - i,
    {
        assert(all.take(i + 1).drop_last() =~= all.take(i as int));
        assert(all.take(i + 1).last() == tracks@[i as int]@);
        if parts_start(&tracks[i].path.components(), &parts) {
            n = n + 1;
        }
        i = i + 1;
    }
    assert(all.take(all.len() as int) =~= all);
    n
}

fn make_row(tracks: &Vec<Track>, dir: &FilePath, available: bool, removable: bool) -> (r: FolderRow)
    ensures
        r@ == folder_row(track::track_views(tracks@), dir@, available, removable),
{
    let full_name = lossy_text(dir.bytes.as_slice());
    let name = match dir.file_name() {
        Some(name) => {
            assert(name.deep_view() =~= name@);
            lossy_text(name.as_slice())
        },
        None => full_name.clone(),
    };
    FolderRow {
        path: dir.clone(),
        name,
        full_name,
        available,
        removable,
        tracks: count_in(tracks, dir),
    }
}

/// The rows of the folder panel.
pub open spec fn folder_rows_of(v: PlayerView) -> Seq<FolderRowModel> {
    (match v.music_dir {
        Some(dir) => seq![folder_row(v.queue.models(), dir@, true, false)],
        None => seq![],
    }) + v.folders@.map_values(
        |f: Folder| folder_row(v.queue.models(), f.path@, f.available, true),
    )
}

/// What is shown of the track.
pub open spec fn shows(v: PlayerView, pos: Duration, s: Showing) -> bool {
    &&& match v.queue.loaded() {
        Some(t) => {
            &&& s.artist@ == t.artist
            &&& s.album@ == t.album
            &&& s.title@ == (match v.chapter_now(pos) {
                Some(i) => t.chapters[i].title,
                None => t.title,
            })
        },
        None => s.title@ == "Nothing playing"@ && s.artist@.len() == 0 && s.album@.len()
            == 0,
    }
    &&& s.counter.deep_view() == (match v.chapter_now(pos) {
        Some(i) => Some(
            text::decimal((i + 1) as nat) + " / "@ + text::decimal(
                v.chapter_list().len(),
            ),
        ),
        None => None,
    })
}

/// What the times on either side of the seek bar say.
pub open spec fn shows_times(v: PlayerView, pos: Duration, shown: Duration, r: (String, String)) -> bool {
    let (start, end) = v.span(pos);
    let heard = shown.past(start).least(end.past(start));
    let left = end.past(start).past(heard);
    &&& r.0@ == track::clock_text((heard.nanos / NANOS_PER_SEC) as nat)
    &&& r.1@ == "−"@ + track::clock_text((left.nanos / NANOS_PER_SEC) as nat)
}

impl PlayerView {
    /// What is shown of the track. With chapters the song's title leads, and the counter
    /// says which of them it is.
    pub fn showing(&self, pos: Duration) -> (s: Showing)
        ensures
            shows(*self, pos, s),
    {
        let chapter = self.current_chapter(pos);
        let Some(t) = self.queue.current_track() else {
            return Showing {
                title: "Nothing playing".to_string(),
                artist: String::new(),
                album: String::new(),
                counter: None,
            };
        };
        match chapter {
            Some(i) => {
                assert(self.chapter_list()[i as int] == t.chapters@[i as int]@);
                let number = decimal_text(i as u128 + 1);
                let count = decimal_text(t.chapters.len() as u128);
                let start = join_text(number.as_str(), " / ");
                Showing {
                    title: t.chapters[i].title.clone(),
                    artist: t.artist.clone(),
                    album: t.album.clone(),
                    counter: Some(join_text(start.as_str(), count.as_str())),
                }
            },
            None => Showing {
                title: t.title.clone(),
                artist: t.artist.clone(),
                album: t.album.clone(),
                counter: None,
            },
        }
    }

    /// The times on either side of the seek bar: what has been heard of the stretch, and
    /// behind a minus sign what is left of it.
    pub fn times(&self, pos: Duration, shown: Duration) -> (r: (String, String))
        ensures
            shows_times(*self, pos, shown, r),
    {
        let heard = format_time(self.elapsed(pos, shown));
        let left = format_time(self.remaining(pos, shown));
        (heard, join_text("−", left.as_str()))
    }

    /// The rows of the queue panel: every track, or only the loved ones.
    pub fn rows(&self) -> (r: Vec<Row>)
        ensures
            r@ == rows_up_to(
                self.queue.models(),
                self.queue.models().len() as int,
                self.show_loved,
                self.queue.current,
            ),
    {
        let ghost all = self.queue.models();
        let mut r: Vec<Row> = Vec::new();
        let mut i: usize = 0;
        while i < self.queue.tracks.len()
            invariant
                i <= self.queue.tracks@.len(),
                all == self.queue.models(),
                r@ == rows_up_to(all, i as int, self.show_loved, self.queue.current),
                r@.len() <= i,
            decreases self.queue.tracks@.len() - i,
        {
            assert(all[i as int] == self.queue.tracks@[i as int]@);
            if !self.show_loved || self.queue.tracks[i].loved {
                let number: usize = r.len() + 1;
                let current = match self.queue.current {
                    Some(c) => c == i,
                    None => false,
                };
                r.push(Row { index: i, number, current });
            }
            i = i + 1;
        }
        r
    }

    /// The heading of the queue panel over so many rows.
    pub fn queue_heading(&self, rows: usize) -> (s: String)
        ensures
            s@ == (if self.show_loved {
                "Loved · "@
            } else {
                "Queue · "@
            }) + text::decimal(rows as nat),
    {
        let count = decimal_text(rows as u128);
        if self.show_loved {
            join_text("Loved · ", count.as_str())
        } else {
            join_text("Queue · ", count.as_str())
        }
    }

    /// The rows of the folder panel: the music folder, which is always there and cannot
    /// be taken out, and then what the listener added.
    pub fn folder_rows(&self) -> (r: Vec<FolderRow>)
        ensures
            row_views(r@) == folder_rows_of(*self),
    {
        let ghost all = self.queue.models();
        let ghost f = |f: Folder| folder_row(self.queue.models(), f.path@, f.available, true);
        let ghost rest = self.folders@.map_values(f);
        let mut r: Vec<FolderRow> = Vec::new();
        if let Some(dir) = &self.music_dir {
            r.push(make_row(&self.queue.tracks, dir, true, false));
        }
        let ghost first = row_views(r@);
        assert(first =~= (match self.music_dir {
            Some(dir) => seq![folder_row(self.queue.models(), dir@, true, false)],
            None => seq![],
        }));
        assert(first + rest.take(0) =~= first);
        let mut i: usize = 0;
        while i < self.folders.len()
            invariant
                i <= self.folders@.len(),
                f == (|f: Folder| folder_row(self.queue.models(), f.path@, f.available, true)),
                rest == self.folders@.map_values(f),
                row_views(r@) == first + rest.take(i as int),
            decreases self.folders@.len() - i,
        {
            let ghost before = r@;
            let folder = &self.folders[i];
            let row = make_row(&self.queue.tracks, &folder.path, folder.available, true);
            let ghost view = row@;
            r.push(row);
            assert(view == rest[i as int]);
            assert(row_views(r@) =~= row_views(before).push(view));
            assert(first + rest.take(i + 1) =~= (first + rest.take(i as int)).push(
                rest[i as int],
            ));
            i = i + 1;
        }
        assert(rest.take(rest.len() as int) =~= rest);
        r
    }
}

/// Every row of the queue panel leads to a track, numbers count up from one without a
/// gap, and with the filter on only loved tracks are there.
pub proof fn rows_count_up(
    tracks: Seq<TrackModel>,
    n: int,
    loved_only: bool,
    current: Option<usize>,
)
    requires
        0 <= n <= tracks.len() <= usize::MAX,
    ensures
        rows_up_to(tracks, n, loved_only, current).len() <= n,
        !loved_only ==> rows_up_to(tracks, n, loved_only, current).len() == n,
        forall|i: int|
            0 <= i < rows_up_to(tracks, n, loved_only, current).len() ==> {
                let row = #[trigger] rows_up_to(tracks, n, loved_only, current)[i];
                &&& row.index < n
                &&& row.number == i + 1
                &&& loved_only ==> tracks[row.index as int].loved
            },
    decreases n,
{
    if n > 0 {
        rows_count_up(tracks, n - 1, loved_only, current);
    }
}

/// The icon of a heart.
pub open spec fn heart_icon(loved: bool) -> Seq<char> {
    if loved {
        "icons/heart_filled.svg"@
    } else {
        "icons/heart.svg"@
    }
}

/// The icon of a heart, filled or not.
pub fn heart(loved: bool) -> (icon: &'static str)
    ensures
        icon@ == heart_icon(loved),
{
    if loved {
        "icons/heart_filled.svg"
    } else {
        "icons/heart.svg"
    }
}

/// The icon of the button that plays and pauses: what pressing it does.
pub fn play_icon(playing: bool) -> (icon: &'static str)
    ensures
        icon@ == (if playing {
            "icons/pause.svg"@
        } else {
            "icons/play.svg"@
        }),
{
    if playing {
        "icons/pause.svg"
    } else {
        "icons/play.svg"
    }
}

/// The state of the buttons below the player.
pub struct Footer {
    pub playlist: bool,
    pub shuffle: bool,
    /// Something is loaded, so there is something to love.
    pub loaded: bool,
    pub loved: bool,
    pub heart: &'static str,
    pub repeat: &'static str,
    pub repeats: bool,
    pub folders: bool,
}

/// What the window has room for.
#[derive(Clone, Copy, PartialEq, Eq, Structural, Debug)]
pub struct Body {
    /// The queue is empty, and the window asks for music in place of the player.
    pub drop_zone: bool,
    pub playlist: bool,
    /// Over everything else, and reachable even without a queue.
    pub folders: bool,
    /// Scrolling changes the volume: nothing lies over the player.
    pub scrolls: bool,
    pub footer: bool,
}

/// What the window shows of a player.
pub open spec fn window_of(v: PlayerView) -> Body {
    let empty = v.queue.tracks@.len() == 0;
    Body {
        drop_zone: empty,
        playlist: !empty && v.show_playlist,
        folders: v.show_folders,
        scrolls: !empty && !v.show_playlist && !v.show_folders,
        footer: !empty,
    }
}

/// What the buttons below the player say.
pub open spec fn shows_footer(v: PlayerView, f: Footer) -> bool {
    &&& f.playlist == v.show_playlist
    &&& f.shuffle == v.queue.shuffle
    &&& f.loaded == (v.queue.current is Some)
    &&& f.loved == (v.queue.loaded() matches Some(t) && t.loved)
    &&& f.heart@ == heart_icon(f.loved)
    &&& f.repeat@ == (if v.queue.repeat == Repeat::One {
        "icons/repeat_one.svg"@
    } else {
        "icons/repeat.svg"@
    })
    &&& f.repeats == (v.queue.repeat != Repeat::Off)
    &&& f.folders == v.show_folders
}

impl PlayerView {
    /// The state of the buttons below the player.
    pub fn footer(&self) -> (f: Footer)
        ensures
            shows_footer(*self, f),
    {
        let loved = match self.queue.current_track() {
            Some(t) => t.loved,
            None => false,
        };
        Footer {
            playlist: self.show_playlist,
            shuffle: self.queue.shuffle,
            loaded: self.queue.current.is_some(),
            loved,
            heart: heart(loved),
            repeat: if self.queue.repeat == Repeat::One {
                "icons/repeat_one.svg"
            } else {
                "icons/repeat.svg"
            },
            repeats: self.queue.repeat != Repeat::Off,
            folders: self.show_folders,
        }
    }

    /// What the window shows.
    pub fn body(&self) -> (b: Body)
        ensures
            b == window_of(*self),
    {
        let empty = self.queue.is_empty();
        Body {
            drop_zone: empty,
            playlist: !empty && self.show_playlist,
            folders: self.show_folders,
            scrolls: !empty && !self.show_playlist && !self.show_folders,
            footer: !empty,
        }
    }
}

impl Row {
    /// What stands in the margin.
    pub open spec fn margin(self) -> Seq<char> {
        if self.current {
            "▶"@
        } else {
            text::decimal(self.number as nat)
        }
    }

    /// What stands in the margin: the number, or an arrow beside the track that is loaded.
    pub fn label(self) -> (s: String)
        ensures
            s@ == self.margin(),
    {
        if self.current {
            "▶".to_string()
        } else {
            decimal_text(self.number as u128)
        }
    }
}

/// The heading of the folder panel over so many rows.
pub fn folder_heading(rows: usize) -> (s: String)
    ensures
        s@ == "Folders · "@ + text::decimal(rows as nat),
{
    let count = decimal_text(rows as u128);
    join_text("Folders · ", count.as_str())
}

/// Which way the pointer's arrows point on an edge.
#[derive(Clone, Copy, PartialEq, Eq, Structural, Debug)]
pub enum Arrows {
    UpDown,
    LeftRight,
    UpLeftDownRight,
    UpRightDownLeft,
}

impl Edge {
    /// The arrows across an edge.
    pub open spec fn across(self) -> Arrows {
        match self {
            Edge::Top | Edge::Bottom => Arrows::UpDown,
            Edge::Left | Edge::Right => Arrows::LeftRight,
            Edge::TopLeft | Edge::BottomRight => Arrows::UpLeftDownRight,
            Edge::TopRight | Edge::BottomLeft => Arrows::UpRightDownLeft,
        }
    }

    /// The arrows the pointer has on an edge.
    pub fn arrows(self) -> (a: Arrows)
        ensures
            a == self.across(),
    {
        match self {
            Edge::Top | Edge::Bottom => Arrows::UpDown,
            Edge::Left | Edge::Right => Arrows::LeftRight,
            Edge::TopLeft | Edge::BottomRight => Arrows::UpLeftDownRight,
            Edge::TopRight | Edge::BottomLeft => Arrows::UpRightDownLeft,
        }
    }
}

/// An edge or a corner of the window.
#[derive(Clone, Copy, PartialEq, Eq, Structural, Debug)]
pub enum Edge {
    Top,
    TopRight,
    Right,
    BottomRight,
    Bottom,
    BottomLeft,
    Left,
    TopLeft,
}

/// Which edge a pointer is on, by which of the four margins it is in. The top and the
/// left margin win over those across from them.
pub open spec fn edge_at(top: bool, right: bool, bottom: bool, left: bool) -> Option<Edge> {
    if top && left {
        Some(Edge::TopLeft)
    } else if top && right {
        Some(Edge::TopRight)
    } else if top {
        Some(Edge::Top)
    } else if bottom && left {
        Some(Edge::BottomLeft)
    } else if bottom && right {
        Some(Edge::BottomRight)
    } else if bottom {
        Some(Edge::Bottom)
    } else if left {
        Some(Edge::Left)
    } else if right {
        Some(Edge::Right)
    } else {
        None
    }
}

/// Which edge of the window the pointer is on, if any: the shadow around the window
/// doubles as the handle to resize it. `margin` is how wide the shadow is, and `right`
/// and `bottom` are where it begins on the far sides.
pub fn resize_edge(x: Single, y: Single, right: Single, bottom: Single, margin: Single) -> (r:
    Option<Edge>)
    ensures
        r == edge_at(y.below(margin), right.below(x), bottom.below(y), x.below(margin)),
{
    let top = y.lt(margin);
    let left = x.lt(margin);
    let far_right = right.lt(x);
    let far_down = bottom.lt(y);
    if top && left {
        Some(Edge::TopLeft)
    } else if top && far_right {
        Some(Edge::TopRight)
    } else if top {
        Some(Edge::Top)
    } else if far_down && left {
        Some(Edge::BottomLeft)
    } else if far_down && far_right {
        Some(Edge::BottomRight)
    } else if far_down {
        Some(Edge::Bottom)
    } else if left {
        Some(Edge::Left)
    } else if far_right {
        Some(Edge::Right)
    } else {
        None
    }
}

/// Every track has a row, or every loved one when only those are shown: in the order of
/// the queue, numbered from one without a gap, and marked exactly when it is the one that
/// is loaded.
pub proof fn every_track_shown_has_a_row(
    tracks: Seq<TrackModel>,
    n: int,
    loved_only: bool,
    current: Option<usize>,
    i: int,
)
    requires
        0 <= i < n <= tracks.len(),
        tracks.len() <= usize::MAX,
    ensures
        ({
            let rows = rows_up_to(tracks, n, loved_only, current);
            let shown = |t: TrackModel| !loved_only || t.loved;
            &&& rows.len() == tracks.take(n).filter(shown).len()
            &&& !loved_only || tracks[i].loved ==> {
                let k = tracks.take(i).filter(shown).len() as int;
                &&& k < rows.len()
                &&& rows[k].index == i
                &&& rows[k].number == k + 1
                &&& rows[k].current <==> current == Some(i as usize)
            }
        }),
    decreases n,
{
    reveal(Seq::filter);
    let shown = |t: TrackModel| !loved_only || t.loved;
    assert(tracks.take(n).drop_last() =~= tracks.take(n - 1));
    rows_are_those_shown(tracks, n - 1, loved_only, current);
    rows_are_those_shown(tracks, n, loved_only, current);
    if i < n - 1 {
        every_track_shown_has_a_row(tracks, n - 1, loved_only, current, i);
    }
}

proof fn rows_are_those_shown(
    tracks: Seq<TrackModel>,
    n: int,
    loved_only: bool,
    current: Option<usize>,
)
    requires
        0 <= n <= tracks.len(),
    ensures
        rows_up_to(tracks, n, loved_only, current).len() == tracks.take(n).filter(
            |t: TrackModel| !loved_only || t.loved,
        ).len(),
        rows_up_to(tracks, n, loved_only, current).len() <= n,
    decreases n,
{
    reveal(Seq::filter);
    if n > 0 {
        assert(tracks.take(n).drop_last() =~= tracks.take(n - 1));
        assert(tracks.take(n).last() == tracks[n - 1]);
        rows_are_those_shown(tracks, n - 1, loved_only, current);
    }
}

/// A folder's row counts exactly the tracks that lie under it, and is called by the
/// folder's own name where it has one.
pub proof fn a_folders_row_counts_its_tracks(
    tracks: Seq<TrackModel>,
    dir: Seq<u8>,
    available: bool,
    removable: bool,
)
    ensures
        ({
            let row = folder_row(tracks, dir, available, removable);
            &&& row.tracks == tracks.filter(|t: TrackModel| path::under(t.path, dir)).len()
            &&& row.path == dir
            &&& row.available == available
            &&& row.removable == removable
            &&& row.full_name == text::lossy(dir)
            &&& path::file_name(dir) matches Some(name) ==> row.name == text::lossy(name)
            &&& path::file_name(dir) is None ==> row.name == text::lossy(dir)
        }),
    decreases tracks.len(),
{
    reveal(Seq::filter);
    if tracks.len() > 0 {
        a_folders_row_counts_its_tracks(tracks.drop_last(), dir, available, removable);
    }
}

/// An edge of the window is where the pointer is past it, and a corner where it is past
/// two of them; where the pointer is past none there is none. The arrows across an edge and
/// across the one opposite it are the same.
pub proof fn edges_are_where_the_pointer_is(top: bool, right: bool, bottom: bool, left: bool)
    requires
        !(top && bottom),
        !(left && right),
    ensures
        edge_at(top, right, bottom, left) is None <==> !top && !right && !bottom && !left,
        edge_at(top, right, bottom, left) == Some(Edge::Top) <==> top && !left && !right,
        edge_at(top, right, bottom, left) == Some(Edge::Bottom) <==> bottom && !left && !right,
        edge_at(top, right, bottom, left) == Some(Edge::Left) <==> left && !top && !bottom,
        edge_at(top, right, bottom, left) == Some(Edge::Right) <==> right && !top && !bottom,
        edge_at(top, right, bottom, left) == Some(Edge::TopLeft) <==> top && left,
        edge_at(top, right, bottom, left) == Some(Edge::TopRight) <==> top && right,
        edge_at(top, right, bottom, left) == Some(Edge::BottomLeft) <==> bottom && left,
        edge_at(top, right, bottom, left) == Some(Edge::BottomRight) <==> bottom && right,
        Edge::Top.across() == Arrows::UpDown && Edge::Bottom.across() == Arrows::UpDown,
        Edge::Left.across() == Arrows::LeftRight && Edge::Right.across() == Arrows::LeftRight,
        Edge::TopLeft.across() == Arrows::UpLeftDownRight,
        Edge::BottomRight.across() == Arrows::UpLeftDownRight,
        Edge::TopRight.across() == Arrows::UpRightDownLeft,
        Edge::BottomLeft.across() == Arrows::UpRightDownLeft,
{
}

/// A loved track shows a filled heart, and any other an empty one.
pub proof fn a_loved_track_has_a_filled_heart()
    ensures
        heart_icon(true) == "icons/heart_filled.svg"@,
        heart_icon(false) == "icons/heart.svg"@,
{
}

/// The names of the loaded track are shown, each in its place; in a file with chapters the
/// chapter's title leads, with its number from one and how many there are.
pub proof fn the_loaded_track_is_shown(
    v: PlayerView,
    pos: Duration,
    s: Showing,
    c: usize,
    i: int,
)
    requires
        shows(v, pos, s),
        v.queue.current == Some(c),
        c < v.queue.tracks@.len(),
    ensures
        s.artist@ == v.queue.tracks@[c as int].artist@,
        s.album@ == v.queue.tracks@[c as int].album@,
        v.queue.tracks@[c as int].chapters@.len() == 0 ==> s.title@
            == v.queue.tracks@[c as int].title@ && s.counter is None,
        0 <= i < v.queue.tracks@[c as int].chapters@.len()
            && v.queue.tracks@[c as int].chapters@[i].start.nanos <= pos.nanos && (i + 1
            < v.queue.tracks@[c as int].chapters@.len() ==> pos.nanos
            < v.queue.tracks@[c as int].chapters@[i + 1].start.nanos) && (forall|a: int, b: int|
            0 <= a < b < v.queue.tracks@[c as int].chapters@.len() ==> (
            #[trigger] v.queue.tracks@[c as int].chapters@[a]).start.nanos < (
            #[trigger] v.queue.tracks@[c as int].chapters@[b]).start.nanos) ==> {
            &&& s.title@ == v.queue.tracks@[c as int].chapters@[i].title@
            &&& s.counter is Some
            &&& s.counter->0@ == text::decimal((i + 1) as nat) + " / "@ + text::decimal(
                v.queue.tracks@[c as int].chapters@.len(),
            )
        },
{
    let t = v.queue.tracks@[c as int];
    let chapters = v.chapter_list();
    assert(chapters.len() == t.chapters@.len());
    if 0 <= i < chapters.len() {
        crate::player_view::chapter_in_is_right(chapters, pos);
        let k = crate::player_view::chapter_in(chapters, pos);
        assert(chapters[i] == t.chapters@[i]@);
        assert(chapters[k] == t.chapters@[k]@);
        if i + 1 < chapters.len() {
            assert(chapters[i + 1] == t.chapters@[i + 1]@);
        }
        if k < i {
            assert(chapters[i].start.nanos > pos.nanos);
        } else if k > i + 1 && (forall|a: int, b: int|
            0 <= a < b < t.chapters@.len() ==> (#[trigger] t.chapters@[a]).start.nanos < (
            #[trigger] t.chapters@[b]).start.nanos) {
            assert(t.chapters@[i + 1].start.nanos < t.chapters@[k].start.nanos);
        }
    }
}

/// Without a loaded track it says that nothing is playing.
pub proof fn nothing_is_shown_of_nothing(v: PlayerView, pos: Duration, s: Showing)
    requires
        shows(v, pos, s),
        v.queue.current is None,
    ensures
        s.title@ == "Nothing playing"@,
        s.artist@.len() == 0 && s.album@.len() == 0 && s.counter is None,
{
}

/// The times are those of the stretch, in whole seconds: what has passed on the left, and
/// behind a minus sign what is left on the right.
pub proof fn the_times_are_those_of_the_stretch(
    v: PlayerView,
    pos: Duration,
    shown: Duration,
    r: (String, String),
    passed: Duration,
    left: Duration,
)
    requires
        shows_times(v, pos, shown, r),
        v.into_span(pos, shown, passed),
        v.left_of_span(pos, shown, left),
    ensures
        r.0@ == track::clock_text((passed.nanos as int / 1_000_000_000) as nat),
        r.1@ == "−"@ + track::clock_text((left.nanos as int / 1_000_000_000) as nat),
{
}

/// The buttons show what is switched on, the heart that of the loaded track, and that there
/// is something to love only where something is loaded.
pub proof fn the_buttons_show_the_state(v: PlayerView, f: Footer, c: usize)
    requires
        shows_footer(v, f),
    ensures
        f.shuffle == v.queue.shuffle,
        f.playlist == v.show_playlist,
        f.folders == v.show_folders,
        v.queue.repeat is Off ==> !f.repeats && f.repeat@ == "icons/repeat.svg"@,
        v.queue.repeat is All ==> f.repeats && f.repeat@ == "icons/repeat.svg"@,
        v.queue.repeat is One ==> f.repeats && f.repeat@ == "icons/repeat_one.svg"@,
        v.queue.current is None ==> !f.loaded && !f.loved && f.heart@ == "icons/heart.svg"@,
        v.queue.current == Some(c) && c < v.queue.tracks@.len() ==> {
            &&& f.loaded
            &&& f.loved == v.queue.tracks@[c as int].loved
            &&& f.loved ==> f.heart@ == "icons/heart_filled.svg"@
            &&& !f.loved ==> f.heart@ == "icons/heart.svg"@
        },
{
}

/// An empty queue asks for music, and has no playlist and no buttons. The folders can be
/// shown either way, and scrolling changes the volume only where nothing lies over the
/// player.
pub proof fn the_window_has_room_for_this(v: PlayerView)
    ensures
        v.queue.tracks@.len() == 0 <==> window_of(v).drop_zone,
        window_of(v).footer == !window_of(v).drop_zone,
        window_of(v).folders == v.show_folders,
        v.queue.tracks@.len() > 0 ==> window_of(v).playlist == v.show_playlist,
        v.queue.tracks@.len() == 0 ==> !window_of(v).playlist && !window_of(v).scrolls,
        window_of(v).scrolls <==> !window_of(v).drop_zone && !window_of(v).playlist
            && !window_of(v).folders,
{
}

/// The folder panel has the music folder first, where there is one, which cannot be taken
/// out; then every folder that was added, in order, each of which can.
pub proof fn the_music_folder_comes_first(v: PlayerView, i: int)
    ensures
        v.music_dir is None ==> folder_rows_of(v).len() == v.folders@.len(),
        v.music_dir is Some ==> folder_rows_of(v).len() == v.folders@.len() + 1,
        v.music_dir is Some ==> folder_rows_of(v)[0].path == v.music_dir->0@
            && !folder_rows_of(v)[0].removable && folder_rows_of(v)[0].available,
        0 <= i < v.folders@.len() ==> {
            let row = folder_rows_of(v)[folder_rows_of(v).len() - v.folders@.len() + i];
            &&& row.path == v.folders@[i].path@
            &&& row.available == v.folders@[i].available
            &&& row.removable
        },
{
}

/// A row has its number in the margin, and an arrow instead where it is the loaded track's.
pub proof fn the_loaded_row_has_an_arrow(row: Row)
    ensures
        row.current ==> row.margin() == "▶"@,
        !row.current ==> row.margin() == text::decimal(row.number as nat),
{
}

} // verus!
