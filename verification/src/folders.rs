//! The folders the library is made of: adding and removing them, what a scan says about
//! each, and which files are new.

use crate::library::Scan;
use crate::order;
use crate::path;
use crate::path::{clone_paths, parts_start, same_parts, FilePath};
use crate::player_view::PlayerView;
use crate::queue;
use crate::track;
use crate::track::TrackModel;
use vstd::prelude::*;

verus! {

/// What a file system reports about a library folder.
#[derive(Clone, Copy, PartialEq, Eq, Structural, Debug)]
pub enum EventKind {
    Create,
    Remove,
    /// A change to what is in a file, to its name, or of no known kind.
    Modify,
    /// A change to a file's attributes or times alone.
    Metadata,
    Other,
}

/// Whether an event concerns the library.
pub open spec fn concerns_library(kind: EventKind) -> bool {
    kind == EventKind::Create || kind == EventKind::Remove || kind == EventKind::Modify
}

/// Whether an event is worth a rescan. One that is about metadata alone is not: the
/// player writes an attribute onto every file it parses, and each of those writes
/// comes back as an event.
pub fn is_library_change(kind: EventKind) -> (r: bool)
    ensures
        r == concerns_library(kind),
{
    match kind {
        EventKind::Create | EventKind::Remove | EventKind::Modify => true,
        EventKind::Metadata | EventKind::Other => false,
    }
}

/// Where the watch over the library stands: waiting for a change, or letting a batch of
/// them settle, such as a folder that is being copied in.
#[derive(Clone, Copy, PartialEq, Eq, Structural, Debug)]
pub enum Watching {
    Waiting,
    Settling,
}

impl Watching {
    /// How many milliseconds the watch rests.
    pub open spec fn rests(self) -> u64 {
        if self == Watching::Waiting {
            700
        } else {
            800
        }
    }

    /// How long to pause, in milliseconds.
    pub fn pause(self) -> (millis: u64)
        ensures
            millis == self.rests(),
    {
        match self {
            Watching::Waiting => 700,
            Watching::Settling => 800,
        }
    }

    /// Where the watch stands after a pause, and whether it is time for a rescan.
    /// `changed` tells whether a change was reported meanwhile.
    pub open spec fn woken(self, changed: bool) -> (Watching, bool) {
        match self {
            Watching::Waiting => if changed {
                (Watching::Settling, false)
            } else {
                (Watching::Waiting, false)
            },
            Watching::Settling => (Watching::Waiting, true),
        }
    }

    /// Goes on after a pause. What is reported while changes settle is part of them.
    pub fn wake(self, changed: bool) -> (r: (Watching, bool))
        ensures
            r == self.woken(changed),
    {
        match self {
            Watching::Waiting => if changed {
                (Watching::Settling, false)
            } else {
                (Watching::Waiting, false)
            },
            Watching::Settling => (Watching::Waiting, true),
        }
    }
}

/// However many changes there are while they settle, one rescan follows and no more, and
/// without a change there is none.
pub proof fn changes_settle_into_one_rescan(more: bool)
    ensures
        Watching::Waiting.woken(false) == (Watching::Waiting, false),
        !Watching::Waiting.woken(true).1,
        Watching::Waiting.woken(true).0.woken(more) == (Watching::Waiting, true),
{
}

/// A library root that the listener added, and what the last scan made of it.
#[derive(Debug)]
pub struct Folder {
    pub path: FilePath,
    /// The last scan of it could be believed. It starts out so: showing a folder as
    /// reachable for a second before anything has looked at it is a smaller lie
    /// than greying out a whole library.
    pub available: bool,
}

/// What a folder is.
#[verifier::ext_equal]
pub struct FolderModel {
    pub path: Seq<u8>,
    pub available: bool,
}

impl View for Folder {
    type V = FolderModel;

    open spec fn view(&self) -> FolderModel {
        FolderModel { path: self.path@, available: self.available }
    }
}

/// What the folders in a list are.
pub open spec fn folder_views(folders: Seq<Folder>) -> Seq<FolderModel> {
    folders.map_values(|f: Folder| f@)
}

/// Where the folders in a list are.
pub open spec fn folder_paths(folders: Seq<Folder>) -> Seq<Seq<u8>> {
    folders.map_values(|f: Folder| f.path@)
}

/// What adding a folder means for the roots that are there.
pub enum Adopt {
    /// A root covers it already.
    Covered,
    /// It joins the roots, and those inside it step aside: keeping both would leave
    /// one that cannot be removed without the other.
    Adopted { superseded: Vec<FilePath> },
}

/// The paths in a list that lie under a folder.
pub open spec fn inside(paths: Seq<Seq<u8>>, dir: Seq<u8>) -> Seq<Seq<u8>> {
    paths.filter(|p: Seq<u8>| path::under(p, dir))
}

/// What choosing a folder means, given the roots and those that can be taken out.
pub open spec fn adopts(
    dir: Seq<u8>,
    roots: Seq<Seq<u8>>,
    removable: Seq<Seq<u8>>,
    r: Adopt,
) -> bool {
    match r {
        Adopt::Covered => path::under_any(dir, roots),
        Adopt::Adopted { superseded } => {
            &&& !path::under_any(dir, roots)
            &&& path::views(superseded@) == inside(removable, dir)
        },
    }
}

/// Decides about a folder against the roots that are there. `removable` are those
/// the listener added: the desktop's music folder is among `roots`, so that choosing
/// it again changes nothing, but it never steps aside.
pub fn adopt(dir: &FilePath, roots: &[FilePath], removable: &[FilePath]) -> (r: Adopt)
    ensures
        adopts(dir@, path::views(roots@), path::views(removable@), r),
{
    if dir.is_under_any(roots) {
        return Adopt::Covered;
    }
    let ghost all = path::views(removable@);
    let ghost under = |p: Seq<u8>| path::under(p, dir@);
    let parts = dir.components();
    let mut superseded: Vec<FilePath> = Vec::new();
    let mut i: usize = 0;
    proof {
        reveal(Seq::filter);
        assert(path::views(superseded@) =~= all.take(0).filter(under));
    }
    while i < removable.len()
        invariant
            i <= removable@.len(),
            all == path::views(removable@),
            under == (|p: Seq<u8>| path::under(p, dir@)),
            parts.deep_view() == path::components(dir@),
            path::views(superseded@) == all.take(i as int).filter(under),
        decreases removable@.len() - i,
    {
        let ghost before = superseded@;
        let ghost view = removable@[i as int]@;
        proof {
            reveal(Seq::filter);
            assert(all.take(i + 1).drop_last() =~= all.take(i as int));
            assert(all.take(i + 1).last() == view);
        }
        if parts_start(&removable[i].components(), &parts) {
            superseded.push(removable[i].clone());
            assert(path::views(superseded@) =~= path::views(before).push(view));
        }
        i = i + 1;
    }
    assert(all.take(all.len() as int) =~= all);
    Adopt::Adopted { superseded }
}

/// A folder that can be reached, before anything has looked at it.
pub open spec fn reachable(path: Seq<u8>) -> FolderModel {
    FolderModel { path, available: true }
}

/// What a scan says about a folder in a list: the first at its root takes it over.
pub open spec fn noted(folders: Seq<FolderModel>, root: Seq<u8>, complete: bool) -> Seq<
    FolderModel,
>
    decreases folders.len(),
{
    if folders.len() == 0 {
        folders
    } else if path::same_place(folders[0].path, root) {
        seq![FolderModel { available: complete, ..folders[0] }] + folders.drop_first()
    } else {
        seq![folders[0]] + noted(folders.drop_first(), root, complete)
    }
}

/// What several scans say about the folders in a list.
pub open spec fn all_noted(folders: Seq<FolderModel>, scans: Seq<Scan>) -> Seq<FolderModel>
    decreases scans.len(),
{
    if scans.len() == 0 {
        folders
    } else {
        let before = all_noted(folders, scans.drop_last());
        noted(before, scans.last().root@, scans.last().complete)
    }
}

/// The roots whose scans can be believed.
pub open spec fn believed_roots(scans: Seq<Scan>) -> Seq<Seq<u8>>
    decreases scans.len(),
{
    if scans.len() == 0 {
        seq![]
    } else {
        let before = believed_roots(scans.drop_last());
        if scans.last().complete {
            before.push(scans.last().root@)
        } else {
            before
        }
    }
}

/// Everything that scans saw: all of them, or only those that can be believed.
pub open spec fn seen(scans: Seq<Scan>, believed: bool) -> Seq<Seq<u8>>
    decreases scans.len(),
{
    if scans.len() == 0 {
        seq![]
    } else {
        let before = seen(scans.drop_last(), believed);
        if !believed || scans.last().complete {
            before + path::views(scans.last().files@)
        } else {
            before
        }
    }
}

impl PlayerView {
    /// Every root the queue is built from: the music folder, then what the listener
    /// added.
    pub open spec fn all_roots(&self) -> Seq<Seq<u8>> {
        (match self.music_dir {
            Some(dir) => seq![dir@],
            None => seq![],
        }) + folder_paths(self.folders@)
    }

    /// The folders the listener added.
    pub(crate) fn removable(&self) -> (r: Vec<FilePath>)
        ensures
            path::views(r@) == folder_paths(self.folders@),
    {
        let mut r: Vec<FilePath> = Vec::new();
        let mut i: usize = 0;
        while i < self.folders.len()
            invariant
                i <= self.folders@.len(),
                r@.len() == i,
                forall|j: int| 0 <= j < i ==> (#[trigger] r@[j])@ == self.folders@[j].path@,
            decreases self.folders@.len() - i,
        {
            r.push(self.folders[i].path.clone());
            i = i + 1;
        }
        assert(path::views(r@) =~= folder_paths(self.folders@));
        r
    }

    /// Every root the queue is built from.
    pub fn roots(&self) -> (r: Vec<FilePath>)
        ensures
            path::views(r@) == self.all_roots(),
    {
        let mut r: Vec<FilePath> = Vec::new();
        if let Some(dir) = &self.music_dir {
            r.push(dir.clone());
        }
        let ghost first = path::views(r@);
        let mut more = self.removable();
        let ghost rest = path::views(more@);
        let ghost (a, b) = (r@, more@);
        r.append(&mut more);
        assert(path::views(a + b) =~= first + rest);
        assert(first =~= (match self.music_dir {
            Some(dir) => seq![dir@],
            None => seq![],
        }));
        r
    }
}

/// Where folders are.
pub open spec fn model_paths(folders: Seq<FolderModel>) -> Seq<Seq<u8>> {
    folders.map_values(|f: FolderModel| f.path)
}

/// The roots that a music folder and added folders make.
pub open spec fn roots_of(music: Option<Seq<u8>>, folders: Seq<FolderModel>) -> Seq<Seq<u8>> {
    (match music {
        Some(dir) => seq![dir],
        None => seq![],
    }) + model_paths(folders)
}

/// Whether a folder joins the roots: none of them covers it.
pub open spec fn joins(music: Option<Seq<u8>>, folders: Seq<FolderModel>, dir: Seq<u8>) -> bool {
    !path::under_any(dir, roots_of(music, folders))
}

/// The folders outside another.
pub open spec fn outside(folders: Seq<FolderModel>, dir: Seq<u8>) -> Seq<FolderModel> {
    folders.filter(|f: FolderModel| !path::under(f.path, dir))
}

/// The folders after some more were chosen, one after the other. One that a root
/// covers changes nothing. Any other joins at the end, and those inside it step
/// aside.
pub open spec fn folders_after(
    music: Option<Seq<u8>>,
    folders: Seq<FolderModel>,
    dirs: Seq<Seq<u8>>,
) -> Seq<FolderModel>
    decreases dirs.len(),
{
    if dirs.len() == 0 {
        folders
    } else {
        let before = folders_after(music, folders, dirs.drop_last());
        if joins(music, before, dirs.last()) {
            outside(before, dirs.last()).push(reachable(dirs.last()))
        } else {
            before
        }
    }
}

/// The folders that stepped aside, in the order they did.
pub open spec fn superseded_by(
    music: Option<Seq<u8>>,
    folders: Seq<FolderModel>,
    dirs: Seq<Seq<u8>>,
) -> Seq<Seq<u8>>
    decreases dirs.len(),
{
    if dirs.len() == 0 {
        seq![]
    } else {
        let before = superseded_by(music, folders, dirs.drop_last());
        let now = folders_after(music, folders, dirs.drop_last());
        if joins(music, now, dirs.last()) {
            before + inside(model_paths(now), dirs.last())
        } else {
            before
        }
    }
}

/// A change to what is watched.
pub enum Watch {
    Start(FilePath),
    Stop(FilePath),
}

/// What a change to what is watched is.
pub enum WatchModel {
    Start(Seq<u8>),
    Stop(Seq<u8>),
}

impl View for Watch {
    type V = WatchModel;

    open spec fn view(&self) -> WatchModel {
        match self {
            Watch::Start(p) => WatchModel::Start(p@),
            Watch::Stop(p) => WatchModel::Stop(p@),
        }
    }
}

pub open spec fn watch_views(changes: Seq<Watch>) -> Seq<WatchModel> {
    changes.map_values(|w: Watch| w@)
}

/// What changes about what is watched: a folder that joins is watched once those it
/// makes step aside no longer are.
pub open spec fn watches_after(
    music: Option<Seq<u8>>,
    folders: Seq<FolderModel>,
    dirs: Seq<Seq<u8>>,
) -> Seq<WatchModel>
    decreases dirs.len(),
{
    if dirs.len() == 0 {
        seq![]
    } else {
        let before = watches_after(music, folders, dirs.drop_last());
        let now = folders_after(music, folders, dirs.drop_last());
        if joins(music, now, dirs.last()) {
            (before + inside(model_paths(now), dirs.last()).map_values(
                |p: Seq<u8>| WatchModel::Stop(p),
            )).push(WatchModel::Start(dirs.last()))
        } else {
            before
        }
    }
}

/// The first folder at a place, or the number of folders.
pub open spec fn folder_at(folders: Seq<FolderModel>, dir: Seq<u8>) -> int
    decreases folders.len(),
{
    if folders.len() == 0 || path::same_place(folders[0].path, dir) {
        0
    } else {
        1 + folder_at(folders.drop_first(), dir)
    }
}

/// A path, when there is one.
pub open spec fn place(p: Option<FilePath>) -> Option<Seq<u8>> {
    match p {
        Some(p) => Some(p@),
        None => None,
    }
}

impl PlayerView {
    /// What choosing folders does to a player.
    pub open spec fn takes_in(
        before: PlayerView,
        chosen: Seq<Seq<u8>>,
        now: PlayerView,
        changes: Seq<WatchModel>,
    ) -> bool {
        let music = place(before.music_dir);
        let folders = folder_views(before.folders@);
        &&& folder_views(now.folders@) == folders_after(music, folders, chosen)
        &&& changes == watches_after(music, folders, chosen)
        &&& superseded_by(music, folders, chosen).len() == 0 ==> now.queue == before.queue
        &&& superseded_by(music, folders, chosen).len() > 0 ==> {
            &&& now.queue.kept_from(
                before.queue,
                |t: TrackModel| !path::under_any(t.path, superseded_by(music, folders, chosen)),
            )
            &&& now.queue.well_formed()
            &&& now.queue.freshly_ordered()
        }
        &&& now == (PlayerView { folders: now.folders, queue: now.queue, ..before })
    }

    /// What taking a folder out does to a player.
    pub open spec fn lets_go(
        before: PlayerView,
        dir: Seq<u8>,
        now: PlayerView,
        found: bool,
    ) -> bool {
        let folders = folder_views(before.folders@);
        let i = folder_at(folders, dir);
        &&& found == (i < folders.len())
        &&& found ==> {
            &&& folder_views(now.folders@) == folders.remove(i)
            &&& now.queue.kept_from(before.queue, |t: TrackModel| !path::under(t.path, dir))
            &&& now.queue.well_formed()
            &&& now.queue.freshly_ordered()
            &&& now == (PlayerView { folders: now.folders, queue: now.queue, ..before })
        }
        &&& !found ==> now == before
    }

    /// What scans of the roots do to a player, and which files they add.
    pub open spec fn merges(
        before: PlayerView,
        scans: Seq<Scan>,
        now: PlayerView,
        added: Seq<Seq<u8>>,
    ) -> bool {
        &&& folder_views(now.folders@) == all_noted(folder_views(before.folders@), scans)
        &&& now.queue.kept_from(
            before.queue,
            |t: TrackModel| queue::scan_keeps(t, believed_roots(scans), seen(scans, true)),
        )
        &&& now.queue.well_formed()
        &&& now.queue.freshly_ordered()
        &&& added == new_files(seen(scans, false), now.queue.places())
        &&& now == (PlayerView { folders: now.folders, queue: now.queue, ..before })
    }

    /// Drops the folders inside another.
    fn keep_outside(folders: Vec<Folder>, dir: &FilePath) -> (r: Vec<Folder>)
        ensures
            folder_views(r@) == outside(folder_views(folders@), dir@),
    {
        let ghost all = folder_views(folders@);
        let ghost out = |f: FolderModel| !path::under(f.path, dir@);
        let parts = dir.components();
        let mut r: Vec<Folder> = Vec::new();
        proof {
            reveal(Seq::filter);
            assert(folder_views(r@) =~= all.take(0).filter(out));
        }
        for f in it: folders.into_iter()
            invariant
                it.seq() == folders@,
                all == folder_views(folders@),
                out == (|f: FolderModel| !path::under(f.path, dir@)),
                parts.deep_view() == path::components(dir@),
                folder_views(r@) == all.take(it.index() as int).filter(out),
        {
            let ghost i = it.index() as int;
            let ghost before = r@;
            let ghost view = f@;
            proof {
                reveal(Seq::filter);
                assert(all.take(i + 1).drop_last() =~= all.take(i));
                assert(all.take(i + 1).last() == view);
            }
            if !parts_start(&f.path.components(), &parts) {
                r.push(f);
                assert(folder_views(r@) =~= folder_views(before).push(view));
            }
        }
        assert(all.take(all.len() as int) =~= all);
        r
    }

    /// Takes folders that the listener chose into the library. Those that stepped
    /// aside take their tracks with them, to come back with the scan of the one that
    /// joined.
    pub fn remember(&mut self, dirs: Vec<FilePath>) -> (changes: Vec<Watch>)
        ensures
            PlayerView::takes_in(
                *old(self),
                path::views(dirs@),
                *final(self),
                watch_views(changes@),
            ),
    {
        let ghost before = *self;
        let ghost music = place(self.music_dir);
        let ghost folders = folder_views(self.folders@);
        let ghost chosen = path::views(dirs@);
        let mut changes: Vec<Watch> = Vec::new();
        let mut stop: Vec<FilePath> = Vec::new();
        assert(watch_views(changes@) =~= watches_after(music, folders, chosen.take(0)));
        assert(path::views(stop@) =~= superseded_by(music, folders, chosen.take(0)));
        for dir in it: dirs.into_iter()
            invariant
                it.seq() == dirs@,
                chosen == path::views(dirs@),
                music == place(self.music_dir),
                *self == (PlayerView { folders: self.folders, ..before }),
                folder_views(self.folders@) == folders_after(
                    music,
                    folders,
                    chosen.take(it.index() as int),
                ),
                watch_views(changes@) == watches_after(
                    music,
                    folders,
                    chosen.take(it.index() as int),
                ),
                path::views(stop@) == superseded_by(
                    music,
                    folders,
                    chosen.take(it.index() as int),
                ),
        {
            let ghost i = it.index() as int;
            let ghost view = dir@;
            let ghost now = folder_views(self.folders@);
            proof {
                assert(chosen.take(i + 1).drop_last() =~= chosen.take(i));
                assert(chosen.take(i + 1).last() == view);
                assert(folder_paths(self.folders@) =~= model_paths(now));
                assert(self.all_roots() =~= roots_of(music, now));
            }
            let roots = self.roots();
            let removable = self.removable();
            if let Adopt::Adopted { superseded } = adopt(
                &dir,
                roots.as_slice(),
                removable.as_slice(),
            ) {
                let mut superseded = superseded;
                let ghost gone = path::views(superseded@);
                Self::stop_all(superseded.as_slice(), &mut changes);
                let ghost (a, b) = (stop@, superseded@);
                stop.append(&mut superseded);
                assert(path::views(a + b) =~= path::views(a) + path::views(b));
                let mut kept: Vec<Folder> = Vec::new();
                std::mem::swap(&mut kept, &mut self.folders);
                let mut kept = Self::keep_outside(kept, &dir);
                let ghost were = kept@;
                kept.push(Folder { path: dir.clone(), available: true });
                assert(folder_views(kept@) =~= folder_views(were).push(reachable(view)));
                self.folders = kept;
                let ghost stopped = changes@;
                changes.push(Watch::Start(dir));
                assert(watch_views(changes@) =~= watch_views(stopped).push(
                    WatchModel::Start(view),
                ));
            }
        }
        assert(chosen.take(chosen.len() as int) =~= chosen);
        if stop.len() > 0 {
            self.queue.remove_under_any(stop.as_slice());
        }
        changes
    }

    /// Asks for several folders to be watched no longer.
    fn stop_all(dirs: &[FilePath], changes: &mut Vec<Watch>)
        ensures
            watch_views(final(changes)@) == watch_views(old(changes)@) + path::views(
                dirs@,
            ).map_values(|p: Seq<u8>| WatchModel::Stop(p)),
    {
        let ghost f = |p: Seq<u8>| WatchModel::Stop(p);
        let ghost start = watch_views(changes@);
        let ghost all = path::views(dirs@).map_values(f);
        let mut i: usize = 0;
        assert(start + all.take(0) =~= start);
        while i < dirs.len()
            invariant
                i <= dirs@.len(),
                f == (|p: Seq<u8>| WatchModel::Stop(p)),
                all == path::views(dirs@).map_values(f),
                watch_views(changes@) == start + all.take(i as int),
            decreases dirs@.len() - i,
        {
            let ghost before = changes@;
            changes.push(Watch::Stop(dirs[i].clone()));
            assert(watch_views(changes@) =~= watch_views(before).push(all[i as int]));
            assert(start + all.take(i + 1) =~= (start + all.take(i as int)).push(all[i as int]));
            i = i + 1;
        }
        assert(all.take(all.len() as int) =~= all);
    }

    /// Takes a folder out of the library, and its tracks out of the queue. The track
    /// that is playing stays: this is a change to the library and not an instruction
    /// to stop the music. False when there is no such folder.
    pub fn forget(&mut self, dir: &FilePath) -> (found: bool)
        ensures
            PlayerView::lets_go(*old(self), dir@, *final(self), found),
    {
        let ghost folders = folder_views(self.folders@);
        let parts = dir.components();
        let mut i: usize = 0;
        assert(folders.skip(0) =~= folders);
        while i < self.folders.len()
            invariant
                i <= self.folders@.len(),
                *self == *old(self),
                folders == folder_views(self.folders@),
                parts.deep_view() == path::components(dir@),
                folder_at(folders, dir@) == i + folder_at(folders.skip(i as int), dir@),
            decreases self.folders@.len() - i,
        {
            assert(folders.skip(i as int).drop_first() =~= folders.skip(i + 1));
            assert(folders.skip(i as int)[0] == self.folders@[i as int]@);
            if same_parts(&self.folders[i].path.components(), &parts) {
                let ghost were = self.folders@;
                self.folders.remove(i);
                assert(folder_views(self.folders@) =~= folder_views(were).remove(i as int));
                self.queue.remove_under(dir);
                return true;
            }
            i = i + 1;
        }
        false
    }
}

/// Whether no added folder lies inside another root: neither inside the music folder
/// nor inside another of them.
pub open spec fn apart(music: Option<Seq<u8>>, folders: Seq<FolderModel>) -> bool {
    &&& forall|i: int, j: int|
        0 <= i < folders.len() && 0 <= j < folders.len() && i != j ==> !path::under(
            (#[trigger] folders[i]).path,
            (#[trigger] folders[j]).path,
        )
    &&& music matches Some(dir) ==> forall|i: int|
        0 <= i < folders.len() ==> !path::under((#[trigger] folders[i]).path, dir)
}

proof fn outside_stays_apart(music: Option<Seq<u8>>, folders: Seq<FolderModel>, dir: Seq<u8>)
    requires
        apart(music, folders),
    ensures
        apart(music, outside(folders, dir)),
        forall|i: int|
            0 <= i < outside(folders, dir).len() ==> folders.contains(
                #[trigger] outside(folders, dir)[i],
            ) && !path::under(outside(folders, dir)[i].path, dir),
    decreases folders.len(),
{
    reveal(Seq::filter);
    if folders.len() > 0 {
        let front = folders.drop_last();
        assert(apart(music, front)) by {
            assert forall|i: int, j: int|
                0 <= i < front.len() && 0 <= j < front.len() && i != j implies !path::under(
                (#[trigger] front[i]).path,
                (#[trigger] front[j]).path,
            ) by {
                assert(front[i] == folders[i] && front[j] == folders[j]);
            }
            if let Some(dir) = music {
                assert forall|i: int| 0 <= i < front.len() implies !path::under(
                    (#[trigger] front[i]).path,
                    dir,
                ) by {
                    assert(front[i] == folders[i]);
                }
            }
        }
        outside_stays_apart(music, front, dir);
        let kept = outside(front, dir);
        let now = outside(folders, dir);
        let last = folders.len() - 1;
        assert forall|i: int| 0 <= i < now.len() implies folders.contains(#[trigger] now[i])
            && !path::under(now[i].path, dir) by {
            if i < kept.len() {
                assert(now[i] == kept[i]);
                assert(front.contains(kept[i]));
                let k = choose|k: int| 0 <= k < front.len() && front[k] == kept[i];
                assert(folders[k] == now[i]);
            } else {
                assert(folders[last] == now[i]);
            }
        }
        assert forall|i: int, j: int|
            0 <= i < now.len() && 0 <= j < now.len() && i != j implies !path::under(
            (#[trigger] now[i]).path,
            (#[trigger] now[j]).path,
        ) by {
            if i < kept.len() && j < kept.len() {
                assert(now[i] == kept[i] && now[j] == kept[j]);
            } else {
                let e = if i < kept.len() { i } else { j };
                assert(now[e] == kept[e]);
                assert(front.contains(kept[e]));
                let k = choose|k: int| 0 <= k < front.len() && front[k] == kept[e];
                assert(folders[k] == now[e]);
                assert(!path::under(folders[k].path, folders[last].path));
                assert(!path::under(folders[last].path, folders[k].path));
            }
        }
        if let Some(music_dir) = music {
            assert forall|i: int| 0 <= i < now.len() implies !path::under(
                (#[trigger] now[i]).path,
                music_dir,
            ) by {
                assert(folders.contains(now[i]));
            }
        }
    }
}

/// Choosing folders never makes one root lie inside another that was added, and the
/// music folder, which may come to lie inside one, is never given up for it.
pub proof fn roots_stay_apart(
    music: Option<Seq<u8>>,
    folders: Seq<FolderModel>,
    dirs: Seq<Seq<u8>>,
)
    requires
        apart(music, folders),
    ensures
        apart(music, folders_after(music, folders, dirs)),
        music matches Some(m) ==> roots_of(music, folders_after(music, folders, dirs))[0] == m,
    decreases dirs.len(),
{
    if dirs.len() > 0 {
        roots_stay_apart(music, folders, dirs.drop_last());
        let before = folders_after(music, folders, dirs.drop_last());
        let dir = dirs.last();
        if joins(music, before, dir) {
            outside_stays_apart(music, before, dir);
            let kept = outside(before, dir);
            let now = kept.push(reachable(dir));
            let roots = roots_of(music, before);
            let first = match music {
                Some(_) => 1int,
                None => 0,
            };
            assert forall|k: int| 0 <= k < before.len() implies !path::under(
                dir,
                (#[trigger] before[k]).path,
            ) by {
                assert(roots[first + k] == before[k].path);
            }
            assert forall|i: int, j: int|
                0 <= i < now.len() && 0 <= j < now.len() && i != j implies !path::under(
                (#[trigger] now[i]).path,
                (#[trigger] now[j]).path,
            ) by {
                if i < kept.len() && j < kept.len() {
                    assert(now[i] == kept[i] && now[j] == kept[j]);
                } else if i < kept.len() {
                    assert(now[i] == kept[i]);
                } else {
                    assert(now[j] == kept[j]);
                    assert(before.contains(kept[j]));
                }
            }
            if let Some(music_dir) = music {
                assert(roots[0] == music_dir);
                assert forall|i: int| 0 <= i < now.len() implies !path::under(
                    (#[trigger] now[i]).path,
                    music_dir,
                ) by {
                    if i < kept.len() {
                        assert(now[i] == kept[i]);
                    }
                }
            }
        } else {
            assert(path::under_any(dir, roots_of(music, before)));
        }
    }
}

/// What is new among scanned files: those that are not in the queue, in order, each
/// place once.
pub open spec fn new_files(files: Seq<Seq<u8>>, known: Seq<Seq<u8>>) -> Seq<Seq<u8>> {
    order::deduped(order::in_order(files.filter(|p: Seq<u8>| !path::among(p, known))))
}

/// What is to be loaded of some files: in order, each place once, without those that
/// are in the queue.
pub open spec fn files_to_load(files: Seq<Seq<u8>>, known: Seq<Seq<u8>>) -> Seq<Seq<u8>> {
    order::deduped(order::in_order(files)).filter(|p: Seq<u8>| !path::among(p, known))
}

/// Appends copies of paths.
fn append_paths(to: &mut Vec<FilePath>, more: &Vec<FilePath>)
    ensures
        path::views(final(to)@) == path::views(old(to)@) + path::views(more@),
{
    let ghost before = to@;
    let mut copies = clone_paths(more.as_slice());
    let ghost added = copies@;
    to.append(&mut copies);
    assert(path::views(before + added) =~= path::views(before) + path::views(added));
}

/// Takes note of what a scan says about a folder.
fn note(folders: &mut Vec<Folder>, root: &FilePath, complete: bool)
    ensures
        folder_views(final(folders)@) == noted(folder_views(old(folders)@), root@, complete),
        final(folders)@.len() == old(folders)@.len(),
{
    let ghost all = folder_views(folders@);
    let parts = root.components();
    let mut i: usize = 0;
    assert(all.skip(0) =~= all);
    assert(all.take(0) + noted(all, root@, complete) =~= noted(all, root@, complete));
    while i < folders.len()
        invariant
            i <= folders@.len(),
            all == folder_views(folders@),
            all == folder_views(old(folders)@),
            parts.deep_view() == path::components(root@),
            noted(all, root@, complete) == all.take(i as int) + noted(
                all.skip(i as int),
                root@,
                complete,
            ),
        decreases folders@.len() - i,
    {
        let ghost rest = all.skip(i as int);
        assert(rest.drop_first() =~= all.skip(i + 1));
        assert(rest[0] == folders@[i as int]@);
        if same_parts(&folders[i].path.components(), &parts) {
            let updated = Folder { path: folders[i].path.clone(), available: complete };
            let ghost view = updated@;
            folders.set(i, updated);
            assert(folder_views(folders@) =~= all.update(i as int, view));
            assert(all.update(i as int, view) =~= all.take(i as int) + (seq![view] + all.skip(
                i + 1,
            )));
            return;
        }
        assert(all.take(i + 1) =~= all.take(i as int).push(rest[0]));
        assert(all.take(i as int) + (seq![rest[0]] + noted(all.skip(i + 1), root@, complete))
            =~= all.take(i + 1) + noted(all.skip(i + 1), root@, complete));
        i = i + 1;
    }
    assert(all.skip(all.len() as int) =~= seq![]);
    assert(all.take(all.len() as int) =~= all);
}

impl PlayerView {
    /// Merges a fresh scan of every root into the queue, and hands back the files
    /// that are new, for loading.
    ///
    /// Only the roots whose scan can be believed get to prune, and they prune against
    /// everything those scans saw: a file that moved between two roots is still in
    /// the library. New files come from every scan, complete or not: a folder that is
    /// only half readable still has music in it.
    pub fn library_changed(&mut self, scans: &[Scan]) -> (added: Vec<FilePath>)
        ensures
            PlayerView::merges(*old(self), scans@, *final(self), path::views(added@)),
    {
        let ghost before = *self;
        let ghost start = folder_views(self.folders@);
        let mut roots: Vec<FilePath> = Vec::new();
        let mut found: Vec<FilePath> = Vec::new();
        let mut files: Vec<FilePath> = Vec::new();
        let mut i: usize = 0;
        proof {
            assert(path::views(roots@) =~= believed_roots(scans@.take(0)));
            assert(path::views(found@) =~= seen(scans@.take(0), true));
            assert(path::views(files@) =~= seen(scans@.take(0), false));
        }
        while i < scans.len()
            invariant
                i <= scans@.len(),
                *self == (PlayerView { folders: self.folders, ..before }),
                folder_views(self.folders@) == all_noted(start, scans@.take(i as int)),
                path::views(roots@) == believed_roots(scans@.take(i as int)),
                path::views(found@) == seen(scans@.take(i as int), true),
                path::views(files@) == seen(scans@.take(i as int), false),
            decreases scans@.len() - i,
        {
            proof {
                assert(scans@.take(i + 1).drop_last() =~= scans@.take(i as int));
                assert(scans@.take(i + 1).last() == scans@[i as int]);
            }
            let scan = &scans[i];
            note(&mut self.folders, &scan.root, scan.complete);
            append_paths(&mut files, &scan.files);
            if scan.complete {
                let ghost were = roots@;
                roots.push(scan.root.clone());
                assert(path::views(roots@) =~= path::views(were).push(scan.root@));
                append_paths(&mut found, &scan.files);
            }
            i = i + 1;
        }
        assert(scans@.take(scans@.len() as int) =~= scans@);
        self.queue.retain_scanned(roots.as_slice(), found.as_slice());
        let fresh = self.queue.unknown_paths(files);
        order::dedup(order::sort(fresh))
    }

    /// What is to be loaded of files that were gathered.
    pub fn to_load(&self, files: Vec<FilePath>) -> (r: Vec<FilePath>)
        ensures
            path::views(r@) == files_to_load(path::views(files@), self.queue.places()),
    {
        self.queue.unknown_paths(order::dedup(order::sort(files)))
    }
}

/// What is new after a scan comes in order, leads to no place twice, and to none that
/// the queue has; and every file that was seen is in the queue or among what is new.
pub proof fn nothing_is_queued_twice(files: Seq<Seq<u8>>, known: Seq<Seq<u8>>)
    ensures
        order::sorted(new_files(files, known)),
        forall|i: int, j: int|
            0 <= i < j < new_files(files, known).len() ==> !path::same_place(
                #[trigger] new_files(files, known)[i],
                #[trigger] new_files(files, known)[j],
            ),
        forall|i: int|
            0 <= i < new_files(files, known).len() ==> !path::among(
                #[trigger] new_files(files, known)[i],
                known,
            ),
        forall|i: int|
            0 <= i < files.len() ==> path::among(#[trigger] files[i], known) || path::among(
                files[i],
                new_files(files, known),
            ),
{
    broadcast use vstd::seq_lib::group_filter_ensures;

    let unknown = |p: Seq<u8>| !path::among(p, known);
    let fresh = files.filter(unknown);
    let sorted = order::in_order(fresh);
    let out = new_files(files, known);
    order::in_order_sorts(fresh);
    order::deduped_is_distinct(sorted);
    assert forall|p: Seq<u8>| sorted.contains(p) <==> fresh.contains(p) by {
        broadcast use vstd::seq_lib::group_to_multiset_ensures;

        assert(sorted.contains(p) <==> sorted.to_multiset().count(p) > 0);
        assert(fresh.contains(p) <==> fresh.to_multiset().count(p) > 0);
    }
    assert forall|i: int| 0 <= i < out.len() implies !path::among(#[trigger] out[i], known) by {
        assert(sorted.contains(out[i]));
        assert(fresh.contains(out[i]));
        let k = choose|k: int| 0 <= k < fresh.len() && fresh[k] == out[i];
        assert(unknown(fresh[k]));
    }
    assert forall|i: int| 0 <= i < files.len() implies path::among(#[trigger] files[i], known)
        || path::among(files[i], out) by {
        if !path::among(files[i], known) {
            assert(unknown(files[i]));
            assert(fresh.contains(files[i]));
            assert(sorted.contains(files[i]));
            let k = choose|k: int| 0 <= k < sorted.len() && sorted[k] == files[i];
            assert(path::among(sorted[k], out));
        }
    }
}

/// A folder that is chosen is in the library afterwards, either as a root of its own or
/// inside one.
pub proof fn a_chosen_folder_is_covered(
    music: Option<Seq<u8>>,
    folders: Seq<FolderModel>,
    dirs: Seq<Seq<u8>>,
)
    requires
        dirs.len() > 0,
    ensures
        path::under_any(dirs.last(), roots_of(music, folders_after(music, folders, dirs))),
{
    let before = folders_after(music, folders, dirs.drop_last());
    let now = folders_after(music, folders, dirs);
    let roots = roots_of(music, now);
    if joins(music, before, dirs.last()) {
        path::under_is_an_order(dirs.last(), dirs.last(), dirs.last());
        assert(roots[roots.len() - 1] == dirs.last());
        assert(path::under(dirs.last(), roots[roots.len() - 1]));
    }
}

/// Choosing a folder a second time changes nothing.
pub proof fn choosing_twice_is_choosing_once(
    music: Option<Seq<u8>>,
    folders: Seq<FolderModel>,
    dir: Seq<u8>,
)
    ensures
        folders_after(music, folders, seq![dir, dir]) == folders_after(music, folders, seq![dir]),
{
    assert(seq![dir, dir].drop_last() =~= seq![dir]);
    a_chosen_folder_is_covered(music, folders, seq![dir]);
}

/// A scan of a root says whether the first folder at its place can be reached, and says
/// nothing about any other.
pub proof fn a_scan_speaks_of_its_own_folder(
    folders: Seq<FolderModel>,
    root: Seq<u8>,
    complete: bool,
    i: int,
)
    requires
        0 <= i <= folders.len(),
        forall|j: int| 0 <= j < i ==> !path::same_place((#[trigger] folders[j]).path, root),
        i < folders.len() ==> path::same_place(folders[i].path, root),
    ensures
        i < folders.len() ==> noted(folders, root, complete) == folders.update(
            i,
            FolderModel { path: folders[i].path, available: complete },
        ),
        i == folders.len() ==> noted(folders, root, complete) == folders,
    decreases folders.len(),
{
    if folders.len() > 0 {
        let rest = folders.drop_first();
        if i > 0 {
            assert(!path::same_place(folders[0].path, root));
            assert forall|j: int| 0 <= j < i - 1 implies !path::same_place(
                (#[trigger] rest[j]).path,
                root,
            ) by {
                assert(rest[j] == folders[j + 1]);
            }
            a_scan_speaks_of_its_own_folder(rest, root, complete, i - 1);
        }
        if i < folders.len() {
            assert(noted(folders, root, complete) =~= folders.update(
                i,
                FolderModel { path: folders[i].path, available: complete },
            ));
        } else {
            assert(noted(folders, root, complete) =~= folders);
        }
    }
}

/// However many scans there are, the folders stay where they are and in their order, and
/// the last scan of a folder's root says whether it can be reached; one that was not
/// scanned is as reachable as it was.
pub proof fn the_last_scan_of_a_folder_counts(
    folders: Seq<FolderModel>,
    scans: Seq<Scan>,
    i: int,
    k: int,
)
    requires
        0 <= i < folders.len(),
        forall|j: int|
            0 <= j < folders.len() && j != i ==> !path::same_place(
                (#[trigger] folders[j]).path,
                folders[i].path,
            ),
        -1 <= k < scans.len(),
        k >= 0 ==> path::same_place(folders[i].path, scans[k].root@),
        forall|m: int|
            k < m < scans.len() ==> !path::same_place(folders[i].path, (#[trigger] scans[m]).root@),
    ensures
        all_noted(folders, scans).len() == folders.len(),
        forall|j: int|
            0 <= j < folders.len() ==> (#[trigger] all_noted(folders, scans)[j]).path
                == folders[j].path,
        k >= 0 ==> all_noted(folders, scans)[i].available == scans[k].complete,
        k < 0 ==> all_noted(folders, scans)[i].available == folders[i].available,
    decreases scans.len(),
{
    if scans.len() > 0 {
        let front = scans.drop_last();
        let s = scans.last();
        if k == scans.len() - 1 {
            let m = last_scan_of(front, folders[i].path);
            the_last_scan_of_a_folder_counts(folders, front, i, m);
        } else {
            assert forall|m: int| k < m < front.len() implies !path::same_place(
                folders[i].path,
                (#[trigger] front[m]).root@,
            ) by {
                assert(front[m] == scans[m]);
            }
            the_last_scan_of_a_folder_counts(folders, front, i, k);
            assert(!path::same_place(folders[i].path, scans[scans.len() - 1].root@));
        }
        let before = all_noted(folders, front);
        let f = folder_at(before, s.root@);
        folder_at_is_first(before, s.root@);
        a_scan_speaks_of_its_own_folder(before, s.root@, s.complete, f);
        if k == scans.len() - 1 {
            assert(before[i].path == folders[i].path);
            if f < i {
                assert(before[f].path == folders[f].path);
                assert(path::same_place(folders[f].path, folders[i].path));
            }
            assert(f == i);
        } else if f < before.len() {
            assert(before[f].path == folders[f].path);
            assert(f != i);
        }
    }
}

/// The last scan of a root, or -1.
proof fn last_scan_of(scans: Seq<Scan>, root: Seq<u8>) -> (k: int)
    ensures
        -1 <= k < scans.len(),
        k >= 0 ==> path::same_place(root, scans[k].root@),
        forall|m: int| k < m < scans.len() ==> !path::same_place(root, (#[trigger] scans[m]).root@),
    decreases scans.len(),
{
    if scans.len() == 0 {
        -1
    } else if path::same_place(root, scans.last().root@) {
        scans.len() - 1
    } else {
        let front = scans.drop_last();
        let k = last_scan_of(front, root);
        assert forall|m: int| k < m < scans.len() implies !path::same_place(
            root,
            (#[trigger] scans[m]).root@,
        ) by {
            if m < front.len() {
                assert(front[m] == scans[m]);
            }
        }
        k
    }
}

/// The first folder at a place is the first one there.
pub proof fn folder_at_is_first(folders: Seq<FolderModel>, dir: Seq<u8>)
    ensures
        0 <= folder_at(folders, dir) <= folders.len(),
        forall|j: int|
            0 <= j < folder_at(folders, dir) ==> !path::same_place((#[trigger] folders[j]).path, dir),
        folder_at(folders, dir) < folders.len() ==> path::same_place(
            folders[folder_at(folders, dir)].path,
            dir,
        ),
    decreases folders.len(),
{
    if folders.len() > 0 && !path::same_place(folders[0].path, dir) {
        let rest = folders.drop_first();
        folder_at_is_first(rest, dir);
        assert forall|j: int| 0 <= j < folder_at(folders, dir) implies !path::same_place(
            (#[trigger] folders[j]).path,
            dir,
        ) by {
            if j > 0 {
                assert(folders[j] == rest[j - 1]);
            }
        }
    }
}

/// The roots that may prune are exactly those of the scans that are complete.
pub proof fn only_complete_scans_are_believed(scans: Seq<Scan>, root: Seq<u8>)
    ensures
        believed_roots(scans).contains(root) <==> exists|i: int|
            0 <= i < scans.len() && (#[trigger] scans[i]).complete && scans[i].root@ == root,
    decreases scans.len(),
{
    if scans.len() > 0 {
        let front = scans.drop_last();
        only_complete_scans_are_believed(front, root);
        let (before, now) = (believed_roots(front), believed_roots(scans));
        if now.contains(root) && !before.contains(root) {
            assert(scans[scans.len() - 1].root@ == root);
        }
        if before.contains(root) {
            let i = choose|i: int|
                0 <= i < front.len() && (#[trigger] front[i]).complete && front[i].root@ == root;
            assert(scans[i] == front[i]);
            let j = choose|j: int| 0 <= j < before.len() && before[j] == root;
            assert(now[j] == root);
        }
        if exists|i: int|
            0 <= i < scans.len() && (#[trigger] scans[i]).complete && scans[i].root@ == root {
            let i = choose|i: int|
                0 <= i < scans.len() && (#[trigger] scans[i]).complete && scans[i].root@ == root;
            if i < front.len() {
                assert(front[i] == scans[i]);
            } else {
                assert(now[before.len() as int] == root);
            }
        }
    }
}

/// What the scans saw is exactly the files of all of them, and what can be believed of it
/// exactly those of the complete ones.
pub proof fn what_was_seen_is_in_some_scan(scans: Seq<Scan>, believed: bool, file: Seq<u8>)
    ensures
        seen(scans, believed).contains(file) <==> exists|i: int|
            0 <= i < scans.len() && (!believed || (#[trigger] scans[i]).complete) && path::views(
                scans[i].files@,
            ).contains(file),
    decreases scans.len(),
{
    if scans.len() > 0 {
        let front = scans.drop_last();
        what_was_seen_is_in_some_scan(front, believed, file);
        let (before, now) = (seen(front, believed), seen(scans, believed));
        let last = path::views(scans.last().files@);
        if now.contains(file) {
            let j = choose|j: int| 0 <= j < now.len() && now[j] == file;
            if j < before.len() {
                assert(before[j] == file);
                let i = choose|i: int|
                    0 <= i < front.len() && (!believed || (#[trigger] front[i]).complete)
                        && path::views(front[i].files@).contains(file);
                assert(scans[i] == front[i]);
            } else {
                assert(last[j - before.len()] == file);
                assert(scans[scans.len() - 1] == scans.last());
            }
        }
        if exists|i: int|
            0 <= i < scans.len() && (!believed || (#[trigger] scans[i]).complete) && path::views(
                scans[i].files@,
            ).contains(file) {
            let i = choose|i: int|
                0 <= i < scans.len() && (!believed || (#[trigger] scans[i]).complete) && path::views(
                    scans[i].files@,
                ).contains(file);
            if i < front.len() {
                assert(front[i] == scans[i]);
                let j = choose|j: int| 0 <= j < before.len() && before[j] == file;
                assert(now[j] == file);
            } else {
                let j = choose|j: int| 0 <= j < last.len() && last[j] == file;
                assert(now[before.len() + j] == file);
            }
        }
    }
}

/// What is new was seen, and what is to be loaded is among the files it was picked from:
/// in order, each place once, none that the queue has, and none left out.
pub proof fn what_is_loaded_was_there(files: Seq<Seq<u8>>, known: Seq<Seq<u8>>, i: int)
    ensures
        0 <= i < new_files(files, known).len() ==> files.contains(new_files(files, known)[i]),
        0 <= i < files_to_load(files, known).len() ==> files.contains(files_to_load(files, known)[i])
            && !path::among(files_to_load(files, known)[i], known),
        0 <= i < files.len() && !path::among(files[i], known) ==> path::among(
            files[i],
            files_to_load(files, known),
        ),
{
    broadcast use vstd::seq_lib::group_filter_ensures;

    let unknown = |p: Seq<u8>| !path::among(p, known);
    let fresh = files.filter(unknown);
    order::in_order_sorts(fresh);
    order::deduped_is_distinct(order::in_order(fresh));
    same_entries(order::in_order(fresh), fresh);
    if 0 <= i < new_files(files, known).len() {
        let p = new_files(files, known)[i];
        assert(order::in_order(fresh).contains(p));
        assert(fresh.contains(p));
        what_was_filtered_was_there(files, unknown, p);
    }
    let sorted = order::in_order(files);
    order::in_order_sorts(files);
    order::deduped_is_distinct(sorted);
    same_entries(sorted, files);
    let distinct = order::deduped(sorted);
    let out = files_to_load(files, known);
    if 0 <= i < out.len() {
        assert(out.contains(out[i]));
        what_was_filtered_was_there(distinct, unknown, out[i]);
        let k = choose|k: int| 0 <= k < distinct.len() && distinct[k] == out[i];
        assert(sorted.contains(distinct[k]));
        assert(files.contains(out[i]));
    }
    if 0 <= i < files.len() && !path::among(files[i], known) {
        assert(files.contains(files[i]));
        assert(sorted.contains(files[i]));
        let m = choose|m: int| 0 <= m < sorted.len() && sorted[m] == files[i];
        assert(path::among(sorted[m], distinct));
        let k = choose|k: int| 0 <= k < distinct.len() && path::same_place(files[i], distinct[k]);
        assert(unknown(distinct[k])) by {
            if path::among(distinct[k], known) {
                let n = choose|n: int|
                    0 <= n < known.len() && path::same_place(distinct[k], #[trigger] known[n]);
                assert(path::same_place(files[i], known[n]));
            }
        }
        assert(out.contains(distinct[k]));
        let n = choose|n: int| 0 <= n < out.len() && out[n] == distinct[k];
        assert(path::same_place(files[i], out[n]));
    }
}

proof fn what_was_filtered_was_there(s: Seq<Seq<u8>>, keep: spec_fn(Seq<u8>) -> bool, p: Seq<u8>)
    requires
        s.filter(keep).contains(p),
    ensures
        s.contains(p),
        keep(p),
    decreases s.len(),
{
    reveal(Seq::filter);
    if s.len() > 0 {
        let front = s.drop_last();
        let k = choose|k: int| 0 <= k < s.filter(keep).len() && s.filter(keep)[k] == p;
        if k < front.filter(keep).len() {
            assert(front.filter(keep)[k] == p);
            what_was_filtered_was_there(front, keep, p);
            let m = choose|m: int| 0 <= m < front.len() && front[m] == p;
            assert(s[m] == p);
        } else {
            assert(s[s.len() - 1] == p);
        }
    }
}

proof fn same_entries(a: Seq<Seq<u8>>, b: Seq<Seq<u8>>)
    requires
        a.to_multiset() == b.to_multiset(),
    ensures
        forall|p: Seq<u8>| #[trigger] a.contains(p) <==> b.contains(p),
{
    broadcast use vstd::seq_lib::group_to_multiset_ensures;

    assert forall|p: Seq<u8>| #[trigger] a.contains(p) <==> b.contains(p) by {
        assert(a.contains(p) <==> a.to_multiset().count(p) > 0);
        assert(b.contains(p) <==> b.to_multiset().count(p) > 0);
    }
}

/// A folder that is chosen and lies under the music folder or under one that was added
/// changes nothing. Any other joins behind those that were added, can be reached, and is
/// watched; those of them that lie under it step aside and are watched no longer, and the
/// others stay as they are, in their order.
pub proof fn a_chosen_folder_joins_or_is_covered(
    music: Option<Seq<u8>>,
    folders: Seq<FolderModel>,
    dir: Seq<u8>,
)
    ensures
        (music is Some && path::under(dir, music->0)) || (exists|i: int|
            0 <= i < folders.len() && path::under(dir, (#[trigger] folders[i]).path)) ==> {
            &&& folders_after(music, folders, seq![dir]) == folders
            &&& superseded_by(music, folders, seq![dir]).len() == 0
            &&& watches_after(music, folders, seq![dir]).len() == 0
        },
        !(music is Some && path::under(dir, music->0)) && (forall|i: int|
            0 <= i < folders.len() ==> !path::under(dir, (#[trigger] folders[i]).path)) ==> {
            let aside = folders.map_values(|f: FolderModel| f.path).filter(
                |p: Seq<u8>| path::under(p, dir),
            );
            &&& folders_after(music, folders, seq![dir]) == folders.filter(
                |f: FolderModel| !path::under(f.path, dir),
            ).push(FolderModel { path: dir, available: true })
            &&& superseded_by(music, folders, seq![dir]) == aside
            &&& watches_after(music, folders, seq![dir]) == aside.map_values(
                |p: Seq<u8>| WatchModel::Stop(p),
            ).push(WatchModel::Start(dir))
        },
{
    let one = seq![dir];
    assert(one.drop_last() =~= seq![]);
    let roots = roots_of(music, folders);
    let first = match music {
        Some(_) => 1int,
        None => 0,
    };
    assert(folders_after(music, folders, one.drop_last()) == folders);
    assert(superseded_by(music, folders, one.drop_last()) == Seq::<Seq<u8>>::empty());
    assert(watches_after(music, folders, one.drop_last()) == Seq::<WatchModel>::empty());
    if music is Some && path::under(dir, music->0) {
        assert(path::under(dir, roots[0]));
    }
    if exists|i: int| 0 <= i < folders.len() && path::under(dir, (#[trigger] folders[i]).path) {
        let i = choose|i: int| 0 <= i < folders.len() && path::under(dir, (#[trigger] folders[i]).path);
        assert(roots[first + i] == folders[i].path);
        assert(path::under(dir, roots[first + i]));
    }
    if !(music is Some && path::under(dir, music->0)) && (forall|i: int|
        0 <= i < folders.len() ==> !path::under(dir, (#[trigger] folders[i]).path)) {
        assert forall|k: int| 0 <= k < roots.len() implies !path::under(dir, #[trigger] roots[k]) by {
            if k >= first {
                assert(roots[k] == folders[k - first].path);
            }
        }
        assert(joins(music, folders, dir));
        let none = Seq::<Seq<u8>>::empty();
        assert(none + inside(model_paths(folders), dir) =~= inside(model_paths(folders), dir));
        let stops = inside(model_paths(folders), dir).map_values(|p: Seq<u8>| WatchModel::Stop(p));
        assert(Seq::<WatchModel>::empty() + stops =~= stops);
    }
}

/// Choosing folders one after the other is choosing the first of them, and then the rest.
pub proof fn folders_are_chosen_one_after_the_other(
    music: Option<Seq<u8>>,
    folders: Seq<FolderModel>,
    dirs: Seq<Seq<u8>>,
    dir: Seq<u8>,
)
    ensures
        folders_after(music, folders, Seq::<Seq<u8>>::empty()) == folders,
        folders_after(music, folders, dirs.push(dir)) == folders_after(
            music,
            folders_after(music, folders, dirs),
            seq![dir],
        ),
        superseded_by(music, folders, dirs.push(dir)) == superseded_by(music, folders, dirs)
            + superseded_by(music, folders_after(music, folders, dirs), seq![dir]),
        watches_after(music, folders, dirs.push(dir)) == watches_after(music, folders, dirs)
            + watches_after(music, folders_after(music, folders, dirs), seq![dir]),
{
    let all = dirs.push(dir);
    let now = folders_after(music, folders, dirs);
    assert(all.drop_last() =~= dirs);
    assert(seq![dir].drop_last() =~= seq![]);
    assert(folders_after(music, now, Seq::<Seq<u8>>::empty()) == now);
    assert(superseded_by(music, now, seq![dir].drop_last()) == Seq::<Seq<u8>>::empty());
    assert(watches_after(music, now, seq![dir].drop_last()) == Seq::<WatchModel>::empty());
    assert(superseded_by(music, folders, all) =~= superseded_by(music, folders, dirs)
        + superseded_by(music, now, seq![dir]));
    assert(watches_after(music, folders, all) =~= watches_after(music, folders, dirs)
        + watches_after(music, now, seq![dir]));
}

/// Scans bring the queue in step with the library. Every file that any of them saw is in
/// the queue or handed back for loading, once, in order, and nothing else is handed back. A
/// track goes exactly when it is not the one that is playing, no complete scan saw a file
/// at its place, and a complete scan's root has it at or below its own. Nothing but the
/// queue and what is known of the folders changes.
pub proof fn scans_bring_the_queue_in_step(
    before: PlayerView,
    scans: Seq<Scan>,
    now: PlayerView,
    added: Seq<Seq<u8>>,
    s: int,
    f: int,
    t: TrackModel,
)
    requires
        PlayerView::merges(before, scans, now, added),
    ensures
        0 <= s < scans.len() && 0 <= f < scans[s].files@.len() ==> (exists|k: int|
            0 <= k < now.queue.tracks@.len() && path::same_place(
                scans[s].files@[f]@,
                (#[trigger] now.queue.tracks@[k]).path@,
            )) || (exists|k: int|
            0 <= k < added.len() && path::same_place(scans[s].files@[f]@, #[trigger] added[k])),
        forall|k: int|
            0 <= k < added.len() ==> (exists|i: int|
                0 <= i < scans.len() && path::views((#[trigger] scans[i]).files@).contains(
                    #[trigger] added[k],
                )),
        order::sorted(added),
        forall|a: int, b: int|
            0 <= a < b < added.len() ==> !path::same_place(#[trigger] added[a], #[trigger] added[b]),
        track::track_views(before.queue.tracks@).contains(t) ==> (track::track_views(
            now.queue.tracks@,
        ).contains(t) <==> (before.queue.current is Some && before.queue.current->0
            < before.queue.tracks@.len() && path::same_place(
            t.path,
            before.queue.tracks@[before.queue.current->0 as int].path@,
        )) || (exists|i: int, k: int|
            0 <= i < scans.len() && (#[trigger] scans[i]).complete && 0 <= k < scans[i].files@.len()
                && path::same_place(t.path, (#[trigger] scans[i].files@[k])@)) || (forall|i: int|
            0 <= i < scans.len() && (#[trigger] scans[i]).complete ==> !path::under(
                t.path,
                scans[i].root@,
            ))),
        now == (PlayerView { folders: now.folders, queue: now.queue, ..before }),
{
    let all = seen(scans, false);
    let known = now.queue.places();
    nothing_is_queued_twice(all, known);
    if 0 <= s < scans.len() && 0 <= f < scans[s].files@.len() {
        let file = scans[s].files@[f]@;
        assert(path::views(scans[s].files@)[f] == file);
        assert(!false || scans[s].complete);
        what_was_seen_is_in_some_scan(scans, false, file);
        let m = choose|m: int| 0 <= m < all.len() && all[m] == file;
        assert(path::among(all[m], known) || path::among(all[m], added));
        if path::among(file, known) {
            let k = choose|k: int| 0 <= k < known.len() && path::same_place(file, #[trigger] known[k]);
            assert(known[k] == now.queue.tracks@[k].path@);
        }
    }
    assert forall|k: int| 0 <= k < added.len() implies (exists|i: int|
        0 <= i < scans.len() && path::views((#[trigger] scans[i]).files@).contains(
            #[trigger] added[k],
        )) by {
        what_is_loaded_was_there(all, known, k);
        what_was_seen_is_in_some_scan(scans, false, added[k]);
        let i = choose|i: int|
            0 <= i < scans.len() && (!false || (#[trigger] scans[i]).complete) && path::views(
                scans[i].files@,
            ).contains(added[k]);
        assert(path::views(scans[i].files@).contains(added[k]));
    }
    let (roots, found) = (believed_roots(scans), seen(scans, true));
    let keep = |t: TrackModel| queue::scan_keeps(t, roots, found);
    let models = before.queue.models();
    let stays = |t: TrackModel| keep(t) || queue::is_playing(t, before.queue.playing());
    if models.contains(t) {
        filtered_iff(models, stays, t);
        let seen_whole = exists|i: int, k: int|
            0 <= i < scans.len() && (#[trigger] scans[i]).complete && 0 <= k < scans[i].files@.len()
                && path::same_place(t.path, (#[trigger] scans[i].files@[k])@);
        let apart = forall|i: int|
            0 <= i < scans.len() && (#[trigger] scans[i]).complete ==> !path::under(
                t.path,
                scans[i].root@,
            );
        assert(path::among(t.path, found) == seen_whole) by {
            if path::among(t.path, found) {
                let m = choose|m: int| 0 <= m < found.len() && path::same_place(
                    t.path,
                    #[trigger] found[m],
                );
                assert(found.contains(found[m]));
                what_was_seen_is_in_some_scan(scans, true, found[m]);
                let i = choose|i: int|
                    0 <= i < scans.len() && (!true || (#[trigger] scans[i]).complete)
                        && path::views(scans[i].files@).contains(found[m]);
                let views = path::views(scans[i].files@);
                let k = choose|k: int| 0 <= k < views.len() && views[k] == found[m];
                assert(scans[i].complete && scans[i].files@[k]@ == found[m]);
            }
            if seen_whole {
                let (i, k) = choose|i: int, k: int|
                    0 <= i < scans.len() && (#[trigger] scans[i]).complete && 0 <= k
                        < scans[i].files@.len() && path::same_place(
                        t.path,
                        (#[trigger] scans[i].files@[k])@,
                    );
                let file = scans[i].files@[k]@;
                assert(path::views(scans[i].files@)[k] == file);
                what_was_seen_is_in_some_scan(scans, true, file);
                let m = choose|m: int| 0 <= m < found.len() && found[m] == file;
                assert(path::same_place(t.path, found[m]));
            }
        }
        assert(!path::under_any(t.path, roots) == apart) by {
            if path::under_any(t.path, roots) {
                let m = choose|m: int| 0 <= m < roots.len() && path::under(t.path, #[trigger] roots[m]);
                assert(roots.contains(roots[m]));
                only_complete_scans_are_believed(scans, roots[m]);
                let i = choose|i: int|
                    0 <= i < scans.len() && (#[trigger] scans[i]).complete && scans[i].root@
                        == roots[m];
                assert(scans[i].complete && path::under(t.path, scans[i].root@));
            }
            if !apart {
                let i = choose|i: int|
                    0 <= i < scans.len() && (#[trigger] scans[i]).complete && path::under(
                        t.path,
                        scans[i].root@,
                    );
                only_complete_scans_are_believed(scans, scans[i].root@);
                let m = choose|m: int| 0 <= m < roots.len() && roots[m] == scans[i].root@;
                assert(path::under(t.path, roots[m]));
            }
        }
    }
}

proof fn filtered_iff(s: Seq<TrackModel>, keep: spec_fn(TrackModel) -> bool, t: TrackModel)
    requires
        s.contains(t),
    ensures
        s.filter(keep).contains(t) <==> keep(t),
    decreases s.len(),
{
    reveal(Seq::filter);
    let front = s.drop_last();
    let all = s.filter(keep);
    if front.contains(t) {
        filtered_iff(front, keep, t);
        if front.filter(keep).contains(t) {
            let k = choose|k: int| 0 <= k < front.filter(keep).len() && front.filter(keep)[k] == t;
            assert(all[k] == t);
        }
        if all.contains(t) && !front.filter(keep).contains(t) {
            let k = choose|k: int| 0 <= k < all.len() && all[k] == t;
            if k < front.filter(keep).len() {
                assert(front.filter(keep)[k] == t);
            }
        }
    } else {
        assert(s.last() == t) by {
            let i = choose|i: int| 0 <= i < s.len() && s[i] == t;
            if i < front.len() {
                assert(front[i] == t);
            }
        }
        if keep(t) {
            assert(all[all.len() - 1] == t);
        } else if all.contains(t) {
            let k = choose|k: int| 0 <= k < all.len() && all[k] == t;
            assert(front.filter(keep)[k] == t);
            filtered_was_there(front, keep, t);
        }
    }
}

proof fn filtered_was_there(s: Seq<TrackModel>, keep: spec_fn(TrackModel) -> bool, t: TrackModel)
    requires
        s.filter(keep).contains(t),
    ensures
        s.contains(t),
        keep(t),
    decreases s.len(),
{
    reveal(Seq::filter);
    if s.len() > 0 {
        let front = s.drop_last();
        let k = choose|k: int| 0 <= k < s.filter(keep).len() && s.filter(keep)[k] == t;
        if k < front.filter(keep).len() {
            assert(front.filter(keep)[k] == t);
            filtered_was_there(front, keep, t);
            let m = choose|m: int| 0 <= m < front.len() && front[m] == t;
            assert(s[m] == t);
        } else {
            assert(s[s.len() - 1] == t);
        }
    }
}

/// Taking a folder out takes out the first one at its place and no other, and exactly the
/// tracks that lie under it and are not playing. Where there is no such folder nothing
/// happens.
pub proof fn a_folder_takes_its_tracks_along(
    before: PlayerView,
    dir: Seq<u8>,
    now: PlayerView,
    found: bool,
    i: int,
    t: TrackModel,
)
    requires
        PlayerView::lets_go(before, dir, now, found),
        0 <= i <= before.folders@.len(),
        forall|j: int| 0 <= j < i ==> !path::same_place((#[trigger] before.folders@[j]).path@, dir),
        i < before.folders@.len() ==> path::same_place(before.folders@[i].path@, dir),
    ensures
        found <==> i < before.folders@.len(),
        i == before.folders@.len() ==> now == before,
        i < before.folders@.len() ==> {
            &&& folder_views(now.folders@) == folder_views(before.folders@).take(i) + folder_views(
                before.folders@,
            ).skip(i + 1)
            &&& track::track_views(before.queue.tracks@).contains(t) ==> (track::track_views(
                now.queue.tracks@,
            ).contains(t) <==> !path::under(t.path, dir) || (before.queue.current is Some
                && before.queue.current->0 < before.queue.tracks@.len() && path::same_place(
                t.path,
                before.queue.tracks@[before.queue.current->0 as int].path@,
            )))
            &&& now == (PlayerView { folders: now.folders, queue: now.queue, ..before })
        },
{
    let folders = folder_views(before.folders@);
    folder_at_is_first(folders, dir);
    let k = folder_at(folders, dir);
    assert forall|j: int| 0 <= j < folders.len() implies (#[trigger] folders[j]).path
        == before.folders@[j].path@ by {}
    if k < i {
        assert(folders[k].path == before.folders@[k].path@);
    } else if i < k {
        assert(folders[i].path == before.folders@[i].path@);
    }
    if i < folders.len() {
        assert(folders.remove(i) =~= folders.take(i) + folders.skip(i + 1));
        let keep = |t: TrackModel| !path::under(t.path, dir);
        let stays = |t: TrackModel| keep(t) || queue::is_playing(t, before.queue.playing());
        if before.queue.models().contains(t) {
            filtered_iff(before.queue.models(), stays, t);
        }
    }
}

/// Choosing folders takes from the queue exactly the tracks under those that step aside,
/// but for the one that is playing; where none steps aside it stays as it is. Nothing but
/// the folders and the queue changes.
pub proof fn only_what_steps_aside_leaves_the_queue(
    before: PlayerView,
    chosen: Seq<Seq<u8>>,
    now: PlayerView,
    changes: Seq<WatchModel>,
    music: Option<Seq<u8>>,
    aside: Seq<Seq<u8>>,
    t: TrackModel,
)
    requires
        PlayerView::takes_in(before, chosen, now, changes),
        before.music_dir is Some ==> music == Some(before.music_dir->0@),
        before.music_dir is None ==> music is None,
        aside == superseded_by(music, folder_views(before.folders@), chosen),
    ensures
        folder_views(now.folders@) == folders_after(music, folder_views(before.folders@), chosen),
        changes == watches_after(music, folder_views(before.folders@), chosen),
        aside.len() == 0 ==> now.queue == before.queue,
        aside.len() > 0 && track::track_views(before.queue.tracks@).contains(t) ==> (
        track::track_views(now.queue.tracks@).contains(t) <==> (forall|k: int|
            0 <= k < aside.len() ==> !path::under(t.path, #[trigger] aside[k])) || (
        before.queue.current is Some && before.queue.current->0 < before.queue.tracks@.len()
            && path::same_place(
            t.path,
            before.queue.tracks@[before.queue.current->0 as int].path@,
        ))),
        now == (PlayerView { folders: now.folders, queue: now.queue, ..before }),
{
    let folders = folder_views(before.folders@);
    assert(music == place(before.music_dir));
    if aside.len() > 0 && before.queue.models().contains(t) {
        let keep = |t: TrackModel| !path::under_any(t.path, superseded_by(music, folders, chosen));
        let stays = |t: TrackModel| keep(t) || queue::is_playing(t, before.queue.playing());
        filtered_iff(before.queue.models(), stays, t);
        assert(now.queue.models() == before.queue.models().filter(stays));
        assert(keep(t) == (forall|k: int|
            0 <= k < aside.len() ==> !path::under(t.path, #[trigger] aside[k])));
    }
}

/// The library is looked at again when something came, went or changed, and not when only
/// something about a file did.
pub proof fn these_events_concern_the_library(kind: EventKind)
    ensures
        kind is Create || kind is Remove || kind is Modify ==> concerns_library(kind),
        kind is Metadata || kind is Other ==> !concerns_library(kind),
{
}

/// The watch looks for changes every seven tenths of a second, and lets them settle for
/// eight.
pub proof fn the_watch_rests_this_long()
    ensures
        Watching::Waiting.rests() == 700,
        Watching::Settling.rests() == 800,
{
}

/// A folder that lies at or below a root is covered already. Any other is adopted, and the
/// removable folders at or below it step aside: those and no others, in order.
pub proof fn a_folder_below_a_root_is_covered(
    dir: Seq<u8>,
    roots: Seq<Seq<u8>>,
    removable: Seq<Seq<u8>>,
    r: Adopt,
)
    requires
        adopts(dir, roots, removable, r),
    ensures
        r is Covered <==> exists|i: int|
            0 <= i < roots.len() && path::under(dir, #[trigger] roots[i]),
        r matches Adopt::Adopted { superseded } ==> path::views(superseded@) == removable.filter(
            |p: Seq<u8>| path::under(p, dir),
        ),
{
}

} // verus!
