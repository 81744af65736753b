//! Finding a cover for the track that is playing, and as a last resort its right
//! names: what to try, in which order, and what becomes of the answer.
//!
//! Three things can be tried. The file's own picture, when the scan saw one. The
//! album's cover by artist and title, when the tags name real ones; each album is
//! tried once. And the sound itself, when the tags are no use or nobody knows the
//! album by them; each file is tried once.

use crate::artwork;
use crate::artwork::key;
use crate::fingerprint;
use crate::fingerprint::{IdModel, Identification};
use crate::id_cache;
use crate::path;
use crate::path::{same_parts, FilePath};
use crate::queue;
use crate::queue::Queue;
use crate::sets::{KeySet, PathSet};
use crate::text::same_text;
use crate::track;
use crate::track::{Chapter, ChapterModel, Track, TrackModel, UNKNOWN_ALBUM, UNKNOWN_ARTIST};
use vstd::prelude::*;

verus! {

/// What to try for a track.
pub struct CoverPlan {
    pub path: FilePath,
    pub artist: String,
    pub album: String,
    /// The name of the album's cover, when the tags name a real album.
    pub album_key: Option<String>,
    /// Look for a picture in the file.
    pub run_embedded: bool,
    /// Ask for the album's cover.
    pub run_itunes: bool,
    /// Go by the sound without asking for an album first.
    pub run_fingerprint: bool,
    /// Going by the sound is possible at all.
    pub fp_enabled: bool,
}

/// What to do next.
pub enum Step {
    /// Look for a picture in the file.
    Embedded,
    /// Ask for the album's cover.
    Itunes,
    /// Go by the sound.
    Identify,
    Done(Outcome),
}

/// What was found.
pub enum Outcome {
    /// A picture out of the file itself, for that one track. The album was never
    /// asked about, so its name is given back: another track of it, without a
    /// picture of its own, still has to ask.
    TrackCover { path: FilePath, image: u64, release: Option<String> },
    /// A cover for every track of an album.
    AlbumCover { key: String, image: u64 },
    /// The identity of one file.
    Identified { path: FilePath, id: Identification, cover: Option<u64> },
    /// Asking about the album failed in passing: it may be tried again.
    RetryAlbum { key: String },
    /// Going by the sound came to nothing: it may be tried again.
    RetryPath { path: FilePath },
    Nothing,
}

/// Whether a track's tags name a real artist and a real album.
pub open spec fn tags_known(t: TrackModel) -> bool {
    t.artist != UNKNOWN_ARTIST@ && t.album != UNKNOWN_ALBUM@
}

/// The name of a track's album cover, when its tags name a real album.
pub open spec fn album_key_of(t: TrackModel) -> Option<Seq<char>> {
    if tags_known(t) {
        Some(artwork::cover_key(t.artist, t.album))
    } else {
        None
    }
}

/// Whether a plan is the one for a track, given what was tried before.
pub open spec fn plan_of(
    plan: CoverPlan,
    t: TrackModel,
    fp_enabled: bool,
    keys: Set<Seq<char>>,
    tried: bool,
) -> bool {
    &&& plan.path@ == t.path
    &&& plan.artist@ == t.artist
    &&& plan.album@ == t.album
    &&& plan.album_key.deep_view() == album_key_of(t)
    &&& plan.run_embedded == t.has_art
    &&& plan.run_itunes == asks_itunes(t, keys)
    &&& plan.run_fingerprint == listens(t, fp_enabled, tried)
    &&& plan.fp_enabled == fp_enabled
}

/// Whether the album is asked about: it is a real one that was not tried before.
pub open spec fn asks_itunes(t: TrackModel, keys: Set<Seq<char>>) -> bool {
    tags_known(t) && !keys.contains(artwork::cover_key(t.artist, t.album))
}

/// Whether the sound is gone by straight away: there is no album to ask about, and
/// the file was not tried before.
pub open spec fn listens(t: TrackModel, fp_enabled: bool, tried: bool) -> bool {
    !tags_known(t) && fp_enabled && !tried
}

/// What planning for a track does, given what was tried before.
pub open spec fn plans(
    t: TrackModel,
    fp_enabled: bool,
    keys: Set<Seq<char>>,
    paths: PathSet,
    keys_now: Set<Seq<char>>,
    paths_now: PathSet,
    r: Option<CoverPlan>,
) -> bool {
    &&& t.art is Some ==> {
        &&& r is None
        &&& keys_now == keys
        &&& paths_now == paths
    }
    &&& t.art is None ==> {
        let tried = paths.has(t.path);
        &&& r is Some <==> (t.has_art || asks_itunes(t, keys) || listens(
            t,
            fp_enabled,
            tried,
        ))
        &&& r matches Some(plan) ==> plan_of(plan, t, fp_enabled, keys, tried)
        &&& keys_now == (if tags_known(t) {
            keys.insert(artwork::cover_key(t.artist, t.album))
        } else {
            keys
        })
        &&& forall|q: Seq<u8>| #[trigger]
            paths_now.has(q) <==> (paths.has(q) || (!tags_known(t) && fp_enabled
                && path::same_place(q, t.path)))
    }
}

/// Plans what to try for a track, and takes note that it is tried. `None` when there
/// is nothing to do: it has a cover, or everything was tried.
pub fn plan(t: &Track, fp_enabled: bool, keys: &mut KeySet, paths: &mut PathSet) -> (r: Option<
    CoverPlan,
>)
    ensures
        plans(t@, fp_enabled, old(keys)@, *old(paths), final(keys)@, *final(paths), r),
{
    if t.art.is_some() {
        return None;
    }
    let tag_known = !same_text(t.artist.as_str(), UNKNOWN_ARTIST) && !same_text(
        t.album.as_str(),
        UNKNOWN_ALBUM,
    );
    let mut album_key: Option<String> = None;
    let mut run_itunes = false;
    let mut run_fingerprint = false;
    if tag_known {
        let name = key(t.artist.as_str(), t.album.as_str());
        run_itunes = keys.insert(name.as_str());
        album_key = Some(name);
    } else if fp_enabled {
        run_fingerprint = paths.insert(&t.path);
    }
    if !t.has_art && !run_itunes && !run_fingerprint {
        return None;
    }
    Some(
        CoverPlan {
            path: t.path.clone(),
            artist: t.artist.clone(),
            album: t.album.clone(),
            album_key,
            run_embedded: t.has_art,
            run_itunes,
            run_fingerprint,
            fp_enabled,
        },
    )
}

/// Whether a step is to go by the sound, as far as that is possible.
pub open spec fn listen_next(plan: CoverPlan, s: Step) -> bool {
    if plan.fp_enabled {
        s is Identify
    } else {
        s matches Step::Done(Outcome::Nothing)
    }
}

/// What comes once there is no picture in the file.
pub open spec fn after_pictures(plan: CoverPlan, s: Step) -> bool {
    if plan.run_itunes && plan.album_key is Some {
        s is Itunes
    } else {
        listen_next(plan, s)
    }
}

/// What is tried first.
pub open spec fn begins(plan: CoverPlan, s: Step) -> bool {
    if plan.run_embedded {
        s is Embedded
    } else {
        after_pictures(plan, s)
    }
}

/// What follows from looking for a picture in the file.
pub open spec fn after_looking(plan: CoverPlan, image: Option<u64>, s: Step) -> bool {
    match image {
        Some(image) => s matches Step::Done(
            Outcome::TrackCover { path, image: found, release },
        ) && path@ == plan.path@ && found == image && release.deep_view()
            == plan.album_key.deep_view(),
        None => if !plan.run_itunes && !plan.run_fingerprint {
            s matches Step::Done(Outcome::Nothing)
        } else {
            after_pictures(plan, s)
        },
    }
}

/// What follows from asking about the album.
pub open spec fn after_asking(
    plan: CoverPlan,
    image: Option<u64>,
    transient: bool,
    s: Step,
) -> bool {
    match image {
        Some(image) => s matches Step::Done(Outcome::AlbumCover { key, image: found })
            && key@ == plan.album_key->0@ && found == image,
        None => if transient {
            s matches Step::Done(Outcome::RetryAlbum { key }) && key@
                == plan.album_key->0@
        } else {
            listen_next(plan, s)
        },
    }
}

/// What follows from going by the sound.
pub open spec fn after_listening(
    plan: CoverPlan,
    id: Option<Identification>,
    image: Option<u64>,
    o: Outcome,
) -> bool {
    match id {
        Some(id) => o matches Outcome::Identified { path, id: found, cover }
            && path@ == plan.path@ && found == id && cover == image,
        None => o matches Outcome::RetryPath { path } && path@ == plan.path@,
    }
}

impl CoverPlan {
    fn listen(&self) -> (s: Step)
        ensures
            listen_next(*self, s),
    {
        if self.fp_enabled {
            Step::Identify
        } else {
            Step::Done(Outcome::Nothing)
        }
    }

    fn ask(&self) -> (s: Step)
        ensures
            after_pictures(*self, s),
    {
        if self.run_itunes && self.album_key.is_some() {
            Step::Itunes
        } else {
            self.listen()
        }
    }

    /// What to try first.
    pub fn begin(&self) -> (s: Step)
        ensures
            begins(*self, s),
    {
        if self.run_embedded {
            Step::Embedded
        } else {
            self.ask()
        }
    }

    /// What follows from looking for a picture in the file. Where there is none after
    /// all, it goes on only with what this plan has taken note of: anything else
    /// would run again on every play.
    pub fn after_embedded(&self, image: Option<u64>) -> (s: Step)
        ensures
            after_looking(*self, image, s),
    {
        if let Some(image) = image {
            return Step::Done(
                Outcome::TrackCover {
                    path: self.path.clone(),
                    image,
                    release: track::clone_text(&self.album_key),
                },
            );
        }
        if !self.run_itunes && !self.run_fingerprint {
            return Step::Done(Outcome::Nothing);
        }
        self.ask()
    }

    /// What follows from asking about the album. That there is no such cover is an
    /// answer, and the sound is gone by instead.
    pub fn after_itunes(&self, image: Option<u64>, transient: bool) -> (s: Step)
        requires
            self.album_key is Some,
        ensures
            after_asking(*self, image, transient, s),
    {
        let name = match &self.album_key {
            Some(name) => name.clone(),
            None => String::new(),
        };
        if let Some(image) = image {
            return Step::Done(Outcome::AlbumCover { key: name, image });
        }
        if transient {
            return Step::Done(Outcome::RetryAlbum { key: name });
        }
        self.listen()
    }

    /// What follows from going by the sound.
    pub fn after_identify(&self, id: Option<Identification>, image: Option<u64>) -> (o: Outcome)
        ensures
            after_listening(*self, id, image, o),
    {
        match id {
            Some(id) => Outcome::Identified { path: self.path.clone(), id, cover: image },
            None => Outcome::RetryPath { path: self.path.clone() },
        }
    }
}

/// The chapters of a file with the titles that were recovered. A title that is
/// missing or empty leaves the chapter as it is.
pub open spec fn retitled(
    chapters: Seq<ChapterModel>,
    titles: Seq<Option<Seq<char>>>,
) -> Seq<ChapterModel> {
    Seq::new(
        chapters.len(),
        |i: int|
            if i < titles.len() && id_cache::filled(titles[i]) is Some {
                ChapterModel { title: titles[i]->0, ..chapters[i] }
            } else {
                chapters[i]
            },
    )
}

/// A track with the names that were recovered. What was not recovered stays. Titles
/// go onto the chapters of a file that has them, and onto the track itself
/// otherwise.
pub open spec fn renamed(t: TrackModel, id: IdModel) -> TrackModel {
    TrackModel {
        artist: track::named(id_cache::filled(id.artist), t.artist),
        album: track::named(id_cache::filled(id.album), t.album),
        title: if t.chapters.len() == 0 && id.titles.len() > 0 {
            track::named(id_cache::filled(id.titles[0]), t.title)
        } else {
            t.title
        },
        chapters: retitled(t.chapters, id.titles),
        ..t
    }
}

fn if_filled(s: &Option<String>) -> (r: Option<String>)
    ensures
        r.deep_view() == id_cache::filled(s.deep_view()),
{
    match s {
        Some(s) => {
            if s.as_str().unicode_len() > 0 {
                Some(s.clone())
            } else {
                None
            }
        },
        None => None,
    }
}

/// Overwrites a track's names with those that were recovered.
pub fn apply_identity(t: &mut Track, id: &Identification)
    ensures
        final(t)@ == renamed(old(t)@, id@),
{
    let ghost before = t@;
    if let Some(artist) = if_filled(&id.artist) {
        t.artist = artist;
    }
    if let Some(album) = if_filled(&id.album) {
        t.album = album;
    }
    let ghost titles = id@.titles;
    if t.chapters.len() == 0 {
        if id.chapter_titles.len() > 0 {
            assert(titles[0] == id.chapter_titles@[0].deep_view());
            if let Some(title) = if_filled(&id.chapter_titles[0]) {
                t.title = title;
            }
        }
        assert(t@.chapters =~= retitled(before.chapters, titles));
        return;
    }
    let mut chapters: Vec<Chapter> = Vec::new();
    let mut i: usize = 0;
    while i < t.chapters.len()
        invariant
            i <= t.chapters@.len(),
            before.chapters == track::chapter_views(t.chapters@),
            titles == fingerprint::title_views(id.chapter_titles@),
            chapters@.len() == i,
            forall|j: int|
                0 <= j < i ==> (#[trigger] chapters@[j])@ == retitled(before.chapters, titles)[j],
        decreases t.chapters@.len() - i,
    {
        assert(before.chapters[i as int] == t.chapters@[i as int]@);
        let mut chapter = t.chapters[i].clone();
        if i < id.chapter_titles.len() {
            assert(titles[i as int] == id.chapter_titles@[i as int].deep_view());
            if let Some(title) = if_filled(&id.chapter_titles[i]) {
                chapter.title = title;
            }
        }
        chapters.push(chapter);
        i = i + 1;
    }
    t.chapters = chapters;
    assert(t@.chapters =~= retitled(before.chapters, titles));
}

/// A track with a cover, unless it has one.
pub open spec fn covered(t: TrackModel, image: u64) -> TrackModel {
    if t.art is None {
        TrackModel { art: Some(image), ..t }
    } else {
        t
    }
}

/// What an album's cover makes of a track: those of the album get it, except where
/// they have one, or a picture of their own to be decoded when they play.
pub open spec fn album_covered(t: TrackModel, name: Seq<char>, image: u64) -> TrackModel {
    if !t.has_art && artwork::cover_key(t.artist, t.album) == name {
        covered(t, image)
    } else {
        t
    }
}

/// What the identity of a file makes of a track: only that file is touched.
pub open spec fn identified(
    t: TrackModel,
    place: Seq<u8>,
    id: IdModel,
    image: Option<u64>,
) -> TrackModel {
    if path::same_place(t.path, place) {
        renamed(
            match image {
                Some(image) => covered(t, image),
                None => t,
            },
            id,
        )
    } else {
        t
    }
}

/// What an outcome makes of the tracks in the queue.
pub open spec fn tracks_after(tracks: Seq<TrackModel>, outcome: Outcome) -> Seq<TrackModel> {
    match outcome {
        Outcome::TrackCover { path, image, release } => {
            let i = queue::place_of(tracks, path@);
            if i < tracks.len() {
                tracks.update(i, covered(tracks[i], image))
            } else {
                tracks
            }
        },
        Outcome::AlbumCover { key, image } => tracks.map_values(
            |t: TrackModel| album_covered(t, key@, image),
        ),
        Outcome::Identified { path, id, cover } => tracks.map_values(
            |t: TrackModel| identified(t, path@, id@, cover),
        ),
        _ => tracks,
    }
}

/// What an outcome makes of the albums that were tried.
pub open spec fn keys_after(keys: Set<Seq<char>>, outcome: Outcome) -> Set<Seq<char>> {
    match outcome {
        Outcome::TrackCover { path, image, release: Some(key) } => keys.remove(key@),
        Outcome::RetryAlbum { key } => keys.remove(key@),
        _ => keys,
    }
}

/// Whether a file still counts as tried after an outcome.
pub open spec fn still_tried(tried: bool, place: Seq<u8>, outcome: Outcome) -> bool {
    match outcome {
        Outcome::RetryPath { path } => tried && !path::same_place(place, path@),
        _ => tried,
    }
}

/// Copies a track with a cover, unless it has one.
fn with_cover(t: &Track, image: u64) -> (r: Track)
    ensures
        r@ == covered(t@, image),
{
    let mut r = t.clone();
    if r.art.is_none() {
        r.art = Some(image);
    }
    r
}

/// Applies an outcome to the queue and to what was tried.
pub fn apply(q: &mut Queue, keys: &mut KeySet, paths: &mut PathSet, outcome: &Outcome)
    ensures
        final(q).models() == tracks_after(old(q).models(), *outcome),
        final(q).tracks@.len() == old(q).tracks@.len(),
        final(q).current == old(q).current,
        final(q).shuffle == old(q).shuffle,
        final(q).repeat == old(q).repeat,
        final(q).order == old(q).order,
        final(keys)@ == keys_after(old(keys)@, *outcome),
        forall|p: Seq<u8>| #[trigger]
            final(paths).has(p) == still_tried(old(paths).has(p), p, *outcome),
{
    let ghost before = q.models();
    match outcome {
        Outcome::TrackCover { path, image, release } => {
            let parts = path.components();
            let i: usize = queue::find_place(&q.tracks, &parts, Ghost(path@));
            if i < q.tracks.len() {
                let t = with_cover(&q.tracks[i], *image);
                let ghost view = t@;
                q.tracks.set(i, t);
                assert(q.models() =~= before.update(i as int, view));
            }
            if let Some(name) = release {
                keys.remove(name.as_str());
            }
        },
        Outcome::AlbumCover { key: name, image } => {
            let mut i: usize = 0;
            while i < q.tracks.len()
                invariant
                    i <= q.tracks@.len(),
                    q.tracks@.len() == before.len(),
                    before == old(q).models(),
                    q.current == old(q).current,
                    q.shuffle == old(q).shuffle,
                    q.repeat == old(q).repeat,
                    q.order == old(q).order,
                    forall|j: int|
                        0 <= j < i ==> (#[trigger] q.tracks@[j])@ == album_covered(
                            before[j],
                            name@,
                            *image,
                        ),
                    forall|j: int| i <= j < before.len() ==> (#[trigger] q.tracks@[j])@ == before[j],
                decreases q.tracks@.len() - i,
            {
                assert(q.tracks@[i as int]@ == before[i as int]);
                let t = &q.tracks[i];
                if !t.has_art && same_text(
                    key(t.artist.as_str(), t.album.as_str()).as_str(),
                    name.as_str(),
                ) {
                    let t = with_cover(&q.tracks[i], *image);
                    q.tracks.set(i, t);
                }
                i = i + 1;
            }
            assert(q.models() =~= tracks_after(before, *outcome));
        },
        Outcome::Identified { path, id, cover } => {
            let parts = path.components();
            let mut i: usize = 0;
            while i < q.tracks.len()
                invariant
                    i <= q.tracks@.len(),
                    q.tracks@.len() == before.len(),
                    before == old(q).models(),
                    q.current == old(q).current,
                    q.shuffle == old(q).shuffle,
                    q.repeat == old(q).repeat,
                    q.order == old(q).order,
                    parts.deep_view() == path::components(path@),
                    forall|j: int|
                        0 <= j < i ==> (#[trigger] q.tracks@[j])@ == identified(
                            before[j],
                            path@,
                            id@,
                            *cover,
                        ),
                    forall|j: int| i <= j < before.len() ==> (#[trigger] q.tracks@[j])@ == before[j],
                decreases q.tracks@.len() - i,
            {
                assert(q.tracks@[i as int]@ == before[i as int]);
                if same_parts(&q.tracks[i].path.components(), &parts) {
                    let mut t = match cover {
                        Some(image) => with_cover(&q.tracks[i], *image),
                        None => q.tracks[i].clone(),
                    };
                    apply_identity(&mut t, id);
                    q.tracks.set(i, t);
                }
                i = i + 1;
            }
            assert(q.models() =~= tracks_after(before, *outcome));
        },
        Outcome::RetryAlbum { key: name } => {
            keys.remove(name.as_str());
        },
        Outcome::RetryPath { path } => {
            paths.remove(path);
        },
        Outcome::Nothing => {},
    }
}

/// A cover is never taken away or replaced, and no track changes its place, its
/// length or whether it is loved.
pub proof fn covers_only_fill_gaps(tracks: Seq<TrackModel>, outcome: Outcome, i: int)
    requires
        0 <= i < tracks.len(),
    ensures
        tracks_after(tracks, outcome).len() == tracks.len(),
        tracks[i].art is Some ==> tracks_after(tracks, outcome)[i].art == tracks[i].art,
        tracks_after(tracks, outcome)[i].path == tracks[i].path,
        tracks_after(tracks, outcome)[i].duration == tracks[i].duration,
        tracks_after(tracks, outcome)[i].loved == tracks[i].loved,
        tracks_after(tracks, outcome)[i].chapters.len() == tracks[i].chapters.len(),
{
    if let Outcome::TrackCover { path, .. } = outcome {
        queue::place_is_first(tracks, path@);
    }
}

/// What was recovered of one file touches no other.
pub proof fn an_identity_is_one_files(
    tracks: Seq<TrackModel>,
    place: FilePath,
    id: Identification,
    image: Option<u64>,
    i: int,
)
    requires
        0 <= i < tracks.len(),
        !path::same_place(tracks[i].path, place@),
    ensures
        tracks_after(tracks, Outcome::Identified { path: place, id, cover: image })[i] == tracks[i],
{
}

/// An album that failed in passing may be asked about again, and one that was
/// answered may not.
pub proof fn only_failures_are_retried(
    t: TrackModel,
    keys: Set<Seq<char>>,
    name: String,
    image: u64,
)
    requires
        tags_known(t),
        name@ == artwork::cover_key(t.artist, t.album),
        keys.contains(name@),
    ensures
        asks_itunes(t, keys_after(keys, Outcome::RetryAlbum { key: name })),
        !asks_itunes(t, keys_after(keys, Outcome::AlbumCover { key: name, image })),
        !asks_itunes(t, keys_after(keys, Outcome::Nothing)),
{
}

/// An album is asked about exactly when its artist and its name are real ones and it was
/// not asked about before; a file is gone by its sound straight away exactly when they are
/// not, that is possible, and it was not tried before. The one rules out the other, and a
/// picture in the file is always looked for first.
pub proof fn what_is_tried_for_a_track(
    plan: CoverPlan,
    t: TrackModel,
    fp_enabled: bool,
    keys: Set<Seq<char>>,
    tried: bool,
)
    requires
        plan_of(plan, t, fp_enabled, keys, tried),
    ensures
        plan.path@ == t.path && plan.artist@ == t.artist && plan.album@ == t.album,
        plan.run_embedded == t.has_art,
        plan.fp_enabled == fp_enabled,
        plan.run_itunes <==> t.artist != "Unknown artist"@ && t.album != "Unknown album"@
            && !keys.contains(artwork::cover_key(t.artist, t.album)),
        plan.run_fingerprint <==> (t.artist == "Unknown artist"@ || t.album == "Unknown album"@)
            && fp_enabled && !tried,
        t.artist != "Unknown artist"@ && t.album != "Unknown album"@ ==> plan.album_key is Some
            && plan.album_key->0@ == artwork::cover_key(t.artist, t.album),
        t.artist == "Unknown artist"@ || t.album == "Unknown album"@ ==> plan.album_key is None,
{
    if let Some(name) = plan.album_key {
        assert(plan.album_key.deep_view() == Some(name@));
    }
}

/// What comes once no picture was found in the file: the album is asked about if the plan
/// says so, and the sound is gone by if not; where that is not possible there is nothing
/// more to do.
pub proof fn the_album_comes_before_the_sound(plan: CoverPlan, s: Step)
    ensures
        after_pictures(plan, s) && plan.run_itunes && plan.album_key is Some ==> s is Itunes,
        after_pictures(plan, s) && !(plan.run_itunes && plan.album_key is Some) && plan.fp_enabled
            ==> s is Identify,
        after_pictures(plan, s) && !(plan.run_itunes && plan.album_key is Some) && !plan.fp_enabled
            ==> (s matches Step::Done(Outcome::Nothing)),
        listen_next(plan, s) && plan.fp_enabled ==> s is Identify,
        listen_next(plan, s) && !plan.fp_enabled ==> (s matches Step::Done(Outcome::Nothing)),
{
}

/// A picture out of a file goes onto the first track at its place, if that has none, and
/// onto no other. A cover of an album goes onto every track of that album that has neither
/// a cover nor a picture of its own, and onto no other. Nothing else of a track changes.
pub proof fn covers_go_where_they_belong(
    tracks: Seq<TrackModel>,
    place: FilePath,
    release: Option<String>,
    name: String,
    image: u64,
    i: int,
)
    requires
        0 <= i < tracks.len(),
    ensures
        ({
            let after = tracks_after(tracks, Outcome::TrackCover { path: place, image, release });
            let first = path::same_place(tracks[i].path, place@) && (forall|j: int|
                0 <= j < i ==> !path::same_place((#[trigger] tracks[j]).path, place@));
            &&& after.len() == tracks.len()
            &&& first && tracks[i].art is None ==> after[i] == (TrackModel {
                art: Some(image),
                ..tracks[i]
            })
            &&& !first || tracks[i].art is Some ==> after[i] == tracks[i]
        }),
        ({
            let after = tracks_after(tracks, Outcome::AlbumCover { key: name, image });
            let theirs = artwork::cover_key(tracks[i].artist, tracks[i].album) == name@
                && !tracks[i].has_art && tracks[i].art is None;
            &&& after.len() == tracks.len()
            &&& theirs ==> after[i] == (TrackModel { art: Some(image), ..tracks[i] })
            &&& !theirs ==> after[i] == tracks[i]
        }),
        tracks_after(tracks, Outcome::Nothing) == tracks,
        tracks_after(tracks, Outcome::RetryAlbum { key: name }) == tracks,
        tracks_after(tracks, Outcome::RetryPath { path: place }) == tracks,
{
    queue::place_is_first(tracks, place@);
    let n = queue::place_of(tracks, place@);
    let first = path::same_place(tracks[i].path, place@) && (forall|j: int|
        0 <= j < i ==> !path::same_place((#[trigger] tracks[j]).path, place@));
    if first {
        if n < i {
            assert(!path::same_place(tracks[n].path, place@));
        }
        assert(n == i);
    } else if n == i {
        assert forall|j: int| 0 <= j < i implies !path::same_place(
            (#[trigger] tracks[j]).path,
            place@,
        ) by {}
        assert(false);
    }
}

/// What was recovered of a file goes onto every track at its place: the artist and the
/// album where they were recovered, the cover where there is none, the first title onto a
/// track without chapters, and onto each chapter the title at its place. What was not
/// recovered, or is empty, leaves what is there; and no other track is touched.
pub proof fn an_identity_names_its_track(
    tracks: Seq<TrackModel>,
    place: FilePath,
    id: Identification,
    image: Option<u64>,
    i: int,
    c: int,
)
    requires
        0 <= i < tracks.len(),
    ensures
        ({
            let t = tracks[i];
            let now = tracks_after(tracks, Outcome::Identified { path: place, id, cover: image })[i];
            let some = |s: Option<Seq<char>>| s is Some && s->0.len() > 0;
            &&& !path::same_place(t.path, place@) ==> now == t
            &&& path::same_place(t.path, place@) ==> {
                &&& now.artist == if some(id@.artist) {
                    id@.artist->0
                } else {
                    t.artist
                }
                &&& now.album == if some(id@.album) {
                    id@.album->0
                } else {
                    t.album
                }
                &&& now.title == if t.chapters.len() == 0 && id@.titles.len() > 0 && some(
                    id@.titles[0],
                ) {
                    id@.titles[0]->0
                } else {
                    t.title
                }
                &&& now.art == if t.art is None {
                    image
                } else {
                    t.art
                }
                &&& now.chapters.len() == t.chapters.len()
                &&& 0 <= c < t.chapters.len() ==> now.chapters[c].start == t.chapters[c].start
                    && now.chapters[c].end == t.chapters[c].end && now.chapters[c].title == if c
                    < id@.titles.len() && some(id@.titles[c]) {
                    id@.titles[c]->0
                } else {
                    t.chapters[c].title
                }
                &&& now.path == t.path && now.duration == t.duration && now.has_art == t.has_art
                    && now.loved == t.loved
            }
        }),
{
}

/// What was tried stays tried, but for an album that failed in passing, an album that was
/// not asked about after all because the file had a picture, and a file that its sound
/// came to nothing for: those, and no others, may be tried again.
pub proof fn only_what_failed_is_forgotten(
    keys: Set<Seq<char>>,
    tried: bool,
    place: Seq<u8>,
    other: Seq<char>,
    outcome: Outcome,
)
    ensures
        outcome matches Outcome::RetryAlbum { key } ==> (keys_after(keys, outcome).contains(other)
            <==> keys.contains(other) && other != key@),
        outcome matches Outcome::TrackCover { path, image, release } ==> (keys_after(
            keys,
            outcome,
        ).contains(other) <==> keys.contains(other) && !(release is Some && release->0@ == other)),
        outcome matches Outcome::RetryPath { path } ==> (still_tried(tried, place, outcome) <==> tried
            && !path::same_place(place, path@)),
        !(outcome is RetryAlbum) && !(outcome is TrackCover) ==> keys_after(keys, outcome) == keys,
        !(outcome is RetryPath) ==> still_tried(tried, place, outcome) == tried,
{
}

/// Each album is asked about once, and each file is gone by its sound once: when the same
/// track, or another of the album, comes up again with nothing given back, it is only looked
/// into for a picture of its own. A track that has a cover is left alone.
pub proof fn nothing_is_tried_twice(
    t: TrackModel,
    u: TrackModel,
    fp_enabled: bool,
    keys: Set<Seq<char>>,
    paths: PathSet,
    keys_now: Set<Seq<char>>,
    paths_now: PathSet,
    r: Option<CoverPlan>,
    keys_then: Set<Seq<char>>,
    paths_then: PathSet,
    again: Option<CoverPlan>,
)
    requires
        plans(t, fp_enabled, keys, paths, keys_now, paths_now, r),
        plans(u, fp_enabled, keys_now, paths_now, keys_then, paths_then, again),
        t.art is None,
        u.artist == t.artist,
        u.album == t.album,
        path::same_place(u.path, t.path),
    ensures
        again is Some <==> u.art is None && u.has_art,
        again is Some ==> again->0.run_embedded && !again->0.run_itunes
            && !again->0.run_fingerprint,
        u.art is Some ==> keys_then == keys_now && paths_then == paths_now,
        t.has_art ==> r is Some && r->0.run_embedded,
        t.artist != "Unknown artist"@ && t.album != "Unknown album"@ && !keys.contains(
            artwork::cover_key(t.artist, t.album),
        ) ==> r is Some && r->0.run_itunes && !r->0.run_fingerprint,
        (t.artist == "Unknown artist"@ || t.album == "Unknown album"@) && fp_enabled && !paths.has(
            t.path,
        ) ==> r is Some && r->0.run_fingerprint && !r->0.run_itunes,
        r is Some ==> r->0.path@ == t.path && r->0.artist@ == t.artist && r->0.album@ == t.album,
        forall|k: Seq<char>| keys.contains(k) ==> #[trigger] keys_now.contains(k),
        forall|p: Seq<u8>| paths.has(p) ==> #[trigger] paths_now.has(p),
{
}

/// Another track of an album that was asked about does not ask about it again.
pub proof fn an_album_is_asked_about_once(
    t: TrackModel,
    u: TrackModel,
    fp_enabled: bool,
    keys: Set<Seq<char>>,
    paths: PathSet,
    keys_now: Set<Seq<char>>,
    paths_now: PathSet,
    r: Option<CoverPlan>,
    keys_then: Set<Seq<char>>,
    paths_then: PathSet,
    again: Option<CoverPlan>,
)
    requires
        plans(t, fp_enabled, keys, paths, keys_now, paths_now, r),
        plans(u, fp_enabled, keys_now, paths_now, keys_then, paths_then, again),
        t.art is None,
        tags_known(t),
        u.artist == t.artist,
        u.album == t.album,
    ensures
        again is Some ==> !again->0.run_itunes && !again->0.run_fingerprint && again->0.run_embedded,
        again is Some ==> u.has_art && u.art is None,
{
}

/// What is found is where it was looked for: a picture in the file is that file's, a cover
/// of the album is the album's, and an identity is the file's, with the cover that came with
/// it. Without a picture in the file the album is asked about, and where nobody knows it the
/// sound is gone by; each only where the plan is for it. A failure of the album is given
/// back under its name, and a sound that came to nothing under its file.
pub proof fn what_is_found_is_kept_where_it_belongs(
    plan: CoverPlan,
    image: Option<u64>,
    transient: bool,
    id: Option<Identification>,
    first: Step,
    looked: Step,
    asked: Step,
    heard: Outcome,
)
    requires
        begins(plan, first),
        after_looking(plan, image, looked),
        plan.album_key is Some,
        after_asking(plan, image, transient, asked),
        after_listening(plan, id, image, heard),
    ensures
        plan.run_embedded <==> first is Embedded,
        !plan.run_embedded && plan.run_itunes ==> first is Itunes,
        !plan.run_embedded && !plan.run_itunes && plan.fp_enabled ==> first is Identify,
        image is Some ==> {
            &&& looked is Done && looked->Done_0 is TrackCover
            &&& looked->Done_0->TrackCover_path@ == plan.path@
            &&& looked->Done_0->TrackCover_image == image->0
            &&& looked->Done_0->release is Some && looked->Done_0->release->0@
                == plan.album_key->0@
            &&& asked is Done && asked->Done_0 is AlbumCover
            &&& asked->Done_0->AlbumCover_key@ == plan.album_key->0@
            &&& asked->Done_0->AlbumCover_image == image->0
        },
        image is None ==> {
            &&& plan.run_itunes ==> looked is Itunes
            &&& !plan.run_itunes && plan.run_fingerprint && plan.fp_enabled ==> looked is Identify
            &&& !plan.run_itunes && !plan.run_fingerprint ==> looked is Done && looked->Done_0
                is Nothing
            &&& transient ==> asked is Done && asked->Done_0 is RetryAlbum
                && asked->Done_0->RetryAlbum_key@ == plan.album_key->0@
            &&& !transient && plan.fp_enabled ==> asked is Identify
            &&& !transient && !plan.fp_enabled ==> asked is Done && asked->Done_0 is Nothing
        },
        id is Some ==> heard is Identified && heard->Identified_path@ == plan.path@ && heard->id
            == id->0 && heard->cover == image,
        id is None ==> heard is RetryPath && heard->RetryPath_path@ == plan.path@,
{
}

} // verus!
