//! The player: what is loaded, what the last session left, and what every button does
//! about it.
//!
//! The window, the sound and the disk are the caller's. It reports what they say, such
//! as the position and whether the device has run dry, and carries out what comes back.

use crate::audio::Audio;
use crate::folders;
use crate::folders::Folder;
use crate::mpris;
use crate::mpris::{Command, TrackInfo};
use crate::path;
use crate::path::FilePath;
use crate::queue;
use crate::queue::{find_place, Queue};
use crate::sets::{KeySet, PathSet};
use crate::single;
use crate::single::{Single, ZERO};
use crate::state;
use crate::state::{State, Window, DEFAULT_VOLUME};
use crate::text::join_text;
use crate::time::{Duration, LONGEST, NANOS_PER_SEC};
use crate::track;
use crate::track::{Track, TrackModel};
use vstd::prelude::*;

verus! {

/// The key context of the player's window.
pub const KEY_CONTEXT: &'static str = "Player";

/// A track that was stopped within this many seconds of its end starts over: it had
/// effectively finished.
pub const RESUME_MARGIN: u64 = 5;

/// How often the session is written while it changes, in seconds.
pub const SAVE_EVERY: u64 = 5;

/// Going back within so many seconds of the start means the one before.
pub const BACK_WITHIN: u64 = 3;

/// How long a fade takes, in milliseconds, and how long each step of it.
pub const FADE: u64 = 180;

pub const FADE_STEP: u64 = 12;

/// How many steps a fade takes: at least one.
pub fn fade_steps() -> (n: u64)
    ensures
        n == FADE / FADE_STEP,
        n >= 1,
{
    FADE / FADE_STEP
}

/// Where the last session stopped, until a scan turns its file up.
#[derive(Debug)]
pub struct Resume {
    pub path: FilePath,
    pub position: Duration,
}

/// A track to load into the player.
pub struct Load {
    pub index: usize,
    pub path: FilePath,
    /// Where to start.
    pub at: Duration,
    /// Whether it is to be heard, or only to come up.
    pub audible: bool,
}

/// What to do about the sound.
pub enum Action {
    Nothing,
    Load(Load),
    Seek(Duration),
    Stop,
    /// Ease it in, or out.
    Fade(bool),
}

/// What a tick of the player's clock calls for.
pub enum Tick {
    /// The track has played to its end, and this is to be done about it.
    Over(Action),
    /// It plays on, and what is shown moves with it.
    Repaint,
    Nothing,
}

/// What came of tracks that were loaded.
pub enum Arrival {
    /// There was nothing new among them.
    Nothing,
    /// So many were queued, and this is to be done about it.
    Queued(usize, Action),
}

/// A press of the heart.
pub struct Press {
    pub index: usize,
    pub path: FilePath,
    pub loved: bool,
}

pub struct PlayerView {
    /// `None` when there is no audio device.
    pub audio: Option<Audio>,
    pub error: Option<String>,
    pub queue: Queue,
    pub show_playlist: bool,
    pub show_folders: bool,
    /// The queue panel shows only the loved tracks.
    pub show_loved: bool,
    /// The desktop's music folder, held apart from `folders` because it is the one
    /// root the listener cannot take away.
    pub music_dir: Option<FilePath>,
    pub folders: Vec<Folder>,
    /// A close is under way.
    pub closing: bool,
    /// The albums that were asked about this session.
    pub cover_keys: KeySet,
    /// The files that were identified by their sound this session.
    pub fp_paths: PathSet,
    /// What the last session stopped on, waiting for a scan that contains it.
    pub resume: Option<Resume>,
    pub window: Window,
    /// The session as it was last written.
    pub saved: State,
}

/// The chapter that a position is in: the last that starts no later. Ahead of all of
/// them it is the first.
pub open spec fn chapter_in(chapters: Seq<track::ChapterModel>, pos: Duration) -> int
    decreases chapters.len(),
{
    if chapters.len() <= 1 || chapters.last().start.nanos <= pos.nanos {
        chapters.len() - 1
    } else {
        chapter_in(chapters.drop_last(), pos)
    }
}

impl PlayerView {
    /// Sets up the player from the last session. Files that are named when it starts
    /// are what was asked for, so the session's track is not waited for then.
    pub fn new(
        files_named: bool,
        state: &State,
        music_dir: Option<FilePath>,
        device: Result<(), String>,
        window: Window,
    ) -> (v: PlayerView)
        ensures
            PlayerView::starts(files_named, *state, music_dir, device, window, v),
    {
        let (audio, error): (Option<Audio>, Option<String>) = match device {
            Ok(_) => (Some(Audio::new(state.volume)), None),
            Err(message) => (None, Some(message)),
        };
        let mut folders: Vec<Folder> = Vec::new();
        let mut i: usize = 0;
        while i < state.folders.len()
            invariant
                i <= state.folders@.len(),
                folders@.len() == i,
                forall|j: int|
                    0 <= j < i ==> (#[trigger] folders@[j])@ == folders::reachable(state.folders@[j]@),
            decreases state.folders@.len() - i,
        {
            folders.push(Folder { path: state.folders[i].clone(), available: true });
            i = i + 1;
        }
        assert(folders::folder_views(folders@) =~= path::views(state.folders@).map_values(
            |p: Seq<u8>| folders::reachable(p),
        ));
        let resume = match &state.track {
            Some(track) => {
                if files_named {
                    None
                } else {
                    Some(Resume { path: track.clone(), position: state.position })
                }
            },
            None => None,
        };
        let mut queue = Queue::default();
        queue.set_shuffle(state.shuffle);
        queue.repeat = state.repeat;
        PlayerView {
            audio,
            error,
            queue,
            show_playlist: state.playlist,
            show_folders: false,
            show_loved: false,
            music_dir,
            folders,
            closing: false,
            cover_keys: KeySet::new(),
            fp_paths: PathSet::new(),
            resume,
            window,
            saved: state.clone(),
        }
    }
}

impl PlayerView {
    /// The track to load at a place in the queue, if there is one and something to
    /// play it with.
    pub open spec fn loads(&self, index: usize, at: Duration, audible: bool, a: Action) -> bool {
        if index < self.queue.tracks@.len() && self.audio is Some {
            a matches Action::Load(load) && load.index == index && load.path@
                == self.queue.tracks@[index as int].path@ && load.at == at && load.audible
                == audible
        } else {
            a is Nothing
        }
    }

    fn load(&self, index: usize, at: Duration, audible: bool) -> (a: Action)
        ensures
            self.loads(index, at, audible, a),
    {
        if index < self.queue.tracks.len() && self.audio.is_some() {
            let path = self.queue.tracks[index].path.clone();
            Action::Load(Load { index, path, at, audible })
        } else {
            Action::Nothing
        }
    }

    /// Starts the track at a place in the queue. Everything that begins playback
    /// comes through here, which is also where the last session is given up: once
    /// something has been played, going back to it would be taking the player away
    /// from the listener.
    pub fn play_index(&mut self, index: usize) -> (a: Action)
        ensures
            *final(self) == (PlayerView { resume: None, ..*old(self) }),
            final(self).loads(index, Duration { nanos: 0 }, true, a),
    {
        self.resume = None;
        self.load(index, Duration::zero(), true)
    }

    /// Picks the last session back up once its file is in the queue: silent, and
    /// where it was left. Until the file turns up it goes on waiting.
    pub fn restore(&mut self) -> (a: Action)
        ensures
            final(self).resumed(old(self).resume, a),
            match old(self).resume {
                Some(resume) => {
                    let i = queue::place_of(old(self).queue.models(), resume.path@);
                    if i < old(self).queue.models().len() {
                        &&& *final(self) == (PlayerView { resume: None, ..*old(self) })
                        &&& final(self).loads(i as usize, resume.position, false, a)
                    } else {
                        *final(self) == *old(self) && a is Nothing
                    }
                },
                None => *final(self) == *old(self) && a is Nothing,
            },
    {
        let Some(resume) = &self.resume else {
            return Action::Nothing;
        };
        let parts = resume.path.components();
        let index: usize = find_place(&self.queue.tracks, &parts, Ghost(resume.path@));
        if index >= self.queue.tracks.len() {
            return Action::Nothing;
        }
        let at = resume.position;
        self.resume = None;
        self.load(index, at, false)
    }

    /// Takes note of how loading a track went.
    pub fn opened(&mut self, index: usize, audible: bool, result: Result<(), String>)
        ensures
            PlayerView::opens(*old(self), index, audible, result, *final(self)),
    {
        match result {
            Ok(_) => {
                if let Some(t) = self.audio {
                    let mut t = t;
                    t.play_file(audible);
                    self.audio = Some(t);
                }
                self.error = None;
                self.queue.current = Some(index);
            },
            Err(message) => {
                self.error = Some(message);
            },
        }
    }

    /// Takes tracks that were loaded into the queue, apart from those that got there
    /// in the meantime. If nothing is loaded in the player, either the first track
    /// starts or the last session is picked up.
    pub fn arrive(&mut self, tracks: Vec<Track>, autoplay: bool) -> (r: Arrival)
        requires
            old(self).queue.tracks@.len() + tracks@.len() <= usize::MAX,
        ensures
            PlayerView::takes_tracks(*old(self), tracks@, autoplay, *final(self), r),
    {
        let fresh = self.queue.unknown_tracks(tracks);
        let count: usize = fresh.len();
        if count == 0 {
            return Arrival::Nothing;
        }
        let idle = self.queue.current.is_none();
        let ghost (a, b) = (self.queue.tracks@, fresh@);
        self.queue.extend(fresh);
        assert(track::track_views(a + b) =~= track::track_views(a) + track::track_views(b));
        let action = if autoplay && idle {
            self.play_index(0)
        } else if idle {
            self.restore()
        } else {
            Action::Nothing
        };
        Arrival::Queued(count, action)
    }

    /// What is left of waiting for the last session, once it was looked for.
    pub open spec fn resumed(&self, waiting: Option<Resume>, a: Action) -> bool {
        match waiting {
            Some(resume) => {
                let i = queue::place_of(self.queue.models(), resume.path@);
                if i < self.queue.models().len() {
                    &&& self.resume is None
                    &&& self.loads(i as usize, resume.position, false, a)
                } else {
                    self.resume == waiting && a is Nothing
                }
            },
            None => self.resume is None && a is Nothing,
        }
    }
}

impl PlayerView {
    /// What a player is that was set up from the last session.
    pub open spec fn starts(
        files_named: bool,
        state: State,
        music_dir: Option<FilePath>,
        device: Result<(), String>,
        window: Window,
        v: PlayerView,
    ) -> bool {
        &&& match device {
            Ok(_) => {
                &&& v.audio == Some(
                    Audio {
                        volume: state.volume,
                        fade: Single { bits: single::ONE },
                        playing: false,
                        loaded: false,
                    },
                )
                &&& v.error is None
            },
            Err(message) => v.audio is None && v.error == Some(message),
        }
        &&& v.queue.tracks@.len() == 0
        &&& v.queue.current is None
        &&& v.queue.shuffle == state.shuffle
        &&& v.queue.repeat == state.repeat
        &&& v.queue.well_formed()
        &&& v.show_playlist == state.playlist
        &&& !v.show_folders
        &&& !v.show_loved
        &&& !v.closing
        &&& v.music_dir == music_dir
        &&& folders::folder_views(v.folders@) == path::views(state.folders@).map_values(
            |p: Seq<u8>| folders::reachable(p),
        )
        &&& v.cover_keys@ == Set::<Seq<char>>::empty()
        &&& forall|p: Seq<u8>| !v.fp_paths.has(p)
        &&& match (files_named, state.track) {
            (false, Some(track)) => v.resume matches Some(r) && r.path@ == track@
                && r.position == state.position,
            _ => v.resume is None,
        }
        &&& v.window == window
        &&& v.saved@ == state@
    }

    /// What the outcome of loading a track does to a player.
    pub open spec fn opens(
        before: PlayerView,
        index: usize,
        audible: bool,
        result: Result<(), String>,
        now: PlayerView,
    ) -> bool {
        match result {
            Ok(_) => now == (PlayerView {
                audio: match before.audio {
                    Some(t) => Some(
                        Audio {
                            volume: t.volume,
                            fade: Single { bits: single::ONE },
                            playing: audible,
                            loaded: true,
                        },
                    ),
                    None => None,
                },
                error: None,
                queue: Queue { current: Some(index), ..before.queue },
                ..before
            }),
            Err(message) => now == (PlayerView { error: Some(message), ..before }),
        }
    }

    /// What tracks that were loaded do to a player.
    pub open spec fn takes_tracks(
        before: PlayerView,
        tracks: Seq<Track>,
        autoplay: bool,
        now: PlayerView,
        r: Arrival,
    ) -> bool {
        let fresh = track::track_views(tracks).filter(
            |t: TrackModel| !path::among(t.path, before.queue.places()),
        );
        if fresh.len() == 0 {
            r is Nothing && now == before
        } else {
            &&& r is Queued
            &&& r->Queued_0 == fresh.len()
            &&& now.queue.models() == before.queue.models() + fresh
            &&& now.queue.current == before.queue.current
            &&& now.queue.shuffle == before.queue.shuffle
            &&& now.queue.repeat == before.queue.repeat
            &&& now.queue.well_formed()
            &&& now.queue.freshly_ordered()
            &&& now == (PlayerView {
                queue: now.queue,
                resume: now.resume,
                ..before
            })
            &&& if before.queue.current is Some {
                r->Queued_1 is Nothing && now.resume == before.resume
            } else if autoplay {
                now.resume is None && now.loads(
                    0,
                    Duration { nanos: 0 },
                    true,
                    r->Queued_1,
                )
            } else {
                now.resumed(before.resume, r->Queued_1)
            }
        }
    }

    /// How far into the stretch that is shown a position is.
    pub open spec fn into_span(&self, pos: Duration, shown: Duration, d: Duration) -> bool {
        let (start, end) = self.span(pos);
        d == shown.past(start).least(end.past(start))
    }

    /// How much of the stretch that is shown is left.
    pub open spec fn left_of_span(&self, pos: Duration, shown: Duration, d: Duration) -> bool {
        let (start, end) = self.span(pos);
        d == end.past(start).past(shown.past(start).least(end.past(start)))
    }

    /// What a look at the session does to a player.
    pub open spec fn saves(
        before: PlayerView,
        snapshot: state::StateModel,
        now: PlayerView,
        r: Option<State>,
    ) -> bool {
        &&& same_session(snapshot, before.saved@) ==> r is None && now == before
        &&& !same_session(snapshot, before.saved@) ==> {
            &&& r matches Some(s) && s@ == snapshot
            &&& now.saved@ == snapshot
            &&& now == (PlayerView { saved: now.saved, ..before })
        }
    }

    /// What the clock does to a player.
    pub open spec fn ticks(before: PlayerView, empty: bool, now: PlayerView, t: Tick) -> bool {
        if before.audio matches Some(audio) && audio.loaded && empty {
            t matches Tick::Over(a) && PlayerView::moves_on(before, false, now, a)
        } else {
            &&& now == before
            &&& if before.sounds(empty) {
                t is Repaint
            } else {
                t is Nothing
            }
        }
    }

    /// What easing the sound in or out does to a player.
    pub open spec fn fades(before: PlayerView, audible: bool, now: PlayerView) -> bool {
        now == (PlayerView {
            audio: match before.audio {
                Some(t) => Some(Audio { playing: audible, ..t }),
                None => None,
            },
            ..before
        })
    }

    /// What a press of the heart asks for.
    pub open spec fn presses(&self, r: Option<Press>) -> bool {
        match (self.queue.current, self.queue.loaded()) {
            (Some(index), Some(t)) => r matches Some(p) && p.index == index && p.path@
                == t.path && p.loved == !t.loved,
            _ => r is None,
        }
    }

    /// What the outcome of a press of the heart does to a player.
    pub open spec fn hearts(
        before: PlayerView,
        press: Press,
        result: Result<(), String>,
        now: PlayerView,
    ) -> bool {
        match result {
            Ok(_) => {
                let i = press.index as int;
                let t = before.queue.models()[i];
                &&& now.queue.models() == before.queue.models().update(
                    i,
                    TrackModel { loved: press.loved, ..t },
                )
                &&& now.error is None
                &&& now == (PlayerView {
                    error: None,
                    queue: Queue { tracks: now.queue.tracks, ..before.queue },
                    ..before
                })
            },
            Err(message) => {
                &&& now.error matches Some(shown) && shown@
                    == "could not write the heart onto the file: "@ + message@
                &&& now == (PlayerView { error: now.error, ..before })
            },
        }
    }

    /// What asking to close does to a player.
    pub open spec fn closes(
        before: PlayerView,
        empty: bool,
        now: PlayerView,
        at_once: bool,
    ) -> bool {
        let zero = Single { bits: ZERO };
        let silent = match before.audio {
            Some(t) => !before.sounds(empty) || t.fade.below(zero) || t.fade.equal(zero),
            None => true,
        };
        if before.closing {
            at_once && now == before
        } else if silent {
            at_once && now == (PlayerView { closing: true, ..before })
        } else {
            &&& !at_once
            &&& now == (PlayerView {
                closing: true,
                audio: Some(Audio { playing: false, ..before.audio->0 }),
                ..before
            })
        }
    }

    /// What a command of the desktop does to a player.
    pub open spec fn obeys(
        before: PlayerView,
        command: Command,
        pos: Duration,
        shown: Duration,
        empty: bool,
        now: PlayerView,
        a: Action,
    ) -> bool {
        match command {
            Command::TogglePlay => PlayerView::toggles(before, empty, now, a),
            Command::Play => if before.sounds(empty) {
                a is Nothing && now == before
            } else {
                PlayerView::toggles(before, empty, now, a)
            },
            Command::Pause => if before.sounds(empty) {
                PlayerView::toggles(before, empty, now, a)
            } else {
                a is Nothing && now == before
            },
            Command::SetVolume(volume) => {
                &&& a is Nothing
                &&& now == (PlayerView {
                    audio: match before.audio {
                        Some(t) => Some(Audio { volume: volume.clamped(), ..t }),
                        None => None,
                    },
                    ..before
                })
            },
            Command::Next => PlayerView::skips_ahead(before, pos, now, a),
            Command::Previous => PlayerView::skips_back(before, pos, shown, now, a),
        }
    }

    /// What setting the volume does to a player.
    pub open spec fn turns(before: PlayerView, volume: Single, now: PlayerView) -> bool {
        now == (PlayerView {
            audio: match before.audio {
                Some(t) => Some(Audio { volume: volume.clamped(), ..t }),
                None => None,
            },
            ..before
        })
    }

    /// What the desktop is shown of the player.
    pub open spec fn appears(&self, empty: bool, s: mpris::State) -> bool {
        &&& s.playing == self.sounds(empty)
        &&& s.volume == (match self.audio {
            Some(t) => t.volume,
            None => Single { bits: ZERO },
        })
        &&& mpris::info_view(s.track) == (match (self.queue.current, self.queue.loaded()) {
            (Some(index), Some(t)) => Some(
                mpris::InfoModel {
                    index,
                    title: t.title,
                    artist: t.artist,
                    album: t.album,
                    duration: t.duration,
                },
            ),
            _ => None,
        })
    }
}

/// A number of seconds, in nanoseconds.
pub open spec fn secs(n: u64) -> int {
    n * NANOS_PER_SEC
}

/// Whether two sessions are the same as far as writing them down goes.
pub open spec fn same_session(a: state::StateModel, b: state::StateModel) -> bool {
    &&& match (a.track, b.track) {
        (Some(x), Some(y)) => path::same_place(x, y),
        (None, None) => true,
        _ => false,
    }
    &&& a.position == b.position
    &&& a.volume.equal(b.volume)
    &&& a.shuffle == b.shuffle
    &&& a.repeat == b.repeat
    &&& a.playlist == b.playlist
    &&& a.folders.len() == b.folders.len()
    &&& forall|i: int|
        0 <= i < a.folders.len() ==> path::same_place(#[trigger] a.folders[i], b.folders[i])
    &&& match (a.window, b.window) {
        (Some(x), Some(y)) => same_window(x, y),
        (None, None) => true,
        _ => false,
    }
}

pub open spec fn same_window(a: Window, b: Window) -> bool {
    a.x.equal(b.x) && a.y.equal(b.y) && a.width.equal(b.width) && a.height.equal(b.height)
}

fn is_same_session(a: &State, b: &State) -> (r: bool)
    ensures
        r == same_session(a@, b@),
{
    let track = match (&a.track, &b.track) {
        (Some(x), Some(y)) => *x == *y,
        (None, None) => true,
        _ => false,
    };
    let window = match (a.window, b.window) {
        (Some(x), Some(y)) => x.x.same(y.x) && x.y.same(y.y) && x.width.same(y.width)
            && x.height.same(y.height),
        (None, None) => true,
        _ => false,
    };
    if !track || !window || a.folders.len() != b.folders.len() {
        return false;
    }
    let mut i: usize = 0;
    while i < a.folders.len()
        invariant
            i <= a.folders@.len(),
            a.folders@.len() == b.folders@.len(),
            forall|j: int|
                0 <= j < i ==> path::same_place(#[trigger] a@.folders[j], b@.folders[j]),
        decreases a.folders@.len() - i,
    {
        assert(a@.folders[i as int] == a.folders@[i as int]@);
        assert(b@.folders[i as int] == b.folders@[i as int]@);
        if !(a.folders[i] == b.folders[i]) {
            return false;
        }
        i = i + 1;
    }
    a.position == b.position && a.volume.same(b.volume) && a.shuffle == b.shuffle && a.repeat
        == b.repeat && a.playlist == b.playlist
}

/// The chapter a position is in is one that starts no later, unless it is the first,
/// and every later one starts after the position.
pub proof fn chapter_in_is_right(chapters: Seq<track::ChapterModel>, pos: Duration)
    requires
        chapters.len() > 0,
    ensures
        0 <= chapter_in(chapters, pos) < chapters.len(),
        chapter_in(chapters, pos) > 0 ==> chapters[chapter_in(chapters, pos)].start.nanos
            <= pos.nanos,
        forall|i: int|
            chapter_in(chapters, pos) < i < chapters.len() ==> (#[trigger] chapters[i]).start.nanos
                > pos.nanos,
    decreases chapters.len(),
{
    if chapters.len() > 1 && chapters.last().start.nanos > pos.nanos {
        let front = chapters.drop_last();
        chapter_in_is_right(front, pos);
        assert forall|i: int| chapter_in(chapters, pos) < i < chapters.len() implies (
        #[trigger] chapters[i]).start.nanos > pos.nanos by {
            if i < front.len() {
                assert(front[i] == chapters[i]);
            }
        }
        assert(front[chapter_in(front, pos)] == chapters[chapter_in(front, pos)]);
    }
}

impl PlayerView {
    /// The chapters of the loaded track.
    pub open spec fn chapter_list(&self) -> Seq<track::ChapterModel> {
        match self.queue.loaded() {
            Some(t) => t.chapters,
            None => seq![],
        }
    }

    /// How long the loaded track is.
    pub open spec fn length(&self) -> Duration {
        match self.queue.loaded() {
            Some(t) => t.duration,
            None => Duration { nanos: 0 },
        }
    }

    /// The chapter a position is in, if there are any.
    pub open spec fn chapter_now(&self, pos: Duration) -> Option<int> {
        if self.chapter_list().len() > 0 {
            Some(chapter_in(self.chapter_list(), pos))
        } else {
            None
        }
    }

    /// The stretch that the seek bar and the times cover: the chapter, or the whole
    /// file when there are none.
    pub open spec fn span(&self, pos: Duration) -> (Duration, Duration) {
        match self.chapter_now(pos) {
            Some(i) => (self.chapter_list()[i].start, self.chapter_list()[i].end),
            None => (Duration { nanos: 0 }, self.length()),
        }
    }

    /// How long the loaded track is.
    pub fn duration(&self) -> (d: Duration)
        ensures
            d == self.length(),
    {
        match self.queue.current_track() {
            Some(t) => t.duration,
            None => Duration::zero(),
        }
    }

    /// Which chapter the player is in, by its real position and never by a preview of
    /// another: scrubbing moves within a chapter.
    pub fn current_chapter(&self, pos: Duration) -> (r: Option<usize>)
        ensures
            match r {
                Some(i) => self.chapter_now(pos) == Some(i as int) && i
                    < self.chapter_list().len(),
                None => self.chapter_now(pos) is None,
            },
    {
        let Some(t) = self.queue.current_track() else {
            return None;
        };
        if t.chapters.len() == 0 {
            return None;
        }
        let ghost all = track::chapter_views(t.chapters@);
        let mut i: usize = t.chapters.len();
        assert(all.take(i as int) =~= all);
        while i > 1 && t.chapters[i - 1].start.nanos > pos.nanos
            invariant
                1 <= i <= t.chapters@.len(),
                all == track::chapter_views(t.chapters@),
                chapter_in(all, pos) == chapter_in(all.take(i as int), pos),
            decreases i,
        {
            assert(all.take(i as int).drop_last() =~= all.take(i - 1));
            assert(all.take(i as int).last() == t.chapters@[i - 1]@);
            i = i - 1;
        }
        assert(all.take(i as int).last() == t.chapters@[i - 1]@);
        Some(i - 1)
    }

    /// The stretch that the seek bar and the times cover.
    pub fn active_span(&self, pos: Duration) -> (r: (Duration, Duration))
        ensures
            r == self.span(pos),
    {
        match self.current_chapter(pos) {
            Some(i) => match self.queue.current_track() {
                Some(t) => {
                    assert(self.chapter_list()[i as int] == t.chapters@[i as int]@);
                    (t.chapters[i].start, t.chapters[i].end)
                },
                None => (Duration::zero(), Duration::zero()),
            },
            None => (Duration::zero(), self.duration()),
        }
    }

    /// How far into the stretch a position is, from its beginning and never past its
    /// end. `shown` is the position that is shown, which differs from `pos` while the
    /// seek bar is dragged.
    pub fn elapsed(&self, pos: Duration, shown: Duration) -> (d: Duration)
        ensures
            self.into_span(pos, shown, d),
    {
        let (start, end) = self.active_span(pos);
        shown.saturating_sub(start).shorter(end.saturating_sub(start))
    }

    /// How much of the stretch is left.
    pub fn remaining(&self, pos: Duration, shown: Duration) -> (d: Duration)
        ensures
            self.left_of_span(pos, shown, d),
    {
        let (start, end) = self.active_span(pos);
        end.saturating_sub(start).saturating_sub(self.elapsed(pos, shown))
    }

    /// Whether there is anything to drag the seek bar through.
    pub fn can_scrub(&self) -> (r: bool)
        ensures
            r == (self.length().nanos != 0),
    {
        !self.duration().is_zero()
    }

    /// Whether something is heard, given whether the device has run out of sound.
    pub open spec fn sounds(&self, empty: bool) -> bool {
        self.audio matches Some(t) && t.loaded && t.playing && !empty
    }

    pub fn is_playing(&self, empty: bool) -> (r: bool)
        ensures
            r == self.sounds(empty),
    {
        match self.audio {
            Some(t) => t.is_playing(empty),
            None => false,
        }
    }

    /// Whether the track has effectively finished: it says how long it is, and what is
    /// left is within the margin.
    pub open spec fn finished(&self, played: Duration) -> bool {
        self.length().nanos != 0 && played.nanos + secs(RESUME_MARGIN) >= self.length().nanos
    }

    /// The session as it stands at a position.
    pub open spec fn session(&self, played: Duration) -> state::StateModel {
        let (track, position) = match (self.queue.loaded(), self.resume) {
            (Some(t), _) => (
                Some(t.path),
                if self.finished(played) {
                    Duration { nanos: 0 }
                } else {
                    played
                },
            ),
            (None, Some(resume)) => (Some(resume.path@), resume.position),
            (None, None) => (None, Duration { nanos: 0 }),
        };
        state::StateModel {
            track,
            position,
            volume: match self.audio {
                Some(t) => t.volume,
                None => Single { bits: DEFAULT_VOLUME },
            },
            shuffle: self.queue.shuffle,
            repeat: self.queue.repeat,
            playlist: self.show_playlist,
            folders: folders::folder_paths(self.folders@),
            window: Some(self.window),
        }
    }

    /// The session as it stands. `played` is the position in the file. Until something
    /// has played, the session worth keeping is the one that is waited for: opening
    /// the player and closing it again must not forget where the listener was.
    pub fn snapshot(&self, played: Duration) -> (s: State)
        requires
            played.nanos + secs(RESUME_MARGIN) <= LONGEST,
        ensures
            s@ == self.session(played),
    {
        let margin = Duration::from_secs(RESUME_MARGIN);
        let duration = self.duration();
        let finished = !duration.is_zero() && played.plus(margin).nanos >= duration.nanos;
        let (track, position): (Option<FilePath>, Duration) = match self.queue.current_track() {
            Some(t) => (
                Some(t.path.clone()),
                if finished {
                    Duration::zero()
                } else {
                    played
                },
            ),
            None => match &self.resume {
                Some(resume) => (Some(resume.path.clone()), resume.position),
                None => (None, Duration::zero()),
            },
        };
        State {
            track,
            position,
            volume: match self.audio {
                Some(t) => t.volume,
                None => Single { bits: DEFAULT_VOLUME },
            },
            shuffle: self.queue.shuffle,
            repeat: self.queue.repeat,
            playlist: self.show_playlist,
            folders: self.removable(),
            window: Some(self.window),
        }
    }

    /// Whether so long ago is long enough to look at the session again.
    pub open spec fn due(elapsed: Duration) -> bool {
        elapsed.nanos >= secs(SAVE_EVERY)
    }

    /// Whether it is time to write the session, given how long ago it was last looked
    /// at.
    pub fn save_due(elapsed: Duration) -> (r: bool)
        ensures
            r == PlayerView::due(elapsed),
    {
        elapsed.nanos >= Duration::from_secs(SAVE_EVERY).nanos
    }

    /// Takes note of the session, and hands it back for writing if it has changed. A
    /// player that is paused has nothing to write.
    pub fn save_now(&mut self, snapshot: State) -> (r: Option<State>)
        ensures
            PlayerView::saves(*old(self), snapshot@, *final(self), r),
    {
        if is_same_session(&snapshot, &self.saved) {
            return None;
        }
        self.saved = snapshot.clone();
        Some(snapshot)
    }

    /// What comes after the current track: the next one, and at the end of the queue
    /// silence.
    pub fn advance(&mut self, manual: bool) -> (a: Action)
        ensures
            PlayerView::moves_on(*old(self), manual, *final(self), a),
    {
        match self.queue.next(manual) {
            Some(index) => self.play_index(index),
            None => {
                if let Some(t) = self.audio {
                    let mut t = t;
                    t.stop();
                    self.audio = Some(t);
                }
                Action::Stop
            },
        }
    }

    /// Goes on with the clock: at the end of a track comes what follows it.
    pub fn tick(&mut self, empty: bool) -> (t: Tick)
        ensures
            PlayerView::ticks(*old(self), empty, *final(self), t),
    {
        let over = match self.audio {
            Some(audio) => audio.finished(empty),
            None => false,
        };
        if over {
            Tick::Over(self.advance(false))
        } else if self.is_playing(empty) {
            Tick::Repaint
        } else {
            Tick::Nothing
        }
    }

    /// What going back does to a player: a few seconds in, the track starts over, and
    /// before that the one before it plays.
    pub open spec fn goes_back(before: PlayerView, shown: Duration, now: PlayerView, a: Action) -> bool {
        if shown.nanos > secs(BACK_WITHIN) {
            now == before && a == Action::Seek(Duration { nanos: 0 })
        } else {
            match before.queue.preceding() {
                Some(index) => {
                    &&& now == (PlayerView { resume: None, ..before })
                    &&& now.loads(index, Duration { nanos: 0 }, true, a)
                },
                None => now == before && a is Nothing,
            }
        }
    }

    /// Goes back, as every player does.
    pub fn previous(&mut self, shown: Duration) -> (a: Action)
        ensures
            PlayerView::goes_back(*old(self), shown, *final(self), a),
    {
        if shown.nanos > Duration::from_secs(BACK_WITHIN).nanos {
            return Action::Seek(Duration::zero());
        }
        match self.queue.previous() {
            Some(index) => self.play_index(index),
            None => Action::Nothing,
        }
    }

    /// What moving on to what follows does to a player: the next track, and at the end
    /// of the queue silence.
    pub open spec fn moves_on(before: PlayerView, manual: bool, now: PlayerView, a: Action) -> bool {
        match before.queue.following(manual) {
            Some(index) => {
                &&& now == (PlayerView { resume: None, ..before })
                &&& now.loads(index, Duration { nanos: 0 }, true, a)
            },
            None => {
                &&& a is Stop
                &&& now == (PlayerView {
                    audio: match before.audio {
                        Some(t) => Some(Audio { playing: false, loaded: false, ..t }),
                        None => None,
                    },
                    ..before
                })
            },
        }
    }

    /// What asking for the next thing does to a player: the next chapter of a file that
    /// has them, and past the last one the next track.
    pub open spec fn skips_ahead(
        before: PlayerView,
        pos: Duration,
        now: PlayerView,
        a: Action,
    ) -> bool {
        match before.chapter_now(pos) {
            Some(i) if i + 1 < before.chapter_list().len() => {
                &&& a == Action::Seek(before.chapter_list()[i + 1].start)
                &&& now == before
            },
            _ => PlayerView::moves_on(before, true, now, a),
        }
    }

    /// What asking for the thing before does to a player: a few seconds into a chapter
    /// it starts over, before that the one before it plays, and ahead of the first one
    /// it goes back a track.
    pub open spec fn skips_back(
        before: PlayerView,
        pos: Duration,
        shown: Duration,
        now: PlayerView,
        a: Action,
    ) -> bool {
        match before.chapter_now(pos) {
            Some(i) => {
                let start = before.chapter_list()[i].start;
                if pos.past(start).nanos > secs(BACK_WITHIN) {
                    a == Action::Seek(start) && now == before
                } else if i > 0 {
                    a == Action::Seek(before.chapter_list()[i - 1].start) && now == before
                } else {
                    PlayerView::goes_back(before, shown, now, a)
                }
            },
            None => PlayerView::goes_back(before, shown, now, a),
        }
    }

    /// Next, by hand.
    pub fn skip_next(&mut self, pos: Duration) -> (a: Action)
        ensures
            PlayerView::skips_ahead(*old(self), pos, *final(self), a),
    {
        if let Some(i) = self.current_chapter(pos) {
            if let Some(t) = self.queue.current_track() {
                let count: usize = t.chapters.len();
                assert(i < count);
                if i + 1 < count {
                    assert(self.chapter_list()[i + 1] == t.chapters@[i + 1]@);
                    return Action::Seek(t.chapters[i + 1].start);
                }
            }
        }
        self.advance(true)
    }

    /// Previous, by hand.
    pub fn skip_previous(&mut self, pos: Duration, shown: Duration) -> (a: Action)
        ensures
            PlayerView::skips_back(*old(self), pos, shown, *final(self), a),
    {
        if let Some(i) = self.current_chapter(pos) {
            if let Some(t) = self.queue.current_track() {
                assert(self.chapter_list()[i as int] == t.chapters@[i as int]@);
                let start = t.chapters[i].start;
                if pos.saturating_sub(start).nanos > Duration::from_secs(BACK_WITHIN).nanos {
                    return Action::Seek(start);
                }
                if i > 0 {
                    assert(self.chapter_list()[i - 1] == t.chapters@[i - 1]@);
                    return Action::Seek(t.chapters[i - 1].start);
                }
            }
        }
        self.previous(shown)
    }

    /// What toggling playback does to a player.
    pub open spec fn toggles(before: PlayerView, empty: bool, now: PlayerView, a: Action) -> bool {
        if before.queue.current is Some {
            now == before && a == Action::Fade(!before.sounds(empty))
        } else if before.queue.tracks@.len() > 0 {
            now == (PlayerView { resume: None, ..before }) && now.loads(
                0,
                Duration { nanos: 0 },
                true,
                a,
            )
        } else {
            now == before && a is Nothing
        }
    }

    /// Plays or pauses; with nothing loaded, starts the queue.
    pub fn toggle_play(&mut self, empty: bool) -> (a: Action)
        ensures
            PlayerView::toggles(*old(self), empty, *final(self), a),
    {
        if self.queue.current.is_none() {
            if !self.queue.is_empty() {
                return self.play_index(0);
            }
            return Action::Nothing;
        }
        Action::Fade(!self.is_playing(empty))
    }

    /// Begins to ease the sound in or out. A pause shows at once, and the sound stops
    /// when it has gone quiet.
    pub fn begin_fade(&mut self, audible: bool)
        ensures
            PlayerView::fades(*old(self), audible, *final(self)),
    {
        if let Some(t) = self.audio {
            let mut t = t;
            if audible {
                t.resume();
            } else {
                t.begin_pause();
            }
            self.audio = Some(t);
        }
    }

    /// A press of the heart: what to write onto which file. Nothing when nothing is
    /// loaded.
    pub fn press_heart(&self) -> (r: Option<Press>)
        ensures
            self.presses(r),
    {
        match self.queue.current {
            Some(index) => match self.queue.current_track() {
                Some(t) => Some(Press { index, path: t.path.clone(), loved: !t.loved }),
                None => None,
            },
            None => None,
        }
    }

    /// Takes note of how a press of the heart went. Nothing changes unless the file
    /// was written, so that the heart never shows what the file does not have.
    pub fn heart_written(&mut self, press: &Press, result: Result<(), String>)
        requires
            press.index < old(self).queue.tracks@.len(),
        ensures
            PlayerView::hearts(*old(self), *press, result, *final(self)),
    {
        match result {
            Ok(_) => {
                let ghost before = self.queue.models();
                let mut t = self.queue.tracks[press.index].clone();
                t.loved = press.loved;
                let ghost view = t@;
                self.queue.tracks.set(press.index, t);
                assert(self.queue.models() =~= before.update(press.index as int, view));
                self.error = None;
            },
            Err(message) => {
                self.error = Some(
                    join_text("could not write the heart onto the file: ", message.as_str()),
                );
            },
        }
    }

    /// Whether the window may close at once: nothing is heard, or a close is under way
    /// already. Otherwise the sound is to fade out first.
    pub fn begin_close(&mut self, empty: bool) -> (at_once: bool)
        ensures
            PlayerView::closes(*old(self), empty, *final(self), at_once),
    {
        if self.closing {
            return true;
        }
        self.closing = true;
        let Some(t) = self.audio else {
            return true;
        };
        let zero = Single { bits: ZERO };
        if !self.is_playing(empty) || t.fade.lt(zero) || t.fade.same(zero) {
            return true;
        }
        let mut t = t;
        t.begin_pause();
        self.audio = Some(t);
        false
    }

    /// Carries out what the desktop asked for.
    pub fn command(
        &mut self,
        command: Command,
        pos: Duration,
        shown: Duration,
        empty: bool,
    ) -> (a: Action)
        ensures
            PlayerView::obeys(*old(self), command, pos, shown, empty, *final(self), a),
    {
        match command {
            Command::TogglePlay => self.toggle_play(empty),
            Command::Play => if self.is_playing(empty) {
                Action::Nothing
            } else {
                self.toggle_play(empty)
            },
            Command::Pause => if self.is_playing(empty) {
                self.toggle_play(empty)
            } else {
                Action::Nothing
            },
            Command::Next => self.skip_next(pos),
            Command::Previous => self.skip_previous(pos, shown),
            Command::SetVolume(volume) => {
                self.set_volume(volume);
                Action::Nothing
            },
        }
    }

    pub fn set_volume(&mut self, volume: Single)
        ensures
            PlayerView::turns(*old(self), volume, *final(self)),
    {
        if let Some(t) = self.audio {
            let mut t = t;
            t.set_volume(volume);
            self.audio = Some(t);
        }
    }

    /// What the desktop is shown of the player.
    pub fn mpris_state(&self, empty: bool) -> (s: mpris::State)
        ensures
            self.appears(empty, s),
    {
        let track = match self.queue.current {
            Some(index) => match self.queue.current_track() {
                Some(t) => Some(
                    TrackInfo {
                        index,
                        title: t.title.clone(),
                        artist: t.artist.clone(),
                        album: t.album.clone(),
                        duration: t.duration,
                    },
                ),
                None => None,
            },
            None => None,
        };
        mpris::State {
            playing: self.is_playing(empty),
            volume: match self.audio {
                Some(t) => t.volume,
                None => Single { bits: ZERO },
            },
            track,
        }
    }
}

/// A player that was opened and has played nothing keeps the session it was opened with:
/// the track, the position, the modes, the panel and the folders.
pub proof fn opening_and_closing_forgets_nothing(v: PlayerView, s: state::StateModel)
    requires
        v.queue.loaded() is None,
        v.queue.shuffle == s.shuffle,
        v.queue.repeat == s.repeat,
        v.show_playlist == s.playlist,
        folders::folder_paths(v.folders@) == s.folders,
        match (s.track, v.resume) {
            (Some(track), Some(resume)) => resume.path@ == track && resume.position == s.position,
            (None, None) => s.position.nanos == 0,
            _ => false,
        },
    ensures
        v.session(Duration { nanos: 0 }).track == s.track,
        v.session(Duration { nanos: 0 }).position == s.position,
        v.session(Duration { nanos: 0 }).shuffle == s.shuffle,
        v.session(Duration { nanos: 0 }).repeat == s.repeat,
        v.session(Duration { nanos: 0 }).playlist == s.playlist,
        v.session(Duration { nanos: 0 }).folders == s.folders,
        (v.audio matches Some(t) && t.volume == s.volume) ==> v.session(Duration { nanos: 0 }).volume
            == s.volume,
{
}

/// A track that was stopped within the margin of its end starts over, and any other goes
/// on from where it was.
pub proof fn a_finished_track_starts_over(v: PlayerView, played: Duration)
    requires
        v.queue.loaded() is Some,
    ensures
        v.session(played).track == Some(v.queue.loaded()->0.path),
        v.finished(played) ==> v.session(played).position.nanos == 0,
        !v.finished(played) ==> v.session(played).position == played,
{
}

/// A session that is compared with itself has nothing to write, so a player that does
/// nothing writes nothing.
pub proof fn an_idle_player_writes_nothing(s: state::StateModel)
    requires
        s.volume.is_number(),
        s.window matches Some(w) ==> w.x.is_number() && w.y.is_number() && w.width.is_number()
            && w.height.is_number(),
    ensures
        same_session(s, s),
{
}

/// Moving on a chapter and then back, while still within a few seconds of its start, comes
/// back to the chapter it started from.
pub proof fn back_undoes_a_skip(v: PlayerView, i: int)
    requires
        0 <= i < v.chapter_list().len() - 1,
        forall|a: int, b: int|
            0 <= a < b < v.chapter_list().len() ==> (#[trigger] v.chapter_list()[a]).start.nanos < (
            #[trigger] v.chapter_list()[b]).start.nanos,
    ensures
        PlayerView::skips_ahead(
            v,
            v.chapter_list()[i].start,
            v,
            Action::Seek(v.chapter_list()[i + 1].start),
        ),
        PlayerView::skips_back(
            v,
            v.chapter_list()[i + 1].start,
            v.chapter_list()[i + 1].start,
            v,
            Action::Seek(v.chapter_list()[i].start),
        ),
{
    let chapters = v.chapter_list();
    chapter_in_is_right(chapters, chapters[i].start);
    chapter_in_is_right(chapters, chapters[i + 1].start);
    let a = chapter_in(chapters, chapters[i].start);
    let b = chapter_in(chapters, chapters[i + 1].start);
    assert(a == i) by {
        if a < i {
            assert(chapters[i].start.nanos > chapters[i].start.nanos);
        } else if a > i {
            assert(chapters[i].start.nanos < chapters[a].start.nanos);
        }
    }
    assert(b == i + 1) by {
        if b < i + 1 {
            assert(chapters[i + 1].start.nanos > chapters[i + 1].start.nanos);
        } else if b > i + 1 {
            assert(chapters[i + 1].start.nanos < chapters[b].start.nanos);
        }
    }
}

/// What is kept of the place in a track, in plain numbers: of a track that says how long it
/// is and has five seconds left or less, the start; of any other, and of one that does not
/// say, where it was stopped.
pub proof fn the_last_five_seconds_are_the_end(v: PlayerView, played: Duration, i: usize)
    requires
        v.queue.current == Some(i),
        i < v.queue.tracks@.len(),
    ensures
        v.session(played).track == Some(v.queue.tracks@[i as int].path@),
        v.queue.tracks@[i as int].duration.nanos > 0 && played.nanos + 5_000_000_000
            >= v.queue.tracks@[i as int].duration.nanos ==> v.session(played).position.nanos == 0,
        v.queue.tracks@[i as int].duration.nanos == 0 || played.nanos + 5_000_000_000
            < v.queue.tracks@[i as int].duration.nanos ==> v.session(played).position.nanos
            == played.nanos,
{
}

/// With nothing loaded, the track and the place that are waited for stay those of the
/// session, and without any there are none. Whatever is loaded, the session has the volume,
/// the modes, the panel, the folders in their order and the window as they are.
pub proof fn a_session_is_what_the_player_shows(v: PlayerView, played: Duration, i: int)
    ensures
        v.queue.current is None && v.resume is Some ==> v.session(played).track == Some(
            v.resume->0.path@,
        ) && v.session(played).position == v.resume->0.position,
        v.queue.current is None && v.resume is None ==> v.session(played).track is None && v.session(
            played,
        ).position.nanos == 0,
        v.audio matches Some(audio) ==> v.session(played).volume == audio.volume,
        v.audio is None ==> v.session(played).volume.bits == 0x3f33_3333,
        v.session(played).shuffle == v.queue.shuffle,
        v.session(played).repeat == v.queue.repeat,
        v.session(played).playlist == v.show_playlist,
        v.session(played).window == Some(v.window),
        v.session(played).folders.len() == v.folders@.len(),
        0 <= i < v.folders@.len() ==> v.session(played).folders[i] == v.folders@[i].path@,
{
}

/// Moving on loads the track that follows, from its start and to be heard, and gives up
/// waiting for the last session; where none follows the sound stops and nothing is loaded
/// any more. Nothing else changes.
pub proof fn moving_on_plays_what_follows(
    before: PlayerView,
    manual: bool,
    now: PlayerView,
    a: Action,
)
    requires
        PlayerView::moves_on(before, manual, now, a),
    ensures
        before.queue.following(manual) is Some ==> {
            let next = before.queue.following(manual)->0;
            &&& now.resume is None
            &&& now.queue == before.queue
            &&& now.audio == before.audio
            &&& next < before.queue.tracks@.len() && before.audio is Some ==> {
                &&& a matches Action::Load(load)
                &&& load.index == next
                &&& load.path@ == before.queue.tracks@[next as int].path@
                &&& load.at.nanos == 0
                &&& load.audible
            }
            &&& next >= before.queue.tracks@.len() || before.audio is None ==> a is Nothing
        },
        before.queue.following(manual) is None ==> {
            &&& a is Stop
            &&& now.queue == before.queue
            &&& now.resume == before.resume
            &&& now.audio is Some <==> before.audio is Some
            &&& now.audio matches Some(audio) ==> !audio.loaded && !audio.playing && audio.volume
                == before.audio->0.volume
        },
        now.show_playlist == before.show_playlist && now.folders == before.folders && now.error
            == before.error && now.window == before.window && now.music_dir == before.music_dir,
{
}

/// Going back more than three seconds in starts the track over; before that the track
/// before it plays from its start, to be heard, and where there is none nothing happens.
pub proof fn going_back_starts_over_or_goes_to_the_one_before(
    before: PlayerView,
    shown: Duration,
    now: PlayerView,
    a: Action,
)
    requires
        PlayerView::goes_back(before, shown, now, a),
    ensures
        shown.nanos > 3_000_000_000 ==> now == before && a == Action::Seek(Duration { nanos: 0 }),
        shown.nanos <= 3_000_000_000 && before.queue.preceding() is None ==> now == before && a
            is Nothing,
        shown.nanos <= 3_000_000_000 && before.queue.preceding() is Some ==> {
            let last = before.queue.preceding()->0;
            &&& now.resume is None
            &&& now.queue == before.queue
            &&& now.audio == before.audio
            &&& last < before.queue.tracks@.len() && before.audio is Some ==> {
                &&& a matches Action::Load(load)
                &&& load.index == last
                &&& load.path@ == before.queue.tracks@[last as int].path@
                &&& load.at.nanos == 0
                &&& load.audible
            }
        },
{
}

/// In a file with chapters, next goes to the start of the chapter after the one that is
/// playing, and behind the last of them to the next track; previous goes to the start of
/// the chapter once it has played for more than three seconds, before that to the start of
/// the chapter before it, and in the first chapter it goes back as in any other file. In a
/// file without chapters they go from track to track.
pub proof fn skipping_goes_from_chapter_to_chapter(
    before: PlayerView,
    pos: Duration,
    shown: Duration,
    now: PlayerView,
    a: Action,
    c: usize,
    i: int,
)
    requires
        before.queue.current == Some(c),
        c < before.queue.tracks@.len(),
        ({
            let chapters = before.queue.tracks@[c as int].chapters@;
            &&& 0 <= i < chapters.len()
            &&& i > 0 ==> chapters[i].start.nanos <= pos.nanos
            &&& forall|j: int| i < j < chapters.len() ==> (#[trigger] chapters[j]).start.nanos > pos.nanos
        }),
    ensures
        ({
            let chapters = before.queue.tracks@[c as int].chapters@;
            &&& i + 1 < chapters.len() && PlayerView::skips_ahead(before, pos, now, a) ==> now
                == before && a == Action::Seek(chapters[i + 1].start)
            &&& i + 1 == chapters.len() && PlayerView::skips_ahead(before, pos, now, a)
                ==> PlayerView::moves_on(before, true, now, a)
            &&& pos.nanos > chapters[i].start.nanos + 3_000_000_000 && PlayerView::skips_back(
                before,
                pos,
                shown,
                now,
                a,
            ) ==> now == before && a == Action::Seek(chapters[i].start)
            &&& pos.nanos <= chapters[i].start.nanos + 3_000_000_000 && i > 0
                && PlayerView::skips_back(before, pos, shown, now, a) ==> now == before && a
                == Action::Seek(chapters[i - 1].start)
            &&& pos.nanos <= chapters[i].start.nanos + 3_000_000_000 && i == 0
                && PlayerView::skips_back(before, pos, shown, now, a) ==> PlayerView::goes_back(
                before,
                shown,
                now,
                a,
            )
        }),
{
    let chapters = before.queue.tracks@[c as int].chapters@;
    let list = before.chapter_list();
    assert(list.len() == chapters.len());
    assert forall|j: int| 0 <= j < chapters.len() implies (#[trigger] list[j]) == chapters[j]@ by {}
    chapter_in_is_right(list, pos);
    let k = chapter_in(list, pos);
    if k < i {
        assert(list[i].start.nanos > pos.nanos);
        assert(list[i] == chapters[i]@);
    } else if k > i {
        assert(chapters[k].start.nanos > pos.nanos);
        assert(list[k] == chapters[k]@);
    }
    assert(list[i] == chapters[i]@);
    if i > 0 {
        assert(list[i - 1] == chapters[i - 1]@);
    }
    if i + 1 < chapters.len() {
        assert(list[i + 1] == chapters[i + 1]@);
    }
}

/// Where the loaded track has no chapters, or nothing is loaded, skipping goes from track
/// to track.
pub proof fn without_chapters_skipping_goes_from_track_to_track(
    before: PlayerView,
    pos: Duration,
    shown: Duration,
    now: PlayerView,
    a: Action,
)
    requires
        before.queue.current matches Some(c) ==> c < before.queue.tracks@.len()
            && before.queue.tracks@[c as int].chapters@.len() == 0,
    ensures
        PlayerView::skips_ahead(before, pos, now, a) ==> PlayerView::moves_on(before, true, now, a),
        PlayerView::skips_back(before, pos, shown, now, a) ==> PlayerView::goes_back(
            before,
            shown,
            now,
            a,
        ),
{
}

/// The stretch that is shown is the chapter that is playing, and the whole file where it
/// has none; with nothing loaded it is empty.
pub proof fn the_stretch_shown_is_the_chapter(v: PlayerView, pos: Duration, c: usize, i: int)
    requires
        v.queue.current == Some(c),
        c < v.queue.tracks@.len(),
    ensures
        ({
            let t = v.queue.tracks@[c as int];
            &&& t.chapters@.len() == 0 ==> v.span(pos).0.nanos == 0 && v.span(pos).1 == t.duration
            &&& 0 <= i < t.chapters@.len() && (i > 0 ==> t.chapters@[i].start.nanos <= pos.nanos)
                && (forall|j: int|
                i < j < t.chapters@.len() ==> (#[trigger] t.chapters@[j]).start.nanos > pos.nanos)
                ==> v.chapter_now(pos) == Some(i) && v.span(pos).0 == t.chapters@[i].start && v.span(
                pos,
            ).1 == t.chapters@[i].end
            &&& t.chapters@.len() == 0 ==> v.chapter_now(pos) is None
            &&& v.length() == t.duration
        }),
{
    let t = v.queue.tracks@[c as int];
    let list = v.chapter_list();
    assert(list.len() == t.chapters@.len());
    assert forall|j: int| 0 <= j < list.len() implies (#[trigger] list[j]) == t.chapters@[j]@ by {}
    if 0 <= i < t.chapters@.len() && (i > 0 ==> t.chapters@[i].start.nanos <= pos.nanos) && (forall|
        j: int,
    |
        i < j < t.chapters@.len() ==> (#[trigger] t.chapters@[j]).start.nanos > pos.nanos) {
        chapter_in_is_right(list, pos);
        let k = chapter_in(list, pos);
        assert(list[i] == t.chapters@[i]@);
        assert(list[k] == t.chapters@[k]@);
        if k < i {
            assert(list[i].start.nanos > pos.nanos);
        } else if k > i {
            assert(t.chapters@[k].start.nanos > pos.nanos);
        }
    }
}

/// Playing and pausing: what sounds fades out, what is loaded and silent fades in, a queue
/// with nothing loaded starts with its first track, and an empty one does nothing.
pub proof fn toggling_turns_the_sound_round(
    before: PlayerView,
    empty: bool,
    now: PlayerView,
    a: Action,
)
    requires
        PlayerView::toggles(before, empty, now, a),
    ensures
        before.queue.current is Some ==> now == before && a == Action::Fade(
            !(before.audio is Some && before.audio->0.loaded && before.audio->0.playing && !empty),
        ),
        before.queue.current is None && before.queue.tracks@.len() == 0 ==> now == before && a
            is Nothing,
        before.queue.current is None && before.queue.tracks@.len() > 0 ==> {
            &&& now == (PlayerView { resume: None, ..before })
            &&& before.audio is Some ==> {
                &&& a matches Action::Load(load)
                &&& load.index == 0
                &&& load.path@ == before.queue.tracks@[0].path@
                &&& load.at.nanos == 0
                &&& load.audible
            }
            &&& before.audio is None ==> a is Nothing
        },
{
}

/// A session that is waited for is picked up as soon as its file is in the queue: where it
/// was left, and silent. As long as the file is not there it is waited for.
pub proof fn a_session_is_picked_up_silently(
    v: PlayerView,
    waiting: Option<Resume>,
    a: Action,
    i: usize,
)
    requires
        v.resumed(waiting, a),
    ensures
        waiting is None ==> v.resume is None && a is Nothing,
        waiting is Some && i < v.queue.tracks@.len() && path::same_place(
            v.queue.tracks@[i as int].path@,
            waiting->0.path@,
        ) ==> {
            &&& v.resume is None
            &&& v.audio is Some ==> {
                &&& a matches Action::Load(load)
                &&& load.index <= i
                &&& path::same_place(load.path@, waiting->0.path@)
                &&& load.path@ == v.queue.tracks@[load.index as int].path@
                &&& load.at == waiting->0.position
                &&& !load.audible
            }
            &&& v.audio is None ==> a is Nothing
        },
        waiting is Some && (forall|j: int|
            0 <= j < v.queue.tracks@.len() ==> !path::same_place(
                (#[trigger] v.queue.tracks@[j]).path@,
                waiting->0.path@,
            )) ==> v.resume == waiting && a is Nothing,
{
    if let Some(resume) = waiting {
        let models = v.queue.models();
        queue::place_is_first(models, resume.path@);
        let k = queue::place_of(models, resume.path@);
        assert(models.len() == v.queue.tracks@.len());
        if i < models.len() {
            assert(models[i as int] == v.queue.tracks@[i as int]@);
        }
        if k < models.len() {
            assert(models[k] == v.queue.tracks@[k]@);
            assert(v.queue.tracks.len() == v.queue.tracks@.len());
        }
    }
}

/// A session is written again as soon as anything in it has changed: the track, the
/// position, the volume, a mode, the panel, the folders or the window.
pub proof fn every_change_is_written(a: state::StateModel, b: state::StateModel, i: int)
    ensures
        same_session(a, b) ==> {
            &&& a.track is Some <==> b.track is Some
            &&& a.track is Some ==> path::same_place(a.track->0, b.track->0)
            &&& a.position.nanos == b.position.nanos
            &&& a.volume.is_number() && b.volume.is_number() && a.volume.rank() == b.volume.rank()
            &&& a.shuffle == b.shuffle && a.repeat == b.repeat && a.playlist == b.playlist
            &&& a.folders.len() == b.folders.len()
            &&& 0 <= i < a.folders.len() ==> path::same_place(a.folders[i], b.folders[i])
            &&& a.window is Some <==> b.window is Some
            &&& a.window is Some ==> {
                let (x, y) = (a.window->0, b.window->0);
                &&& x.x.rank() == y.x.rank() && x.y.rank() == y.y.rank()
                &&& x.width.rank() == y.width.rank() && x.height.rank() == y.height.rank()
            }
        },
        same_session(a, b) ==> same_session(b, a),
{
    if same_session(a, b) {
        if 0 <= i < a.folders.len() {
            assert(path::same_place(a.folders[i], b.folders[i]));
        }
        assert forall|j: int| 0 <= j < b.folders.len() implies path::same_place(
            #[trigger] b.folders[j],
            a.folders[j],
        ) by {
            assert(path::same_place(a.folders[j], b.folders[j]));
        }
    }
}

/// How long things take: a session is written every five seconds, a fade takes 180
/// milliseconds in fifteen steps.
pub proof fn these_are_the_times()
    ensures
        secs(SAVE_EVERY) == 5_000_000_000,
        secs(RESUME_MARGIN) == 5_000_000_000,
        secs(BACK_WITHIN) == 3_000_000_000,
        FADE == 180,
        FADE / FADE_STEP == 15,
{
}

/// A player that was set up and has played nothing yet keeps the session it was set up
/// from, unless files were named: then their tracks are what was asked for. Nothing is
/// heard, nothing is queued, and there is nothing to write.
pub proof fn a_new_player_has_the_last_session(
    files_named: bool,
    s: State,
    music_dir: Option<FilePath>,
    device: Result<(), String>,
    window: Window,
    v: PlayerView,
    played: Duration,
    empty: bool,
    i: int,
)
    requires
        PlayerView::starts(files_named, s, music_dir, device, window, v),
    ensures
        v.queue.tracks@.len() == 0,
        v.queue.current is None,
        !v.sounds(empty),
        device is Err ==> v.error == Some(device->Err_0),
        device is Ok ==> v.error is None && v.session(played).volume == s.volume,
        !files_named && s.track is Some ==> v.session(played).track == Some(s.track->0@)
            && v.session(played).position == s.position,
        files_named || s.track is None ==> v.session(played).track is None,
        v.session(played).shuffle == s.shuffle,
        v.session(played).repeat == s.repeat,
        v.session(played).playlist == s.playlist,
        v.session(played).window == Some(window),
        v.session(played).folders.len() == s.folders@.len(),
        0 <= i < s.folders@.len() ==> v.session(played).folders[i] == s.folders@[i]@
            && v.folders@[i].available,
        v.music_dir == music_dir,
        !v.show_folders && !v.show_loved && !v.closing,
        v.saved@ == s@,
{
    let views = folders::folder_views(v.folders@);
    let places = path::views(s.folders@);
    let f = |p: Seq<u8>| folders::reachable(p);
    assert(views == places.map_values(f));
    assert(views.len() == places.len());
    if 0 <= i < s.folders@.len() {
        assert(views[i] == f(places[i]));
        assert(views[i] == v.folders@[i]@);
    }
}

/// A track that could be loaded is the current one, its sound is what was asked for, and
/// no error is shown any more. One that could not be loaded changes nothing but the error.
pub proof fn loading_makes_a_track_current(
    before: PlayerView,
    index: usize,
    audible: bool,
    result: Result<(), String>,
    now: PlayerView,
)
    requires
        PlayerView::opens(before, index, audible, result, now),
    ensures
        result is Ok ==> {
            &&& now.queue.current == Some(index)
            &&& now.queue.tracks == before.queue.tracks
            &&& now.error is None
            &&& before.audio is Some ==> {
                &&& now.sounds(false) == audible
                &&& !now.sounds(true)
                &&& now.audio->0.loaded
                &&& now.audio->0.volume == before.audio->0.volume
                &&& now.audio->0.fade.bits == 0x3f80_0000u32
            }
            &&& before.audio is None ==> now.audio is None
            &&& now.resume == before.resume && now.saved == before.saved
        },
        result is Err ==> {
            &&& now.error == Some(result->Err_0)
            &&& now == (PlayerView { error: now.error, ..before })
        },
{
}

/// Tracks that arrive join the end of the queue, in their order, unless one is at the same
/// place already: afterwards the queue has every one of them, and what it had before. Where
/// a track is loaded already it plays on; otherwise the first of the queue plays, or the
/// last session is picked up silently.
pub proof fn what_arrives_joins_the_queue(
    before: PlayerView,
    tracks: Seq<Track>,
    autoplay: bool,
    now: PlayerView,
    r: Arrival,
    i: int,
    j: int,
)
    requires
        PlayerView::takes_tracks(before, tracks, autoplay, now, r),
    ensures
        0 <= i < tracks.len() ==> (exists|k: int|
            0 <= k < now.queue.tracks@.len() && path::same_place(
                tracks[i].path@,
                (#[trigger] now.queue.tracks@[k]).path@,
            )),
        now.queue.tracks@.len() >= before.queue.tracks@.len(),
        0 <= j < before.queue.tracks@.len() ==> now.queue.tracks@[j]@ == before.queue.tracks@[j]@,
        before.queue.tracks@.len() <= j < now.queue.tracks@.len() ==> {
            &&& (exists|k: int| 0 <= k < tracks.len() && #[trigger] tracks[k]@ == now.queue.tracks@[j]@)
            &&& (forall|k: int|
                0 <= k < before.queue.tracks@.len() ==> !path::same_place(
                    now.queue.tracks@[j].path@,
                    (#[trigger] before.queue.tracks@[k]).path@,
                ))
        },
        r is Nothing <==> now.queue.tracks@.len() == before.queue.tracks@.len(),
        r is Queued ==> r->Queued_0 == now.queue.tracks@.len() - before.queue.tracks@.len(),
        r is Nothing ==> now == before,
        now.queue.current == before.queue.current,
        r is Queued && before.queue.current is Some ==> r->Queued_1 is Nothing && now.resume
            == before.resume,
        r is Queued && before.queue.current is None && autoplay ==> now.resume is None && (
        before.audio is Some ==> r->Queued_1 is Load && r->Queued_1->Load_0.index == 0
            && r->Queued_1->Load_0.path@ == now.queue.tracks@[0].path@
            && r->Queued_1->Load_0.at.nanos == 0 && r->Queued_1->Load_0.audible),
        r is Queued && before.queue.current is None && !autoplay ==> now.resumed(
            before.resume,
            r->Queued_1,
        ),
{
    let models = track::track_views(tracks);
    let known = before.queue.places();
    let new = |t: TrackModel| !path::among(t.path, before.queue.places());
    let fresh = models.filter(new);
    assert(before.queue.models().len() == before.queue.tracks@.len());
    assert(now.queue.models().len() == now.queue.tracks@.len());
    assert forall|k: int| 0 <= k < before.queue.tracks@.len() implies #[trigger] known[k]
        == before.queue.tracks@[k].path@ by {}
    if fresh.len() == 0 {
        assert(now.queue.models() =~= before.queue.models() + fresh);
    }
    if 0 <= i < tracks.len() {
        assert(models[i] == tracks[i]@);
        if path::among(tracks[i].path@, known) {
            let k = choose|k: int| 0 <= k < known.len() && path::same_place(
                tracks[i].path@,
                #[trigger] known[k],
            );
            assert(now.queue.models()[k] == before.queue.models()[k]);
            assert(before.queue.models()[k] == before.queue.tracks@[k]@);
            assert(now.queue.models()[k] == now.queue.tracks@[k]@);
            assert(now.queue.tracks@[k].path@ == known[k]);
        } else {
            kept_is_there(models, new, i);
            let k = choose|k: int| 0 <= k < fresh.len() && fresh[k] == models[i];
            let at = before.queue.models().len() + k;
            assert(now.queue.models()[at] == fresh[k]);
            assert(now.queue.models()[at] == now.queue.tracks@[at]@);
        }
    }
    if 0 <= j < before.queue.tracks@.len() {
        assert(now.queue.models()[j] == before.queue.models()[j]);
        assert(before.queue.models()[j] == before.queue.tracks@[j]@);
        assert(now.queue.models()[j] == now.queue.tracks@[j]@);
    }
    if before.queue.tracks@.len() <= j < now.queue.tracks@.len() {
        let k = j - before.queue.tracks@.len();
        assert(now.queue.models()[j] == fresh[k]);
        assert(now.queue.models()[j] == now.queue.tracks@[j]@);
        kept_was_there(models, new, k);
        let m = choose|m: int| 0 <= m < models.len() && models[m] == fresh[k];
        assert(models[m] == tracks[m]@);
        assert forall|q: int| 0 <= q < before.queue.tracks@.len() implies !path::same_place(
            now.queue.tracks@[j].path@,
            (#[trigger] before.queue.tracks@[q]).path@,
        ) by {
            assert(known[q] == before.queue.tracks@[q].path@);
        }
    }
}

proof fn kept_is_there(s: Seq<TrackModel>, keep: spec_fn(TrackModel) -> bool, i: int)
    requires
        0 <= i < s.len(),
        keep(s[i]),
    ensures
        s.filter(keep).contains(s[i]),
    decreases s.len(),
{
    reveal(Seq::filter);
    let front = s.drop_last();
    let all = s.filter(keep);
    if i < front.len() {
        kept_is_there(front, keep, i);
        let k = choose|k: int| 0 <= k < front.filter(keep).len() && front.filter(keep)[k] == s[i];
        assert(all[k] == s[i]);
    } else {
        assert(all[all.len() - 1] == s[i]);
    }
}

proof fn kept_was_there(s: Seq<TrackModel>, keep: spec_fn(TrackModel) -> bool, k: int)
    requires
        0 <= k < s.filter(keep).len(),
    ensures
        keep(s.filter(keep)[k]),
        exists|i: int| 0 <= i < s.len() && s[i] == s.filter(keep)[k],
    decreases s.len(),
{
    reveal(Seq::filter);
    if s.len() > 0 {
        let front = s.drop_last();
        if k < front.filter(keep).len() {
            kept_was_there(front, keep, k);
            let i = choose|i: int| 0 <= i < front.len() && front[i] == front.filter(keep)[k];
            assert(s[i] == s.filter(keep)[k]);
        } else {
            assert(s[s.len() - 1] == s.filter(keep)[k]);
        }
    }
}

/// What has passed of a stretch and what is left of it make up the whole of it, whatever
/// position is shown; and a position within it is as far in as it is past the beginning.
pub proof fn what_has_passed_and_what_is_left_are_the_whole(
    v: PlayerView,
    pos: Duration,
    shown: Duration,
    passed: Duration,
    left: Duration,
)
    requires
        v.into_span(pos, shown, passed),
        v.left_of_span(pos, shown, left),
    ensures
        v.span(pos).0.nanos <= v.span(pos).1.nanos ==> passed.nanos + left.nanos == v.span(
            pos,
        ).1.nanos - v.span(pos).0.nanos,
        v.span(pos).0.nanos > v.span(pos).1.nanos ==> passed.nanos == 0 && left.nanos == 0,
        v.span(pos).0.nanos <= shown.nanos <= v.span(pos).1.nanos ==> v.span(pos).0.nanos
            + passed.nanos == shown.nanos,
        shown.nanos <= v.span(pos).0.nanos ==> passed.nanos == 0,
        shown.nanos >= v.span(pos).1.nanos ==> left.nanos == 0,
{
}

/// A session that differs from the one written last is handed out for writing, as it is,
/// and one that does not is not; a second look at the same session writes nothing.
pub proof fn a_session_is_written_once(
    before: PlayerView,
    snapshot: state::StateModel,
    now: PlayerView,
    r: Option<State>,
    after: PlayerView,
    again: Option<State>,
)
    requires
        PlayerView::saves(before, snapshot, now, r),
        PlayerView::saves(now, snapshot, after, again),
        snapshot.volume.is_number(),
        snapshot.window matches Some(w) ==> w.x.is_number() && w.y.is_number()
            && w.width.is_number() && w.height.is_number(),
    ensures
        r is None <==> same_session(snapshot, before.saved@),
        r is Some ==> r->0@ == snapshot && now.saved@ == snapshot,
        now == (PlayerView { saved: now.saved, ..before }),
        r is None ==> now == before,
        again is None,
        after == now,
{
    an_idle_player_writes_nothing(snapshot);
}

/// A track that was loaded is over when the device has run out of sound, and what follows
/// it plays then. As long as something is heard the window is painted anew, and a player
/// that is paused or has nothing loaded stays as it is.
pub proof fn the_clock_ends_a_track(before: PlayerView, empty: bool, now: PlayerView, t: Tick)
    requires
        PlayerView::ticks(before, empty, now, t),
    ensures
        t is Over <==> before.audio is Some && before.audio->0.loaded && empty,
        t is Over ==> PlayerView::moves_on(before, false, now, t->Over_0),
        t !is Over ==> now == before,
        t is Repaint <==> before.audio is Some && before.audio->0.loaded && before.audio->0.playing
            && !empty,
{
}

/// Easing the sound in or out turns what is heard and nothing else.
pub proof fn easing_turns_the_sound(before: PlayerView, audible: bool, now: PlayerView)
    requires
        PlayerView::fades(before, audible, now),
    ensures
        before.audio is Some && before.audio->0.loaded ==> now.sounds(false) == audible,
        before.audio is None ==> now == before,
        before.audio is Some ==> now.audio == Some(
            Audio { playing: audible, ..before.audio->0 },
        ),
        now == (PlayerView { audio: now.audio, ..before }),
{
}

/// A press of the heart that was written turns the heart of the loaded track and of no
/// other, and pressing it again turns it back. One that could not be written changes
/// nothing but the error.
pub proof fn a_second_press_undoes_the_first(
    v: PlayerView,
    first: Press,
    now: PlayerView,
    second: Press,
    after: PlayerView,
    i: int,
    index: usize,
    failure: String,
    failed: PlayerView,
)
    requires
        v.queue.current == Some(index),
        index < v.queue.tracks@.len(),
        v.presses(Some(first)),
        PlayerView::hearts(v, first, Ok(()), now),
        now.presses(Some(second)),
        PlayerView::hearts(now, second, Ok(()), after),
        PlayerView::hearts(v, first, Err(failure), failed),
    ensures
        first.index == index,
        first.path@ == v.queue.tracks@[index as int].path@,
        now.queue.tracks@.len() == v.queue.tracks@.len(),
        now.queue.tracks@[index as int]@ == (TrackModel {
            loved: !v.queue.tracks@[index as int].loved,
            ..v.queue.tracks@[index as int]@
        }),
        0 <= i < v.queue.tracks@.len() && i != index ==> now.queue.tracks@[i]@
            == v.queue.tracks@[i]@,
        0 <= i < v.queue.tracks@.len() ==> after.queue.tracks@[i]@ == v.queue.tracks@[i]@,
        now.queue.current == v.queue.current,
        now.error is None,
        failed.error is Some && failed.error->0@ == "could not write the heart onto the file: "@
            + failure@,
        failed.queue == v.queue,
        failed == (PlayerView { error: failed.error, ..v }),
{
    let (a, b, c) = (v.queue.models(), now.queue.models(), after.queue.models());
    let k = index as int;
    assert(a[k] == v.queue.tracks@[k]@);
    assert(b.len() == a.len() && b.len() == now.queue.tracks@.len());
    assert(b[k] == now.queue.tracks@[k]@);
    assert(c.len() == b.len() && c.len() == after.queue.tracks@.len());
    assert(c[k] == after.queue.tracks@[k]@);
    if 0 <= i < a.len() {
        assert(a[i] == v.queue.tracks@[i]@);
        assert(b[i] == now.queue.tracks@[i]@);
        assert(c[i] == after.queue.tracks@[i]@);
    }
}

/// Without a loaded track there is no heart to press.
pub proof fn nothing_loaded_has_no_heart(v: PlayerView, r: Option<Press>)
    requires
        v.presses(r),
    ensures
        r is None <==> v.queue.current is None || v.queue.current->0 >= v.queue.tracks@.len(),
{
}

/// What is heard fades before the window closes: the first request turns the sound off and
/// waits, and the second closes at once. Where nothing is heard it closes straight away.
pub proof fn the_sound_fades_before_closing(
    before: PlayerView,
    empty: bool,
    now: PlayerView,
    at_once: bool,
    after: PlayerView,
    second: bool,
)
    requires
        PlayerView::closes(before, empty, now, at_once),
        PlayerView::closes(now, empty, after, second),
    ensures
        now.closing,
        !at_once ==> !before.closing && before.sounds(empty) && !now.sounds(empty),
        before.closing || !before.sounds(empty) ==> at_once,
        !before.closing && before.sounds(empty) && before.audio->0.fade.is_number()
            && before.audio->0.fade.rank() > 0 ==> !at_once,
        at_once ==> now == (PlayerView { closing: true, ..before }),
        now == (PlayerView { closing: true, audio: now.audio, ..before }),
        second && after == now,
{
}

/// The desktop's command to play never silences the player, and the command to pause never
/// starts it; toggling turns the sound round. A volume that is asked for is brought into
/// range. Next and previous are what the listener's own are.
pub proof fn the_desktop_is_obeyed(
    before: PlayerView,
    command: Command,
    pos: Duration,
    shown: Duration,
    empty: bool,
    now: PlayerView,
    a: Action,
)
    requires
        PlayerView::obeys(before, command, pos, shown, empty, now, a),
        before.queue.current is Some,
    ensures
        command is Play && !before.sounds(empty) ==> a == Action::Fade(true),
        command is Pause && before.sounds(empty) ==> a == Action::Fade(false),
        command is TogglePlay ==> a == Action::Fade(!before.sounds(empty)),
        command is Play && before.sounds(empty) ==> a is Nothing,
        command is Pause && !before.sounds(empty) ==> a is Nothing,
        command is Play || command is Pause || command is TogglePlay ==> now == before,
        command is Next ==> PlayerView::skips_ahead(before, pos, now, a),
        command is Previous ==> PlayerView::skips_back(before, pos, shown, now, a),
        command is SetVolume ==> a is Nothing && PlayerView::turns(
            before,
            command->SetVolume_0,
            now,
        ),
{
}

/// Setting the volume sets it, brought into the range of none to all, and nothing else.
pub proof fn the_volume_is_set(before: PlayerView, volume: Single, now: PlayerView)
    requires
        PlayerView::turns(before, volume, now),
        before.audio is Some,
        volume.is_number(),
    ensures
        now.audio is Some,
        0 <= volume.rank() <= 0x3f80_0000 ==> now.audio->0.volume.equal(volume),
        volume.rank() < 0 ==> now.audio->0.volume.rank() == 0,
        volume.rank() > 0x3f80_0000 ==> now.audio->0.volume.bits == 0x3f80_0000,
        now.audio == Some(Audio { volume: now.audio->0.volume, ..before.audio->0 }),
        now == (PlayerView { audio: now.audio, ..before }),
{
}

/// The desktop is shown what is heard, how loud, and the names and the length of the loaded
/// track.
pub proof fn the_desktop_sees_the_loaded_track(
    v: PlayerView,
    empty: bool,
    s: mpris::State,
    i: usize,
)
    requires
        v.appears(empty, s),
    ensures
        s.playing == (v.audio is Some && v.audio->0.loaded && v.audio->0.playing && !empty),
        v.audio is Some ==> s.volume == v.audio->0.volume,
        v.audio is None ==> s.volume.bits == 0,
        v.queue.current is None ==> s.track is None,
        v.queue.current == Some(i) && i < v.queue.tracks@.len() ==> {
            &&& s.track is Some
            &&& s.track->0.index == i
            &&& s.track->0.title@ == v.queue.tracks@[i as int].title@
            &&& s.track->0.artist@ == v.queue.tracks@[i as int].artist@
            &&& s.track->0.album@ == v.queue.tracks@[i as int].album@
            &&& s.track->0.duration == v.queue.tracks@[i as int].duration
        },
{
}

/// The session is looked at every five seconds.
pub proof fn a_session_is_due_every_five_seconds(elapsed: Duration)
    ensures
        PlayerView::due(elapsed) <==> elapsed.nanos >= 5_000_000_000,
{
}

} // verus!
