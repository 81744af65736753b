//! What the desktop is shown over MPRIS, the D-Bus interface to media players, and
//! what it can ask for.
//!
//! Only the transport controls are exposed: play, pause, next, previous and volume.

use crate::single::Single;
use crate::text;
use crate::text::{decimal_text, join_text, same_text};
use crate::time::{Duration, NANOS_PER_MICRO};
use vstd::prelude::*;

verus! {

/// Where the player is found on the bus.
pub const PATH: &'static str = "/org/mpris/MediaPlayer2";

pub const BUS_NAME: &'static str = "org.mpris.MediaPlayer2.hark";

/// What the desktop asked the player to do.
#[derive(Clone, Copy, PartialEq, Eq, Structural, Debug)]
pub enum Command {
    TogglePlay,
    Play,
    Pause,
    Next,
    Previous,
    SetVolume(Single),
}

/// What the desktop mirrors of the player. Every change to it is announced, so the
/// position, which moves all the time, is not part of it.
pub struct State {
    pub playing: bool,
    pub volume: Single,
    pub track: Option<TrackInfo>,
}

pub struct TrackInfo {
    /// The place in the queue, which tells tracks apart on the bus.
    pub index: usize,
    pub title: String,
    pub artist: String,
    pub album: String,
    pub duration: Duration,
}

/// What a track on the bus is.
#[verifier::ext_equal]
pub struct InfoModel {
    pub index: usize,
    pub title: Seq<char>,
    pub artist: Seq<char>,
    pub album: Seq<char>,
    pub duration: Duration,
}

impl View for TrackInfo {
    type V = InfoModel;

    open spec fn view(&self) -> InfoModel {
        InfoModel {
            index: self.index,
            title: self.title@,
            artist: self.artist@,
            album: self.album@,
            duration: self.duration,
        }
    }
}

/// What the desktop is shown, when there is a track.
pub open spec fn info_view(track: Option<TrackInfo>) -> Option<InfoModel> {
    match track {
        Some(track) => Some(track@),
        None => None,
    }
}

/// How many whole microseconds a span has.
pub open spec fn micros(d: Duration) -> int {
    d.nanos as int / NANOS_PER_MICRO as int
}

/// What the desktop calls the state of playback.
pub open spec fn status(playing: bool, track: Option<InfoModel>) -> Seq<char> {
    match track {
        None => "Stopped"@,
        Some(_) => if playing {
            "Playing"@
        } else {
            "Paused"@
        },
    }
}

/// What the desktop shows of a track.
pub struct Metadata {
    /// `mpris:trackid`, an object path that changes when the track does.
    pub track_id: String,
    /// `mpris:length`, in microseconds.
    pub length: i64,
    /// `xesam:title`.
    pub title: String,
    /// `xesam:artist`.
    pub artists: Vec<String>,
    /// `xesam:album`.
    pub album: String,
}

/// The object path of a track.
pub open spec fn track_path(index: usize) -> Seq<char> {
    PATH@ + "/track/"@ + text::decimal(index as nat)
}

/// Whether a character can be part of a name in an object path.
pub open spec fn name_char(c: char) -> bool {
    ('a' <= c && c <= 'z') || ('A' <= c && c <= 'Z') || ('0' <= c && c <= '9') || c == '_'
}

/// Whether a text is an object path: names with a slash before each, or a lone slash.
pub open spec fn object_path(s: Seq<char>) -> bool {
    &&& s.len() > 0
    &&& s[0] == '/'
    &&& s.len() > 1 ==> s.last() != '/'
    &&& forall|i: int| 0 <= i < s.len() ==> name_char(#[trigger] s[i]) || s[i] == '/'
    &&& forall|i: int, j: int|
        0 <= i < s.len() && j == i + 1 && j < s.len() ==> !(#[trigger] s[i] == '/'
            && #[trigger] s[j] == '/')
}

/// `ObjectPath::try_from` of `zvariant`, as `zbus` hands it on: it takes a text exactly
/// when that is an object path.
#[verifier::external_body]
fn is_object_path(s: &str) -> (r: bool)
    ensures
        r == object_path(s@),
{
    zbus::zvariant::ObjectPath::try_from(s).is_ok()
}

/// The object path of a track is one.
pub proof fn track_paths_are_object_paths(index: usize)
    ensures
        object_path(track_path(index)),
{
    reveal_strlit("/org/mpris/MediaPlayer2");
    reveal_strlit("/track/");
    text::decimal_tells(index as nat);
    let digits = text::decimal(index as nat);
    let front = PATH@ + "/track/"@;
    let s = track_path(index);
    assert(front.len() == 30);
    assert forall|i: int| 0 <= i < s.len() implies name_char(#[trigger] s[i]) || s[i] == '/' by {
        if i >= 30 {
            assert(s[i] == digits[i - 30]);
            assert(text::digit(digits[i - 30]));
        }
    }
    assert forall|i: int, j: int| 0 <= i < s.len() && j == i + 1 && j < s.len() implies !(
    #[trigger] s[i] == '/' && #[trigger] s[j] == '/') by {
        if j >= 30 {
            assert(s[j] == digits[j - 30]);
            assert(text::digit(digits[j - 30]));
        }
    }
    assert(s.last() == digits.last());
    assert(text::digit(digits[digits.len() - 1]));
}

impl Default for State {
    fn default() -> (s: State)
        ensures
            !s.playing,
            s.volume.bits == 0,
            s.track is None,
    {
        State { playing: false, volume: Single { bits: 0 }, track: None }
    }
}

impl Clone for TrackInfo {
    fn clone(&self) -> (r: TrackInfo)
        ensures
            r@ == self@,
    {
        TrackInfo {
            index: self.index,
            title: self.title.clone(),
            artist: self.artist.clone(),
            album: self.album.clone(),
            duration: self.duration,
        }
    }
}

impl Clone for State {
    fn clone(&self) -> (r: State)
        ensures
            r.playing == self.playing,
            r.volume == self.volume,
            info_view(r.track) == info_view(self.track),
    {
        State {
            playing: self.playing,
            volume: self.volume,
            track: match &self.track {
                Some(track) => Some(track.clone()),
                None => None,
            },
        }
    }
}

fn same_info(a: &TrackInfo, b: &TrackInfo) -> (r: bool)
    ensures
        r == (a@ == b@),
{
    a.index == b.index && same_text(a.title.as_str(), b.title.as_str()) && same_text(
        a.artist.as_str(),
        b.artist.as_str(),
    ) && same_text(a.album.as_str(), b.album.as_str()) && a.duration == b.duration
}

/// What the desktop is told of the track that is shown.
pub open spec fn describes(s: State, r: Option<Metadata>) -> bool {
    match (s.track, r) {
        (Some(track), Some(m)) => {
            &&& m.track_id@ == track_path(track.index)
            &&& m.length == micros(track.duration) as i64
            &&& m.title@ == track.title@
            &&& m.artists@.len() == 1 && m.artists@[0]@ == track.artist@
            &&& m.album@ == track.album@
        },
        (None, None) => true,
        _ => false,
    }
}

impl State {
    /// Whether the desktop would show the same for both.
    pub open spec fn looks_like(&self, other: State) -> bool {
        &&& self.playing == other.playing
        &&& self.volume.equal(other.volume)
        &&& info_view(self.track) == info_view(other.track)
    }

    fn same(&self, other: &State) -> (r: bool)
        ensures
            r == self.looks_like(*other),
    {
        let same_track = match (&self.track, &other.track) {
            (Some(a), Some(b)) => same_info(a, b),
            (None, None) => true,
            _ => false,
        };
        self.playing == other.playing && self.volume.same(other.volume) && same_track
    }

    /// `Playing`, `Paused`, or `Stopped` when no track is loaded.
    pub fn playback_status(&self) -> (r: String)
        ensures
            r@ == status(self.playing, info_view(self.track)),
    {
        match &self.track {
            None => "Stopped".to_string(),
            Some(_) => if self.playing {
                "Playing".to_string()
            } else {
                "Paused".to_string()
            },
        }
    }

    /// What the desktop shows of the track, if there is one.
    pub fn metadata(&self) -> (r: Option<Metadata>)
        ensures
            describes(*self, r),
    {
        let Some(track) = &self.track else {
            return None;
        };
        let start = join_text(PATH, "/track/");
        let digits = decimal_text(track.index as u128);
        let path = join_text(start.as_str(), digits.as_str());
        proof {
            track_paths_are_object_paths(track.index);
        }
        let track_id = if is_object_path(path.as_str()) {
            path
        } else {
            PATH.to_string()
        };
        #[verifier::truncate]
        let length: i64 = track.duration.as_micros() as i64;
        let mut artists: Vec<String> = Vec::new();
        artists.push(track.artist.clone());
        Some(
            Metadata {
                track_id,
                length,
                title: track.title.clone(),
                artists,
                album: track.album.clone(),
            },
        )
    }
}

/// What was last announced to the desktop.
pub struct Mpris {
    pub announced: State,
}

/// What a state of the player does to what was announced.
pub open spec fn publishes(before: Mpris, state: State, now: Mpris, announce: bool) -> bool {
    &&& announce == !state.looks_like(before.announced)
    &&& announce ==> now.announced == state
    &&& !announce ==> now.announced == before.announced
}

impl Mpris {
    pub fn new() -> (a: Mpris)
        ensures
            !a.announced.playing,
            a.announced.volume.bits == 0,
            a.announced.track is None,
    {
        Mpris { announced: State::default() }
    }

    /// Takes note of the player's state, and tells whether it has to be announced.
    /// Called all the time, so it stays quiet unless something that the desktop
    /// shows has changed.
    pub fn publish(&mut self, state: State) -> (announce: bool)
        ensures
            publishes(*old(self), state, *final(self), announce),
    {
        if state.same(&self.announced) {
            return false;
        }
        self.announced = state;
        true
    }
}

/// A position as the desktop asks for it: in microseconds.
pub fn position_micros(position: Duration) -> (r: u64)
    ensures
        r == micros(position) as u64,
{
    #[verifier::truncate]
    let micros: u64 = position.as_micros() as u64;
    micros
}

/// A state that was announced is not announced again.
pub proof fn nothing_is_announced_twice(s: State)
    requires
        s.volume.is_number(),
    ensures
        s.looks_like(s),
{
}

/// The object paths of different tracks differ.
pub proof fn track_paths_differ(i: usize, j: usize)
    requires
        track_path(i) == track_path(j),
    ensures
        i == j,
{
    let front = PATH@ + "/track/"@;
    let (a, b) = (text::decimal(i as nat), text::decimal(j as nat));
    assert(track_path(i).skip(front.len() as int) =~= a);
    assert(track_path(j).skip(front.len() as int) =~= b);
    text::decimal_tells(i as nat);
    text::decimal_tells(j as nat);
}

/// The desktop is told that playback has stopped exactly when no track is loaded, and
/// otherwise whether it plays or pauses. A track is called by its place in the queue.
pub proof fn the_status_tells_what_happens(playing: bool, track: InfoModel, index: usize)
    ensures
        status(playing, None) == "Stopped"@,
        status(true, Some(track)) == "Playing"@,
        status(false, Some(track)) == "Paused"@,
        track_path(index) == "/org/mpris/MediaPlayer2"@ + "/track/"@ + text::decimal(index as nat),
{
}

/// A change to anything that the desktop shows is announced: whether it plays, the volume,
/// and everything about the track.
pub proof fn every_change_is_announced(a: State, b: State)
    ensures
        a.playing != b.playing ==> !a.looks_like(b),
        a.volume.below(b.volume) || b.volume.below(a.volume) ==> !a.looks_like(b),
        (a.track is Some) != (b.track is Some) ==> !a.looks_like(b),
        a.track is Some && b.track is Some && (a.track->0.index != b.track->0.index
            || a.track->0.title@ != b.track->0.title@ || a.track->0.artist@ != b.track->0.artist@
            || a.track->0.album@ != b.track->0.album@ || a.track->0.duration != b.track->0.duration)
            ==> !a.looks_like(b),
{
}

/// The desktop is told the track's own names, in their places, and its length in
/// microseconds; and nothing where nothing is loaded.
pub proof fn the_desktop_is_told_of_the_track(s: State, r: Option<Metadata>)
    requires
        describes(s, r),
    ensures
        r is Some <==> s.track is Some,
        s.track is Some ==> {
            &&& r->0.title@ == s.track->0.title@
            &&& r->0.album@ == s.track->0.album@
            &&& r->0.artists@.len() == 1
            &&& r->0.artists@[0]@ == s.track->0.artist@
            &&& r->0.track_id@ == track_path(s.track->0.index)
            &&& s.track->0.duration.nanos <= 9_000_000_000_000_000_000 ==> r->0.length
                == s.track->0.duration.nanos as int / 1000
        },
{
}

/// A state that was announced is not announced again, and the next one that looks otherwise
/// is.
pub proof fn a_state_is_announced_once(
    before: Mpris,
    state: State,
    now: Mpris,
    announce: bool,
    after: Mpris,
    again: bool,
)
    requires
        publishes(before, state, now, announce),
        publishes(now, state, after, again),
        state.volume.is_number(),
    ensures
        announce <==> !state.looks_like(before.announced),
        announce ==> now.announced == state,
        !announce ==> now.announced == before.announced,
        !again,
        after.announced == now.announced,
{
}

/// A thousand nanoseconds are a microsecond.
pub proof fn micros_are_counted_whole(n: u64, rest: u64)
    requires
        n <= 18_446_744_073_709_551,
        rest < 1000,
    ensures
        micros(Duration { nanos: (n * 1000 + rest) as u128 }) == n,
{
    assert((n * 1000 + rest) / 1000 == n) by (nonlinear_arith)
        requires
            0 <= rest < 1000,
    ;
}

} // verus!
