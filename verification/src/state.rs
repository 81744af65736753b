//! What the last session was doing, kept in `state.json` under the user's state
//! folder.
//!
//! State, not cache: where the listener stopped cannot be worked out again from
//! anything. Nothing here reports failure. A missing file, a half-written one and
//! one from another version all mean the same: start afresh.
//!
//! Volumes and window edges are single-precision numbers, and a record holds
//! double-precision ones. Each is written as the number it is, and read as the one
//! closest to what stands there.

use crate::artwork;
use crate::artwork::own_folder;
use crate::json;
use crate::json::{Figure, Json};
use crate::meta_cache;
use crate::meta_cache::millis_to_store;
use crate::path;
use crate::path::FilePath;
use crate::precision;
use crate::queue::Repeat;
use crate::single::Single;
use crate::text::same_text;
use crate::time;
use crate::time::Duration;
use serde_json::{Number, Value};
use vstd::prelude::*;
use vstd::utf8::*;

verus! {

/// The volume the player opens at when it has never been told otherwise: 0.7.
pub const DEFAULT_VOLUME: u32 = 0x3f33_3333;

/// Moved when the record's shape changes; another version is ignored and
/// overwritten by the next save.
pub const VERSION: u64 = 1;

/// The window the player opens at when it has nothing to go on: 420 by 690.
pub const DEFAULT_WIDTH: u32 = 0x43d2_0000;

pub const DEFAULT_HEIGHT: u32 = 0x442c_8000;

/// The smallest window the player lays out in: 360 by 560. A stored size under it
/// was not written by a working player.
pub const MIN_WIDTH: u32 = 0x43b4_0000;

pub const MIN_HEIGHT: u32 = 0x440c_0000;

/// Larger than any real display, 10 000, so that a nonsense record cannot open a
/// window that cannot be closed.
pub const MAX_EDGE: u32 = 0x461c_4000;

/// A window: where its corner is and how big it is.
#[derive(Clone, Copy, PartialEq, Eq, Structural, Debug)]
pub struct Window {
    pub x: Single,
    pub y: Single,
    pub width: Single,
    pub height: Single,
}

/// A session.
#[derive(Debug)]
pub struct State {
    /// The file that was loaded. A path rather than a place in the queue, which a
    /// scan rebuilds in an order that nothing stored here can predict.
    pub track: Option<FilePath>,
    /// Where in the *file*, never within a chapter.
    pub position: Duration,
    pub volume: Single,
    pub shuffle: bool,
    pub repeat: Repeat,
    pub playlist: bool,
    /// The library roots the listener added, in the order they were added. The
    /// desktop's music folder is not among them: it is scanned on every start
    /// regardless.
    pub folders: Vec<FilePath>,
    /// `None` when nothing was stored, or when what was stored was absurd.
    pub window: Option<Window>,
}

/// What a session is.
#[verifier::ext_equal]
pub struct StateModel {
    pub track: Option<Seq<u8>>,
    pub position: Duration,
    pub volume: Single,
    pub shuffle: bool,
    pub repeat: Repeat,
    pub playlist: bool,
    pub folders: Seq<Seq<u8>>,
    pub window: Option<Window>,
}

impl View for State {
    type V = StateModel;

    open spec fn view(&self) -> StateModel {
        StateModel {
            track: self.track.deep_view(),
            position: self.position,
            volume: self.volume,
            shuffle: self.shuffle,
            repeat: self.repeat,
            playlist: self.playlist,
            folders: path::views(self.folders@),
            window: self.window,
        }
    }
}

/// The session of a player that was never used.
pub open spec fn fresh() -> StateModel {
    StateModel {
        track: None,
        position: Duration { nanos: 0 },
        volume: Single { bits: DEFAULT_VOLUME },
        shuffle: false,
        repeat: Repeat::Off,
        playlist: false,
        folders: seq![],
        window: None,
    }
}

impl Default for State {
    fn default() -> (s: State)
        ensures
            s@ == fresh(),
    {
        let s = State {
            track: None,
            position: Duration::zero(),
            volume: Single { bits: DEFAULT_VOLUME },
            shuffle: false,
            repeat: Repeat::Off,
            playlist: false,
            folders: Vec::new(),
            window: None,
        };
        assert(s@.folders =~= seq![]);
        s
    }
}

impl Clone for State {
    fn clone(&self) -> (r: State)
        ensures
            r@ == self@,
    {
        State {
            track: match &self.track {
                Some(track) => Some(track.clone()),
                None => None,
            },
            position: self.position,
            volume: self.volume,
            shuffle: self.shuffle,
            repeat: self.repeat,
            playlist: self.playlist,
            folders: path::clone_paths(self.folders.as_slice()),
            window: self.window,
        }
    }
}

/// The numbers of a session as a record holds them. A number that is not finite
/// has none.
pub struct Figures {
    pub volume: Option<Number>,
    pub x: Option<Number>,
    pub y: Option<Number>,
    pub width: Option<Number>,
    pub height: Option<Number>,
}

/// What a number is, when there is one.
pub open spec fn figure_of(n: Option<Number>) -> Option<Figure> {
    match n {
        Some(n) => Some(json::figure(n)),
        None => None,
    }
}

/// What a record holds a number as: the same in double precision, and nothing when it is
/// not finite.
pub open spec fn written(s: Single) -> Option<Figure> {
    match precision::widened(s) {
        Some(bits) => Some(Figure::Double(bits)),
        None => None,
    }
}

impl Figures {
    /// Whether these are the numbers of a session. Those of a window matter only when
    /// there is one.
    pub open spec fn are_of(&self, s: StateModel) -> bool {
        &&& figure_of(self.volume) == written(s.volume)
        &&& s.window matches Some(w) ==> {
            &&& figure_of(self.x) == written(w.x)
            &&& figure_of(self.y) == written(w.y)
            &&& figure_of(self.width) == written(w.width)
            &&& figure_of(self.height) == written(w.height)
        }
    }
}

/// Where the session is kept: `hark` under `XDG_STATE_HOME`, else
/// `.local/state/hark` under the home folder.
pub open spec fn folder(state_home: Option<Seq<u8>>, home: Option<Seq<u8>>) -> Option<Seq<u8>> {
    artwork::own_dir(
        state_home,
        home,
        encode_utf8("hark"@),
        encode_utf8(".local/state/hark"@),
    )
}

/// The folder the session is kept in, given what `XDG_STATE_HOME` and `HOME` say.
pub fn state_dir(state_home: &Option<FilePath>, home: &Option<FilePath>) -> (dir: Option<FilePath>)
    ensures
        dir.deep_view() == folder(state_home.deep_view(), home.deep_view()),
{
    own_folder(state_home, home, "hark", ".local/state/hark")
}

/// The file the session is kept in.
pub fn state_file(dir: &FilePath) -> (file: FilePath)
    ensures
        file@ == path::joined(dir@, encode_utf8("state.json"@)),
{
    dir.join(&FilePath::from_text("state.json"))
}

/// The file a session is first written to, to be renamed over the old one, so that
/// an interrupted write cannot leave half a record behind.
pub fn draft_file(dir: &FilePath) -> (file: FilePath)
    ensures
        file@ == path::joined(dir@, encode_utf8("state.json.tmp"@)),
{
    dir.join(&FilePath::from_text("state.json.tmp"))
}

/// How a mode is written.
pub open spec fn repeat_name(r: Repeat) -> Seq<char> {
    match r {
        Repeat::Off => "off"@,
        Repeat::All => "all"@,
        Repeat::One => "one"@,
    }
}

/// A number in a record, or `null`.
pub open spec fn number_or_null(n: Option<Figure>) -> Json {
    match n {
        Some(n) => Json::Number(n),
        None => Json::Null,
    }
}

/// The paths that are text, as text.
pub open spec fn spelled(paths: Seq<Seq<u8>>) -> Seq<Seq<char>>
    decreases paths.len(),
{
    if paths.len() == 0 {
        seq![]
    } else {
        let before = spelled(paths.drop_last());
        match path::as_text(paths.last()) {
            Some(text) => before.push(text),
            None => before,
        }
    }
}

/// A path as text, when there is one and it is text.
pub open spec fn track_text(track: Option<Seq<u8>>) -> Option<Seq<char>> {
    match track {
        Some(track) => path::as_text(track),
        None => None,
    }
}

/// What every record starts with.
pub open spec fn basics(s: StateModel) -> Map<Seq<char>, Json> {
    Map::empty().insert("v"@, Json::Number(Figure::Unsigned(VERSION))).insert(
        "position_ms"@,
        meta_cache::millis_figure(s.position),
    ).insert("volume"@, number_or_null(written(s.volume))).insert(
        "shuffle"@,
        Json::Bool(s.shuffle),
    ).insert(
        "repeat"@,
        Json::Text(repeat_name(s.repeat)),
    ).insert("playlist"@, Json::Bool(s.playlist))
}

/// A window in a record.
pub open spec fn window_record(w: Window) -> Json {
    Json::Object(
        Map::empty().insert("x"@, number_or_null(written(w.x))).insert(
            "y"@,
            number_or_null(written(w.y)),
        ).insert("width"@, number_or_null(written(w.width))).insert(
            "height"@,
            number_or_null(written(w.height)),
        ),
    )
}

/// The record of a session. A path that is not text is left out, and the rest of
/// the session is still kept. The folders are always listed, if only to say that
/// there are none.
pub open spec fn record(s: StateModel) -> Json {
    let placed = json::with_text(basics(s), "track"@, track_text(s.track));
    let listed = placed.insert(
        "folders"@,
        Json::Array(spelled(s.folders).map_values(|t: Seq<char>| Json::Text(t))),
    );
    match s.window {
        Some(w) => Json::Object(listed.insert("window"@, window_record(w))),
        None => Json::Object(listed),
    }
}

/// Whether a number is what a record holds another as.
fn is_written(n: &Option<Number>, s: Single) -> (r: bool)
    ensures
        r == (figure_of(*n) == written(s)),
{
    match (n, precision::widen(s)) {
        (Some(n), Some(bits)) => {
            let v = json::of_number(n);
            if json::as_u64(&v).is_some() || json::as_i64(&v).is_some() {
                return false;
            }
            match json::as_double(&v) {
                Some(found) => found == bits,
                None => false,
            }
        },
        (None, None) => true,
        _ => false,
    }
}

impl Figures {
    /// Whether these are the numbers of a session.
    fn belong_to(&self, state: &State) -> (r: bool)
        ensures
            r == self.are_of(state@),
    {
        if !is_written(&self.volume, state.volume) {
            return false;
        }
        match state.window {
            Some(w) => is_written(&self.x, w.x) && is_written(&self.y, w.y) && is_written(
                &self.width,
                w.width,
            ) && is_written(&self.height, w.height),
            None => true,
        }
    }
}

fn of_number_or_null(n: &Option<Number>) -> (v: Value)
    ensures
        json::contents(v) == number_or_null(figure_of(*n)),
{
    match n {
        Some(n) => json::of_number(n),
        None => json::null(),
    }
}

fn write_folders(folders: &Vec<FilePath>) -> (items: Vec<Value>)
    ensures
        json::all_contents(items@) == spelled(path::views(folders@)).map_values(
            |t: Seq<char>| Json::Text(t),
        ),
{
    let ghost all = path::views(folders@);
    let mut items: Vec<Value> = Vec::new();
    let mut i: usize = 0;
    let ghost f = |t: Seq<char>| Json::Text(t);
    assert(json::all_contents(items@) =~= spelled(all.take(0)).map_values(f));
    while i < folders.len()
        invariant
            i <= folders@.len(),
            all == path::views(folders@),
            f == (|t: Seq<char>| Json::Text(t)),
            json::all_contents(items@) == spelled(all.take(i as int)).map_values(f),
        decreases folders@.len() - i,
    {
        let ghost before = items@;
        proof {
            assert(all.take(i + 1).drop_last() =~= all.take(i as int));
            assert(all.take(i + 1).last() == folders@[i as int]@);
        }
        if let Some(text) = folders[i].to_text() {
            let item = json::of_str(text.as_str());
            let ghost view = json::contents(item);
            items.push(item);
            assert(json::all_contents(items@) =~= json::all_contents(before).push(view));
            assert(json::all_contents(items@) =~= spelled(all.take(i + 1)).map_values(f));
        }
        i = i + 1;
    }
    assert(all.take(all.len() as int) =~= all);
    items
}

fn write_window(f: &Figures, Ghost(w): Ghost<Window>) -> (v: Value)
    requires
        figure_of(f.x) == written(w.x),
        figure_of(f.y) == written(w.y),
        figure_of(f.width) == written(w.width),
        figure_of(f.height) == written(w.height),
    ensures
        json::contents(v) == window_record(w),
{
    let mut v = json::empty_object();
    json::put(&mut v, "x", of_number_or_null(&f.x));
    json::put(&mut v, "y", of_number_or_null(&f.y));
    json::put(&mut v, "width", of_number_or_null(&f.width));
    json::put(&mut v, "height", of_number_or_null(&f.height));
    v
}

proof fn record_is_shallow(s: StateModel)
    ensures
        json::nested_within(record(s), json::DEEPEST as nat),
{
    let fields = record(s)->Object_0;
    assert forall|key: Seq<char>| fields.contains_key(key) implies json::nested_within(
        #[trigger] fields[key],
        126,
    ) by {
        if let Json::Array(items) = fields[key] {
            let texts = spelled(s.folders);
            assert(items =~= texts.map_values(|t: Seq<char>| Json::Text(t)));
            assert forall|i: int| 0 <= i < items.len() implies json::nested_within(
                #[trigger] items[i],
                125,
            ) by {
                assert(items[i] == Json::Text(texts[i]));
            }
        } else if let Json::Object(window) = fields[key] {
            assert forall|edge: Seq<char>| window.contains_key(edge) implies json::nested_within(
                #[trigger] window[edge],
                125,
            ) by {}
        }
    }
}

/// Builds the record of a session. `figures` are its numbers as the record holds them,
/// and there is no record when they are not.
pub fn encode(state: &State, figures: &Figures) -> (r: Option<Vec<u8>>)
    ensures
        r is Some <==> figures.are_of(state@),
        r matches Some(bytes) ==> bytes@ == json::printed_pretty(record(state@)) && json::parsed(
            bytes@,
        ) == Some(record(state@)),
{
    if !figures.belong_to(state) {
        return None;
    }
    let mut v = json::empty_object();
    json::put(&mut v, "v", json::of_u64(VERSION));
    json::put(&mut v, "position_ms", json::of_u64(millis_to_store(state.position)));
    json::put(&mut v, "volume", of_number_or_null(&figures.volume));
    json::put(&mut v, "shuffle", json::of_bool(state.shuffle));
    let mode = match state.repeat {
        Repeat::Off => "off",
        Repeat::All => "all",
        Repeat::One => "one",
    };
    json::put(&mut v, "repeat", json::of_str(mode));
    json::put(&mut v, "playlist", json::of_bool(state.playlist));
    assert(json::contents(v) == Json::Object(basics(state@)));
    let track: Option<String> = match &state.track {
        Some(track) => track.to_text(),
        None => None,
    };
    json::put_text(&mut v, "track", meta_cache::borrowed(&track));
    json::put(&mut v, "folders", json::of_array(write_folders(&state.folders)));
    if let Some(w) = state.window {
        json::put(&mut v, "window", write_window(figures, Ghost(w)));
    }
    assert(json::contents(v) == record(state@));
    proof {
        record_is_shallow(state@);
    }
    json::print_pretty(&v)
}

/// The mode a name stands for. One from some other version is off, the safe read.
pub open spec fn repeat_named(name: Option<Seq<char>>) -> Repeat {
    if name == Some("all"@) {
        Repeat::All
    } else if name == Some("one"@) {
        Repeat::One
    } else {
        Repeat::Off
    }
}

/// The entries of a list that are text, as paths.
pub open spec fn paths_in(items: Seq<Json>) -> Seq<Seq<u8>>
    decreases items.len(),
{
    if items.len() == 0 {
        seq![]
    } else {
        let before = paths_in(items.drop_last());
        match json::text(items.last()) {
            Some(text) => before.push(encode_utf8(text)),
            None => before,
        }
    }
}

/// Whether a window is one that a person could use: its edges are finite, it is no
/// smaller than the player lays out in, and no larger than any real display.
pub open spec fn usable(w: Window) -> bool {
    &&& w.x.finite() && w.y.finite() && w.width.finite() && w.height.finite()
    &&& !w.width.below(Single { bits: MIN_WIDTH })
    &&& !w.height.below(Single { bits: MIN_HEIGHT })
    &&& !(Single { bits: MAX_EDGE }).below(w.width)
    &&& !(Single { bits: MAX_EDGE }).below(w.height)
}

pub fn is_usable(w: Window) -> (r: bool)
    ensures
        r == usable(w),
{
    let finite = w.x.is_finite() && w.y.is_finite() && w.width.is_finite()
        && w.height.is_finite();
    let edge = Single { bits: MAX_EDGE };
    finite && !w.width.lt(Single { bits: MIN_WIDTH }) && !w.height.lt(Single { bits: MIN_HEIGHT })
        && !edge.lt(w.width) && !edge.lt(w.height)
}

/// The window in a record, when it has four numbers and could be used.
pub open spec fn window_in(window: Json) -> Option<Window> {
    match (
        json::double(json::member(window, "x"@)),
        json::double(json::member(window, "y"@)),
        json::double(json::member(window, "width"@)),
        json::double(json::member(window, "height"@)),
    ) {
        (Some(x), Some(y), Some(width), Some(height)) => {
            let w = Window {
                x: precision::narrowed(x),
                y: precision::narrowed(y),
                width: precision::narrowed(width),
                height: precision::narrowed(height),
            };
            if usable(w) {
                Some(w)
            } else {
                None
            }
        },
        _ => None,
    }
}

/// The session a record makes. Only a record of another version makes none at all: a
/// field that makes no sense costs only itself. A volume outside the range is clamped to
/// it, and a window that nobody could use is dropped.
pub open spec fn reading(record: Json) -> Option<StateModel> {
    if json::unsigned(json::member(record, "v"@)) != Some(VERSION) {
        None
    } else {
        Some(
            StateModel {
                track: match json::text(json::member(record, "track"@)) {
                    Some(text) => Some(encode_utf8(text)),
                    None => None,
                },
                position: match json::unsigned(json::member(record, "position_ms"@)) {
                    Some(millis) => meta_cache::span(millis),
                    None => Duration { nanos: 0 },
                },
                volume: match json::double(json::member(record, "volume"@)) {
                    Some(bits) => precision::narrowed(bits).clamped(),
                    None => Single { bits: DEFAULT_VOLUME },
                },
                shuffle: json::truth(json::member(record, "shuffle"@)) == Some(true),
                repeat: repeat_named(json::text(json::member(record, "repeat"@))),
                playlist: json::truth(json::member(record, "playlist"@)) == Some(true),
                folders: match json::entries(json::member(record, "folders"@)) {
                    Some(items) => paths_in(items),
                    None => seq![],
                },
                window: window_in(json::member(record, "window"@)),
            },
        )
    }
}

/// The session that the bytes of a record make.
pub open spec fn decoded(bytes: Seq<u8>) -> Option<StateModel> {
    match json::parsed(bytes) {
        Some(record) => reading(record),
        None => None,
    }
}

/// The session to start with, given the bytes of a record if there are any.
pub open spec fn session_in(bytes: Option<Seq<u8>>) -> StateModel {
    match bytes {
        Some(bytes) => match decoded(bytes) {
            Some(s) => s,
            None => fresh(),
        },
        None => fresh(),
    }
}

fn flag(v: &Value, key: &str) -> (r: bool)
    ensures
        r == (json::truth(json::member(json::contents(*v), key@)) == Some(true)),
{
    match json::as_bool(json::field(v, key)) {
        Some(b) => b,
        None => false,
    }
}

fn read_repeat(v: &Value) -> (r: Repeat)
    ensures
        r == repeat_named(json::text(json::member(json::contents(*v), "repeat"@))),
{
    match json::as_str(json::field(v, "repeat")) {
        Some(name) => {
            if same_text(name, "all") {
                Repeat::All
            } else if same_text(name, "one") {
                Repeat::One
            } else {
                Repeat::Off
            }
        },
        None => Repeat::Off,
    }
}

fn read_folders(v: &Value) -> (r: Vec<FilePath>)
    ensures
        path::views(r@) == (match json::entries(
            json::member(json::contents(*v), "folders"@),
        ) {
            Some(items) => paths_in(items),
            None => seq![],
        }),
{
    let mut r: Vec<FilePath> = Vec::new();
    assert(path::views(r@) =~= seq![]);
    let Some(items) = json::as_array(json::field(v, "folders")) else {
        return r;
    };
    let ghost entries = json::all_contents(items@);
    let mut i: usize = 0;
    while i < items.len()
        invariant
            i <= items@.len(),
            entries == json::all_contents(items@),
            path::views(r@) == paths_in(entries.take(i as int)),
        decreases items@.len() - i,
    {
        let ghost before = r@;
        proof {
            assert(entries.take(i + 1).drop_last() =~= entries.take(i as int));
            assert(entries.take(i + 1).last() == json::contents(items@[i as int]));
        }
        if let Some(text) = json::as_str(&items[i]) {
            let p = FilePath::from_text(text);
            let ghost view = p@;
            r.push(p);
            assert(path::views(r@) =~= path::views(before).push(view));
        }
        i = i + 1;
    }
    assert(entries.take(entries.len() as int) =~= entries);
    r
}

fn read_window(v: &Value) -> (r: Option<Window>)
    ensures
        r == window_in(json::contents(*v)),
{
    let Some(x) = json::as_double(json::field(v, "x")) else {
        return None;
    };
    let Some(y) = json::as_double(json::field(v, "y")) else {
        return None;
    };
    let Some(width) = json::as_double(json::field(v, "width")) else {
        return None;
    };
    let Some(height) = json::as_double(json::field(v, "height")) else {
        return None;
    };
    let w = Window {
        x: precision::narrow(x),
        y: precision::narrow(y),
        width: precision::narrow(width),
        height: precision::narrow(height),
    };
    if is_usable(w) {
        Some(w)
    } else {
        None
    }
}

/// Reads a record back, once parsed. It is void only when it is of another version.
pub fn read_record(record: &Value) -> (r: Option<State>)
    ensures
        r is Some <==> reading(json::contents(*record)) is Some,
        r matches Some(s) ==> reading(json::contents(*record)) == Some(s@),
{
    match json::as_u64(json::field(record, "v")) {
        Some(v) => {
            if v != VERSION {
                return None;
            }
        },
        None => {
            return None;
        },
    }
    let track = match json::as_str(json::field(record, "track")) {
        Some(text) => Some(FilePath::from_text(text)),
        None => None,
    };
    let position = match json::as_u64(json::field(record, "position_ms")) {
        Some(millis) => Duration::from_millis(millis),
        None => Duration::zero(),
    };
    let volume = match json::as_double(json::field(record, "volume")) {
        Some(bits) => precision::narrow(bits).clamp_unit(),
        None => Single { bits: DEFAULT_VOLUME },
    };
    Some(
        State {
            track,
            position,
            volume,
            shuffle: flag(record, "shuffle"),
            repeat: read_repeat(record),
            playlist: flag(record, "playlist"),
            folders: read_folders(record),
            window: read_window(json::field(record, "window")),
        },
    )
}

/// Reads a record back. It is void only when it is no document at all or one of
/// another version.
pub fn decode(bytes: &[u8]) -> (r: Option<State>)
    ensures
        r is Some <==> decoded(bytes@) is Some,
        r matches Some(s) ==> decoded(bytes@) == Some(s@),
{
    let Some(record) = json::parse(bytes) else {
        return None;
    };
    read_record(&record)
}

/// What the last session left behind, given the bytes of its record if there are any.
/// Anything that cannot be read is the session of a player that was never used.
pub fn restored(bytes: Option<&[u8]>) -> (s: State)
    ensures
        s@ == session_in(
            match bytes {
                Some(bytes) => Some(bytes@),
                None => None,
            },
        ),
{
    let Some(bytes) = bytes else {
        return State::default();
    };
    match decode(bytes) {
        Some(s) => s,
        None => State::default(),
    }
}

/// Where to open the window.
#[derive(Clone, Copy, PartialEq, Eq, Debug)]
pub struct Opening {
    pub width: Single,
    pub height: Single,
    /// Where its corner goes. `None` leaves that to the desktop.
    pub corner: Option<(Single, Single)>,
}

/// Where the window opens, given the one that was stored. A corner at nought is
/// what a desktop reports that never tells a window where it is, so it means
/// "wherever you would have put it" rather than "the top left".
pub open spec fn opening_of(window: Option<Window>) -> Opening {
    match window {
        Some(w) => {
            let zero = Single { bits: 0 };
            Opening {
                width: w.width,
                height: w.height,
                corner: if zero.below(w.x) || zero.below(w.y) {
                    Some((w.x, w.y))
                } else {
                    None
                },
            }
        },
        None => Opening {
            width: Single { bits: DEFAULT_WIDTH },
            height: Single { bits: DEFAULT_HEIGHT },
            corner: None,
        },
    }
}

pub fn opening(window: Option<Window>) -> (o: Opening)
    ensures
        o == opening_of(window),
{
    match window {
        Some(w) => {
            let zero = Single { bits: 0 };
            let placed = zero.lt(w.x) || zero.lt(w.y);
            Opening {
                width: w.width,
                height: w.height,
                corner: if placed {
                    Some((w.x, w.y))
                } else {
                    None
                },
            }
        },
        None => Opening {
            width: Single { bits: DEFAULT_WIDTH },
            height: Single { bits: DEFAULT_HEIGHT },
            corner: None,
        },
    }
}

/// What tells the keys of a record apart: how long they are, and what those of
/// equal length begin with.
proof fn keys_differ()
    ensures
        "v"@.len() == 1,
        "position_ms"@.len() == 11,
        "volume"@.len() == 6 && "volume"@[0] == 'v',
        "shuffle"@.len() == 7 && "shuffle"@[0] == 's',
        "repeat"@.len() == 6 && "repeat"@[0] == 'r',
        "playlist"@.len() == 8,
        "track"@.len() == 5,
        "folders"@.len() == 7 && "folders"@[0] == 'f',
        "window"@.len() == 6 && "window"@[0] == 'w',
        "x"@.len() == 1 && "x"@[0] == 'x',
        "y"@.len() == 1 && "y"@[0] == 'y',
        "width"@.len() == 5,
        "height"@.len() == 6,
        "all"@.len() == 3 && "all"@[0] == 'a',
        "one"@.len() == 3 && "one"@[0] == 'o' && "one"@[1] == 'n',
        "off"@.len() == 3 && "off"@[0] == 'o' && "off"@[1] == 'f',
{
    reveal_strlit("v");
    reveal_strlit("position_ms");
    reveal_strlit("volume");
    reveal_strlit("shuffle");
    reveal_strlit("repeat");
    reveal_strlit("playlist");
    reveal_strlit("track");
    reveal_strlit("folders");
    reveal_strlit("window");
    reveal_strlit("x");
    reveal_strlit("y");
    reveal_strlit("width");
    reveal_strlit("height");
    reveal_strlit("all");
    reveal_strlit("one");
    reveal_strlit("off");
}

/// The paths in a list that are text.
pub open spec fn sayable(paths: Seq<Seq<u8>>) -> Seq<Seq<u8>> {
    paths.filter(|p: Seq<u8>| valid_utf8(p))
}

proof fn folders_read_back(paths: Seq<Seq<u8>>)
    ensures
        paths_in(spelled(paths).map_values(|t: Seq<char>| Json::Text(t))) == sayable(paths),
    decreases paths.len(),
{
    reveal(Seq::filter);
    let f = |t: Seq<char>| Json::Text(t);
    if paths.len() > 0 {
        let front = paths.drop_last();
        folders_read_back(front);
        let before = spelled(front).map_values(f);
        if valid_utf8(paths.last()) {
            let text = decode_utf8(paths.last());
            let items = spelled(paths).map_values(f);
            assert(items =~= before.push(Json::Text(text)));
            assert(items.drop_last() =~= before);
            decode_utf8_encode_utf8(paths.last());
            assert(encode_utf8(text) == paths.last());
        }
    } else {
        assert(spelled(paths).map_values(f) =~= seq![]);
    }
}

/// A session without the paths that are not text.
pub open spec fn spoken(s: StateModel) -> StateModel {
    StateModel {
        track: match s.track {
            Some(track) if valid_utf8(track) => Some(track),
            _ => None,
        },
        folders: sayable(s.folders),
        ..s
    }
}

/// A session as it comes back from its record: to the millisecond, without what is not
/// text, its volume in range, and with its window only where it could be used.
pub open spec fn kept(s: StateModel) -> StateModel {
    StateModel {
        position: s.position.whole_millis(),
        volume: if s.volume.finite() {
            s.volume.clamped()
        } else {
            Single { bits: DEFAULT_VOLUME }
        },
        window: match s.window {
            Some(w) if usable(w) => Some(w),
            _ => None,
        },
        ..spoken(s)
    }
}

/// The double-precision number that a finite one is written as reads as the one it was.
proof fn a_number_reads_back(s: Single)
    ensures
        json::double(number_or_null(written(s))) is Some <==> s.finite(),
        json::double(number_or_null(written(s))) matches Some(bits) ==> precision::narrowed(bits)
            == s,
{
    if s.finite() {
        precision::widening_is_undone(s);
    }
}

proof fn a_window_reads_back(w: Window)
    ensures
        window_in(window_record(w)) == (if usable(w) {
            Some(w)
        } else {
            None
        }),
{
    keys_differ();
    a_number_reads_back(w.x);
    a_number_reads_back(w.y);
    a_number_reads_back(w.width);
    a_number_reads_back(w.height);
    let r = window_record(w);
    assert(json::member(r, "x"@) == number_or_null(written(w.x)));
    assert(json::member(r, "y"@) == number_or_null(written(w.y)));
    assert(json::member(r, "width"@) == number_or_null(written(w.width)));
    assert(json::member(r, "height"@) == number_or_null(written(w.height)));
}

/// What reading the record of a session gives, whatever the session.
pub proof fn a_session_reads_back(s: StateModel, bytes: Seq<u8>)
    requires
        s.position.millis_fit(),
        json::parsed(bytes) == Some(record(s)),
    ensures
        decoded(bytes) == Some(kept(s)),
{
    keys_differ();
    folders_read_back(s.folders);
    time::millis_make_the_span(s.position);
    if let Some(track) = s.track {
        if valid_utf8(track) {
            decode_utf8_encode_utf8(track);
        }
    }
    let r = record(s);
    a_number_reads_back(s.volume);
    assert(json::member(r, "volume"@) == number_or_null(written(s.volume)));
    if let Some(w) = s.window {
        a_window_reads_back(w);
        assert(json::member(r, "window"@) == window_record(w));
    } else {
        assert(json::member(r, "window"@) == Json::Null);
    }
    assert(window_in(json::member(r, "window"@)) == kept(s).window);
    assert(json::text(json::member(r, "track"@)) == track_text(s.track));
    assert(repeat_named(Some(repeat_name(s.repeat))) == s.repeat);
    assert(reading(r)->0 =~= kept(s));
}

/// A session that is written down and read back is the one it was, provided that its
/// position is a whole number of milliseconds, its volume is in range and its window
/// could be used. Only the paths that are not text are left out, and the other folders
/// keep their order.
pub proof fn a_session_survives(s: StateModel, bytes: Seq<u8>)
    requires
        s.position.millis_fit(),
        s.position.whole_millis() == s.position,
        s.volume.unit(),
        s.window matches Some(w) ==> usable(w),
        json::parsed(bytes) == Some(record(s)),
    ensures
        decoded(bytes) == Some(spoken(s)),
        session_in(Some(bytes)) == spoken(s),
        (s.track matches Some(track) ==> valid_utf8(track)) && (forall|i: int|
            0 <= i < s.folders.len() ==> valid_utf8(#[trigger] s.folders[i])) ==> spoken(s) == s,
{
    a_session_reads_back(s, bytes);
    assert(kept(s) =~= spoken(s));
    if forall|i: int| 0 <= i < s.folders.len() ==> valid_utf8(#[trigger] s.folders[i]) {
        all_sayable(s.folders);
    }
}

/// Where every path is text, every one of them is kept.
proof fn all_sayable(paths: Seq<Seq<u8>>)
    requires
        forall|i: int| 0 <= i < paths.len() ==> valid_utf8(#[trigger] paths[i]),
    ensures
        sayable(paths) == paths,
    decreases paths.len(),
{
    reveal(Seq::filter);
    if paths.len() > 0 {
        let front = paths.drop_last();
        assert forall|i: int| 0 <= i < front.len() implies valid_utf8(#[trigger] front[i]) by {
            assert(front[i] == paths[i]);
        }
        all_sayable(front);
        assert(valid_utf8(paths[paths.len() - 1]));
        assert(front.push(paths.last()) =~= paths);
    }
}

/// Whatever a record holds, the session it makes has a volume in range and a window that
/// can be used.
pub proof fn a_restored_session_is_sane(bytes: Option<Seq<u8>>)
    ensures
        session_in(bytes).volume.unit(),
        session_in(bytes).window matches Some(w) ==> usable(w),
{
}

/// No field but the version can void a record.
pub proof fn a_bad_field_costs_only_itself(record: Json)
    ensures
        reading(record) is Some <==> json::unsigned(json::member(record, "v"@)) == Some(VERSION),
{
}

/// What a session's record makes, field by field. Only another version voids it. A path or
/// a folder that is no text is left out, a position that is none is the start, a volume
/// that is none is the usual one and any other is brought into range, a mode that is not
/// known is off, and what is not said to be on is off.
pub proof fn each_field_of_a_record_stands_alone(record: Json)
    ensures
        reading(record) is Some <==> json::unsigned(json::member(record, "v"@)) == Some(1u64),
        reading(record) matches Some(s) ==> {
            let track = json::text(json::member(record, "track"@));
            let position = json::unsigned(json::member(record, "position_ms"@));
            let volume = json::double(json::member(record, "volume"@));
            let repeat = json::text(json::member(record, "repeat"@));
            let folders = json::entries(json::member(record, "folders"@));
            &&& track is Some ==> s.track == Some(encode_utf8(track->0))
            &&& track is None ==> s.track is None
            &&& position is Some ==> s.position.nanos == position->0 * 1_000_000
            &&& position is None ==> s.position.nanos == 0
            &&& volume is Some ==> s.volume == precision::narrowed(volume->0).clamped()
            &&& volume is None ==> s.volume.bits == 0x3f33_3333
            &&& s.shuffle <==> json::truth(json::member(record, "shuffle"@)) == Some(true)
            &&& s.playlist <==> json::truth(json::member(record, "playlist"@)) == Some(true)
            &&& s.repeat == Repeat::All <==> repeat == Some("all"@)
            &&& s.repeat == Repeat::One <==> repeat == Some("one"@)
            &&& folders is None ==> s.folders.len() == 0
            &&& folders is Some ==> s.folders == folders->0.filter(|j: Json| j is Text).map_values(
                |j: Json| encode_utf8(j->Text_0),
            )
        },
{
    reveal_strlit("all");
    reveal_strlit("one");
    assert("all"@[0] != "one"@[0]);
    if let Some(items) = json::entries(json::member(record, "folders"@)) {
        folders_are_the_texts(items);
    }
}

proof fn folders_are_the_texts(items: Seq<Json>)
    ensures
        paths_in(items) == items.filter(|j: Json| j is Text).map_values(
            |j: Json| encode_utf8(j->Text_0),
        ),
    decreases items.len(),
{
    reveal(Seq::filter);
    let f = |j: Json| encode_utf8(j->Text_0);
    let texts = |j: Json| j is Text;
    if items.len() > 0 {
        let front = items.drop_last();
        folders_are_the_texts(front);
        assert(items.filter(texts).map_values(f) =~= (if items.last() is Text {
            front.filter(texts).map_values(f).push(f(items.last()))
        } else {
            front.filter(texts).map_values(f)
        }));
    } else {
        assert(items.filter(texts).map_values(f) =~= seq![]);
    }
}

/// A window is used exactly when the record has all four of its numbers, they are finite,
/// it is at least 360 wide and 560 high, and neither is past ten thousand.
pub proof fn only_a_sensible_window_is_used(window: Json, w: Window)
    ensures
        usable(w) <==> w.x.finite() && w.y.finite() && w.width.finite() && w.height.finite()
            && w.width.rank() >= 0x43b4_0000 && w.height.rank() >= 0x440c_0000 && w.width.rank()
            <= 0x461c_4000 && w.height.rank() <= 0x461c_4000,
        window_in(window) == Some(w) ==> usable(w),
        ({
            let (x, y) = (
                json::double(json::member(window, "x"@)),
                json::double(json::member(window, "y"@)),
            );
            let (width, height) = (
                json::double(json::member(window, "width"@)),
                json::double(json::member(window, "height"@)),
            );
            let whole = x is Some && y is Some && width is Some && height is Some;
            let found = Window {
                x: precision::narrowed(x->0),
                y: precision::narrowed(y->0),
                width: precision::narrowed(width->0),
                height: precision::narrowed(height->0),
            };
            &&& whole && usable(found) ==> window_in(window) == Some(found)
            &&& !whole || !usable(found) ==> window_in(window) is None
        }),
{
}

/// A window opens as big as it was, and where it was unless its corner is at nought; one
/// that was not stored opens at 420 by 690, wherever the desktop puts it.
pub proof fn a_window_opens_where_it_was(w: Window)
    ensures
        opening_of(None).width.bits == 0x43d2_0000,
        opening_of(None).height.bits == 0x442c_8000,
        opening_of(None).corner is None,
        opening_of(Some(w)).width == w.width,
        opening_of(Some(w)).height == w.height,
        (Single { bits: 0 }).below(w.x) || (Single { bits: 0 }).below(w.y) ==> opening_of(
            Some(w),
        ).corner == Some((w.x, w.y)),
        !(Single { bits: 0 }).below(w.x) && !(Single { bits: 0 }).below(w.y) ==> opening_of(
            Some(w),
        ).corner is None,
{
}

/// Without a record, and with one that cannot be read, a session starts afresh: nothing is
/// loaded, nothing is on, and the volume is the usual one.
pub proof fn without_a_record_a_session_starts_afresh(bytes: Option<Seq<u8>>)
    ensures
        bytes is None || decoded(bytes->0) is None ==> {
            let s = session_in(bytes);
            &&& s.track is None
            &&& s.position.nanos == 0
            &&& s.volume.bits == 0x3f33_3333
            &&& !s.shuffle && !s.playlist && s.repeat == Repeat::Off
            &&& s.folders.len() == 0
            &&& s.window is None
        },
        bytes matches Some(b) ==> decoded(b) matches Some(s) ==> session_in(bytes) == s,
        bytes matches Some(b) ==> json::parsed(b) is None ==> decoded(b) is None,
{
}

/// The session is kept in a folder of the player's own below the one for such things that
/// the environment names, or in the home folder.
pub proof fn the_session_is_kept_here(state_home: Option<Seq<u8>>, home: Option<Seq<u8>>)
    ensures
        state_home is Some && path::absolute(state_home->0) ==> folder(state_home, home) == Some(
            path::joined(state_home->0, encode_utf8("hark"@)),
        ),
        !(state_home is Some && path::absolute(state_home->0)) && home is Some ==> folder(
            state_home,
            home,
        ) == Some(path::joined(home->0, encode_utf8(".local/state/hark"@))),
        !(state_home is Some && path::absolute(state_home->0)) && home is None ==> folder(
            state_home,
            home,
        ) is None,
{
}

} // verus!
