//! A track: what its tags say, how it is called when they say nothing, and the
//! chapters marked inside it.

use crate::artwork;
use crate::artwork::first_usable;
use crate::meta_cache;
use crate::meta_cache::Stamp;
use crate::path;
use crate::path::FilePath;
use crate::text;
use crate::text::{chars_of, decimal_chars, extend_chars, same_text, text_of, to_lowercase, trim};
use crate::time::{Duration, NANOS_PER_SEC};
use vstd::prelude::*;

verus! {

/// What stands in for an artist or an album the file does not name. Also guards
/// the cover lookup: these are not real names, so nothing is searched for by them.
pub const UNKNOWN_ARTIST: &'static str = "Unknown artist";

pub const UNKNOWN_ALBUM: &'static str = "Unknown album";

/// What stands in for a title when even the file name is no help.
pub const UNKNOWN_TRACK: &'static str = "Unknown track";

/// One chapter of a track; a file that holds a whole album marks each song this
/// way. It ends where the next one starts, and the last one where the track does.
#[derive(Debug)]
pub struct Chapter {
    pub title: String,
    pub start: Duration,
    pub end: Duration,
}

/// Everything about a file that survives a rescan: what its tags said, how long it
/// plays, where its chapters are and whether it carries a picture.
#[derive(Debug)]
pub struct Meta {
    pub title: Option<String>,
    pub artist: Option<String>,
    pub album: Option<String>,
    pub duration: Duration,
    pub chapters: Vec<Chapter>,
    /// The file carries a picture that can be shown. The picture itself is not
    /// read here: a scan would pull in the pictures of the whole library for the
    /// sake of the one track that is playing.
    pub has_art: bool,
}

#[derive(Debug)]
pub struct Track {
    pub path: FilePath,
    pub title: String,
    pub artist: String,
    pub album: String,
    pub duration: Duration,
    /// The number a cover is held under, once one has been fetched or decoded. A
    /// freshly scanned track has none even when its file holds one.
    pub art: Option<u64>,
    /// The chapters inside the file; none for an ordinary song.
    pub chapters: Vec<Chapter>,
    /// The file has a cover of its own, to be decoded when it starts playing.
    pub has_art: bool,
    /// The listener loves it.
    pub loved: bool,
}

/// What a chapter is.
#[verifier::ext_equal]
pub struct ChapterModel {
    pub title: Seq<char>,
    pub start: Duration,
    pub end: Duration,
}

/// What there is to know about a file.
#[verifier::ext_equal]
pub struct MetaModel {
    pub title: Option<Seq<char>>,
    pub artist: Option<Seq<char>>,
    pub album: Option<Seq<char>>,
    pub duration: Duration,
    pub chapters: Seq<ChapterModel>,
    pub has_art: bool,
}

/// What a track is.
#[verifier::ext_equal]
pub struct TrackModel {
    pub path: Seq<u8>,
    pub title: Seq<char>,
    pub artist: Seq<char>,
    pub album: Seq<char>,
    pub duration: Duration,
    pub art: Option<u64>,
    pub chapters: Seq<ChapterModel>,
    pub has_art: bool,
    pub loved: bool,
}

impl View for Chapter {
    type V = ChapterModel;

    open spec fn view(&self) -> ChapterModel {
        ChapterModel { title: self.title@, start: self.start, end: self.end }
    }
}

/// What the chapters in a list are.
pub open spec fn chapter_views(chapters: Seq<Chapter>) -> Seq<ChapterModel> {
    chapters.map_values(|c: Chapter| c@)
}

impl View for Meta {
    type V = MetaModel;

    open spec fn view(&self) -> MetaModel {
        MetaModel {
            title: self.title.deep_view(),
            artist: self.artist.deep_view(),
            album: self.album.deep_view(),
            duration: self.duration,
            chapters: chapter_views(self.chapters@),
            has_art: self.has_art,
        }
    }
}

impl View for Track {
    type V = TrackModel;

    open spec fn view(&self) -> TrackModel {
        TrackModel {
            path: self.path@,
            title: self.title@,
            artist: self.artist@,
            album: self.album@,
            duration: self.duration,
            art: self.art,
            chapters: chapter_views(self.chapters@),
            has_art: self.has_art,
            loved: self.loved,
        }
    }
}

/// What the tracks in a list are.
pub open spec fn track_views(tracks: Seq<Track>) -> Seq<TrackModel> {
    tracks.map_values(|t: Track| t@)
}

impl Clone for Chapter {
    fn clone(&self) -> (r: Chapter)
        ensures
            r@ == self@,
    {
        Chapter { title: self.title.clone(), start: self.start, end: self.end }
    }
}

/// Copies a list of chapters.
pub fn clone_chapters(chapters: &Vec<Chapter>) -> (r: Vec<Chapter>)
    ensures
        chapter_views(r@) == chapter_views(chapters@),
{
    let mut r: Vec<Chapter> = Vec::new();
    let mut i: usize = 0;
    while i < chapters.len()
        invariant
            i <= chapters@.len(),
            r@.len() == i,
            forall|j: int| 0 <= j < i ==> (#[trigger] r@[j])@ == chapters@[j]@,
        decreases chapters@.len() - i,
    {
        r.push(chapters[i].clone());
        i = i + 1;
    }
    assert(chapter_views(r@) =~= chapter_views(chapters@));
    r
}

/// Copies a text that may be missing.
pub fn clone_text(s: &Option<String>) -> (r: Option<String>)
    ensures
        r.deep_view() == s.deep_view(),
{
    match s {
        Some(s) => Some(s.clone()),
        None => None,
    }
}

impl Clone for Track {
    fn clone(&self) -> (r: Track)
        ensures
            r@ == self@,
    {
        Track {
            path: self.path.clone(),
            title: self.title.clone(),
            artist: self.artist.clone(),
            album: self.album.clone(),
            duration: self.duration,
            art: self.art,
            chapters: clone_chapters(&self.chapters),
            has_art: self.has_art,
            loved: self.loved,
        }
    }
}

/// Nothing is known about the file.
pub open spec fn nothing_known() -> MetaModel {
    MetaModel {
        title: None,
        artist: None,
        album: None,
        duration: Duration { nanos: 0 },
        chapters: seq![],
        has_art: false,
    }
}

impl Default for Meta {
    fn default() -> (m: Meta)
        ensures
            m@ == nothing_known(),
    {
        let m = Meta {
            title: None,
            artist: None,
            album: None,
            duration: Duration::zero(),
            chapters: Vec::new(),
            has_art: false,
        };
        assert(m@.chapters =~= seq![]);
        m
    }
}

/// The extensions of the formats that can be played.
pub open spec fn supported() -> Seq<Seq<char>> {
    seq!["mp3"@, "flac"@, "ogg"@, "oga"@, "wav"@, "m4a"@, "aac"@, "opus"@]
}

/// Whether a file can be played, told by its extension in any case.
pub open spec fn playable(path: Seq<u8>) -> bool {
    match path::extension_text(path) {
        Some(extension) => supported().contains(text::lowercase(extension)),
        None => false,
    }
}

/// The extensions of the formats that can be played.
pub const SUPPORTED: [&'static str; 8] = [
    "mp3",
    "flac",
    "ogg",
    "oga",
    "wav",
    "m4a",
    "aac",
    "opus",
];

/// Whether a file can be played, told by its extension.
pub fn is_supported(path: &FilePath) -> (r: bool)
    ensures
        r == playable(path@),
{
    let Some(extension) = path.extension() else {
        return false;
    };
    let lower = to_lowercase(extension.as_str());
    let known = SUPPORTED;
    let mut i: usize = 0;
    while i < 8
        invariant
            i <= 8,
            known == SUPPORTED,
            path::extension_text(path@) == Some(extension@),
            lower@ == text::lowercase(extension@),
            forall|j: int| 0 <= j < i ==> #[trigger] supported()[j] != lower@,
        decreases 8 - i,
    {
        assert(supported()[i as int] == known@[i as int]@);
        if same_text(lower.as_str(), known[i]) {
            assert(supported()[i as int] == lower@);
            return true;
        }
        i = i + 1;
    }
    false
}

/// A tag, or the stand-in where the file carried none.
pub open spec fn named(tag: Option<Seq<char>>, fallback: Seq<char>) -> Seq<char> {
    match tag {
        Some(tag) => tag,
        None => fallback,
    }
}

/// How a file is called when its tags give it no title.
pub open spec fn stem_title(path: Seq<u8>) -> Seq<char> {
    named(path::stem_text(path), UNKNOWN_TRACK@)
}

/// The track that a file is, given what is known about it.
pub open spec fn track_of(path: Seq<u8>, meta: MetaModel, loved: bool) -> TrackModel {
    TrackModel {
        path,
        title: named(meta.title, stem_title(path)),
        artist: named(meta.artist, UNKNOWN_ARTIST@),
        album: named(meta.album, UNKNOWN_ALBUM@),
        duration: meta.duration,
        art: None,
        chapters: meta.chapters,
        has_art: meta.has_art,
        loved,
    }
}

fn or_named(tag: Option<String>, fallback: &str) -> (r: String)
    ensures
        r@ == named(tag.deep_view(), fallback@),
{
    match tag {
        Some(tag) => tag,
        None => fallback.to_string(),
    }
}

/// What a file's own record settles about loading it.
pub enum Loading {
    /// The record answered, and the file need not be opened.
    Cached(Track),
    /// The file has to be parsed.
    Parse(FilePath),
}

/// How a file is loaded: from its record, or by a parse.
pub open spec fn loading(
    path: Seq<u8>,
    stamp: Option<Stamp>,
    attribute: Option<Seq<u8>>,
    loved: bool,
    r: Loading,
) -> bool {
    match (stamp, attribute) {
        (Some(stamp), Some(bytes)) => match meta_cache::decoded(bytes, stamp) {
            Some(meta) => r matches Loading::Cached(t) && t@ == track_of(
                path,
                meta,
                loved,
            ),
            None => r matches Loading::Parse(p) && p@ == path,
        },
        _ => r matches Loading::Parse(p) && p@ == path,
    }
}

/// What a parse of a file comes to: the track, and the record to leave on the file.
pub open spec fn parse_leaves(
    path: Seq<u8>,
    stamp: Option<Stamp>,
    meta: Option<Meta>,
    loved: bool,
    t: TrackModel,
    left: Option<Vec<u8>>,
) -> bool {
    &&& t == track_of(
        path,
        match meta {
            Some(meta) => meta@,
            None => nothing_known(),
        },
        loved,
    )
    &&& match (stamp, meta) {
        (Some(stamp), Some(meta)) => {
            let record = meta_cache::record(stamp, meta@);
            &&& left is Some <==> crate::json::printed(record).len()
                <= meta_cache::MAX_RECORD
            &&& left matches Some(bytes) ==> bytes@ == crate::json::printed(record)
                && crate::json::parsed(bytes@) == Some(record)
        },
        _ => left is None,
    }
}

impl Track {
    /// The one way a track is built, so that a record and a fresh parse cannot
    /// drift apart. Falls back to the file name where the file carries no title,
    /// which is why a record leaves an absent tag out: a renamed file has to
    /// follow its new name.
    pub fn from_meta(path: FilePath, meta: Meta, loved: bool) -> (t: Track)
        ensures
            t@ == track_of(path@, meta@, loved),
    {
        let stem = or_named(path.file_stem(), UNKNOWN_TRACK);
        Track {
            title: or_named(meta.title, stem.as_str()),
            artist: or_named(meta.artist, UNKNOWN_ARTIST),
            album: or_named(meta.album, UNKNOWN_ALBUM),
            duration: meta.duration,
            art: None,
            chapters: meta.chapters,
            has_art: meta.has_art,
            loved,
            path,
        }
    }

    /// Loads a track from the record an earlier scan left on the file, when there
    /// is one and the file has not changed since. `stamp` is missing when the file
    /// could not be looked at.
    pub fn load(
        path: FilePath,
        stamp: Option<Stamp>,
        attribute: Option<&[u8]>,
        loved: bool,
    ) -> (r: Loading)
        ensures
            loading(
                path@,
                stamp,
                match attribute {
                    Some(bytes) => Some(bytes@),
                    None => None,
                },
                loved,
                r,
            ),
    {
        if let Some(stamp) = stamp {
            if let Some(meta) = meta_cache::read(attribute, stamp) {
                return Loading::Cached(Track::from_meta(path, meta, loved));
            }
        }
        Loading::Parse(path)
    }

    /// Builds a track from a parse of its file, along with the record to leave on
    /// the file. A file that could not be read at all gets a track and no record:
    /// that is a passing condition and must not be frozen into the file as if it
    /// held nothing.
    pub fn parsed(
        path: FilePath,
        stamp: Option<Stamp>,
        meta: Option<Meta>,
        loved: bool,
    ) -> (r: (Track, Option<Vec<u8>>))
        ensures
            parse_leaves(path@, stamp, meta, loved, r.0@, r.1),
    {
        let Some(meta) = meta else {
            return (Track::from_meta(path, Meta::default(), loved), None);
        };
        let attribute = match stamp {
            Some(stamp) => meta_cache::write(stamp, &meta),
            None => None,
        };
        (Track::from_meta(path, meta, loved), attribute)
    }
}

/// The tags of a file, as they stand in it.
pub struct Tags<'a> {
    pub title: Option<String>,
    pub artist: Option<String>,
    pub album: Option<String>,
    pub pictures: &'a [&'a [u8]],
}

/// A tag, unless there is nothing in it but white space.
pub open spec fn spoken(tag: Option<Seq<char>>) -> Option<Seq<char>> {
    match tag {
        Some(tag) if text::trimmed(tag).len() > 0 => Some(tag),
        _ => None,
    }
}

fn if_spoken(tag: Option<String>) -> (r: Option<String>)
    ensures
        r.deep_view() == spoken(tag.deep_view()),
{
    match tag {
        Some(tag) => {
            let chars = chars_of(tag.as_str());
            if trim(chars.as_slice()).len() > 0 {
                Some(tag)
            } else {
                None
            }
        },
        None => None,
    }
}

/// What is known of a file that was read.
pub open spec fn tags_say(
    duration: Duration,
    chapters: Seq<ChapterModel>,
    tags: Option<Tags>,
    m: MetaModel,
) -> bool {
    &&& m.duration == duration
    &&& m.chapters == chapters
    &&& match tags {
        Some(tags) => {
            &&& m.title == spoken(tags.title.deep_view())
            &&& m.artist == spoken(tags.artist.deep_view())
            &&& m.album == spoken(tags.album.deep_view())
            &&& m.has_art == (artwork::first_shown(tags.pictures@) is Some)
        },
        None => m.title is None && m.artist is None && m.album is None && !m.has_art,
    }
}

impl Meta {
    /// What a parse of a file comes to. A file that opens cleanly and carries no
    /// tag is an answer like any other. A picture counts only where it can be
    /// shown.
    pub fn from_tags(duration: Duration, chapters: Vec<Chapter>, tags: Option<Tags>) -> (m: Meta)
        ensures
            tags_say(duration, chapter_views(chapters@), tags, m@),
    {
        match tags {
            Some(tags) => {
                let has_art = first_usable(tags.pictures).is_some();
                Meta {
                    title: if_spoken(tags.title),
                    artist: if_spoken(tags.artist),
                    album: if_spoken(tags.album),
                    duration,
                    chapters,
                    has_art,
                }
            },
            None => Meta {
                title: None,
                artist: None,
                album: None,
                duration,
                chapters,
                has_art: false,
            },
        }
    }
}

/// A time in minutes and seconds, the seconds in two digits.
pub open spec fn clock_text(secs: nat) -> Seq<char> {
    text::decimal(secs / 60) + seq![':'] + text::two_digits(secs % 60)
}

/// Writes a time as minutes and seconds: `1:06`.
pub fn format_time(d: Duration) -> (r: String)
    ensures
        r@ == clock_text((d.nanos / NANOS_PER_SEC) as nat),
{
    let total: u128 = d.as_secs();
    let seconds: u128 = total % 60;
    let mut s = decimal_chars(total / 60);
    s.push(':');
    if seconds < 10 {
        s.push('0');
    }
    let digits = decimal_chars(seconds);
    extend_chars(&mut s, digits.as_slice());
    assert(s@ =~= clock_text(total as nat));
    text_of(s)
}

/// The containers chapters are read from.
#[derive(Clone, Copy, PartialEq, Eq, Structural, Debug)]
pub enum Container {
    Opus,
    Vorbis,
}

/// The container a file's chapters are in, told by its extension.
pub open spec fn container_of(path: Seq<u8>) -> Option<Container> {
    match path::extension_text(path) {
        Some(extension) => {
            let lower = text::lowercase(extension);
            if lower == "opus"@ {
                Some(Container::Opus)
            } else if lower == "ogg"@ || lower == "oga"@ {
                Some(Container::Vorbis)
            } else {
                None
            }
        },
        None => None,
    }
}

/// The container to read a file's chapters from, if its kind of file has any.
pub fn chapter_container(path: &FilePath) -> (r: Option<Container>)
    ensures
        r == container_of(path@),
{
    let Some(extension) = path.extension() else {
        return None;
    };
    let lower = to_lowercase(extension.as_str());
    if same_text(lower.as_str(), "opus") {
        Some(Container::Opus)
    } else if same_text(lower.as_str(), "ogg") || same_text(lower.as_str(), "oga") {
        Some(Container::Vorbis)
    } else {
        None
    }
}

/// A track that is built from the record on its file is the one a parse of the file
/// builds, its times to the millisecond.
pub proof fn a_record_builds_the_parsed_track(
    path: Seq<u8>,
    stamp: Stamp,
    meta: MetaModel,
    loved: bool,
)
    requires
        meta_cache::millis_fit(meta),
    ensures
        match meta_cache::reading(meta_cache::record(stamp, meta), stamp) {
            Some(read) => track_of(path, read, loved) == track_of(
                path,
                meta_cache::to_millis(meta),
                loved,
            ),
            None => false,
        },
{
    meta_cache::a_record_reads_back(stamp, meta);
}

/// A file without a title is called by its name, and by its new name once it has another,
/// even when its record travelled along.
pub proof fn a_renamed_file_follows_its_name(
    path: Seq<u8>,
    stamp: Stamp,
    meta: MetaModel,
    loved: bool,
)
    requires
        meta_cache::millis_fit(meta),
        meta.title is None,
    ensures
        match meta_cache::reading(meta_cache::record(stamp, meta), stamp) {
            Some(read) => track_of(path, read, loved).title == stem_title(path),
            None => false,
        },
{
    meta_cache::a_record_reads_back(stamp, meta);
}

/// A file can be played exactly when its extension is one of these, in any case.
pub proof fn these_can_be_played(path: Seq<u8>)
    ensures
        playable(path) <==> path::extension_text(path) is Some && (text::lowercase(
            path::extension_text(path)->0,
        ) == "mp3"@ || text::lowercase(path::extension_text(path)->0) == "flac"@ || text::lowercase(
            path::extension_text(path)->0,
        ) == "ogg"@ || text::lowercase(path::extension_text(path)->0) == "oga"@ || text::lowercase(
            path::extension_text(path)->0,
        ) == "wav"@ || text::lowercase(path::extension_text(path)->0) == "m4a"@ || text::lowercase(
            path::extension_text(path)->0,
        ) == "aac"@ || text::lowercase(path::extension_text(path)->0) == "opus"@),
{
    if let Some(extension) = path::extension_text(path) {
        let e = text::lowercase(extension);
        let all = supported();
        assert(all[0] == "mp3"@ && all[1] == "flac"@ && all[2] == "ogg"@ && all[3] == "oga"@);
        assert(all[4] == "wav"@ && all[5] == "m4a"@ && all[6] == "aac"@ && all[7] == "opus"@);
        if all.contains(e) {
            let i = choose|i: int| 0 <= i < all.len() && all[i] == e;
        }
    }
}

/// A track is called by its tags; one without a title is called by the name of its file
/// without the extension, one without an artist or an album by a stand-in. Everything else
/// is what is known about its file, and it has no cover yet.
pub proof fn a_track_is_what_its_file_says(path: Seq<u8>, meta: MetaModel, loved: bool)
    ensures
        ({
            let t = track_of(path, meta, loved);
            &&& t.path == path
            &&& meta.title matches Some(title) ==> t.title == title
            &&& meta.title is None ==> t.title == (if path::stem_text(path) is Some {
                path::stem_text(path)->0
            } else {
                "Unknown track"@
            })
            &&& meta.artist matches Some(artist) ==> t.artist == artist
            &&& meta.artist is None ==> t.artist == "Unknown artist"@
            &&& meta.album matches Some(album) ==> t.album == album
            &&& meta.album is None ==> t.album == "Unknown album"@
            &&& t.duration == meta.duration
            &&& t.chapters == meta.chapters
            &&& t.has_art == meta.has_art
            &&& t.art is None
            &&& t.loved == loved
        }),
{
}

/// A tag counts exactly when something in it is not white space, and then as it stands.
pub proof fn a_tag_of_white_space_is_none(tag: Seq<char>)
    ensures
        spoken(None) is None,
        (exists|i: int| 0 <= i < tag.len() && !text::whitespace(#[trigger] tag[i])) ==> spoken(
            Some(tag),
        ) == Some(tag),
        (forall|i: int| 0 <= i < tag.len() ==> text::whitespace(#[trigger] tag[i])) ==> spoken(
            Some(tag),
        ) is None,
{
    let (a, b) = text::trimming_takes_off_white_space(tag);
    if forall|i: int| 0 <= i < tag.len() ==> text::whitespace(#[trigger] tag[i]) {
        if text::trimmed(tag).len() > 0 {
            assert(text::trimmed(tag)[0] == tag[a]);
        }
    } else {
        let i = choose|i: int| 0 <= i < tag.len() && !text::whitespace(#[trigger] tag[i]);
        assert(a <= i < b);
    }
}

/// A time is written as its minutes, a colon and its seconds in two digits.
pub proof fn a_time_is_written_in_minutes(minutes: nat, seconds: nat)
    requires
        seconds < 60,
    ensures
        seconds >= 10 ==> clock_text(60 * minutes + seconds) == text::decimal(minutes) + seq![':']
            + text::decimal(seconds),
        seconds < 10 ==> clock_text(60 * minutes + seconds) == text::decimal(minutes) + seq![
            ':',
            '0',
        ] + text::decimal(seconds),
{
    let total = 60 * minutes + seconds;
    assert(total / 60 == minutes && total % 60 == seconds);
    if seconds < 10 {
        assert(clock_text(total) =~= text::decimal(minutes) + seq![':', '0'] + text::decimal(seconds));
    }
}

/// Chapters are read from Opus files and from Ogg ones, and from no others.
pub proof fn these_files_have_chapters(path: Seq<u8>)
    ensures
        ({
            let extension = text::lowercase(path::extension_text(path)->0);
            &&& path::extension_text(path) is None ==> container_of(path) is None
            &&& path::extension_text(path) is Some ==> {
                &&& container_of(path) == Some(Container::Opus) <==> extension == "opus"@
                &&& container_of(path) == Some(Container::Vorbis) <==> extension == "ogg"@ || extension
                    == "oga"@
            }
        }),
{
    reveal_strlit("opus");
    reveal_strlit("ogg");
    reveal_strlit("oga");
    assert("opus"@.len() != "ogg"@.len());
    assert("opus"@.len() != "oga"@.len());
}

/// A parse leaves the record that a later look at the file is loaded from: the track is
/// then the same, its times to the millisecond, and nothing is parsed again. A file that
/// has changed is parsed anew, and so is one that nobody could look at.
pub proof fn a_file_is_parsed_once(
    path: Seq<u8>,
    stamp: Stamp,
    meta: Meta,
    loved: bool,
    t: TrackModel,
    left: Vec<u8>,
    again: Loading,
    other: Option<Stamp>,
    anew: Loading,
)
    requires
        parse_leaves(path, Some(stamp), Some(meta), loved, t, Some(left)),
        loading(path, Some(stamp), Some(left@), loved, again),
        other is Some ==> other->0 != stamp,
        loading(path, other, Some(left@), loved, anew),
        meta_cache::millis_fit(meta@),
    ensures
        t == track_of(path, meta@, loved),
        again is Cached,
        again->Cached_0@ == track_of(path, meta_cache::to_millis(meta@), loved),
        anew is Parse && anew->Parse_0@ == path,
{
    meta_cache::a_record_reads_back(stamp, meta@);
    if let Some(other) = other {
        meta_cache::a_changed_file_has_no_record(stamp, meta@, other);
    }
}

/// Without a look at the file nothing is left on it, and a file that could not be parsed
/// still is a track, of which nothing but its name is known.
pub proof fn a_file_that_cannot_be_read_is_a_track(
    path: Seq<u8>,
    stamp: Option<Stamp>,
    meta: Option<Meta>,
    loved: bool,
    t: TrackModel,
    left: Option<Vec<u8>>,
)
    requires
        parse_leaves(path, stamp, meta, loved, t, left),
    ensures
        stamp is None || meta is None ==> left is None,
        stamp is Some && meta is Some ==> (left is Some <==> crate::json::printed(
            meta_cache::record(stamp->0, meta->0@),
        ).len() <= 16384),
        t.path == path && t.loved == loved,
        meta is None ==> {
            &&& t.title == stem_title(path)
            &&& t.artist == "Unknown artist"@
            &&& t.album == "Unknown album"@
            &&& t.duration.nanos == 0
            &&& t.chapters.len() == 0
            &&& !t.has_art
        },
{
}

/// A file's tags give it its names, each its own, as far as they say anything; and a
/// picture counts when one of them can be shown.
pub proof fn tags_name_a_file(
    duration: Duration,
    chapters: Seq<ChapterModel>,
    tags: Tags,
    m: MetaModel,
    bare: MetaModel,
    i: int,
)
    requires
        0 <= i <= tags.pictures@.len(),
        forall|j: int|
            0 <= j < i ==> artwork::format_of((#[trigger] tags.pictures@[j])@) is None,
        tags_say(duration, chapters, Some(tags), m),
        tags_say(duration, chapters, None, bare),
    ensures
        m.duration == duration && m.chapters == chapters,
        bare.duration == duration && bare.chapters == chapters,
        m.title == spoken(tags.title.deep_view()),
        m.artist == spoken(tags.artist.deep_view()),
        m.album == spoken(tags.album.deep_view()),
        i == tags.pictures@.len() ==> !m.has_art,
        i < tags.pictures@.len() && artwork::format_of(tags.pictures@[i]@) is Some ==> m.has_art,
        bare.title is None && bare.artist is None && bare.album is None && !bare.has_art,
{
    artwork::the_first_picture_that_can_be_shown(tags.pictures@, i);
}

} // verus!
