//! What a file's tags said, kept on the file itself in its `user.hark.meta`
//! extended attribute.
//!
//! The music can live on a network mount where opening a file costs a block fetch
//! of several megabytes. Parsing tags is paid for once; remembering the result
//! next to the file means that a rescan needs no opens at all. A rename carries
//! the record along.
//!
//! Nothing here reports failure. No attribute, a record from another version and
//! a record whose file has changed since all mean the same: parse the file.
//! Whatever comes back builds a track the way a fresh parse does.

use crate::json;
use crate::json::Json;
use crate::time;
use crate::time::{Duration, NANOS_PER_MILLI};
use crate::track;
use crate::track::{Chapter, ChapterModel, Meta, MetaModel};
use serde_json::Value;
use vstd::prelude::*;

verus! {

/// The extended attribute.
pub const XATTR_NAME: &'static str = "user.hark.meta";

/// Moved when the record's shape changes. Another version is ignored rather than
/// misread, and the next parse overwrites it.
pub const VERSION: u64 = 1;

/// A record past this is refused, and that file simply stays on the slow path.
/// Sixteen kibibytes hold a few hundred chapters.
pub const MAX_RECORD: usize = 16384;

/// What identifies a file's contents: when it was last modified and how big it
/// is. Not the path, because the record travels with the file.
#[derive(Clone, Copy, PartialEq, Eq, Structural, Debug)]
pub struct Stamp {
    pub mtime_ns: i64,
    pub size: u64,
}

/// The number in the range of an `i64` that is closest to `n`.
pub open spec fn saturated(n: int) -> int {
    if n > i64::MAX {
        i64::MAX as int
    } else if n < i64::MIN {
        i64::MIN as int
    } else {
        n
    }
}

fn saturate(n: i128) -> (r: i64)
    ensures
        r == saturated(n as int),
{
    if n > 9_223_372_036_854_775_807i128 {
        i64::MAX
    } else if n < -9_223_372_036_854_775_808i128 {
        i64::MIN
    } else {
        n as i64
    }
}

/// The stamp of a file, from when it was modified, in whole seconds and the
/// nanoseconds past them, and how big it is.
///
/// Nanoseconds rather than seconds because tagging a batch rewrites a great many
/// files inside one second. A nonsense time saturates: any stable number
/// identifies the file just as well.
pub fn stamp(mtime: i64, mtime_nsec: i64, size: u64) -> (r: Stamp)
    ensures
        r.mtime_ns == saturated(saturated(mtime * 1_000_000_000) + mtime_nsec),
        r.size == size,
{
    let nanos: i64 = saturate(mtime as i128 * 1_000_000_000i128);
    Stamp { mtime_ns: saturate(nanos as i128 + mtime_nsec as i128), size }
}

/// How many milliseconds are written for a span of time.
pub open spec fn stored_millis(d: Duration) -> u64 {
    (d.nanos / NANOS_PER_MILLI) as u64
}

pub(crate) fn millis_to_store(d: Duration) -> (r: u64)
    ensures
        r == stored_millis(d),
{
    #[verifier::truncate]
    let millis: u64 = d.as_millis() as u64;
    millis
}

/// The figure a span of time is written as.
pub open spec fn millis_figure(d: Duration) -> Json {
    Json::Number(json::Figure::Unsigned(stored_millis(d)))
}

/// A chapter in a record. The keys are short: chapters are the only part that can
/// grow.
pub open spec fn chapter_record(c: ChapterModel) -> Json {
    Json::Object(
        Map::empty().insert("t"@, Json::Text(c.title)).insert("s"@, millis_figure(c.start)).insert(
            "e"@,
            millis_figure(c.end),
        ),
    )
}

/// What every record on a file starts with: the version and the stamp.
pub open spec fn stamped(version: u64, stamp: Stamp) -> Map<Seq<char>, Json> {
    Map::empty().insert("v"@, Json::Number(json::Figure::Unsigned(version))).insert(
        "mtime_ns"@,
        Json::Number(json::signed_figure(stamp.mtime_ns)),
    ).insert("size"@, Json::Number(json::Figure::Unsigned(stamp.size)))
}

/// The fields of a record up to and including the tags.
pub open spec fn tag_fields(stamp: Stamp, meta: MetaModel) -> Map<Seq<char>, Json> {
    let base = stamped(VERSION, stamp).insert("duration_ms"@, millis_figure(meta.duration));
    let titled = json::with_text(base, "title"@, meta.title);
    let credited = json::with_text(titled, "artist"@, meta.artist);
    json::with_text(credited, "album"@, meta.album)
}

/// The fields of a record up to and including the mark that there is a picture.
pub open spec fn art_fields(stamp: Stamp, meta: MetaModel) -> Map<Seq<char>, Json> {
    if meta.has_art {
        tag_fields(stamp, meta).insert("art"@, Json::Bool(true))
    } else {
        tag_fields(stamp, meta)
    }
}

/// The record of what is known about a file. An absent tag is left out, so that a
/// renamed file can still fall back to its new name, and so are the chapters of
/// the many files that have none. A picture leaves a single mark and no bytes.
pub open spec fn record(stamp: Stamp, meta: MetaModel) -> Json {
    if meta.chapters.len() > 0 {
        Json::Object(
            art_fields(stamp, meta).insert(
                "chapters"@,
                Json::Array(meta.chapters.map_values(|c: ChapterModel| chapter_record(c))),
            ),
        )
    } else {
        Json::Object(art_fields(stamp, meta))
    }
}

/// Whether a record is of this version and of exactly this file.
pub open spec fn matches_stamp(record: Json, version: u64, stamp: Stamp) -> bool {
    &&& json::unsigned(json::member(record, "v"@)) == Some(version)
    &&& json::signed(json::member(record, "mtime_ns"@)) == Some(stamp.mtime_ns)
    &&& json::unsigned(json::member(record, "size"@)) == Some(stamp.size)
}

/// A span of so many milliseconds.
pub open spec fn span(millis: u64) -> Duration {
    Duration { nanos: (millis * NANOS_PER_MILLI) as u128 }
}

/// The chapter an entry of a record describes, when it describes one.
pub open spec fn chapter_of(entry: Json) -> Option<ChapterModel> {
    match (
        json::text(json::member(entry, "t"@)),
        json::unsigned(json::member(entry, "s"@)),
        json::unsigned(json::member(entry, "e"@)),
    ) {
        (Some(title), Some(start), Some(end)) => Some(
            ChapterModel { title, start: span(start), end: span(end) },
        ),
        _ => None,
    }
}

/// The chapters a record describes. One that makes no sense voids all of them:
/// chapters drive seeking, and half a list is worse than none.
pub open spec fn chapters_of(record: Json) -> Option<Seq<ChapterModel>> {
    match json::entries(json::member(record, "chapters"@)) {
        Some(items) => if forall|i: int|
            0 <= i < items.len() ==> chapter_of(#[trigger] items[i]) is Some {
            Some(items.map_values(|entry: Json| chapter_of(entry)->0))
        } else {
            None
        },
        None => Some(seq![]),
    }
}

/// What a record says about a file, when it is a record of this version of
/// exactly that file.
pub open spec fn reading(record: Json, stamp: Stamp) -> Option<MetaModel> {
    match (json::unsigned(json::member(record, "duration_ms"@)), chapters_of(record)) {
        (Some(millis), Some(chapters)) if matches_stamp(record, VERSION, stamp) => Some(
            MetaModel {
                title: json::text(json::member(record, "title"@)),
                artist: json::text(json::member(record, "artist"@)),
                album: json::text(json::member(record, "album"@)),
                duration: span(millis),
                chapters,
                has_art: json::truth(json::member(record, "art"@)) == Some(true),
            },
        ),
        _ => None,
    }
}

/// What the bytes of a record say about a file.
pub open spec fn decoded(bytes: Seq<u8>, stamp: Stamp) -> Option<MetaModel> {
    match json::parsed(bytes) {
        Some(record) => reading(record, stamp),
        None => None,
    }
}

/// Starts a record with the version and the stamp.
pub(crate) fn start_record(version: u64, stamp: Stamp) -> (v: Value)
    ensures
        json::contents(v) == Json::Object(stamped(version, stamp)),
{
    let mut v = json::empty_object();
    json::put(&mut v, "v", json::of_u64(version));
    json::put(&mut v, "mtime_ns", json::of_i64(stamp.mtime_ns));
    json::put(&mut v, "size", json::of_u64(stamp.size));
    v
}

/// Whether a record is of this version and of exactly this file.
pub(crate) fn checks_out(record: &Value, version: u64, stamp: Stamp) -> (r: bool)
    ensures
        r == matches_stamp(json::contents(*record), version, stamp),
{
    let right_version = match json::as_u64(json::field(record, "v")) {
        Some(v) => v == version,
        None => false,
    };
    let right_time = match json::as_i64(json::field(record, "mtime_ns")) {
        Some(mtime_ns) => mtime_ns == stamp.mtime_ns,
        None => false,
    };
    let right_size = match json::as_u64(json::field(record, "size")) {
        Some(size) => size == stamp.size,
        None => false,
    };
    right_version && right_time && right_size
}

/// A text that may be missing, borrowed.
pub(crate) fn borrowed(s: &Option<String>) -> (r: Option<&str>)
    ensures
        s.deep_view() == (match r {
            Some(s) => Some(s@),
            None => None::<Seq<char>>,
        }),
{
    match s {
        Some(s) => Some(s.as_str()),
        None => None,
    }
}

/// The text under a key of a document, when there is one.
pub(crate) fn text_under(v: &Value, key: &str) -> (r: Option<String>)
    ensures
        r.deep_view() == json::text(json::member(json::contents(*v), key@)),
{
    match json::as_str(json::field(v, key)) {
        Some(s) => Some(s.to_string()),
        None => None,
    }
}

fn write_chapter(c: &Chapter) -> (v: Value)
    ensures
        json::contents(v) == chapter_record(c@),
{
    let mut v = json::empty_object();
    json::put(&mut v, "t", json::of_str(c.title.as_str()));
    json::put(&mut v, "s", json::of_u64(millis_to_store(c.start)));
    json::put(&mut v, "e", json::of_u64(millis_to_store(c.end)));
    v
}

fn write_chapters(chapters: &Vec<Chapter>) -> (items: Vec<Value>)
    ensures
        json::all_contents(items@) == track::chapter_views(chapters@).map_values(
            |c: ChapterModel| chapter_record(c),
        ),
{
    let mut items: Vec<Value> = Vec::new();
    let mut i: usize = 0;
    while i < chapters.len()
        invariant
            i <= chapters@.len(),
            items@.len() == i,
            forall|j: int|
                0 <= j < i ==> json::contents(#[trigger] items@[j]) == chapter_record(
                    chapters@[j]@,
                ),
        decreases chapters@.len() - i,
    {
        items.push(write_chapter(&chapters[i]));
        i = i + 1;
    }
    assert(json::all_contents(items@) =~= track::chapter_views(chapters@).map_values(
        |c: ChapterModel| chapter_record(c),
    ));
    items
}

/// A record nests no deeper than a list of chapters does.
proof fn record_is_shallow(stamp: Stamp, meta: MetaModel)
    ensures
        json::nested_within(record(stamp, meta), json::DEEPEST as nat),
{
    let fields = record(stamp, meta)->Object_0;
    assert forall|key: Seq<char>| fields.contains_key(key) implies json::nested_within(
        #[trigger] fields[key],
        126,
    ) by {
        if let Json::Array(items) = fields[key] {
            assert(items =~= meta.chapters.map_values(|c: ChapterModel| chapter_record(c)));
            assert forall|i: int| 0 <= i < items.len() implies json::nested_within(
                #[trigger] items[i],
                125,
            ) by {
                assert(items[i] == chapter_record(meta.chapters[i]));
                let entry = items[i]->Object_0;
                assert forall|key: Seq<char>| entry.contains_key(key) implies json::nested_within(
                    #[trigger] entry[key],
                    124,
                ) by {}
            }
        }
    }
}

/// Builds the record, or nothing when it would be too long to be worth keeping.
pub fn encode(stamp: Stamp, meta: &Meta) -> (r: Option<Vec<u8>>)
    ensures
        r is Some <==> json::printed(record(stamp, meta@)).len() <= MAX_RECORD,
        r matches Some(bytes) ==> bytes@ == json::printed(record(stamp, meta@)),
        r matches Some(bytes) ==> json::parsed(bytes@) == Some(record(stamp, meta@)),
{
    let mut v = start_record(VERSION, stamp);
    json::put(&mut v, "duration_ms", json::of_u64(millis_to_store(meta.duration)));
    json::put_text(&mut v, "title", borrowed(&meta.title));
    json::put_text(&mut v, "artist", borrowed(&meta.artist));
    json::put_text(&mut v, "album", borrowed(&meta.album));
    assert(json::contents(v) == Json::Object(tag_fields(stamp, meta@)));
    if meta.has_art {
        json::put(&mut v, "art", json::of_bool(true));
    }
    if meta.chapters.len() > 0 {
        json::put(&mut v, "chapters", json::of_array(write_chapters(&meta.chapters)));
    }
    assert(json::contents(v) == record(stamp, meta@));
    proof {
        record_is_shallow(stamp, meta@);
    }
    let Some(bytes) = json::print(&v) else {
        return None;
    };
    if bytes.len() <= MAX_RECORD {
        Some(bytes)
    } else {
        None
    }
}

fn read_chapter(entry: &Value) -> (r: Option<Chapter>)
    ensures
        r is Some <==> chapter_of(json::contents(*entry)) is Some,
        r matches Some(c) ==> chapter_of(json::contents(*entry)) == Some(c@),
{
    let Some(title) = text_under(entry, "t") else {
        return None;
    };
    let Some(start) = json::as_u64(json::field(entry, "s")) else {
        return None;
    };
    let Some(end) = json::as_u64(json::field(entry, "e")) else {
        return None;
    };
    Some(Chapter { title, start: Duration::from_millis(start), end: Duration::from_millis(end) })
}

fn read_chapters(record: &Value) -> (r: Option<Vec<Chapter>>)
    ensures
        r is Some <==> chapters_of(json::contents(*record)) is Some,
        r matches Some(list) ==> chapters_of(json::contents(*record)) == Some(
            track::chapter_views(list@),
        ),
{
    let mut chapters: Vec<Chapter> = Vec::new();
    let Some(items) = json::as_array(json::field(record, "chapters")) else {
        assert(track::chapter_views(chapters@) =~= seq![]);
        return Some(chapters);
    };
    let ghost entries = json::all_contents(items@);
    let mut i: usize = 0;
    while i < items.len()
        invariant
            i <= items@.len(),
            entries == json::all_contents(items@),
            json::entries(json::member(json::contents(*record), "chapters"@)) == Some(entries),
            chapters@.len() == i,
            forall|j: int|
                0 <= j < i ==> chapter_of(#[trigger] entries[j]) == Some(chapters@[j]@),
        decreases items@.len() - i,
    {
        assert(entries[i as int] == json::contents(items@[i as int]));
        let Some(chapter) = read_chapter(&items[i]) else {
            return None;
        };
        chapters.push(chapter);
        i = i + 1;
    }
    assert(track::chapter_views(chapters@) =~= entries.map_values(
        |entry: Json| chapter_of(entry)->0,
    ));
    Some(chapters)
}

/// Reads a record back, once parsed, refusing anything that does not describe exactly
/// this version of exactly this file.
pub fn read_record(record: &Value, stamp: Stamp) -> (r: Option<Meta>)
    ensures
        r is Some <==> reading(json::contents(*record), stamp) is Some,
        r matches Some(meta) ==> reading(json::contents(*record), stamp) == Some(meta@),
{
    if !checks_out(record, VERSION, stamp) {
        return None;
    }
    let Some(millis) = json::as_u64(json::field(record, "duration_ms")) else {
        return None;
    };
    let Some(chapters) = read_chapters(record) else {
        return None;
    };
    let has_art = match json::as_bool(json::field(record, "art")) {
        Some(art) => art,
        None => false,
    };
    Some(
        Meta {
            title: text_under(record, "title"),
            artist: text_under(record, "artist"),
            album: text_under(record, "album"),
            duration: Duration::from_millis(millis),
            chapters,
            has_art,
        },
    )
}

/// Reads a record back, refusing anything that does not describe exactly this
/// version of exactly this file. The stamp is always checked and the name never
/// trusted.
pub fn decode(bytes: &[u8], stamp: Stamp) -> (r: Option<Meta>)
    ensures
        r is Some <==> decoded(bytes@, stamp) is Some,
        r matches Some(meta) ==> decoded(bytes@, stamp) == Some(meta@),
{
    let Some(record) = json::parse(bytes) else {
        return None;
    };
    read_record(&record, stamp)
}

/// What is remembered about a file, given the attribute found on it. No attribute
/// is no record.
pub fn read(attribute: Option<&[u8]>, stamp: Stamp) -> (r: Option<Meta>)
    ensures
        r is Some <==> attribute is Some && decoded(attribute->0@, stamp) is Some,
        r matches Some(meta) ==> decoded(attribute->0@, stamp) == Some(meta@),
{
    match attribute {
        Some(bytes) => decode(bytes, stamp),
        None => None,
    }
}

/// The attribute to write on a file whose tags were parsed, if it is worth one.
pub fn write(stamp: Stamp, meta: &Meta) -> (attribute: Option<Vec<u8>>)
    ensures
        attribute is Some <==> json::printed(record(stamp, meta@)).len() <= MAX_RECORD,
        attribute matches Some(bytes) ==> bytes@ == json::printed(record(stamp, meta@)),
        attribute matches Some(bytes) ==> json::parsed(bytes@) == Some(record(stamp, meta@)),
{
    encode(stamp, meta)
}

/// A chapter as it comes back from a record: to the millisecond.
pub open spec fn chapter_to_millis(c: ChapterModel) -> ChapterModel {
    ChapterModel { title: c.title, start: c.start.whole_millis(), end: c.end.whole_millis() }
}

/// What is known about a file as it comes back from a record: to the millisecond.
pub open spec fn to_millis(meta: MetaModel) -> MetaModel {
    MetaModel {
        duration: meta.duration.whole_millis(),
        chapters: meta.chapters.map_values(|c: ChapterModel| chapter_to_millis(c)),
        ..meta
    }
}

/// Whether every span is as many milliseconds as a record can hold.
pub open spec fn millis_fit(meta: MetaModel) -> bool {
    meta.duration.millis_fit() && forall|i: int|
        0 <= i < meta.chapters.len() ==> (#[trigger] meta.chapters[i]).start.millis_fit()
            && meta.chapters[i].end.millis_fit()
}

proof fn millis_read_back(d: Duration)
    requires
        d.millis_fit(),
    ensures
        span(stored_millis(d)) == d.whole_millis(),
{
    time::millis_make_the_span(d);
}

/// What tells the keys of a record apart: how long they are, and what the two
/// pairs of equal length begin with.
proof fn keys_differ()
    ensures
        "v"@.len() == 1,
        "mtime_ns"@.len() == 8 && "mtime_ns"@[0] == 'm',
        "size"@.len() == 4,
        "duration_ms"@.len() == 11,
        "title"@.len() == 5 && "title"@[0] == 't',
        "artist"@.len() == 6,
        "album"@.len() == 5 && "album"@[0] == 'a',
        "art"@.len() == 3,
        "chapters"@.len() == 8 && "chapters"@[0] == 'c',
        "t"@.len() == 1 && "t"@[0] == 't',
        "s"@.len() == 1 && "s"@[0] == 's',
        "e"@.len() == 1 && "e"@[0] == 'e',
{
    reveal_strlit("v");
    reveal_strlit("mtime_ns");
    reveal_strlit("size");
    reveal_strlit("duration_ms");
    reveal_strlit("title");
    reveal_strlit("artist");
    reveal_strlit("album");
    reveal_strlit("art");
    reveal_strlit("chapters");
    reveal_strlit("t");
    reveal_strlit("s");
    reveal_strlit("e");
}

proof fn chapter_reads_back(c: ChapterModel)
    requires
        c.start.millis_fit(),
        c.end.millis_fit(),
    ensures
        chapter_of(chapter_record(c)) == Some(chapter_to_millis(c)),
{
    keys_differ();
    millis_read_back(c.start);
    millis_read_back(c.end);
}

proof fn chapters_read_back(stamp: Stamp, meta: MetaModel)
    requires
        millis_fit(meta),
    ensures
        chapters_of(record(stamp, meta)) == Some(to_millis(meta).chapters),
{
    keys_differ();
    let found = json::member(record(stamp, meta), "chapters"@);
    if meta.chapters.len() > 0 {
        let items = meta.chapters.map_values(|c: ChapterModel| chapter_record(c));
        assert(found == Json::Array(items));
        assert forall|i: int| 0 <= i < items.len() implies chapter_of(#[trigger] items[i]) == Some(
            to_millis(meta).chapters[i],
        ) by {
            chapter_reads_back(meta.chapters[i]);
        }
        assert(items.map_values(|entry: Json| chapter_of(entry)->0) =~= to_millis(meta).chapters);
    } else {
        assert(found == Json::Null);
        assert(to_millis(meta).chapters =~= seq![]);
    }
}

/// A record that is read back for the same file says what was put into it, to the
/// millisecond: every tag and every absence of one, the duration, the chapters in
/// their order and whether there is a picture.
pub proof fn a_record_reads_back(stamp: Stamp, meta: MetaModel)
    requires
        millis_fit(meta),
    ensures
        reading(record(stamp, meta), stamp) == Some(to_millis(meta)),
        forall|bytes: Seq<u8>|
            json::parsed(bytes) == Some(record(stamp, meta)) ==> #[trigger] decoded(bytes, stamp)
                == Some(to_millis(meta)),
{
    keys_differ();
    chapters_read_back(stamp, meta);
    millis_read_back(meta.duration);
    let read = reading(record(stamp, meta), stamp);
    assert(matches_stamp(record(stamp, meta), VERSION, stamp));
    assert(json::unsigned(json::member(record(stamp, meta), "duration_ms"@)) == Some(
        stored_millis(meta.duration),
    ));
    assert(read->0 =~= to_millis(meta));
}

/// A record says nothing about a file with any other stamp: one that was modified
/// or that changed its size since.
pub proof fn a_changed_file_has_no_record(stamp: Stamp, meta: MetaModel, now: Stamp)
    requires
        now != stamp,
    ensures
        reading(record(stamp, meta), now) is None,
        forall|bytes: Seq<u8>|
            json::parsed(bytes) == Some(record(stamp, meta)) ==> #[trigger] decoded(bytes, now)
                is None,
{
    keys_differ();
    assert(matches_stamp(record(stamp, meta), VERSION, stamp));
}

/// A record of any other version says nothing, whatever else it holds.
pub proof fn another_version_says_nothing(record: Json, stamp: Stamp)
    requires
        json::unsigned(json::member(record, "v"@)) != Some(VERSION),
    ensures
        reading(record, stamp) is None,
{
}

/// A record is believed exactly when it is of this version, of this file as it stands,
/// says how long the file is, and lists no chapter that makes no sense. Then each tag is
/// what stands under its name, and there is a picture exactly when it says so.
pub proof fn a_record_is_believed_whole_or_not_at_all(record: Json, stamp: Stamp, i: int)
    ensures
        ({
            let listed = json::entries(json::member(record, "chapters"@));
            let sound = |entry: Json|
                json::text(json::member(entry, "t"@)) is Some && json::unsigned(
                    json::member(entry, "s"@),
                ) is Some && json::unsigned(json::member(entry, "e"@)) is Some;
            &&& reading(record, stamp) is Some <==> {
                &&& json::unsigned(json::member(record, "v"@)) == Some(1u64)
                &&& json::signed(json::member(record, "mtime_ns"@)) == Some(stamp.mtime_ns)
                &&& json::unsigned(json::member(record, "size"@)) == Some(stamp.size)
                &&& json::unsigned(json::member(record, "duration_ms"@)) is Some
                &&& listed is Some ==> forall|k: int|
                    0 <= k < listed->0.len() ==> sound(#[trigger] listed->0[k])
            }
            &&& reading(record, stamp) matches Some(meta) ==> {
                &&& meta.title == json::text(json::member(record, "title"@))
                &&& meta.artist == json::text(json::member(record, "artist"@))
                &&& meta.album == json::text(json::member(record, "album"@))
                &&& meta.duration.nanos == json::unsigned(json::member(record, "duration_ms"@))->0
                    * 1_000_000
                &&& meta.has_art <==> json::truth(json::member(record, "art"@)) == Some(true)
                &&& listed is None ==> meta.chapters.len() == 0
                &&& listed is Some ==> meta.chapters.len() == listed->0.len()
                &&& listed is Some && 0 <= i < listed->0.len() ==> {
                    let (c, entry) = (meta.chapters[i], listed->0[i]);
                    &&& c.title == json::text(json::member(entry, "t"@))->0
                    &&& c.start.nanos == json::unsigned(json::member(entry, "s"@))->0 * 1_000_000
                    &&& c.end.nanos == json::unsigned(json::member(entry, "e"@))->0 * 1_000_000
                }
            }
        }),
{
    let listed = json::entries(json::member(record, "chapters"@));
    let sound = |entry: Json|
        json::text(json::member(entry, "t"@)) is Some && json::unsigned(json::member(entry, "s"@))
            is Some && json::unsigned(json::member(entry, "e"@)) is Some;
    if let Some(items) = listed {
        if forall|k: int| 0 <= k < items.len() ==> chapter_of(#[trigger] items[k]) is Some {
            assert forall|k: int| 0 <= k < items.len() implies sound(#[trigger] items[k]) by {
                assert(chapter_of(items[k]) is Some);
            }
        }
        if forall|k: int| 0 <= k < items.len() ==> sound(#[trigger] items[k]) {
            assert forall|k: int| 0 <= k < items.len() implies chapter_of(
                #[trigger] items[k],
            ) is Some by {
                assert(sound(items[k]));
            }
        }
    }
}

/// A record may take sixteen kibibytes. A time past what can be counted counts as the
/// closest that can.
pub proof fn these_are_the_limits(n: int)
    ensures
        MAX_RECORD == 16_384,
        VERSION == 1,
        i64::MIN <= n <= i64::MAX ==> saturated(n) == n,
        n > i64::MAX ==> saturated(n) == i64::MAX,
        n < i64::MIN ==> saturated(n) == i64::MIN,
{
}

} // verus!
