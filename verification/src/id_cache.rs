//! What AcoustID knew about a file, kept on the file itself in its `user.hark.id`
//! extended attribute.
//!
//! Identifying a file means decoding two minutes of it, fingerprinting them and
//! asking a rate-limited web service, once per chapter for a whole album. The
//! answer describes the sound, so it stays true through a rename.
//!
//! Nothing here reports failure: no attribute, a record from another version and
//! a record whose file has changed since all mean "ask again".

use crate::fingerprint;
use crate::fingerprint::{IdModel, Identification};
use crate::json;
use crate::json::Json;
use crate::meta_cache;
use crate::meta_cache::{borrowed, checks_out, start_record, text_under, Stamp};
use serde_json::Value;
use vstd::prelude::*;

verus! {

/// The extended attribute.
pub const XATTR_NAME: &'static str = "user.hark.id";

/// Moved when the record's shape changes. Another version is ignored rather than
/// misread, and the next lookup overwrites it.
pub const VERSION: u64 = 1;

/// A record past this is refused. Smaller than what the tags may take: of the
/// records that share a file's attributes this is the one whose loss costs least.
pub const MAX_RECORD: usize = 4096;

/// What a record had to say. That there is no record is the third answer: the
/// file has never been asked about.
#[derive(Debug)]
pub enum Cached {
    Found(Identification),
    /// AcoustID was asked and had no confident match. Worth remembering, or every
    /// play would fingerprint the file again for the same silence.
    Unknown,
}

/// What an answer is.
pub enum CachedModel {
    Found(IdModel),
    Unknown,
}

impl View for Cached {
    type V = CachedModel;

    open spec fn view(&self) -> CachedModel {
        match self {
            Cached::Found(id) => CachedModel::Found(id@),
            Cached::Unknown => CachedModel::Unknown,
        }
    }
}

/// A text, unless it is empty.
pub open spec fn filled(s: Option<Seq<char>>) -> Option<Seq<char>> {
    match s {
        Some(s) if s.len() > 0 => Some(s),
        _ => None,
    }
}

/// A title in a record. A chapter that could not be placed holds its position in
/// the list.
pub open spec fn title_record(title: Option<Seq<char>>) -> Json {
    match title {
        Some(title) => Json::Text(title),
        None => Json::Null,
    }
}

/// The record of an answer. The identifier is the answer, so a record without one
/// says that the question was asked and came back empty.
pub open spec fn record(stamp: Stamp, id: Option<IdModel>) -> Json {
    let base = meta_cache::stamped(VERSION, stamp);
    match id {
        Some(id) => {
            let named = base.insert("mbid"@, Json::Text(id.mbid));
            let credited = json::with_text(named, "artist"@, filled(id.artist));
            let placed = json::with_text(credited, "album"@, filled(id.album));
            Json::Object(
                placed.insert(
                    "titles"@,
                    Json::Array(id.titles.map_values(|t: Option<Seq<char>>| title_record(t))),
                ),
            )
        },
        None => Json::Object(base),
    }
}

/// Whether an entry of a list of titles is a title or holds the place of one.
pub open spec fn is_title(entry: Json) -> bool {
    entry is Null || entry is Text
}

/// The titles a record lists. One entry that is no title voids all of them:
/// titles go onto chapters by position.
pub open spec fn titles_of(record: Json) -> Option<Seq<Option<Seq<char>>>> {
    match json::entries(json::member(record, "titles"@)) {
        Some(items) => if forall|i: int| 0 <= i < items.len() ==> is_title(#[trigger] items[i]) {
            Some(items.map_values(|entry: Json| json::text(entry)))
        } else {
            None
        },
        None => Some(seq![]),
    }
}

/// What a record says about a file, when it is a record of this version of
/// exactly that file. An identifier that is no text, or an empty one, was not
/// written here, and is refused rather than guessed at: a wrong one would fetch a
/// wrong cover.
pub open spec fn reading(record: Json, stamp: Stamp) -> Option<CachedModel> {
    if !meta_cache::matches_stamp(record, VERSION, stamp) {
        None
    } else {
        match json::member(record, "mbid"@) {
            Json::Null => Some(CachedModel::Unknown),
            Json::Text(mbid) if mbid.len() > 0 => match titles_of(record) {
                Some(titles) => Some(
                    CachedModel::Found(
                        IdModel {
                            mbid,
                            artist: json::text(json::member(record, "artist"@)),
                            album: json::text(json::member(record, "album"@)),
                            titles,
                        },
                    ),
                ),
                None => None,
            },
            _ => None,
        }
    }
}

/// What the bytes of a record say about a file.
pub open spec fn decoded(bytes: Seq<u8>, stamp: Stamp) -> Option<CachedModel> {
    match json::parsed(bytes) {
        Some(record) => reading(record, stamp),
        None => None,
    }
}

/// An identity, when there is one.
pub open spec fn id_view(id: Option<&Identification>) -> Option<IdModel> {
    match id {
        Some(id) => Some(id@),
        None => None,
    }
}

/// Whether an answer can be written: an empty identifier would be read back as
/// the answer that there is none.
pub open spec fn writable(id: Option<IdModel>) -> bool {
    match id {
        Some(id) => id.mbid.len() > 0,
        None => true,
    }
}

/// What is written for an answer.
pub open spec fn written(stamp: Stamp, id: Option<IdModel>, r: Option<Seq<u8>>) -> bool {
    &&& r is Some <==> writable(id) && json::printed(record(stamp, id)).len() <= MAX_RECORD
    &&& r matches Some(bytes) ==> bytes == json::printed(record(stamp, id)) && json::parsed(bytes)
        == Some(record(stamp, id))
}

/// A text that may be missing, borrowed, and missing too when it is empty.
fn borrowed_filled(s: &Option<String>) -> (r: Option<&str>)
    ensures
        filled(s.deep_view()) == (match r {
            Some(s) => Some(s@),
            None => None::<Seq<char>>,
        }),
{
    match s {
        Some(s) => {
            if s.as_str().unicode_len() > 0 {
                Some(s.as_str())
            } else {
                None
            }
        },
        None => None,
    }
}

fn write_titles(titles: &Vec<Option<String>>) -> (items: Vec<Value>)
    ensures
        json::all_contents(items@) == fingerprint::title_views(titles@).map_values(
            |t: Option<Seq<char>>| title_record(t),
        ),
{
    let mut items: Vec<Value> = Vec::new();
    let mut i: usize = 0;
    while i < titles.len()
        invariant
            i <= titles@.len(),
            items@.len() == i,
            forall|j: int|
                0 <= j < i ==> json::contents(#[trigger] items@[j]) == title_record(
                    titles@[j].deep_view(),
                ),
        decreases titles@.len() - i,
    {
        let item = match borrowed(&titles[i]) {
            Some(title) => json::of_str(title),
            None => json::null(),
        };
        items.push(item);
        i = i + 1;
    }
    assert(json::all_contents(items@) =~= fingerprint::title_views(titles@).map_values(
        |t: Option<Seq<char>>| title_record(t),
    ));
    items
}

proof fn record_is_shallow(stamp: Stamp, id: Option<IdModel>)
    ensures
        json::nested_within(record(stamp, id), json::DEEPEST as nat),
{
    let fields = record(stamp, id)->Object_0;
    assert forall|key: Seq<char>| fields.contains_key(key) implies json::nested_within(
        #[trigger] fields[key],
        126,
    ) by {
        if let Json::Array(items) = fields[key] {
            let titles = id->0.titles;
            assert(items =~= titles.map_values(|t: Option<Seq<char>>| title_record(t)));
            assert forall|i: int| 0 <= i < items.len() implies json::nested_within(
                #[trigger] items[i],
                125,
            ) by {
                assert(items[i] == title_record(titles[i]));
            }
        }
    }
}

/// Builds the record of an answer, `None` for the answer that AcoustID did not
/// know. There is no record when the identifier is empty, and none that would be
/// too long to be worth keeping.
pub fn encode(stamp: Stamp, id: Option<&Identification>) -> (r: Option<Vec<u8>>)
    ensures
        written(stamp, id_view(id), r.deep_view()),
{
    let mut v = start_record(VERSION, stamp);
    if let Some(id) = id {
        if id.mbid.as_str().unicode_len() == 0 {
            return None;
        }
        json::put(&mut v, "mbid", json::of_str(id.mbid.as_str()));
        json::put_text(&mut v, "artist", borrowed_filled(&id.artist));
        json::put_text(&mut v, "album", borrowed_filled(&id.album));
        json::put(&mut v, "titles", json::of_array(write_titles(&id.chapter_titles)));
    }
    assert(json::contents(v) == record(stamp, id_view(id)));
    proof {
        record_is_shallow(stamp, id_view(id));
    }
    let Some(bytes) = json::print(&v) else {
        return None;
    };
    assert(bytes.deep_view() =~= bytes@);
    if bytes.len() <= MAX_RECORD {
        Some(bytes)
    } else {
        None
    }
}

fn read_titles(record: &Value) -> (r: Option<Vec<Option<String>>>)
    ensures
        r is Some <==> titles_of(json::contents(*record)) is Some,
        r matches Some(list) ==> titles_of(json::contents(*record)) == Some(
            fingerprint::title_views(list@),
        ),
{
    let mut titles: Vec<Option<String>> = Vec::new();
    let Some(items) = json::as_array(json::field(record, "titles")) else {
        assert(fingerprint::title_views(titles@) =~= seq![]);
        return Some(titles);
    };
    let ghost entries = json::all_contents(items@);
    let mut i: usize = 0;
    while i < items.len()
        invariant
            i <= items@.len(),
            entries == json::all_contents(items@),
            json::entries(json::member(json::contents(*record), "titles"@)) == Some(entries),
            titles@.len() == i,
            forall|j: int| 0 <= j < i ==> is_title(#[trigger] entries[j]),
            forall|j: int|
                0 <= j < i ==> (#[trigger] titles@[j]).deep_view() == json::text(entries[j]),
        decreases items@.len() - i,
    {
        assert(entries[i as int] == json::contents(items@[i as int]));
        let title: Option<String> = match json::as_str(&items[i]) {
            Some(title) => Some(title.to_string()),
            None => {
                if !json::is_null(&items[i]) {
                    return None;
                }
                None
            },
        };
        titles.push(title);
        i = i + 1;
    }
    assert(fingerprint::title_views(titles@) =~= entries.map_values(
        |entry: Json| json::text(entry),
    ));
    Some(titles)
}

/// Reads a record back, once parsed, refusing anything that does not describe exactly
/// this version of exactly this file.
pub fn read_record(record: &Value, stamp: Stamp) -> (r: Option<Cached>)
    ensures
        r is Some <==> reading(json::contents(*record), stamp) is Some,
        r matches Some(cached) ==> reading(json::contents(*record), stamp) == Some(cached@),
{
    if !checks_out(record, VERSION, stamp) {
        return None;
    }
    let found = json::field(record, "mbid");
    if json::is_null(found) {
        return Some(Cached::Unknown);
    }
    let Some(mbid) = json::as_str(found) else {
        return None;
    };
    if mbid.unicode_len() == 0 {
        return None;
    }
    let Some(chapter_titles) = read_titles(record) else {
        return None;
    };
    Some(
        Cached::Found(
            Identification {
                mbid: mbid.to_string(),
                artist: text_under(record, "artist"),
                album: text_under(record, "album"),
                chapter_titles,
            },
        ),
    )
}

/// Reads a record back, refusing anything that does not describe exactly this
/// version of exactly this file.
pub fn decode(bytes: &[u8], stamp: Stamp) -> (r: Option<Cached>)
    ensures
        r is Some <==> decoded(bytes@, stamp) is Some,
        r matches Some(cached) ==> decoded(bytes@, stamp) == Some(cached@),
{
    let Some(record) = json::parse(bytes) else {
        return None;
    };
    read_record(&record, stamp)
}

/// What is remembered about a file, given the attribute found on it.
pub fn read(attribute: Option<&[u8]>, stamp: Stamp) -> (r: Option<Cached>)
    ensures
        r is Some <==> attribute is Some && decoded(attribute->0@, stamp) is Some,
        r matches Some(cached) ==> decoded(attribute->0@, stamp) == Some(cached@),
{
    match attribute {
        Some(bytes) => decode(bytes, stamp),
        None => None,
    }
}

/// The attribute to write on a file that AcoustID identified, if there is one to
/// write.
pub fn write_found(stamp: Stamp, id: &Identification) -> (attribute: Option<Vec<u8>>)
    ensures
        written(stamp, Some(id@), attribute.deep_view()),
{
    encode(stamp, Some(id))
}

/// The attribute to write on a file that AcoustID was asked about and did not
/// know. Only for a definitive answer: a failure on the way there must leave no
/// record, so that the next play can try again.
pub fn write_unknown(stamp: Stamp) -> (attribute: Option<Vec<u8>>)
    ensures
        written(stamp, None, attribute.deep_view()),
{
    encode(stamp, None)
}

/// What tells the keys of a record apart: how long they are, and what those of
/// equal length begin with.
proof fn keys_differ()
    ensures
        "v"@.len() == 1,
        "mtime_ns"@.len() == 8,
        "size"@.len() == 4 && "size"@[0] == 's',
        "mbid"@.len() == 4 && "mbid"@[0] == 'm',
        "artist"@.len() == 6 && "artist"@[0] == 'a',
        "album"@.len() == 5,
        "titles"@.len() == 6 && "titles"@[0] == 't',
{
    reveal_strlit("v");
    reveal_strlit("mtime_ns");
    reveal_strlit("size");
    reveal_strlit("mbid");
    reveal_strlit("artist");
    reveal_strlit("album");
    reveal_strlit("titles");
}

/// An answer as it comes back from a record: an artist or an album that is empty
/// is as good as none.
pub open spec fn remembered(id: Option<IdModel>) -> CachedModel {
    match id {
        Some(id) => CachedModel::Found(
            IdModel { artist: filled(id.artist), album: filled(id.album), ..id },
        ),
        None => CachedModel::Unknown,
    }
}

/// A record that is read back for the same file gives the answer that was put into
/// it, every title in its place, and the answer that there is none as just that.
pub proof fn a_record_reads_back(stamp: Stamp, id: Option<IdModel>)
    requires
        writable(id),
    ensures
        reading(record(stamp, id), stamp) == Some(remembered(id)),
        forall|bytes: Seq<u8>|
            json::parsed(bytes) == Some(record(stamp, id)) ==> #[trigger] decoded(bytes, stamp)
                == Some(remembered(id)),
{
    keys_differ();
    assert(meta_cache::matches_stamp(record(stamp, id), VERSION, stamp));
    if let Some(id) = id {
        let items = id.titles.map_values(|t: Option<Seq<char>>| title_record(t));
        assert(json::member(record(stamp, Some(id)), "titles"@) == Json::Array(items));
        assert forall|i: int| 0 <= i < items.len() implies is_title(#[trigger] items[i])
            && json::text(items[i]) == id.titles[i] by {
            assert(items[i] == title_record(id.titles[i]));
        }
        assert(items.map_values(|entry: Json| json::text(entry)) =~= id.titles);
    }
}

/// A record says nothing about a file with any other stamp.
pub proof fn a_changed_file_has_no_record(stamp: Stamp, id: Option<IdModel>, now: Stamp)
    requires
        now != stamp,
    ensures
        reading(record(stamp, id), now) is None,
        forall|bytes: Seq<u8>|
            json::parsed(bytes) == Some(record(stamp, id)) ==> #[trigger] decoded(bytes, now)
                is None,
{
    keys_differ();
    assert(meta_cache::matches_stamp(record(stamp, id), VERSION, stamp));
}

/// A record of any other version says nothing, whatever else it holds.
pub proof fn another_version_says_nothing(record: Json, stamp: Stamp)
    requires
        json::unsigned(json::member(record, "v"@)) != Some(VERSION),
    ensures
        reading(record, stamp) is None,
{
}

/// A record is believed exactly when it is of this version and of this file as it stands,
/// and either names no album, which says that nothing is known, or names one and lists
/// nothing but titles and their empty places. Then everything is what stands in it.
pub proof fn an_answer_is_believed_whole_or_not_at_all(record: Json, stamp: Stamp, i: int)
    ensures
        ({
            let mbid = json::member(record, "mbid"@);
            let listed = json::entries(json::member(record, "titles"@));
            let ours = json::unsigned(json::member(record, "v"@)) == Some(1u64) && json::signed(
                json::member(record, "mtime_ns"@),
            ) == Some(stamp.mtime_ns) && json::unsigned(json::member(record, "size"@)) == Some(
                stamp.size,
            );
            let sound = |entry: Json| entry is Null || entry is Text;
            &&& !ours ==> reading(record, stamp) is None
            &&& ours && mbid is Null ==> reading(record, stamp) == Some(CachedModel::Unknown)
            &&& ours && mbid !is Null && mbid !is Text ==> reading(record, stamp) is None
            &&& ours && mbid is Text && mbid->Text_0.len() == 0 ==> reading(record, stamp) is None
            &&& ours && mbid is Text && mbid->Text_0.len() > 0 ==> {
                &&& reading(record, stamp) is Some <==> (listed is Some ==> forall|k: int|
                    0 <= k < listed->0.len() ==> sound(#[trigger] listed->0[k]))
                &&& reading(record, stamp) is Some ==> {
                    &&& reading(record, stamp) matches Some(CachedModel::Found(id))
                    &&& id.mbid == mbid->Text_0
                    &&& id.artist == json::text(json::member(record, "artist"@))
                    &&& id.album == json::text(json::member(record, "album"@))
                    &&& listed is None ==> id.titles.len() == 0
                    &&& listed is Some ==> id.titles.len() == listed->0.len()
                    &&& listed is Some && 0 <= i < listed->0.len() ==> id.titles[i] == json::text(
                        listed->0[i],
                    )
                }
            }
        }),
{
    let listed = json::entries(json::member(record, "titles"@));
    let sound = |entry: Json| entry is Null || entry is Text;
    if let Some(items) = listed {
        if forall|k: int| 0 <= k < items.len() ==> is_title(#[trigger] items[k]) {
            assert forall|k: int| 0 <= k < items.len() implies sound(#[trigger] items[k]) by {
                assert(is_title(items[k]));
            }
        }
        if forall|k: int| 0 <= k < items.len() ==> sound(#[trigger] items[k]) {
            assert forall|k: int| 0 <= k < items.len() implies is_title(#[trigger] items[k]) by {
                assert(sound(items[k]));
            }
        }
    }
}

/// Everything that was answered is written down, that nothing is known as well, unless the
/// album has no name or the record would take more than four kibibytes.
pub proof fn every_answer_is_written(stamp: Stamp, id: Option<IdModel>, r: Option<Seq<u8>>)
    requires
        written(stamp, id, r),
    ensures
        id is None ==> (r is Some <==> json::printed(record(stamp, None)).len() <= 4096),
        id matches Some(found) ==> (r is Some <==> found.mbid.len() > 0 && json::printed(
            record(stamp, id),
        ).len() <= 4096),
        r matches Some(bytes) ==> decoded(bytes, stamp) == reading(record(stamp, id), stamp),
        filled(None) is None,
        filled(Some(Seq::<char>::empty())) is None,
        id matches Some(found) ==> found.mbid.len() > 0 ==> filled(Some(found.mbid)) == Some(
            found.mbid,
        ),
{
}

} // verus!
