//! Asking AcoustID about a file: the questions, what a reply says about one
//! stretch of it, and what all the replies together say about the whole.

use crate::artwork::Reply;
use crate::fingerprint;
use crate::fingerprint::{IdModel, Identification, Segment};
use crate::id_cache;
use crate::id_cache::{Cached, CachedModel};
use crate::json;
use crate::json::{Json, DOUBLE_SIGN};
use crate::meta_cache::{text_under, Stamp};
use crate::text;
use crate::text::{decimal_text, same_text};
use crate::time::{Duration, NANOS_PER_SEC};
use crate::track::clone_text;
use serde_json::Value;
use vstd::prelude::*;

verus! {

/// Where AcoustID is asked.
pub const LOOKUP_URL: &'static str = "https://api.acoustid.org/v2/lookup";

/// Where a finite double-precision number stands among all of them, by its bits.
pub open spec fn rank(bits: u64) -> int {
    if bits < DOUBLE_SIGN {
        bits as int
    } else {
        DOUBLE_SIGN - bits
    }
}

fn ranked(bits: u64) -> (r: i128)
    ensures
        r == rank(bits),
{
    if bits < DOUBLE_SIGN {
        bits as i128
    } else {
        DOUBLE_SIGN as i128 - bits as i128
    }
}

/// How good a result is: its score, or nought when it has none.
pub open spec fn score_of(result: Json) -> int {
    match json::double(json::member(result, "score"@)) {
        Some(bits) => rank(bits),
        None => 0,
    }
}

/// The best of some results, the last one where several are as good.
pub open spec fn best_of(results: Seq<Json>) -> int
    decreases results.len(),
{
    if results.len() <= 1 {
        0
    } else {
        let before = best_of(results.drop_last());
        if score_of(results.last()) >= score_of(results[before]) {
            results.len() - 1
        } else {
            before
        }
    }
}

/// The first entry of a list in a document.
pub open spec fn first_under(json: Json, key: Seq<char>) -> Option<Json> {
    match json::entries(json::member(json, key)) {
        Some(items) if items.len() > 0 => Some(items[0]),
        _ => None,
    }
}

/// Whether a release group is a proper album.
pub open spec fn is_album(group: Json) -> bool {
    json::text(json::member(group, "type"@)) == Some("Album"@)
}

/// The first proper album among release groups, or the number of groups.
pub open spec fn first_album(groups: Seq<Json>) -> int
    decreases groups.len(),
{
    if groups.len() == 0 || is_album(groups[0]) {
        0
    } else {
        1 + first_album(groups.drop_first())
    }
}

/// The release group to take the cover from: a proper album rather than a single or
/// a compilation, and else the first there is.
pub open spec fn picked(groups: Seq<Json>) -> Option<Json> {
    if groups.len() == 0 {
        None
    } else if first_album(groups) < groups.len() {
        Some(groups[first_album(groups)])
    } else {
        Some(groups[0])
    }
}

/// The text under a key of a document that may be missing.
pub open spec fn text_in(json: Option<Json>, key: Seq<char>) -> Option<Seq<char>> {
    match json {
        Some(json) => json::text(json::member(json, key)),
        None => None,
    }
}

/// The release groups of a result: those of its first recording, when it lists any,
/// and else those of the result itself.
pub open spec fn groups_of(result: Json) -> Option<Seq<Json>> {
    match first_under(result, "recordings"@) {
        Some(recording) => match json::entries(json::member(recording, "releasegroups"@)) {
            Some(groups) => Some(groups),
            None => json::entries(json::member(result, "releasegroups"@)),
        },
        None => json::entries(json::member(result, "releasegroups"@)),
    }
}

/// What is known of one stretch.
#[derive(Debug)]
pub struct SegmentMatch {
    pub title: Option<String>,
    pub artist: Option<String>,
    pub album: Option<String>,
    pub mbid: Option<String>,
}

/// What a match is.
#[verifier::ext_equal]
pub struct MatchModel {
    pub title: Option<Seq<char>>,
    pub artist: Option<Seq<char>>,
    pub album: Option<Seq<char>>,
    pub mbid: Option<Seq<char>>,
}

impl View for SegmentMatch {
    type V = MatchModel;

    open spec fn view(&self) -> MatchModel {
        MatchModel {
            title: self.title.deep_view(),
            artist: self.artist.deep_view(),
            album: self.album.deep_view(),
            mbid: self.mbid.deep_view(),
        }
    }
}

/// What a match is, when there is one.
pub open spec fn match_view(m: Option<SegmentMatch>) -> Option<MatchModel> {
    match m {
        Some(m) => Some(m@),
        None => None,
    }
}

/// What the matches in a list are.
pub open spec fn match_views(matches: Seq<Option<SegmentMatch>>) -> Seq<Option<MatchModel>> {
    matches.map_values(|m: Option<SegmentMatch>| match_view(m))
}

/// What a result says about a stretch.
pub open spec fn match_in(result: Json) -> MatchModel {
    let recording = first_under(result, "recordings"@);
    let artist = match recording {
        Some(recording) => first_under(recording, "artists"@),
        None => None,
    };
    let group = match groups_of(result) {
        Some(groups) => picked(groups),
        None => None,
    };
    MatchModel {
        title: text_in(recording, "title"@),
        artist: text_in(artist, "name"@),
        album: text_in(group, "title"@),
        mbid: text_in(group, "id"@),
    }
}

/// The match that a reply makes, if its best result is good enough to trust.
pub open spec fn matched(reply: Json) -> Option<MatchModel> {
    match json::entries(json::member(reply, "results"@)) {
        Some(results) if results.len() > 0 && score_of(results[best_of(results)]) >= rank(
            fingerprint::MIN_SCORE,
        ) => Some(match_in(results[best_of(results)])),
        _ => None,
    }
}

/// The best of some results is among them, and none is better.
pub proof fn none_is_better(results: Seq<Json>)
    requires
        results.len() > 0,
    ensures
        0 <= best_of(results) < results.len(),
        forall|i: int|
            0 <= i < results.len() ==> score_of(#[trigger] results[i]) <= score_of(
                results[best_of(results)],
            ),
    decreases results.len(),
{
    if results.len() > 1 {
        none_is_better(results.drop_last());
        assert forall|i: int| 0 <= i < results.len() implies score_of(#[trigger] results[i])
            <= score_of(results[best_of(results)]) by {
            if i < results.len() - 1 {
                assert(results.drop_last()[i] == results[i]);
            }
        }
    }
}

fn score(result: &Value) -> (r: i128)
    ensures
        r == score_of(json::contents(*result)),
{
    match json::as_double(json::field(result, "score")) {
        Some(bits) => ranked(bits),
        None => 0,
    }
}

fn find_best(results: &Vec<Value>) -> (best: usize)
    requires
        results@.len() > 0,
    ensures
        best == best_of(json::all_contents(results@)),
        best < results@.len(),
{
    let ghost all = json::all_contents(results@);
    let mut best: usize = 0;
    let mut i: usize = 1;
    while i < results.len()
        invariant
            1 <= i <= results@.len(),
            all == json::all_contents(results@),
            best == best_of(all.take(i as int)),
            best < i,
        decreases results@.len() - i,
    {
        assert(all.take(i + 1).drop_last() =~= all.take(i as int));
        assert(all.take(i + 1).last() == json::contents(results@[i as int]));
        assert(all.take(i + 1)[best as int] == json::contents(results@[best as int]));
        if score(&results[i]) >= score(&results[best]) {
            best = i;
        }
        i = i + 1;
    }
    assert(all.take(all.len() as int) =~= all);
    best
}

fn first_entry<'a>(v: &'a Value, key: &str) -> (r: Option<&'a Value>)
    ensures
        first_under(json::contents(*v), key@) == (match r {
            Some(entry) => Some(json::contents(*entry)),
            None => None::<Json>,
        }),
{
    match json::as_array(json::field(v, key)) {
        Some(items) => {
            if items.len() > 0 {
                Some(&items[0])
            } else {
                None
            }
        },
        None => None,
    }
}

fn text_if(v: Option<&Value>, key: &str) -> (r: Option<String>)
    ensures
        r.deep_view() == text_in(
            match v {
                Some(v) => Some(json::contents(*v)),
                None => None,
            },
            key@,
        ),
{
    match v {
        Some(v) => text_under(v, key),
        None => None,
    }
}

/// Picks the release group to take the cover from.
fn pick_release_group(groups: &Vec<Value>) -> (r: Option<&Value>)
    ensures
        picked(json::all_contents(groups@)) == (match r {
            Some(group) => Some(json::contents(*group)),
            None => None::<Json>,
        }),
{
    let ghost all = json::all_contents(groups@);
    let mut i: usize = 0;
    assert(all.skip(0) =~= all);
    while i < groups.len()
        invariant
            i <= groups@.len(),
            all == json::all_contents(groups@),
            first_album(all) == i + first_album(all.skip(i as int)),
        decreases groups@.len() - i,
    {
        assert(all.skip(i as int).drop_first() =~= all.skip(i + 1));
        assert(all.skip(i as int)[0] == json::contents(groups@[i as int]));
        let album = match json::as_str(json::field(&groups[i], "type")) {
            Some(kind) => same_text(kind, "Album"),
            None => false,
        };
        if album {
            return Some(&groups[i]);
        }
        i = i + 1;
    }
    if groups.len() > 0 {
        Some(&groups[0])
    } else {
        None
    }
}

fn find_groups<'a>(result: &'a Value, recording: Option<&'a Value>) -> (r: Option<&'a Vec<Value>>)
    requires
        first_under(json::contents(*result), "recordings"@) == (match recording {
            Some(entry) => Some(json::contents(*entry)),
            None => None::<Json>,
        }),
    ensures
        groups_of(json::contents(*result)) == (match r {
            Some(groups) => Some(json::all_contents(groups@)),
            None => None::<Seq<Json>>,
        }),
{
    if let Some(recording) = recording {
        if let Some(groups) = json::as_array(json::field(recording, "releasegroups")) {
            return Some(groups);
        }
    }
    json::as_array(json::field(result, "releasegroups"))
}

/// Picks the best result out of a reply and draws the names out of it. `None` when
/// even the best is too weak to trust.
pub fn best_match(reply: &Value) -> (r: Option<SegmentMatch>)
    ensures
        match_view(r) == matched(json::contents(*reply)),
{
    let Some(results) = json::as_array(json::field(reply, "results")) else {
        return None;
    };
    if results.len() == 0 {
        return None;
    }
    let best = &results[find_best(results)];
    if score(best) < ranked(fingerprint::MIN_SCORE) {
        return None;
    }
    let recording = first_entry(best, "recordings");
    let artist = match recording {
        Some(recording) => first_entry(recording, "artists"),
        None => None,
    };
    let group = match find_groups(best, recording) {
        Some(groups) => pick_release_group(groups),
        None => None,
    };
    Some(
        SegmentMatch {
            title: text_if(recording, "title"),
            artist: text_if(artist, "name"),
            album: text_if(group, "title"),
            mbid: text_if(group, "id"),
        },
    )
}

/// What asking about one stretch came to.
pub enum Lookup {
    /// AcoustID answered, with a match or without one.
    Answer(Option<SegmentMatch>),
    /// AcoustID would not answer: a bad key or a malformed question, which fails
    /// every stretch the same way. Carries what it said.
    ServiceError(String),
    /// The network or the server failed: worth trying again later.
    Transient,
}

/// What AcoustID said was wrong.
pub open spec fn complaint(reply: Json) -> Seq<char> {
    match json::text(json::member(json::member(reply, "error"@), "message"@)) {
        Some(message) => message,
        None => "unknown error"@,
    }
}

/// Whether a status code says that the server failed.
pub open spec fn server_failed(status: u16) -> bool {
    500 <= status < 600
}

/// What an answer means.
pub open spec fn answer_means(answer: Json, r: Lookup) -> bool {
    if json::text(json::member(answer, "status"@)) == Some("ok"@) {
        r matches Lookup::Answer(m) && match_view(m) == matched(answer)
    } else {
        r matches Lookup::ServiceError(message) && message@ == complaint(answer)
    }
}

/// What a reply means.
pub open spec fn lookup_means(reply: Option<Reply>, r: Lookup) -> bool {
    match reply {
        Some(Reply { status, body: Some(body) }) if !server_failed(status) => match json::parsed(
            body@,
        ) {
            Some(answer) => answer_means(answer, r),
            None => r is Transient,
        },
        _ => r is Transient,
    }
}

/// Reads an answer: the match in it, or what is wrong with the question.
pub fn read_answer(answer: &Value) -> (r: Lookup)
    ensures
        answer_means(json::contents(*answer), r),
{
    let fine = match json::as_str(json::field(answer, "status")) {
        Some(status) => same_text(status, "ok"),
        None => false,
    };
    if fine {
        return Lookup::Answer(best_match(answer));
    }
    match json::as_str(json::field(json::field(answer, "error"), "message")) {
        Some(message) => Lookup::ServiceError(message.to_string()),
        None => Lookup::ServiceError("unknown error".to_string()),
    }
}

/// Reads a reply, `None` when nothing answered. A server that failed, a body that did
/// not arrive and one that is no answer are failures in passing. Of the other status
/// codes none is judged by: what is wrong with a question is said in the body.
pub fn read_reply(reply: &Option<Reply>) -> (r: Lookup)
    ensures
        lookup_means(*reply, r),
{
    let Some(reply) = reply else {
        return Lookup::Transient;
    };
    if 500 <= reply.status && reply.status < 600 {
        return Lookup::Transient;
    }
    let Some(body) = &reply.body else {
        return Lookup::Transient;
    };
    match json::parse(body.as_slice()) {
        Some(answer) => read_answer(&answer),
        None => Lookup::Transient,
    }
}

/// What identifying a file came to.
pub enum Resolved {
    Found(Identification),
    /// Fingerprinted fine, but AcoustID had no confident match: worth remembering.
    Miss,
    /// The network failed: to be tried again.
    Transient,
}

/// What a resolution is.
pub enum ResolvedModel {
    Found(IdModel),
    Miss,
    Transient,
}

impl View for Resolved {
    type V = ResolvedModel;

    open spec fn view(&self) -> ResolvedModel {
        match self {
            Resolved::Found(id) => ResolvedModel::Found(id@),
            Resolved::Miss => ResolvedModel::Miss,
            Resolved::Transient => ResolvedModel::Transient,
        }
    }
}

/// The album a match is on.
pub open spec fn album_of(m: Option<MatchModel>) -> Option<Seq<char>> {
    match m {
        Some(m) => m.mbid,
        None => None,
    }
}

/// How many of the matches are on an album.
pub open spec fn votes(matches: Seq<Option<MatchModel>>, mbid: Seq<char>) -> nat
    decreases matches.len(),
{
    if matches.len() == 0 {
        0
    } else {
        votes(matches.drop_last(), mbid) + if album_of(matches.last()) == Some(mbid) {
            1nat
        } else {
            0
        }
    }
}

/// Of the first `n` matches, the one whose album most of all the matches are on, the
/// first of them where several are; -1 when none of them is on any album.
pub open spec fn favourite(matches: Seq<Option<MatchModel>>, n: int) -> int
    decreases n,
{
    if n <= 0 {
        -1
    } else {
        let before = favourite(matches, n - 1);
        match album_of(matches[n - 1]) {
            Some(mbid) => if before < 0 || votes(matches, mbid) > votes(
                matches,
                album_of(matches[before])->0,
            ) {
                n - 1
            } else {
                before
            },
            None => before,
        }
    }
}

/// What all the matches come to. The album is the one that most stretches agree on,
/// and the artist and its name come from the first stretch that is on it. Without
/// any album it is worth another try only if nothing but the network failed.
pub open spec fn resolution(
    matches: Seq<Option<MatchModel>>,
    any_transient: bool,
    any_ok: bool,
) -> ResolvedModel {
    let i = favourite(matches, matches.len() as int);
    if i >= 0 {
        let chosen = matches[i]->0;
        ResolvedModel::Found(
            IdModel {
                mbid: chosen.mbid->0,
                artist: chosen.artist,
                album: chosen.album,
                titles: matches.map_values(
                    |m: Option<MatchModel>|
                        match m {
                            Some(m) => m.title,
                            None => None,
                        },
                ),
            },
        )
    } else if any_transient && !any_ok {
        ResolvedModel::Transient
    } else {
        ResolvedModel::Miss
    }
}

/// The favourite is on an album that no other has more votes than, and it is the
/// first of the matches that are on it.
pub proof fn the_favourite_wins(matches: Seq<Option<MatchModel>>, n: int)
    requires
        0 <= n <= matches.len(),
    ensures
        -1 <= favourite(matches, n) < n,
        favourite(matches, n) >= 0 ==> album_of(matches[favourite(matches, n)]) is Some,
        favourite(matches, n) < 0 ==> forall|i: int|
            0 <= i < n ==> album_of(#[trigger] matches[i]) is None,
        favourite(matches, n) >= 0 ==> forall|i: int|
            0 <= i < n && album_of(#[trigger] matches[i]) is Some ==> votes(
                matches,
                album_of(matches[i])->0,
            ) <= votes(matches, album_of(matches[favourite(matches, n)])->0),
        favourite(matches, n) >= 0 ==> forall|i: int|
            0 <= i < favourite(matches, n) ==> album_of(#[trigger] matches[i]) != album_of(
                matches[favourite(matches, n)],
            ),
    decreases n,
{
    if n > 0 {
        the_favourite_wins(matches, n - 1);
    }
}

fn same_maybe(a: &Option<String>, b: &str) -> (r: bool)
    ensures
        r == (a.deep_view() == Some(b@)),
{
    match a {
        Some(a) => same_text(a.as_str(), b),
        None => false,
    }
}

fn count_votes(matches: &Vec<Option<SegmentMatch>>, mbid: &str) -> (n: usize)
    ensures
        n == votes(match_views(matches@), mbid@),
{
    let ghost all = match_views(matches@);
    let mut n: usize = 0;
    let mut i: usize = 0;
    while i < matches.len()
        invariant
            i <= matches@.len(),
            all == match_views(matches@),
            n == votes(all.take(i as int), mbid@),
            n <= i,
        decreases matches@.len() - i,
    {
        assert(all.take(i + 1).drop_last() =~= all.take(i as int));
        assert(all.take(i + 1).last() == match_view(matches@[i as int]));
        if let Some(m) = &matches[i] {
            if same_maybe(&m.mbid, mbid) {
                n = n + 1;
            }
        }
        i = i + 1;
    }
    assert(all.take(all.len() as int) =~= all);
    n
}

fn find_favourite(matches: &Vec<Option<SegmentMatch>>) -> (r: Option<usize>)
    ensures
        match r {
            Some(i) => i == favourite(match_views(matches@), matches@.len() as int) && i
                < matches@.len(),
            None => favourite(match_views(matches@), matches@.len() as int) < 0,
        },
{
    let ghost all = match_views(matches@);
    let mut best: Option<usize> = None;
    let mut most: usize = 0;
    let mut i: usize = 0;
    while i < matches.len()
        invariant
            i <= matches@.len(),
            all == match_views(matches@),
            match best {
                Some(b) => b == favourite(all, i as int) && b < i && album_of(all[b as int])
                    is Some && most == votes(all, album_of(all[b as int])->0),
                None => favourite(all, i as int) == -1,
            },
        decreases matches@.len() - i,
    {
        assert(all[i as int] == match_view(matches@[i as int]));
        if let Some(m) = &matches[i] {
            if let Some(mbid) = &m.mbid {
                let n: usize = count_votes(matches, mbid.as_str());
                if best.is_none() || n > most {
                    best = Some(i);
                    most = n;
                }
            }
        }
        i = i + 1;
    }
    best
}

/// Draws the conclusion from all the matches.
pub fn settle(matches: &Vec<Option<SegmentMatch>>, any_transient: bool, any_ok: bool) -> (r:
    Resolved)
    ensures
        r@ == resolution(match_views(matches@), any_transient, any_ok),
{
    let ghost all = match_views(matches@);
    let Some(i) = find_favourite(matches) else {
        return if any_transient && !any_ok {
            Resolved::Transient
        } else {
            Resolved::Miss
        };
    };
    proof {
        the_favourite_wins(all, all.len() as int);
        assert(all[i as int] == match_view(matches@[i as int]));
    }
    let ghost f = |m: Option<MatchModel>|
        match m {
            Some(m) => m.title,
            None => None,
        };
    let mut titles: Vec<Option<String>> = Vec::new();
    let mut k: usize = 0;
    while k < matches.len()
        invariant
            k <= matches@.len(),
            all == match_views(matches@),
            f == (|m: Option<MatchModel>|
                match m {
                    Some(m) => m.title,
                    None => None,
                }),
            titles@.len() == k,
            forall|j: int| 0 <= j < k ==> (#[trigger] titles@[j]).deep_view() == f(all[j]),
        decreases matches@.len() - k,
    {
        assert(all[k as int] == match_view(matches@[k as int]));
        let title = match &matches[k] {
            Some(m) => clone_text(&m.title),
            None => None,
        };
        titles.push(title);
        k = k + 1;
    }
    assert(fingerprint::title_views(titles@) =~= all.map_values(f));
    match &matches[i] {
        Some(m) => match &m.mbid {
            Some(mbid) => Resolved::Found(
                Identification {
                    mbid: mbid.clone(),
                    artist: clone_text(&m.artist),
                    album: clone_text(&m.album),
                    chapter_titles: titles,
                },
            ),
            None => Resolved::Miss,
        },
        None => Resolved::Miss,
    }
}

/// One question to AcoustID.
pub struct Question {
    pub fingerprint: String,
    /// How long the recording is, in whole seconds and at least one.
    pub seconds: String,
    /// Something was asked before, so the service needs a moment.
    pub wait: bool,
}

/// How long a recording is said to be.
pub open spec fn said_length(d: Duration) -> nat {
    let secs = (d.nanos / NANOS_PER_SEC) as nat;
    if secs < 1 {
        1
    } else {
        secs
    }
}

/// The fields of a question.
pub open spec fn asks_for(api_key: Seq<char>, question: Question, r: Seq<(String, String)>) -> bool {
    &&& r.len() == 4
    &&& r[0].0@ == "client"@ && r[0].1@ == api_key
    &&& r[1].0@ == "meta"@ && r[1].1@ == "recordings releasegroups"@
    &&& r[2].0@ == "duration"@ && r[2].1@ == question.seconds@
    &&& r[3].0@ == "fingerprint"@ && r[3].1@ == question.fingerprint@
}

/// The fields of a question, as they go into the address. The kinds of answers
/// asked for have a space between them: a plus would not arrive as a separator.
pub fn query(api_key: &str, question: &Question) -> (r: Vec<(String, String)>)
    ensures
        asks_for(api_key@, *question, r@),
{
    let mut r: Vec<(String, String)> = Vec::new();
    r.push(("client".to_string(), api_key.to_string()));
    r.push(("meta".to_string(), "recordings releasegroups".to_string()));
    r.push(("duration".to_string(), question.seconds.clone()));
    r.push(("fingerprint".to_string(), question.fingerprint.clone()));
    r
}

/// Asks about the stretches of a file, one after the other.
pub struct Survey {
    pub segments: Vec<Segment>,
    pub prints: Vec<Option<String>>,
    /// What is known of the stretches that are done with.
    pub matches: Vec<Option<SegmentMatch>>,
    pub any_transient: bool,
    pub any_ok: bool,
    /// AcoustID would not answer, and there is no point in asking on.
    pub refused: bool,
}

/// What asking for the next question does to a survey.
pub open spec fn asks_on(before: Survey, now: Survey, r: Option<Question>) -> bool {
    &&& now.segments == before.segments
    &&& now.prints == before.prints
    &&& now.any_transient == before.any_transient
    &&& now.any_ok == before.any_ok
    &&& now.refused == before.refused
    &&& now.matches@.len() >= before.matches@.len()
    &&& forall|i: int|
        0 <= i < before.matches@.len() ==> #[trigger] now.matches@[i] == before.matches@[i]
    &&& forall|i: int|
        before.matches@.len() <= i < now.matches@.len() ==> {
            &&& #[trigger] now.matches@[i] is None
            &&& before.prints@[i] is None
        }
    &&& r is Some <==> now.asking()
    &&& r is None && !before.refused ==> now.matches@.len() == before.prints@.len()
    &&& r matches Some(q) ==> {
        let i = now.matches@.len() as int;
        &&& q.fingerprint@ == before.prints@[i]->0@
        &&& q.seconds@ == text::decimal(
            said_length(before.segments@[i].report_duration),
        )
        &&& q.wait == (before.any_ok || before.any_transient)
    }
}

/// What an answer does to a survey.
pub open spec fn hears(before: Survey, reply: Lookup, now: Survey) -> bool {
    &&& now.segments == before.segments
    &&& now.prints == before.prints
    &&& match reply {
        Lookup::Answer(m) => {
            &&& now.matches@ == before.matches@.push(m)
            &&& now.any_ok
            &&& now.any_transient == before.any_transient
            &&& !now.refused
        },
        Lookup::ServiceError(_) => {
            &&& now.matches == before.matches
            &&& now.any_ok == before.any_ok
            &&& now.any_transient == before.any_transient
            &&& now.refused
        },
        Lookup::Transient => {
            &&& now.matches@ == before.matches@.push(None)
            &&& now.any_ok == before.any_ok
            &&& now.any_transient
            &&& !now.refused
        },
    }
}

impl Survey {
    pub open spec fn well_formed(&self) -> bool {
        &&& self.prints@.len() == self.segments@.len()
        &&& self.matches@.len() <= self.prints@.len()
    }

    /// Whether the next stretch is waiting for an answer.
    pub open spec fn asking(&self) -> bool {
        &&& !self.refused
        &&& self.matches@.len() < self.prints@.len()
        &&& self.prints@[self.matches@.len() as int] is Some
    }

    pub fn new(segments: Vec<Segment>, prints: Vec<Option<String>>) -> (s: Survey)
        requires
            prints@.len() == segments@.len(),
        ensures
            s.well_formed(),
            s.segments == segments,
            s.prints == prints,
            s.matches@.len() == 0,
            !s.any_transient,
            !s.any_ok,
            !s.refused,
    {
        Survey {
            segments,
            prints,
            matches: Vec::new(),
            any_transient: false,
            any_ok: false,
            refused: false,
        }
    }

    /// The next question, and `None` when there is none left. Stretches without a
    /// fingerprint are passed over, with nothing known of them.
    pub fn ask(&mut self) -> (r: Option<Question>)
        requires
            old(self).well_formed(),
        ensures
            final(self).well_formed(),
            asks_on(*old(self), *final(self), r),
    {
        if self.refused {
            return None;
        }
        let ghost before = *self;
        while self.matches.len() < self.prints.len()
            invariant
                self.well_formed(),
                before.well_formed(),
                before == *old(self),
                !self.refused,
                self.segments == before.segments,
                self.prints == before.prints,
                self.any_transient == before.any_transient,
                self.any_ok == before.any_ok,
                self.refused == before.refused,
                self.matches@.len() >= before.matches@.len(),
                forall|i: int|
                    0 <= i < before.matches@.len() ==> #[trigger] self.matches@[i]
                        == before.matches@[i],
                forall|i: int|
                    before.matches@.len() <= i < self.matches@.len() ==> {
                        &&& #[trigger] self.matches@[i] is None
                        &&& before.prints@[i] is None
                    },
            decreases self.prints@.len() - self.matches@.len(),
        {
            let i: usize = self.matches.len();
            if let Some(print) = &self.prints[i] {
                let secs: u128 = self.segments[i].report_duration.as_secs();
                let said: u128 = if secs < 1 {
                    1
                } else {
                    secs
                };
                return Some(
                    Question {
                        fingerprint: print.clone(),
                        seconds: decimal_text(said),
                        wait: self.any_ok || self.any_transient,
                    },
                );
            }
            self.matches.push(None);
        }
        None
    }

    /// Takes the answer to the question that was asked.
    pub fn hear(&mut self, reply: Lookup)
        requires
            old(self).well_formed(),
            old(self).asking(),
        ensures
            final(self).well_formed(),
            hears(*old(self), reply, *final(self)),
    {
        match reply {
            Lookup::Answer(m) => {
                self.any_ok = true;
                self.matches.push(m);
            },
            Lookup::ServiceError(_) => {
                self.refused = true;
            },
            Lookup::Transient => {
                self.any_transient = true;
                self.matches.push(None);
            },
        }
    }

    /// What the survey came to.
    pub open spec fn conclusion(&self) -> ResolvedModel {
        if self.refused {
            ResolvedModel::Transient
        } else {
            resolution(match_views(self.matches@), self.any_transient, self.any_ok)
        }
    }

    /// What the survey came to. One that was refused came to nothing that is worth
    /// remembering: a corrected key may do better on the next play.
    pub fn conclude(&self) -> (r: Resolved)
        ensures
            r@ == self.conclusion(),
    {
        if self.refused {
            return Resolved::Transient;
        }
        settle(&self.matches, self.any_transient, self.any_ok)
    }
}

/// What is remembered of a file.
pub enum Recall {
    Known(Identification),
    /// It was asked about before, and AcoustID did not know.
    Unknown,
    /// It has to be asked about.
    Ask,
}

/// What the record on a file says before anything is asked.
pub open spec fn recalls(stamp: Option<Stamp>, attribute: Option<Seq<u8>>, r: Recall) -> bool {
    match (stamp, attribute) {
        (Some(stamp), Some(bytes)) => match id_cache::decoded(bytes, stamp) {
            Some(CachedModel::Found(id)) => r matches Recall::Known(known) && known@ == id,
            Some(CachedModel::Unknown) => r is Unknown,
            None => r is Ask,
        },
        _ => r is Ask,
    }
}

/// Looks at the record on a file before anything is fingerprinted. `stamp` is
/// missing when the file could not be looked at, and then there is no record.
pub fn recall(stamp: Option<Stamp>, attribute: Option<&[u8]>) -> (r: Recall)
    ensures
        recalls(
            stamp,
            match attribute {
                Some(bytes) => Some(bytes@),
                None => None,
            },
            r,
        ),
{
    let Some(stamp) = stamp else {
        return Recall::Ask;
    };
    match id_cache::read(attribute, stamp) {
        Some(Cached::Found(id)) => Recall::Known(id),
        Some(Cached::Unknown) => Recall::Unknown,
        None => Recall::Ask,
    }
}

/// The record that a conclusion leaves on a file.
pub open spec fn leaves(
    stamp: Option<Stamp>,
    resolved: ResolvedModel,
    attribute: Option<Seq<u8>>,
) -> bool {
    match (stamp, resolved) {
        (Some(stamp), ResolvedModel::Found(id)) => id_cache::written(
            stamp,
            Some(id),
            attribute,
        ),
        (Some(stamp), ResolvedModel::Miss) => id_cache::written(
            stamp,
            None,
            attribute,
        ),
        _ => attribute is None,
    }
}

/// The record to leave on a file, if any: what was found, and that nothing was, but
/// never a failure on the way.
pub fn to_remember(stamp: Option<Stamp>, resolved: &Resolved) -> (attribute: Option<Vec<u8>>)
    ensures
        leaves(stamp, resolved@, attribute.deep_view()),
{
    let Some(stamp) = stamp else {
        return None;
    };
    match resolved {
        Resolved::Found(id) => id_cache::write_found(stamp, id),
        Resolved::Miss => id_cache::write_unknown(stamp),
        Resolved::Transient => None,
    }
}

/// A file that was found keeps one title for each of its stretches, in order.
pub proof fn every_stretch_keeps_its_place(
    matches: Seq<Option<MatchModel>>,
    any_transient: bool,
    any_ok: bool,
)
    ensures
        resolution(matches, any_transient, any_ok) matches ResolvedModel::Found(id)
            ==> id.titles.len() == matches.len(),
        resolution(matches, any_transient, any_ok) is Transient ==> !any_ok,
{
}

/// The votes of an album are the matches that carry it, every one of them and no other.
pub proof fn every_match_on_an_album_is_a_vote(matches: Seq<Option<MatchModel>>, mbid: Seq<char>)
    ensures
        votes(matches, mbid) == matches.filter(
            |m: Option<MatchModel>| m is Some && m->0.mbid == Some(mbid),
        ).len(),
    decreases matches.len(),
{
    reveal(Seq::filter);
    if matches.len() > 0 {
        every_match_on_an_album_is_a_vote(matches.drop_last(), mbid);
    }
}

/// A file is found exactly when some stretch of it is on an album. The album it is found
/// on is one that no other has more matches than; the artist and the album's name are
/// those of the first stretch that is on it; and each stretch keeps the title of its own
/// match. A file that was not found is to be asked about again exactly when something
/// failed in passing and nothing was answered.
pub proof fn most_stretches_agree_on_the_album(
    matches: Seq<Option<MatchModel>>,
    any_transient: bool,
    any_ok: bool,
    other: Seq<char>,
)
    ensures
        resolution(matches, any_transient, any_ok) is Found <==> exists|i: int|
            0 <= i < matches.len() && (#[trigger] matches[i]) is Some && matches[i]->0.mbid is Some,
        resolution(matches, any_transient, any_ok) is Transient <==> any_transient && !any_ok && (
        forall|i: int|
            0 <= i < matches.len() && (#[trigger] matches[i]) is Some ==> matches[i]->0.mbid
                is None),
        resolution(matches, any_transient, any_ok) matches ResolvedModel::Found(id) ==> {
            &&& matches.filter(
                |m: Option<MatchModel>| m is Some && m->0.mbid == Some(other),
            ).len() <= matches.filter(
                |m: Option<MatchModel>| m is Some && m->0.mbid == Some(id.mbid),
            ).len()
            &&& exists|i: int|
                {
                    &&& 0 <= i < matches.len()
                    &&& (#[trigger] matches[i]) is Some
                    &&& matches[i]->0.mbid == Some(id.mbid)
                    &&& matches[i]->0.artist == id.artist
                    &&& matches[i]->0.album == id.album
                    &&& forall|j: int|
                        0 <= j < i && (#[trigger] matches[j]) is Some ==> matches[j]->0.mbid
                            != Some(id.mbid)
                }
            &&& id.titles.len() == matches.len()
            &&& forall|i: int|
                0 <= i < matches.len() ==> #[trigger] id.titles[i] == (if matches[i] is Some {
                    matches[i]->0.title
                } else {
                    None
                })
        },
{
    let f = favourite(matches, matches.len() as int);
    the_favourite_wins(matches, matches.len() as int);
    if f >= 0 {
        let mbid = matches[f]->0.mbid->0;
        every_match_on_an_album_is_a_vote(matches, other);
        every_match_on_an_album_is_a_vote(matches, mbid);
        if votes(matches, other) > 0 {
            a_vote_has_a_voter(matches, other);
            let i = choose|i: int|
                0 <= i < matches.len() && album_of(#[trigger] matches[i]) == Some(other);
            assert(album_of(matches[i]) is Some);
        }
        assert(album_of(matches[f]) is Some);
        assert forall|j: int| 0 <= j < f && (#[trigger] matches[j]) is Some implies matches[j]->0.mbid
            != Some(mbid) by {
            assert(album_of(matches[j]) != album_of(matches[f]));
        }
    } else {
        assert forall|i: int|
            0 <= i < matches.len() && (#[trigger] matches[i]) is Some implies matches[i]->0.mbid
            is None by {
            assert(album_of(matches[i]) is None);
        }
    }
}

proof fn a_vote_has_a_voter(matches: Seq<Option<MatchModel>>, mbid: Seq<char>)
    requires
        votes(matches, mbid) > 0,
    ensures
        exists|i: int| 0 <= i < matches.len() && album_of(#[trigger] matches[i]) == Some(mbid),
    decreases matches.len(),
{
    let front = matches.drop_last();
    if album_of(matches.last()) == Some(mbid) {
        assert(album_of(matches[matches.len() - 1]) == Some(mbid));
    } else {
        a_vote_has_a_voter(front, mbid);
        let i = choose|i: int| 0 <= i < front.len() && album_of(#[trigger] front[i]) == Some(mbid);
        assert(matches[i] == front[i]);
    }
}

/// The release group picked is the first that says it is an album, and the first of all
/// when none does.
pub proof fn an_album_is_picked_first(groups: Seq<Json>, i: int)
    requires
        0 <= i < groups.len(),
    ensures
        picked(groups) is Some,
        picked(Seq::<Json>::empty()) is None,
        json::text(json::member(groups[i], "type"@)) == Some("Album"@) && (forall|j: int|
            0 <= j < i ==> json::text(json::member(#[trigger] groups[j], "type"@)) != Some(
                "Album"@,
            )) ==> picked(groups) == Some(groups[i]),
        (forall|j: int|
            0 <= j < groups.len() ==> json::text(json::member(#[trigger] groups[j], "type"@))
                != Some("Album"@)) ==> picked(groups) == Some(groups[0]),
{
    first_album_is_first(groups);
    let n = first_album(groups);
    if json::text(json::member(groups[i], "type"@)) == Some("Album"@) {
        if forall|j: int|
            0 <= j < i ==> json::text(json::member(#[trigger] groups[j], "type"@)) != Some(
                "Album"@,
            ) {
            assert(is_album(groups[i]));
            if n < i {
                assert(is_album(groups[n]));
            }
        }
    }
    if n < groups.len() {
        assert(is_album(groups[n]));
    }
}

proof fn first_album_is_first(groups: Seq<Json>)
    ensures
        0 <= first_album(groups) <= groups.len(),
        forall|j: int| 0 <= j < first_album(groups) ==> !is_album(#[trigger] groups[j]),
        first_album(groups) < groups.len() ==> is_album(groups[first_album(groups)]),
    decreases groups.len(),
{
    if groups.len() > 0 && !is_album(groups[0]) {
        let rest = groups.drop_first();
        first_album_is_first(rest);
        assert forall|j: int| 0 <= j < first_album(groups) implies !is_album(
            #[trigger] groups[j],
        ) by {
            if j > 0 {
                assert(groups[j] == rest[j - 1]);
            }
        }
    }
}

/// A match is made of a result that no other has a better score than, the last of those
/// that are as good, and only when its score is at least a half: the title is that of its
/// first recording, the artist the first of that, and the album the release group picked.
/// Without such a result there is no match.
pub proof fn a_match_is_the_best_result(reply: Json, results: Seq<Json>, i: int)
    requires
        json::entries(json::member(reply, "results"@)) == Some(results),
        0 <= i < results.len(),
        forall|j: int| 0 <= j < i ==> score_of(#[trigger] results[j]) <= score_of(results[i]),
        forall|j: int|
            i < j < results.len() ==> score_of(#[trigger] results[j]) < score_of(results[i]),
    ensures
        matched(reply) is Some <==> score_of(results[i]) >= 0x3fe0_0000_0000_0000,
        matched(reply) matches Some(m) ==> {
            let recordings = json::entries(json::member(results[i], "recordings"@));
            let first = recordings->0[0];
            let artists = json::entries(json::member(first, "artists"@));
            let own = json::entries(json::member(first, "releasegroups"@));
            let recorded = recordings is Some && recordings->0.len() > 0;
            let groups = if recorded && own is Some {
                own
            } else {
                json::entries(json::member(results[i], "releasegroups"@))
            };
            &&& recorded ==> m.title == json::text(json::member(first, "title"@))
            &&& !recorded ==> m.title is None
            &&& recorded && artists is Some && artists->0.len() > 0 ==> m.artist == json::text(
                json::member(artists->0[0], "name"@),
            )
            &&& !(recorded && artists is Some && artists->0.len() > 0) ==> m.artist is None
            &&& groups is Some && groups->0.len() > 0 ==> picked(groups->0) is Some && m.mbid
                == json::text(json::member(picked(groups->0)->0, "id"@)) && m.album == json::text(
                json::member(picked(groups->0)->0, "title"@),
            )
            &&& !(groups is Some && groups->0.len() > 0) ==> m.mbid is None && m.album is None
        },
{
    none_is_better(results);
    the_last_of_the_best(results);
    let b = best_of(results);
    assert(score_of(results[i]) <= score_of(results[b]));
    if b < i {
        assert(score_of(results[i]) < score_of(results[b]));
    }
    if i < b {
        assert(score_of(results[b]) < score_of(results[i]));
    }
}

proof fn the_last_of_the_best(results: Seq<Json>)
    requires
        results.len() > 0,
    ensures
        forall|j: int|
            best_of(results) < j < results.len() ==> score_of(#[trigger] results[j]) < score_of(
                results[best_of(results)],
            ),
    decreases results.len(),
{
    if results.len() > 1 {
        let front = results.drop_last();
        none_is_better(front);
        the_last_of_the_best(front);
        assert forall|j: int| best_of(results) < j < results.len() implies score_of(
            #[trigger] results[j],
        ) < score_of(results[best_of(results)]) by {
            if j < front.len() {
                assert(results[j] == front[j]);
            }
        }
    }
}

/// Scores are ordered as the numbers they are: larger bits are larger numbers, a sign
/// turns the order round and puts a number below nought, and the two noughts are one. A
/// result without a score counts as nought.
pub proof fn scores_are_ordered_as_numbers(a: u64, b: u64, result: Json)
    ensures
        a < b < 0x8000_0000_0000_0000 ==> rank(a) < rank(b),
        0x8000_0000_0000_0000 <= a < b ==> rank(b) < rank(a),
        a < 0x8000_0000_0000_0000 < b ==> rank(b) < rank(a),
        rank(0) == 0 && rank(0x8000_0000_0000_0000) == 0,
        json::double(json::member(result, "score"@)) is None ==> score_of(result) == rank(0),
        json::double(json::member(result, "score"@)) matches Some(bits) ==> score_of(result) == rank(
            bits,
        ),
{
}

/// A recording is said to be as long as it is in whole seconds, and never shorter than
/// one.
pub proof fn a_length_is_said_in_seconds(d: Duration)
    ensures
        said_length(d) >= 1,
        d.nanos >= 1_000_000_000 ==> said_length(d) * 1_000_000_000 <= d.nanos < (said_length(d)
            + 1) * 1_000_000_000,
        d.nanos < 1_000_000_000 ==> said_length(d) == 1,
{
}

/// A server that failed, a reply without a body and one that is no document are all worth
/// another try; any other answer is either a match or a complaint.
pub proof fn a_failed_server_is_asked_again(reply: Option<Reply>, r: Lookup)
    requires
        lookup_means(reply, r),
    ensures
        reply is None ==> r is Transient,
        reply matches Some(got) ==> {
            &&& 500 <= got.status <= 599 ==> r is Transient
            &&& got.body is None ==> r is Transient
            &&& got.body matches Some(body) ==> {
                &&& json::parsed(body@) is None ==> r is Transient
                &&& (got.status < 500 || got.status > 599) && json::parsed(body@) is Some ==> r
                    !is Transient
                &&& (got.status < 500 || got.status > 599) && json::parsed(body@) is Some ==> (r
                    is Answer <==> json::text(json::member(json::parsed(body@)->0, "status"@))
                    == Some("ok"@))
            }
        },
{
}

/// The stretches are gone through in order, and each gets its one place: a stretch without
/// a fingerprint gets nothing there, and one with a fingerprint is asked about with its own
/// fingerprint and its own length, and gets the answer. Nothing known already changes.
pub proof fn every_stretch_gets_its_own_answer(
    before: Survey,
    asked: Survey,
    q: Question,
    m: Option<SegmentMatch>,
    now: Survey,
    i: int,
)
    requires
        before.well_formed(),
        asked.well_formed(),
        asks_on(before, asked, Some(q)),
        hears(asked, Lookup::Answer(m), now),
    ensures
        asked.matches@.len() < before.prints@.len(),
        before.prints@[asked.matches@.len() as int] is Some,
        q.fingerprint@ == before.prints@[asked.matches@.len() as int]->0@,
        q.seconds@ == text::decimal(
            if before.segments@[asked.matches@.len() as int].report_duration.nanos < 1_000_000_000 {
                1
            } else {
                (before.segments@[asked.matches@.len() as int].report_duration.nanos
                    / 1_000_000_000) as nat
            },
        ),
        now.matches@.len() == asked.matches@.len() + 1,
        now.matches@.last() == m,
        0 <= i < before.matches@.len() ==> now.matches@[i] == before.matches@[i],
        before.matches@.len() <= i < asked.matches@.len() ==> now.matches@[i] is None
            && before.prints@[i] is None,
        now.prints == before.prints && now.segments == before.segments,
        now.any_ok && !now.refused,
        q.wait == (before.any_ok || before.any_transient),
{
}

/// A survey has no question left when every stretch has its place or the service refused,
/// and otherwise it has one.
pub proof fn a_survey_asks_until_it_is_done(before: Survey, now: Survey, r: Option<Question>)
    requires
        before.well_formed(),
        now.well_formed(),
        asks_on(before, now, r),
    ensures
        before.refused ==> r is None,
        !before.refused && r is None ==> now.matches@.len() == before.prints@.len(),
        !before.refused && (exists|i: int|
            before.matches@.len() <= i < before.prints@.len() && #[trigger] before.prints@[i]
                is Some) ==> r is Some,
{
    if !before.refused && r is None {
        assert forall|i: int| before.matches@.len() <= i < before.prints@.len() implies (
        #[trigger] before.prints@[i]) is None by {
            assert(now.matches@[i] is None);
        }
    }
}

/// A failure on the way leaves the stretch without an answer and is taken note of; a refusal
/// ends the survey, and what it came to then is not worth remembering. A survey that nobody
/// answered because of failures is not either; one that was answered is.
pub proof fn failures_are_not_remembered(
    before: Survey,
    failed: Survey,
    message: String,
    refused: Survey,
    none: Option<Question>,
    after: Survey,
    stamp: Option<Stamp>,
    attribute: Option<Seq<u8>>,
)
    requires
        before.well_formed(),
        before.asking(),
        hears(before, Lookup::Transient, failed),
        hears(before, Lookup::ServiceError(message), refused),
        asks_on(refused, after, none),
        leaves(stamp, refused.conclusion(), attribute),
    ensures
        failed.matches@ == before.matches@.push(None),
        failed.any_transient && failed.any_ok == before.any_ok && !failed.refused,
        refused.refused,
        none is None,
        refused.conclusion() is Transient,
        attribute is None,
        failed.conclusion() is Transient ==> !before.any_ok,
{
}

/// What was found out about a file is what its record says later, as long as the file is
/// the same; that nobody knows it is remembered too. Without a look at the file, and
/// without a record, it is asked about.
pub proof fn what_is_left_on_a_file_is_recalled(
    stamp: Stamp,
    resolved: ResolvedModel,
    attribute: Seq<u8>,
    r: Recall,
    other: Option<Stamp>,
    lost: Recall,
)
    requires
        leaves(Some(stamp), resolved, Some(attribute)),
        recalls(Some(stamp), Some(attribute), r),
        other is Some ==> other->0 != stamp,
        recalls(other, Some(attribute), lost),
    ensures
        resolved is Found ==> {
            &&& r is Known
            &&& r->Known_0@.mbid == resolved->Found_0.mbid
            &&& r->Known_0@.titles == resolved->Found_0.titles
            &&& resolved->Found_0.artist != Some(Seq::<char>::empty()) ==> r->Known_0@.artist
                == resolved->Found_0.artist
            &&& resolved->Found_0.album != Some(Seq::<char>::empty()) ==> r->Known_0@.album
                == resolved->Found_0.album
        },
        resolved is Miss ==> r is Unknown,
        resolved !is Transient,
        lost is Ask,
{
    match resolved {
        ResolvedModel::Found(id) => {
            id_cache::a_record_reads_back(stamp, Some(id));
            assert(id.artist is Some && id.artist->0.len() == 0 ==> id.artist->0 =~= seq![]);
            assert(id.album is Some && id.album->0.len() == 0 ==> id.album->0 =~= seq![]);
            if let Some(other) = other {
                id_cache::a_changed_file_has_no_record(stamp, Some(id), other);
            }
        },
        ResolvedModel::Miss => {
            id_cache::a_record_reads_back(stamp, None);
            if let Some(other) = other {
                id_cache::a_changed_file_has_no_record(stamp, None, other);
            }
        },
        ResolvedModel::Transient => {},
    }
}

/// A question carries the key, what is asked for, the length and the fingerprint, each
/// under the name that the service knows it by.
pub proof fn a_question_says_these(
    api_key: Seq<char>,
    question: Question,
    r: Seq<(String, String)>,
)
    requires
        asks_for(api_key, question, r),
    ensures
        r.len() == 4,
        r.map_values(|f: (String, String)| (f.0@, f.1@)) == seq![
            ("client"@, api_key),
            ("meta"@, "recordings releasegroups"@),
            ("duration"@, question.seconds@),
            ("fingerprint"@, question.fingerprint@),
        ],
{
    assert(r.map_values(|f: (String, String)| (f.0@, f.1@)) =~= seq![
        ("client"@, api_key),
        ("meta"@, "recordings releasegroups"@),
        ("duration"@, question.seconds@),
        ("fingerprint"@, question.fingerprint@),
    ]);
}

/// An answer that is fine is the match in it, if there is one; any other says what was
/// wrong, in the service's own words where it has some.
pub proof fn an_answer_is_its_match_or_a_complaint(answer: Json, r: Lookup)
    requires
        answer_means(answer, r),
    ensures
        json::text(json::member(answer, "status"@)) == Some("ok"@) ==> (r matches Lookup::Answer(m)
            && (m is Some <==> matched(answer) is Some) && (m is Some ==> m->0@
            == matched(answer)->0)),
        json::text(json::member(answer, "status"@)) != Some("ok"@) ==> (
        r matches Lookup::ServiceError(message) && message@ == (match json::text(
            json::member(json::member(answer, "error"@), "message"@),
        ) {
            Some(said) => said,
            None => "unknown error"@,
        })),
{
}

} // verus!
