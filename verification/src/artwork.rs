//! Album covers: telling a picture by its first bytes, naming it in the cache and
//! deciding what a lookup on the internet came to.
//!
//! The source is the iTunes Search API, with the Cover Art Archive for albums
//! that were identified by their sound. A cover is fetched at most once per
//! album. What the network and the disk have to do is the caller's; what follows
//! from their answers is decided here.

use crate::json;
use crate::lists;
use crate::lists::starts_with_bytes;
use crate::path;
use crate::path::FilePath;
use crate::text;
use crate::text::{chars_of, hex_chars, join_text, replace, text_of, to_lowercase, trim};
use serde_json::Value;
use std::collections::hash_map::DefaultHasher;
use std::hash::Hasher;
use vstd::arithmetic::power::pow;
use vstd::prelude::*;
use vstd::std_specs::hash::DefaultHasherAdditionalSpecFns;
use vstd::utf8::*;

verus! {

/// The picture formats a cover can come in.
#[derive(Clone, Copy, PartialEq, Eq, Structural, Debug)]
pub enum ImageFormat {
    Jpeg,
    Png,
    Gif,
    Webp,
}

/// The bytes every picture of a format starts with.
pub open spec fn magic(format: ImageFormat) -> Seq<u8> {
    match format {
        ImageFormat::Jpeg => seq![0xffu8, 0xd8, 0xff],
        ImageFormat::Png => seq![0x89u8, 0x50, 0x4e, 0x47],
        ImageFormat::Gif => seq![0x47u8, 0x49, 0x46, 0x38],
        ImageFormat::Webp => seq![0x52u8, 0x49, 0x46, 0x46],
    }
}

/// `WEBP`, which follows the four bytes of length in a picture of that format.
pub open spec fn webp() -> Seq<u8> {
    seq![0x57u8, 0x45, 0x42, 0x50]
}

/// The format of a picture, told by its first bytes.
pub open spec fn format_of(b: Seq<u8>) -> Option<ImageFormat> {
    if lists::starts(b, magic(ImageFormat::Jpeg)) {
        Some(ImageFormat::Jpeg)
    } else if lists::starts(b, magic(ImageFormat::Png)) {
        Some(ImageFormat::Png)
    } else if lists::starts(b, magic(ImageFormat::Gif)) {
        Some(ImageFormat::Gif)
    } else if b.len() >= 12 && lists::starts(b, magic(ImageFormat::Webp)) && lists::starts(
        b.skip(8),
        webp(),
    ) {
        Some(ImageFormat::Webp)
    } else {
        None
    }
}

/// Tells the format of a picture from its first bytes rather than from what
/// anything says about it. `None` for a format that cannot be shown, and for what
/// is no picture at all.
pub fn sniff(b: &[u8]) -> (format: Option<ImageFormat>)
    ensures
        format == format_of(b@),
{
    let jpeg: [u8; 3] = [0xff, 0xd8, 0xff];
    let png: [u8; 4] = [0x89, 0x50, 0x4e, 0x47];
    let gif: [u8; 4] = [0x47, 0x49, 0x46, 0x38];
    let riff: [u8; 4] = [0x52, 0x49, 0x46, 0x46];
    let kind: [u8; 4] = [0x57, 0x45, 0x42, 0x50];
    assert(jpeg@ =~= magic(ImageFormat::Jpeg));
    assert(png@ =~= magic(ImageFormat::Png));
    assert(gif@ =~= magic(ImageFormat::Gif));
    assert(riff@ =~= magic(ImageFormat::Webp));
    assert(kind@ =~= webp());
    if starts_with_bytes(b, jpeg.as_slice()) {
        Some(ImageFormat::Jpeg)
    } else if starts_with_bytes(b, png.as_slice()) {
        Some(ImageFormat::Png)
    } else if starts_with_bytes(b, gif.as_slice()) {
        Some(ImageFormat::Gif)
    } else if b.len() >= 12 && starts_with_bytes(b, riff.as_slice()) {
        let rest = vstd::slice::slice_subrange(b, 8, b.len());
        assert(rest@ =~= b@.skip(8));
        if starts_with_bytes(rest, kind.as_slice()) {
            Some(ImageFormat::Webp)
        } else {
            None
        }
    } else {
        None
    }
}

/// The first of several pictures that can be shown, and its format.
pub open spec fn first_shown(pictures: Seq<&[u8]>) -> Option<(int, ImageFormat)>
    decreases pictures.len(),
{
    if pictures.len() == 0 {
        None
    } else {
        match format_of(pictures[0]@) {
            Some(format) => Some((0int, format)),
            None => match first_shown(pictures.drop_first()) {
                Some((i, format)) => Some((i + 1, format)),
                None => None,
            },
        }
    }
}

/// Finds the first picture that can be shown.
pub fn first_usable(pictures: &[&[u8]]) -> (r: Option<(usize, ImageFormat)>)
    ensures
        r is Some <==> first_shown(pictures@) is Some,
        r matches Some(found) ==> first_shown(pictures@) == Some((found.0 as int, found.1)),
{
    let mut i: usize = 0;
    assert(pictures@.skip(0) =~= pictures@);
    while i < pictures.len()
        invariant
            i <= pictures@.len(),
            first_shown(pictures@) == (match first_shown(pictures@.skip(i as int)) {
                Some((n, format)) => Some((n + i, format)),
                None => None,
            }),
        decreases pictures@.len() - i,
    {
        assert(pictures@.skip(i as int).drop_first() =~= pictures@.skip(i + 1));
        if let Some(format) = sniff(pictures[i]) {
            return Some((i, format));
        }
        i = i + 1;
    }
    None
}

/// A folder of the player's own: under the one the environment names, when it
/// names an absolute one, and else at a fixed place under the home folder.
pub open spec fn own_dir(
    named: Option<Seq<u8>>,
    home: Option<Seq<u8>>,
    below: Seq<u8>,
    usual: Seq<u8>,
) -> Option<Seq<u8>> {
    match named {
        Some(dir) if path::absolute(dir) => Some(path::joined(dir, below)),
        _ => match home {
            Some(home) => Some(path::joined(home, usual)),
            None => None,
        },
    }
}

/// Works out a folder of the player's own from what the environment says.
pub fn own_folder(
    named: &Option<FilePath>,
    home: &Option<FilePath>,
    below: &str,
    usual: &str,
) -> (dir: Option<FilePath>)
    ensures
        dir.deep_view() == own_dir(
            named.deep_view(),
            home.deep_view(),
            encode_utf8(below@),
            encode_utf8(usual@),
        ),
{
    if let Some(dir) = named {
        if dir.is_absolute() {
            return Some(dir.join(&FilePath::from_text(below)));
        }
    }
    match home {
        Some(home) => Some(home.join(&FilePath::from_text(usual))),
        None => None,
    }
}

/// Where covers are kept: `hark/covers` under `XDG_CACHE_HOME`, else
/// `.cache/hark/covers` under the home folder.
pub open spec fn covers(cache_home: Option<Seq<u8>>, home: Option<Seq<u8>>) -> Option<Seq<u8>> {
    own_dir(
        cache_home,
        home,
        encode_utf8("hark/covers"@),
        encode_utf8(".cache/hark/covers"@),
    )
}

/// The folder covers are kept in, given what `XDG_CACHE_HOME` and `HOME` say.
/// Nothing here creates it.
pub fn cache_dir(cache_home: &Option<FilePath>, home: &Option<FilePath>) -> (dir: Option<FilePath>)
    ensures
        dir.deep_view() == covers(cache_home.deep_view(), home.deep_view()),
{
    own_folder(cache_home, home, "hark/covers", ".cache/hark/covers")
}

/// A name with what makes no difference taken off it: the white space around it
/// and the case of its letters.
pub open spec fn normal(s: Seq<char>) -> Seq<char> {
    text::lowercase(text::trimmed(s))
}

/// What is fed to the hash for an artist and an album, piece by piece. A text is
/// followed by a byte that no text holds, and the two of them have another one
/// between.
pub open spec fn hashed(artist: Seq<char>, album: Seq<char>) -> Seq<Seq<u8>> {
    seq![
        encode_utf8(normal(artist)),
        seq![0xffu8],
        seq![0xffu8],
        encode_utf8(normal(album)),
        seq![0xffu8],
    ]
}

/// The name a cover is kept under: the hash, in sixteen hexadecimal digits.
pub open spec fn cover_key(artist: Seq<char>, album: Seq<char>) -> Seq<char> {
    text::hex_digits(DefaultHasher::spec_finish(hashed(artist, album)) as nat, 16)
}

fn normalized(s: &str) -> (r: String)
    ensures
        r@ == normal(s@),
{
    let chars = chars_of(s);
    let kept = text_of(vstd::slice::slice_to_vec(trim(chars.as_slice())));
    to_lowercase(kept.as_str())
}

/// A stable name in the cache for an artist's album.
pub fn key(artist: &str, album: &str) -> (r: String)
    ensures
        r@ == cover_key(artist@, album@),
{
    let end: [u8; 1] = [0xff];
    assert(end@ =~= seq![0xffu8]);
    let artist_name = normalized(artist);
    let album_name = normalized(album);
    let mut hasher = DefaultHasher::new();
    hasher.write(artist_name.as_str().as_bytes());
    hasher.write(end.as_slice());
    hasher.write(end.as_slice());
    hasher.write(album_name.as_str().as_bytes());
    hasher.write(end.as_slice());
    assert(hasher@ =~= hashed(artist@, album@));
    text_of(hex_chars(hasher.finish(), 16))
}

/// Whether a character is a hexadecimal digit in lower case.
pub open spec fn hex_digit(c: char) -> bool {
    '0' <= c <= '9' || 'a' <= c <= 'f'
}

/// A cover's name has sixteen hexadecimal digits in lower case, and goes by nothing but
/// the names of the artist and the album: case and surrounding white space in them make
/// no difference.
pub proof fn a_key_goes_by_the_names(
    artist: Seq<char>,
    album: Seq<char>,
    other_artist: Seq<char>,
    other_album: Seq<char>,
)
    ensures
        cover_key(artist, album).len() == 16,
        forall|i: int| 0 <= i < 16 ==> hex_digit(#[trigger] cover_key(artist, album)[i]),
        normal(artist) == normal(other_artist) && normal(album) == normal(other_album)
            ==> cover_key(artist, album) == cover_key(other_artist, other_album),
{
    all_hex_digits(DefaultHasher::spec_finish(hashed(artist, album)) as nat, 16);
}

proof fn all_hex_digits(x: nat, n: nat)
    ensures
        text::hex_digits(x, n).len() == n,
        forall|i: int| 0 <= i < n ==> hex_digit(#[trigger] text::hex_digits(x, n)[i]),
    decreases n,
{
    if n > 0 {
        all_hex_digits(x / 16, (n - 1) as nat);
    }
}

/// No byte of a text is the one that ends it.
proof fn no_end_inside(bytes: Seq<u8>)
    requires
        valid_utf8(bytes),
    ensures
        forall|i: int| 0 <= i < bytes.len() ==> #[trigger] bytes[i] != 0xff,
    decreases bytes.len(),
{
    if bytes.len() > 0 {
        let n = length_of_first_scalar(bytes);
        let rest = pop_first_scalar(bytes);
        no_end_inside(rest);
        assert forall|i: int| 0 <= i < bytes.len() implies #[trigger] bytes[i] != 0xff by {
            if i >= n {
                assert(bytes[i] == rest[i - n]);
            }
        }
    }
}

/// Artists and albums that differ in more than case and surrounding white space
/// feed the hash different bytes: no artist's name can run over into the album's.
pub proof fn pairs_stay_apart(
    artist: Seq<char>,
    album: Seq<char>,
    other_artist: Seq<char>,
    other_album: Seq<char>,
)
    requires
        hashed(artist, album).flatten() == hashed(other_artist, other_album).flatten(),
    ensures
        normal(artist) == normal(other_artist),
        normal(album) == normal(other_album),
{
    broadcast use {encode_utf8_valid_utf8, encode_utf8_decode_utf8};

    let (a, b) = (encode_utf8(normal(artist)), encode_utf8(normal(album)));
    let (c, d) = (encode_utf8(normal(other_artist)), encode_utf8(normal(other_album)));
    let end = seq![0xffu8];
    flat_is(a, b);
    flat_is(c, d);
    no_end_inside(a);
    no_end_inside(c);
    let left = a + end + end + b + end;
    let right = c + end + end + d + end;
    assert(a.len() == c.len()) by {
        if a.len() < c.len() {
            assert(left[a.len() as int] == 0xff);
            assert(right[a.len() as int] == c[a.len() as int]);
        } else if c.len() < a.len() {
            assert(right[c.len() as int] == 0xff);
            assert(left[c.len() as int] == a[c.len() as int]);
        }
    }
    assert(a =~= c) by {
        assert forall|i: int| 0 <= i < a.len() implies a[i] == c[i] by {
            assert(left[i] == a[i] && right[i] == c[i]);
        }
    }
    assert(b =~= d) by {
        assert(left.len() == right.len());
        assert forall|i: int| 0 <= i < b.len() implies b[i] == d[i] by {
            assert(left[i + a.len() + 2] == b[i] && right[i + a.len() + 2] == d[i]);
        }
    }
    assert(decode_utf8(a) == normal(artist));
    assert(decode_utf8(b) == normal(album));
}

/// Numbers that have the same digits are the same.
proof fn hex_digits_tell_apart(x: nat, y: nat, n: nat)
    requires
        x < pow(16, n),
        y < pow(16, n),
        text::hex_digits(x, n) == text::hex_digits(y, n),
    ensures
        x == y,
    decreases n,
{
    reveal(pow);
    if n > 0 {
        let m = (n - 1) as nat;
        let (a, b) = (text::hex_digits(x, n), text::hex_digits(y, n));
        assert(a.drop_last() =~= text::hex_digits(x / 16, m));
        assert(b.drop_last() =~= text::hex_digits(y / 16, m));
        assert(a.last() == text::hex_char((x % 16) as int));
        assert(b.last() == text::hex_char((y % 16) as int));
        hex_digits_tell_apart(x / 16, y / 16, m);
    }
}

/// Albums whose names differ, or whose artists' do, in more than case and surrounding
/// white space have different keys unless the hash itself collides: different bytes go
/// into it, the boundary between the two names among them, and every bit that comes out
/// stands in the key.
pub proof fn only_the_hash_can_confuse_two_albums(
    artist: Seq<char>,
    album: Seq<char>,
    other_artist: Seq<char>,
    other_album: Seq<char>,
)
    requires
        normal(artist) != normal(other_artist) || normal(album) != normal(other_album),
    ensures
        hashed(artist, album).flatten() != hashed(other_artist, other_album).flatten(),
        cover_key(artist, album) == cover_key(other_artist, other_album)
            <==> DefaultHasher::spec_finish(hashed(artist, album)) == DefaultHasher::spec_finish(
            hashed(other_artist, other_album),
        ),
{
    if hashed(artist, album).flatten() == hashed(other_artist, other_album).flatten() {
        pairs_stay_apart(artist, album, other_artist, other_album);
    }
    let x = DefaultHasher::spec_finish(hashed(artist, album));
    let y = DefaultHasher::spec_finish(hashed(other_artist, other_album));
    assert(pow(16, 16) == 0x1_0000_0000_0000_0000) by {
        reveal(pow);
        reveal_with_fuel(pow, 17);
    }
    if text::hex_digits(x as nat, 16) == text::hex_digits(y as nat, 16) {
        hex_digits_tell_apart(x as nat, y as nat, 16);
    }
}

proof fn flat_is(a: Seq<u8>, b: Seq<u8>)
    ensures
        seq![a, seq![0xffu8], seq![0xffu8], b, seq![0xffu8]].flatten() == a + seq![0xffu8]
            + seq![0xffu8] + b + seq![0xffu8],
{
    let end = seq![0xffu8];
    let s = seq![a, end, end, b, end];
    assert(s.drop_first() =~= seq![end, end, b, end]);
    assert(seq![end, end, b, end].drop_first() =~= seq![end, b, end]);
    assert(seq![end, b, end].drop_first() =~= seq![b, end]);
    assert(seq![b, end].drop_first() =~= seq![end]);
    assert(seq![end].drop_first() =~= Seq::<Seq<u8>>::empty());
    reveal_with_fuel(Seq::flatten, 6);
    assert(s.flatten() =~= a + (end + (end + (b + (end + Seq::<u8>::empty())))));
    assert(s.flatten() =~= a + end + end + b + end);
}

/// What the cache knows about a cover.
#[derive(Clone, Copy, PartialEq, Eq, Structural, Debug)]
pub enum Cache {
    Hit(ImageFormat),
    /// A marker: there is no cover, so do not ask again.
    Negative,
    Absent,
}

/// What the cache says of a cover, given its entry and whether it is marked as missing.
pub open spec fn kept(entry: Option<Seq<u8>>, marked: bool) -> Cache {
    match entry {
        Some(bytes) => match format_of(bytes) {
            Some(format) => Cache::Hit(format),
            None => Cache::Absent,
        },
        None => if marked {
            Cache::Negative
        } else {
            Cache::Absent
        },
    }
}

/// What the cache knows, given what was read under the cover's name and whether
/// the marker that there is none was found. A damaged entry counts as absent, so
/// that it can be fetched again, and it hides the marker.
pub fn cached(entry: Option<&[u8]>, marked: bool) -> (cache: Cache)
    ensures
        cache == kept(
            match entry {
                Some(bytes) => Some(bytes@),
                None => None,
            },
            marked,
        ),
{
    match entry {
        Some(bytes) => match sniff(bytes) {
            Some(format) => Cache::Hit(format),
            None => Cache::Absent,
        },
        None => if marked {
            Cache::Negative
        } else {
            Cache::Absent
        },
    }
}

/// A web service's reply: the status code, and the body when it arrived whole.
pub struct Reply {
    pub status: u16,
    pub body: Option<Vec<u8>>,
}

pub open spec fn succeeded(status: u16) -> bool {
    200 <= status < 300
}

pub const NOT_FOUND: u16 = 404;

/// The file a picture is kept in.
pub fn entry_file(dir: &FilePath, name: &str) -> (file: FilePath)
    ensures
        file@ == path::joined(dir@, encode_utf8(name@)),
{
    dir.join(&FilePath::from_text(name))
}

/// The file that marks an album without a cover.
pub fn marker_file(dir: &FilePath, name: &str) -> (file: FilePath)
    ensures
        file@ == path::joined(dir@, encode_utf8(name@ + ".miss"@)),
{
    let marker = join_text(name, ".miss");
    dir.join(&FilePath::from_text(marker.as_str()))
}

/// The file a picture is first written to, to be renamed to its own, so that an
/// interrupted write cannot leave half a picture behind.
pub fn draft_file(dir: &FilePath, name: &str) -> (file: FilePath)
    ensures
        file@ == path::joined(dir@, encode_utf8(name@ + ".tmp"@)),
{
    let draft = join_text(name, ".tmp");
    dir.join(&FilePath::from_text(draft.as_str()))
}

/// What searching for a cover came to.
pub enum Search {
    /// Where the picture is.
    At(String),
    /// There is no cover: a definitive answer worth remembering.
    Miss,
    /// A transient failure: offline, a rate limit, a body that is no answer.
    Error,
}

/// Where a cover is searched for.
pub const SEARCH_URL: &'static str = "https://itunes.apple.com/search";

/// The fields of a search for an album.
pub open spec fn looks_for(artist: Seq<char>, album: Seq<char>, r: Seq<(String, String)>) -> bool {
    &&& r.len() == 3
    &&& r[0].0@ == "term"@ && r[0].1@ == artist + seq![' '] + album
    &&& r[1].0@ == "entity"@ && r[1].1@ == "album"@
    &&& r[2].0@ == "limit"@ && r[2].1@ == "1"@
}

/// The fields of a search, as they go into the address: one album is enough.
pub fn search_query(artist: &str, album: &str) -> (r: Vec<(String, String)>)
    ensures
        looks_for(artist@, album@, r@),
{
    let mut r: Vec<(String, String)> = Vec::new();
    r.push(("term".to_string(), search_term(artist, album)));
    r.push(("entity".to_string(), "album".to_string()));
    r.push(("limit".to_string(), "1".to_string()));
    r
}

/// The words to search for.
pub fn search_term(artist: &str, album: &str) -> (term: String)
    ensures
        term@ == artist@ + seq![' '] + album@,
{
    let mut term = chars_of(artist);
    term.push(' ');
    let album_name = chars_of(album);
    text::extend_chars(&mut term, album_name.as_slice());
    assert(term@ =~= artist@ + seq![' '] + album@);
    text_of(term)
}

/// The address of the thumbnail in a search reply.
pub open spec fn thumbnail(reply: json::Json) -> Option<Seq<char>> {
    match json::entries(json::member(reply, "results"@)) {
        Some(results) if results.len() > 0 => json::text(
            json::member(results[0], "artworkUrl100"@),
        ),
        _ => None,
    }
}

/// The address of the same picture at a size that suits the display.
pub open spec fn full_size(url: Seq<char>) -> Seq<char> {
    text::replaced(url, "100x100bb"@, "600x600bb"@)
}

/// What the answer to a search means.
pub open spec fn answer_means(answer: json::Json, found: Search) -> bool {
    match thumbnail(answer) {
        Some(url) => found matches Search::At(at) && at@ == full_size(url),
        None => found is Miss,
    }
}

/// What a reply to a search means.
pub open spec fn search_means(reply: Option<Reply>, found: Search) -> bool {
    match reply {
        Some(Reply { status, body: Some(body) }) if succeeded(status) => match json::parsed(
            body@,
        ) {
            Some(answer) => answer_means(answer, found),
            None => found is Error,
        },
        _ => found is Error,
    }
}

/// Reads the answer to a search.
pub fn read_answer(answer: &Value) -> (found: Search)
    ensures
        answer_means(json::contents(*answer), found),
{
    let Some(results) = json::as_array(json::field(answer, "results")) else {
        return Search::Miss;
    };
    if results.len() == 0 {
        return Search::Miss;
    }
    let Some(url) = json::as_str(json::field(&results[0], "artworkUrl100")) else {
        return Search::Miss;
    };
    let small = chars_of("100x100bb");
    let big = chars_of("600x600bb");
    let url = chars_of(url);
    proof {
        reveal_strlit("100x100bb");
    }
    Search::At(text_of(replace(url.as_slice(), small.as_slice(), big.as_slice())))
}

/// Reads a search reply, `None` when nothing answered.
pub fn read_search(reply: &Option<Reply>) -> (found: Search)
    ensures
        search_means(*reply, found),
{
    let Some(reply) = reply else {
        return Search::Error;
    };
    if reply.status < 200 || reply.status >= 300 {
        return Search::Error;
    }
    let Some(body) = &reply.body else {
        return Search::Error;
    };
    match json::parse(body.as_slice()) {
        Some(answer) => read_answer(&answer),
        None => Search::Error,
    }
}

/// What fetching a picture came to.
pub enum Fetch {
    Hit(Vec<u8>, ImageFormat),
    /// There is no such picture.
    Miss,
    Error,
}

/// What a reply to a request for a picture means.
pub open spec fn fetch_means(reply: Option<Reply>, fetched: Fetch) -> bool {
    match reply {
        None => fetched is Error,
        Some(Reply { status, body }) => if status == NOT_FOUND {
            fetched is Miss
        } else {
            match body {
                Some(bytes) if succeeded(status) && format_of(bytes@) is Some => fetched
                    matches Fetch::Hit(kept, format) && kept@ == bytes@ && format_of(bytes@)
                    == Some(format),
                _ => fetched is Error,
            }
        },
    }
}

/// Reads the reply to a request for a picture, `None` when nothing answered. That
/// there is no such picture is a definitive answer. Anything else that is not a
/// picture, an error page among them, is a transient failure, and never reaches
/// the cache.
pub fn fetch_image(reply: Option<Reply>) -> (fetched: Fetch)
    ensures
        fetch_means(reply, fetched),
{
    let Some(reply) = reply else {
        return Fetch::Error;
    };
    if reply.status == NOT_FOUND {
        return Fetch::Miss;
    }
    if reply.status < 200 || reply.status >= 300 {
        return Fetch::Error;
    }
    let Some(bytes) = reply.body else {
        return Fetch::Error;
    };
    match sniff(bytes.as_slice()) {
        Some(format) => Fetch::Hit(bytes, format),
        None => Fetch::Error,
    }
}

/// What there is to keep in the cache after a lookup.
#[derive(Clone, Copy, PartialEq, Eq, Structural, Debug)]
pub enum Keep {
    Nothing,
    /// The picture that was fetched.
    Picture,
    /// The marker that there is no cover.
    Marker,
}

/// How a lookup ended.
#[derive(Clone, Copy, PartialEq, Eq, Structural, Debug)]
pub struct Outcome {
    /// The format of the cover, when there is one to show.
    pub cover: Option<ImageFormat>,
    /// Nothing was learned: worth another try.
    pub transient: bool,
    pub keep: Keep,
}

/// What the cache settles, if anything.
pub open spec fn kept_settles(cache: Cache) -> Option<Outcome> {
    match cache {
        Cache::Hit(format) => Some(
            Outcome { cover: Some(format), transient: false, keep: Keep::Nothing },
        ),
        Cache::Negative => Some(Outcome { cover: None, transient: false, keep: Keep::Nothing }),
        Cache::Absent => None,
    }
}

/// What the cache alone settles, and `None` when the internet has to be asked.
pub fn from_cache(cache: Cache) -> (r: Option<Outcome>)
    ensures
        r == kept_settles(cache),
{
    match cache {
        Cache::Hit(format) => Some(
            Outcome { cover: Some(format), transient: false, keep: Keep::Nothing },
        ),
        Cache::Negative => Some(Outcome { cover: None, transient: false, keep: Keep::Nothing }),
        Cache::Absent => None,
    }
}

/// What fetching a picture settles.
pub open spec fn fetch_settles(fetched: Fetch) -> Outcome {
    match fetched {
        Fetch::Hit(_, format) => Outcome {
            cover: Some(format),
            transient: false,
            keep: Keep::Picture,
        },
        Fetch::Miss => Outcome { cover: None, transient: false, keep: Keep::Marker },
        Fetch::Error => Outcome { cover: None, transient: true, keep: Keep::Nothing },
    }
}

/// What a fetch settles. A picture is kept and shown, a definitive miss is
/// remembered, and a failure leaves no trace.
pub fn from_fetch(fetched: &Fetch) -> (r: Outcome)
    ensures
        r == fetch_settles(*fetched),
{
    match fetched {
        Fetch::Hit(_, format) => Outcome {
            cover: Some(*format),
            transient: false,
            keep: Keep::Picture,
        },
        Fetch::Miss => Outcome { cover: None, transient: false, keep: Keep::Marker },
        Fetch::Error => Outcome { cover: None, transient: true, keep: Keep::Nothing },
    }
}

/// What a search settles, if anything.
pub open spec fn search_settles(found: Search) -> Option<Outcome> {
    match found {
        Search::At(_) => None,
        Search::Miss => Some(Outcome { cover: None, transient: false, keep: Keep::Marker }),
        Search::Error => Some(Outcome { cover: None, transient: true, keep: Keep::Nothing }),
    }
}

/// What a search settles by itself, and `None` when there is a picture to fetch.
pub fn from_search(found: &Search) -> (r: Option<Outcome>)
    ensures
        r == search_settles(*found),
{
    match found {
        Search::At(_) => None,
        Search::Miss => Some(Outcome { cover: None, transient: false, keep: Keep::Marker }),
        Search::Error => Some(Outcome { cover: None, transient: true, keep: Keep::Nothing }),
    }
}

/// Where the front cover of an album is, given its MusicBrainz release group.
pub fn release_group_url(mbid: &str) -> (url: String)
    ensures
        url@ == "https://coverartarchive.org/release-group/"@ + mbid@ + "/front-500"@,
{
    let start = join_text("https://coverartarchive.org/release-group/", mbid);
    join_text(start.as_str(), "/front-500")
}

/// Two albums have the same key when their artists and their names are the same but for
/// case and surrounding white space. When they are not, different bytes are hashed.
pub proof fn a_key_goes_by_the_words(
    artist: Seq<char>,
    album: Seq<char>,
    other_artist: Seq<char>,
    other_album: Seq<char>,
)
    ensures
        text::lowercase(text::trimmed(artist)) == text::lowercase(text::trimmed(other_artist))
            && text::lowercase(text::trimmed(album)) == text::lowercase(text::trimmed(other_album))
            ==> cover_key(artist, album) == cover_key(other_artist, other_album),
        text::lowercase(text::trimmed(artist)) != text::lowercase(text::trimmed(other_artist))
            || text::lowercase(text::trimmed(album)) != text::lowercase(text::trimmed(other_album))
            ==> hashed(artist, album).flatten() != hashed(other_artist, other_album).flatten(),
{
    if hashed(artist, album).flatten() == hashed(other_artist, other_album).flatten() {
        pairs_stay_apart(artist, album, other_artist, other_album);
    }
}

/// A picture is known by its first bytes: each format by its own, and what begins with
/// none of them is no picture.
pub proof fn pictures_begin_like_this(rest: Seq<u8>, length: Seq<u8>, b: Seq<u8>)
    requires
        length.len() == 4,
    ensures
        format_of(seq![0xffu8, 0xd8, 0xff] + rest) == Some(ImageFormat::Jpeg),
        format_of(seq![0x89u8, 0x50, 0x4e, 0x47] + rest) == Some(ImageFormat::Png),
        format_of(seq![0x47u8, 0x49, 0x46, 0x38] + rest) == Some(ImageFormat::Gif),
        format_of(seq![0x52u8, 0x49, 0x46, 0x46] + length + seq![0x57u8, 0x45, 0x42, 0x50] + rest)
            == Some(ImageFormat::Webp),
        b.len() < 3 ==> format_of(b) is None,
        b.len() > 0 && b[0] != 0xff && b[0] != 0x89 && b[0] != 0x47 && b[0] != 0x52 ==> format_of(b)
            is None,
        format_of(b) == Some(ImageFormat::Jpeg) ==> b[0] == 0xff && b[1] == 0xd8 && b[2] == 0xff,
        format_of(b) == Some(ImageFormat::Png) ==> b[0] == 0x89 && b[1] == 0x50 && b[2] == 0x4e
            && b[3] == 0x47,
        format_of(b) == Some(ImageFormat::Gif) ==> b[0] == 0x47 && b[1] == 0x49 && b[2] == 0x46
            && b[3] == 0x38,
        format_of(b) == Some(ImageFormat::Webp) ==> b[0] == 0x52 && b[1] == 0x49 && b[2] == 0x46
            && b[3] == 0x46 && b[8] == 0x57 && b[9] == 0x45 && b[10] == 0x42 && b[11] == 0x50,
{
    let (j, p, g, w) = (
        seq![0xffu8, 0xd8, 0xff],
        seq![0x89u8, 0x50, 0x4e, 0x47],
        seq![0x47u8, 0x49, 0x46, 0x38],
        seq![0x52u8, 0x49, 0x46, 0x46],
    );
    let kind = seq![0x57u8, 0x45, 0x42, 0x50];
    assert((j + rest).take(3) =~= j);
    begins_otherwise(p + rest, j);
    assert((p + rest).take(4) =~= p);
    begins_otherwise(g + rest, j);
    begins_otherwise(g + rest, p);
    assert((g + rest).take(4) =~= g);
    let full = w + length + kind + rest;
    begins_otherwise(full, j);
    begins_otherwise(full, p);
    begins_otherwise(full, g);
    assert(full.take(4) =~= w);
    assert(full.skip(8).take(4) =~= kind);
    begins_as(b, j);
    begins_as(b, p);
    begins_as(b, g);
    begins_as(b, w);
    if b.len() >= 12 {
        begins_as(b.skip(8), kind);
    }
}

proof fn begins_otherwise(b: Seq<u8>, p: Seq<u8>)
    requires
        b.len() > 0,
        p.len() > 0,
        b[0] != p[0],
    ensures
        !lists::starts(b, p),
{
    if lists::starts(b, p) {
        assert(b.take(p.len() as int)[0] == p[0]);
    }
}

proof fn begins_as(b: Seq<u8>, p: Seq<u8>)
    ensures
        lists::starts(b, p) ==> b.len() >= p.len() && forall|i: int|
            0 <= i < p.len() ==> #[trigger] b[i] == p[i],
{
    if lists::starts(b, p) {
        assert forall|i: int| 0 <= i < p.len() implies #[trigger] b[i] == p[i] by {
            assert(b.take(p.len() as int)[i] == p[i]);
        }
    }
}

/// The picture shown is the first that can be, and there is none only when none can be.
pub proof fn the_first_picture_that_can_be_shown(pictures: Seq<&[u8]>, i: int)
    requires
        0 <= i <= pictures.len(),
        forall|j: int| 0 <= j < i ==> format_of((#[trigger] pictures[j])@) is None,
    ensures
        i == pictures.len() ==> first_shown(pictures) is None,
        i < pictures.len() && format_of(pictures[i]@) is Some ==> first_shown(pictures) == Some(
            (i, format_of(pictures[i]@)->0),
        ),
    decreases pictures.len(),
{
    if i > 0 {
        let rest = pictures.drop_first();
        assert(format_of(pictures[0]@) is None);
        assert forall|j: int| 0 <= j < i - 1 implies format_of((#[trigger] rest[j])@) is None by {
            assert(rest[j] == pictures[j + 1]);
        }
        the_first_picture_that_can_be_shown(rest, i - 1);
    }
}

/// A folder of the player's own lies in the one that the environment names, if that is an
/// absolute path, and otherwise in its usual place in the home folder.
pub proof fn the_environment_names_the_folder(
    named: Seq<u8>,
    home: Seq<u8>,
    below: Seq<u8>,
    usual: Seq<u8>,
)
    ensures
        named.len() > 0 && named[0] == 47 ==> own_dir(Some(named), Some(home), below, usual) == Some(
            path::joined(named, below),
        ) && own_dir(Some(named), None, below, usual) == Some(path::joined(named, below)),
        named.len() == 0 || named[0] != 47 ==> own_dir(Some(named), Some(home), below, usual)
            == Some(path::joined(home, usual)) && own_dir(Some(named), None, below, usual) is None,
        own_dir(None, Some(home), below, usual) == Some(path::joined(home, usual)),
        own_dir(None, None, below, usual) is None,
{
}

/// A search that was answered finds the first result's picture in the large size, or there
/// is no cover; one that was not answered properly has failed.
pub proof fn a_search_finds_a_picture_or_none(reply: Option<Reply>, found: Search)
    requires
        search_means(reply, found),
    ensures
        reply is None ==> found is Error,
        reply matches Some(got) ==> {
            &&& got.status < 200 || got.status > 299 || got.body is None ==> found is Error
            &&& 200 <= got.status <= 299 && got.body is Some ==> {
                let parsed = json::parsed(got.body->0@);
                let results = json::entries(json::member(parsed->0, "results"@));
                let url = json::text(json::member(results->0[0], "artworkUrl100"@));
                &&& parsed is None ==> found is Error
                &&& parsed is Some && results is Some && results->0.len() > 0 && url is Some ==> (
                found matches Search::At(at) && at@ == text::replaced(
                    url->0,
                    "100x100bb"@,
                    "600x600bb"@,
                ))
                &&& parsed is Some && !(results is Some && results->0.len() > 0 && url is Some)
                    ==> found is Miss
            }
        },
{
}

/// A picture is fetched only when one arrived: that there is none is said by one status
/// alone, and anything else has failed.
pub proof fn only_a_picture_is_fetched(reply: Option<Reply>, fetched: Fetch)
    requires
        fetch_means(reply, fetched),
    ensures
        reply is None ==> fetched is Error,
        reply matches Some(got) ==> {
            &&& fetched is Miss <==> got.status == 404
            &&& fetched is Hit <==> 200 <= got.status <= 299 && got.body is Some && format_of(
                got.body->0@,
            ) is Some
            &&& fetched matches Fetch::Hit(bytes, format) ==> bytes@ == got.body->0@ && format_of(
                bytes@,
            ) == Some(format)
        },
{
}

/// What was fetched is kept, and what is kept settles the matter the next time: the picture
/// itself, or the mark that there is none. A failure keeps nothing, so the next time it is
/// asked again.
pub proof fn what_is_kept_is_not_asked_for_again(
    reply: Option<Reply>,
    fetched: Fetch,
    found: Search,
    marked: bool,
)
    requires
        fetch_means(reply, fetched),
    ensures
        fetched is Hit ==> {
            &&& fetch_settles(fetched).keep is Picture
            &&& kept_settles(kept(Some(fetched->Hit_0@), marked)) is Some
            &&& kept_settles(kept(Some(fetched->Hit_0@), marked))->0.cover == Some(fetched->Hit_1)
            &&& fetch_settles(fetched).cover == Some(fetched->Hit_1)
            &&& !fetch_settles(fetched).transient
        },
        fetched is Miss ==> fetch_settles(fetched).keep is Marker && fetch_settles(fetched).cover
            is None && !fetch_settles(fetched).transient,
        fetched is Error ==> fetch_settles(fetched).keep is Nothing && fetch_settles(fetched).cover
            is None && fetch_settles(fetched).transient,
        search_settles(found) is None <==> found is At,
        found is Miss ==> search_settles(found)->0.keep is Marker
            && !search_settles(found)->0.transient && search_settles(found)->0.cover is None,
        found is Error ==> search_settles(found)->0.keep is Nothing
            && search_settles(found)->0.transient && search_settles(found)->0.cover is None,
        kept_settles(kept(None, true)) is Some,
        kept_settles(kept(None, true))->0.cover is None,
        !kept_settles(kept(None, true))->0.transient,
        kept_settles(kept(None, false)) is None,
{
}

/// An entry that is no picture settles nothing, even beside a mark.
pub proof fn a_broken_entry_settles_nothing(bytes: Seq<u8>, marked: bool)
    ensures
        kept_settles(kept(Some(bytes), marked)) is None <==> format_of(bytes) is None,
        kept_settles(kept(Some(bytes), marked)) is Some ==> kept_settles(
            kept(Some(bytes), marked),
        )->0.keep is Nothing,
{
}

/// A search asks for one album, by the artist and the title with a space between.
pub proof fn a_search_says_these(artist: Seq<char>, album: Seq<char>, r: Seq<(String, String)>)
    requires
        looks_for(artist, album, r),
    ensures
        r.map_values(|f: (String, String)| (f.0@, f.1@)) == seq![
            ("term"@, artist.push(' ') + album),
            ("entity"@, "album"@),
            ("limit"@, "1"@),
        ],
{
    assert(artist + seq![' '] =~= artist.push(' '));
    assert(r.map_values(|f: (String, String)| (f.0@, f.1@)) =~= seq![
        ("term"@, artist.push(' ') + album),
        ("entity"@, "album"@),
        ("limit"@, "1"@),
    ]);
}

/// The name of a cover is the hash of the artist, two bytes that no text holds, the album
/// and one more such byte, in sixteen hexadecimal digits.
pub proof fn these_bytes_are_hashed(artist: Seq<char>, album: Seq<char>)
    ensures
        hashed(artist, album).flatten() == encode_utf8(text::lowercase(text::trimmed(artist)))
            + seq![0xffu8, 0xffu8] + encode_utf8(text::lowercase(text::trimmed(album)))
            + seq![0xffu8],
        cover_key(artist, album) == text::hex_digits(
            DefaultHasher::spec_finish(hashed(artist, album)) as nat,
            16,
        ),
{
    flat_is(encode_utf8(normal(artist)), encode_utf8(normal(album)));
    assert(hashed(artist, album).flatten() =~= encode_utf8(normal(artist)) + seq![0xffu8, 0xffu8]
        + encode_utf8(normal(album)) + seq![0xffu8]);
}

/// Covers are kept in a folder of the player's own below the one for caches that the
/// environment names, or in the home folder.
pub proof fn covers_are_kept_here(cache_home: Option<Seq<u8>>, home: Option<Seq<u8>>)
    ensures
        cache_home is Some && path::absolute(cache_home->0) ==> covers(cache_home, home) == Some(
            path::joined(cache_home->0, encode_utf8("hark/covers"@)),
        ),
        !(cache_home is Some && path::absolute(cache_home->0)) && home is Some ==> covers(
            cache_home,
            home,
        ) == Some(path::joined(home->0, encode_utf8(".cache/hark/covers"@))),
        !(cache_home is Some && path::absolute(cache_home->0)) && home is None ==> covers(
            cache_home,
            home,
        ) is None,
{
}

} // verus!
