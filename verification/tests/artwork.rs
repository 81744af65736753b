use hark::artwork::{
    cache_dir, cached, draft_file, entry_file, fetch_image, first_usable, from_cache, from_fetch,
    from_search, key, marker_file, read_answer, read_search, release_group_url, search_query,
    search_term, sniff, Cache, Fetch, ImageFormat, Keep, Outcome, Reply, Search, SEARCH_URL,
};
use hark::path::FilePath;
use std::collections::hash_map::DefaultHasher;
use std::hash::{Hash, Hasher};

const JPEG: &[u8] = &[0xff, 0xd8, 0xff, 0xe0];

#[test]
fn pictures_are_known_by_their_first_bytes() {
    assert_eq!(sniff(JPEG), Some(ImageFormat::Jpeg));
    assert_eq!(sniff(b"\x89PNG\r\n"), Some(ImageFormat::Png));
    assert_eq!(sniff(b"GIF89a"), Some(ImageFormat::Gif));
    assert_eq!(sniff(b"RIFF....WEBP"), Some(ImageFormat::Webp));
    assert_eq!(sniff(b"RIFF....WEB"), None);
    assert_eq!(sniff(b"RIFF....WAVE"), None);
    assert_eq!(sniff(b"BM"), None);
    assert_eq!(sniff(b"GIF"), None);
    assert_eq!(sniff(b""), None);
}

#[test]
fn the_first_picture_that_can_be_shown_is_used() {
    assert_eq!(
        first_usable(&[b"BM", JPEG, b"GIF89a"]),
        Some((1, ImageFormat::Jpeg))
    );
    assert_eq!(first_usable(&[b"BM"]), None);
    assert_eq!(first_usable(&[]), None);
}

fn path(text: &str) -> FilePath {
    FilePath::from_text(text)
}

#[test]
fn covers_are_kept_in_the_cache_folder() {
    let home = Some(path("/home/x"));

    assert_eq!(
        cache_dir(&Some(path("/var/cache")), &home),
        Some(path("/var/cache/hark/covers"))
    );
    // A relative path is no answer.
    assert_eq!(
        cache_dir(&Some(path("cache")), &home),
        Some(path("/home/x/.cache/hark/covers"))
    );
    assert_eq!(cache_dir(&None, &None), None);
}

/// The key by the standard hasher over the normalized names.
fn hashed(artist: &str, album: &str) -> String {
    let mut hasher = DefaultHasher::new();
    artist.trim().to_lowercase().hash(&mut hasher);
    0xffu8.hash(&mut hasher);
    album.trim().to_lowercase().hash(&mut hasher);
    format!("{:016x}", hasher.finish())
}

#[test]
fn a_key_is_the_hash_of_both_names() {
    for (artist, album) in [
        ("", ""),
        ("Forndom", "Flykt"),
        ("  The Velvet Underground ", "The Velvet Underground & Nico"),
        ("Sigur Rós", "Ágætis byrjun"),
        ("ΟΔΟΣ", "İstanbul"),
        ("a\u{3000}", "\u{1f3b5}"),
    ] {
        assert_eq!(key(artist, album), hashed(artist, album), "{artist} / {album}");
    }
}

#[test]
fn names_that_differ_only_in_case_share_a_key() {
    assert_eq!(key("Forndom", "Flykt"), key(" FORNDOM", "flykt "));
    assert_ne!(key("a", "bc"), key("ab", "c"));
    assert_eq!(key("Forndom", "Flykt").len(), 16);
}

#[test]
fn a_key_is_sixteen_digits() {
    for n in 0..200 {
        let key = key(&format!("artist {n}"), &format!("album {n}"));
        assert_eq!(key.len(), 16);
        assert!(key.bytes().all(|b| b"0123456789abcdef".contains(&b)), "{key}");
    }
}

#[test]
fn a_cache_entry_is_a_picture_or_a_mark() {
    assert_eq!(cached(Some(JPEG), false), Cache::Hit(ImageFormat::Jpeg));
    assert_eq!(cached(Some(JPEG), true), Cache::Hit(ImageFormat::Jpeg));
    // A corrupt entry is fetched again.
    assert_eq!(cached(Some(b"<html>"), true), Cache::Absent);
    assert_eq!(cached(None, true), Cache::Negative);
    assert_eq!(cached(None, false), Cache::Absent);
}

#[test]
fn what_is_cached_needs_no_fetching() {
    assert_eq!(
        from_cache(Cache::Hit(ImageFormat::Png)),
        Some(Outcome {
            cover: Some(ImageFormat::Png),
            transient: false,
            keep: Keep::Nothing,
        })
    );
    assert_eq!(
        from_cache(Cache::Negative),
        Some(Outcome {
            cover: None,
            transient: false,
            keep: Keep::Nothing,
        })
    );
    assert_eq!(from_cache(Cache::Absent), None);
}

fn reply(status: u16, body: &[u8]) -> Option<Reply> {
    Some(Reply {
        status,
        body: Some(body.to_vec()),
    })
}

#[test]
fn a_search_finds_the_large_cover() {
    let body = br#"{"results":[{"artworkUrl100":"https://a/100x100bb/100x100bb.jpg"},{"artworkUrl100":"https://b"}]}"#;

    let Search::At(url) = read_search(&reply(200, body)) else {
        panic!("the cover was not found");
    };
    assert_eq!(url, "https://a/600x600bb/600x600bb.jpg");

    let plain = br#"{"results":[{"artworkUrl100":"https://a/other.jpg"}]}"#;
    assert!(matches!(
        read_search(&reply(200, plain)),
        Search::At(url) if url == "https://a/other.jpg"
    ));
}

#[test]
fn the_answer_to_a_search_names_a_cover() {
    let mut result = serde_json::Value::Object(serde_json::Map::new());
    result["artworkUrl100"] = serde_json::Value::from("https://a/100x100bb.jpg");
    let mut answer = serde_json::Value::Object(serde_json::Map::new());
    assert!(matches!(read_answer(&answer), Search::Miss));
    answer["results"] = serde_json::Value::Array(vec![result]);
    assert!(matches!(
        read_answer(&answer),
        Search::At(url) if url == "https://a/600x600bb.jpg"
    ));
}

#[test]
fn a_search_without_a_cover_is_a_miss() {
    for body in [
        &br#"{"results":[]}"#[..],
        &br#"{"results":[{}]}"#[..],
        &br#"{"results":[{"artworkUrl100":7}]}"#[..],
        &br#"{"results":{"0":{"artworkUrl100":"x"}}}"#[..],
        &b"{}"[..],
        &b"[]"[..],
        &b"null"[..],
    ] {
        assert!(matches!(read_search(&reply(200, body)), Search::Miss));
    }
}

#[test]
fn a_search_that_failed_is_tried_again() {
    assert!(matches!(read_search(&None), Search::Error));
    assert!(matches!(read_search(&reply(503, b"{}")), Search::Error));
    assert!(matches!(read_search(&reply(404, b"{}")), Search::Error));
    assert!(matches!(read_search(&reply(200, b"<html>")), Search::Error));
    assert!(matches!(
        read_search(&Some(Reply { status: 200, body: None })),
        Search::Error
    ));
}

#[test]
fn only_a_missing_cover_is_remembered_as_missing() {
    assert!(matches!(fetch_image(reply(404, b"")), Fetch::Miss));
    assert!(matches!(fetch_image(reply(500, b"")), Fetch::Error));
    assert!(matches!(fetch_image(reply(301, JPEG)), Fetch::Error));
    assert!(matches!(fetch_image(None), Fetch::Error));
    assert!(matches!(fetch_image(reply(200, b"<html>")), Fetch::Error));
    assert!(matches!(
        fetch_image(Some(Reply { status: 200, body: None })),
        Fetch::Error
    ));
    let Fetch::Hit(bytes, format) = fetch_image(reply(299, JPEG)) else {
        panic!("a good picture was refused");
    };
    assert_eq!(bytes, JPEG);
    assert_eq!(format, ImageFormat::Jpeg);
}

#[test]
fn outcomes_say_what_to_keep() {
    let outcome = |cover, transient, keep| Outcome {
        cover,
        transient,
        keep,
    };

    assert_eq!(
        from_fetch(&Fetch::Hit(JPEG.to_vec(), ImageFormat::Jpeg)),
        outcome(Some(ImageFormat::Jpeg), false, Keep::Picture)
    );
    assert_eq!(from_fetch(&Fetch::Miss), outcome(None, false, Keep::Marker));
    assert_eq!(from_fetch(&Fetch::Error), outcome(None, true, Keep::Nothing));

    assert_eq!(from_search(&Search::At("u".to_string())), None);
    assert_eq!(
        from_search(&Search::Miss),
        Some(outcome(None, false, Keep::Marker))
    );
    assert_eq!(
        from_search(&Search::Error),
        Some(outcome(None, true, Keep::Nothing))
    );
}

#[test]
fn a_cover_is_a_file_of_its_own() {
    let dir = path("/c");

    assert_eq!(entry_file(&dir, "k"), path("/c/k"));
    assert_eq!(marker_file(&dir, "k"), path("/c/k.miss"));
    assert_eq!(draft_file(&dir, "k"), path("/c/k.tmp"));
}

#[test]
fn covers_are_asked_for_by_name_or_by_release() {
    assert_eq!(search_term("Forndom", "Flykt"), "Forndom Flykt");
    let pairs = search_query("Forndom", "Flykt");
    let pairs: Vec<(&str, &str)> = pairs
        .iter()
        .map(|(key, value)| (key.as_str(), value.as_str()))
        .collect();
    assert_eq!(
        pairs,
        vec![("term", "Forndom Flykt"), ("entity", "album"), ("limit", "1")]
    );
    assert_eq!(SEARCH_URL, "https://itunes.apple.com/search");
    assert_eq!(
        release_group_url("b1a9c0e8"),
        "https://coverartarchive.org/release-group/b1a9c0e8/front-500"
    );
}
