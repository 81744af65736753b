use hark::env_file::api_key;
use hark::order::{dedup, sort};
use hark::path::FilePath;
use hark::sets::{KeySet, PathSet};
use hark::single::Single;
use hark::text::{decimal_text, hex_chars, parse_unsigned, replace, split_once, strip, trim};
use hark::time::Duration;
use std::path::{Path, PathBuf};

fn path(text: &str) -> FilePath {
    FilePath::from_text(text)
}

const PATHS: [&str; 20] = [
    "", "/", ".", "..", "a", "/a", "a/", "/a/b", "/a//b", "/a/./b", "/a/../b", "/a/b/.", "./a",
    "/a.b", "/a.b.c", "/.a", "/a.", "//a", "/a/b.c/", "a/.",
];

#[test]
fn paths_are_taken_apart_as_usual() {
    for text in PATHS {
        let usual = Path::new(text);
        let ours = path(text);
        assert_eq!(ours.is_absolute(), usual.is_absolute(), "{text}");
        assert_eq!(
            ours.file_name(),
            usual.file_name().map(|name| name.as_encoded_bytes().to_vec()),
            "{text}"
        );
        assert_eq!(
            ours.file_stem().as_deref(),
            usual.file_stem().and_then(|stem| stem.to_str()),
            "{text}"
        );
        assert_eq!(
            ours.extension().as_deref(),
            usual.extension().and_then(|extension| extension.to_str()),
            "{text}"
        );
        assert_eq!(ours.to_text().as_deref(), Some(text));
    }
}

#[test]
fn paths_are_compared_by_their_parts() {
    for a in PATHS {
        for b in PATHS {
            assert_eq!(
                path(a).starts_with(&path(b)),
                Path::new(a).starts_with(b),
                "{a} {b}"
            );
            assert_eq!(path(a) == path(b), Path::new(a) == Path::new(b), "{a} {b}");
            let joined = path(a).join(&path(b));
            assert_eq!(
                joined.to_text().as_deref(),
                Path::new(a).join(b).to_str(),
                "{a} {b}"
            );
        }
    }
}

#[test]
fn a_name_that_is_not_text_has_none() {
    let odd = FilePath::new(vec![b'/', 0xff, b'.', b'a']);

    assert_eq!(odd.to_text(), None);
    assert_eq!(odd.file_stem(), None);
    assert_eq!(odd.extension().as_deref(), Some("a"));
}

#[test]
fn paths_are_sorted_as_usual() {
    let mut usual: Vec<PathBuf> = PATHS.iter().map(PathBuf::from).collect();
    usual.sort();
    let ours = sort(PATHS.iter().map(|text| path(text)).collect());

    let ours: Vec<PathBuf> = ours
        .iter()
        .map(|p| PathBuf::from(p.to_text().unwrap()))
        .collect();
    assert_eq!(ours, usual);

    usual.dedup();
    let ours = dedup(sort(PATHS.iter().map(|text| path(text)).collect()));
    assert_eq!(ours.len(), usual.len());
}

#[test]
fn paths_are_found_among_others() {
    let roots = [path("/a"), path("/b/c")];

    assert!(path("/b/c/").is_among(&roots));
    assert!(!path("/b").is_among(&roots));
    assert!(path("/b/c/d").is_under_any(&roots));
    assert!(!path("/b/cd").is_under_any(&roots));
}

#[test]
fn spans_are_counted_in_nanoseconds() {
    let d = Duration::from_millis(1_234_567);

    assert_eq!(d.as_secs(), 1_234);
    assert_eq!(d.as_millis(), 1_234_567);
    assert_eq!(d.as_micros(), 1_234_567_000);
    assert_eq!(d.saturating_sub(Duration::from_secs(1_000)), Duration::from_millis(234_567));
    assert_eq!(Duration::from_secs(1).saturating_sub(d), Duration::zero());
    assert_eq!(Duration::from_secs(1).plus(Duration::from_millis(5)), Duration::from_millis(1_005));
    assert_eq!(d.shorter(Duration::from_secs(2)), Duration::from_secs(2));
    assert_eq!(d.longer(Duration::from_secs(2)), d);
    assert!(Duration::zero().is_zero());
}

const NUMBERS: [f32; 12] = [
    0.0,
    -0.0,
    1.0,
    -1.0,
    0.5,
    1.5,
    f32::MIN_POSITIVE,
    f32::MAX,
    f32::MIN,
    f32::INFINITY,
    f32::NEG_INFINITY,
    f32::NAN,
];

#[test]
fn singles_compare_as_usual() {
    let single = |value: f32| Single { bits: value.to_bits() };

    for a in NUMBERS {
        assert_eq!(single(a).is_nan(), a.is_nan());
        assert_eq!(single(a).is_finite(), a.is_finite());
        let clamped = f32::from_bits(single(a).clamp_unit().bits);
        assert!(clamped == a.clamp(0.0, 1.0) || (clamped.is_nan() && a.is_nan()));
        for b in NUMBERS {
            assert_eq!(single(a).lt(single(b)), a < b);
            assert_eq!(single(a).same(single(b)), a == b);
            let larger = f32::from_bits(single(a).larger(single(b)).bits);
            assert!(larger == a.max(b) || (a.is_nan() && b.is_nan() && larger.is_nan()));
        }
    }
}

fn chars(text: &str) -> Vec<char> {
    text.chars().collect()
}

#[test]
fn white_space_is_these_characters() {
    let white = [
        0x9..=0xd,
        0x20..=0x20,
        0x85..=0x85,
        0xa0..=0xa0,
        0x1680..=0x1680,
        0x2000..=0x200a,
        0x2028..=0x2029,
        0x202f..=0x202f,
        0x205f..=0x205f,
        0x3000..=0x3000,
    ];
    for c in '\0'..=char::MAX {
        let expected = white.iter().any(|range| range.contains(&(c as u32)));
        assert_eq!(trim(&[c]).is_empty(), expected, "{c:?}");
    }
}

#[test]
fn texts_are_trimmed_and_split_as_usual() {
    for text in ["", " ", " a ", "\u{a0}\u{2003}x\t\r\n", "a b", "\u{200b}a"] {
        let ours: String = trim(&chars(text)).iter().collect();
        assert_eq!(ours, text.trim());
    }
    let stripped: String = strip(&chars("\"\"a\"b\""), '"').iter().collect();
    assert_eq!(stripped, "\"\"a\"b\"".trim_matches('"'));
    let halves = chars("a=b=c");
    let (a, b) = split_once(&halves, '=').unwrap();
    assert_eq!((a, b), (&['a'][..], &['b', '=', 'c'][..]));
    assert!(split_once(&chars("abc"), '=').is_none());
    let replaced: String = replace(&chars("aaaa b"), &chars("aa"), &chars("c")).iter().collect();
    assert_eq!(replaced, "aaaa b".replace("aa", "c"));
}

#[test]
fn numbers_are_read_and_written_as_usual() {
    for text in ["0", "7", "+7", "007", "", "+", "-1", "4294967295", "4294967296", "1 ", "٣"] {
        assert_eq!(
            parse_unsigned(&chars(text), u32::MAX as u64),
            text.parse::<u32>().ok().map(u64::from),
            "{text}"
        );
    }
    for n in [0, 7, 10, 1_000, u128::MAX] {
        assert_eq!(decimal_text(n), n.to_string());
    }
    let hex: String = hex_chars(0x00ab_cdef_0123_4567, 16).iter().collect();
    assert_eq!(hex, "00abcdef01234567");
}

#[test]
fn sets_hold_a_thing_once() {
    let mut keys = KeySet::new();
    assert!(keys.insert("a"));
    assert!(!keys.insert("a"));
    assert!(keys.contains("a"));
    keys.remove("a");
    assert!(!keys.contains("a"));

    let mut paths = PathSet::new();
    assert!(paths.insert(&path("/a")));
    assert!(!paths.insert(&path("/a/")));
    paths.remove(&path("/a"));
    assert!(paths.insert(&path("/a")));
}

#[test]
fn each_record_has_an_attribute_of_its_own() {
    assert_eq!(hark::meta_cache::XATTR_NAME, "user.hark.meta");
    assert_eq!(hark::peak_cache::XATTR_NAME, "user.hark.peaks");
    assert_eq!(hark::id_cache::XATTR_NAME, "user.hark.id");
    assert_eq!(hark::love::XATTR_NAME, "user.hark.loved");
}

#[test]
fn the_key_stands_in_a_file_of_its_own() {
    for (contents, key) in [
        ("ACOUSTID_API_KEY=abc", Some("abc")),
        ("# note\n\n  ACOUSTID_API_KEY = \"abc\" \n", Some("abc")),
        ("ACOUSTID_API_KEY='abc'\r\n", Some("abc")),
        ("OTHER=x\nACOUSTID_API_KEY=a=b", Some("a=b")),
        ("ACOUSTID_API_KEY=\nACOUSTID_API_KEY=abc", None),
        ("#ACOUSTID_API_KEY=abc", None),
        ("nothing here", None),
        ("", None),
    ] {
        assert_eq!(api_key(contents).as_deref(), key, "{contents}");
    }
}
