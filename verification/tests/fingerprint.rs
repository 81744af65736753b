use base64::engine::general_purpose::URL_SAFE_NO_PAD;
use base64::Engine;
use hark::cutter::{Cutter, Span};
use hark::fingerprint::{
    fingerprint_segment, print_text, segments, Listener, Segment, MAX_FINGERPRINT,
    MAX_FLAT_DURATION, MIN_SCORE, NATIVE_RATE, SLOWEST_RATE,
};
use hark::path::FilePath;
use hark::time::Duration;
use hark::track::{Chapter, Meta, Track};
use rusty_chromaprint::{Configuration, FingerprintCompressor, Fingerprinter};

fn secs(n: u64) -> Duration {
    Duration::from_secs(n)
}

fn track(duration: u64, chapters: &[(u64, u64)]) -> Track {
    let meta = Meta {
        duration: secs(duration),
        chapters: chapters
            .iter()
            .map(|&(start, end)| Chapter {
                title: String::new(),
                start: secs(start),
                end: secs(end),
            })
            .collect(),
        ..Meta::default()
    };
    Track::from_meta(FilePath::from_text("/x.opus"), meta, false)
}

#[test]
fn a_plain_file_is_one_stretch() {
    assert_eq!(
        segments(&track(200, &[])),
        Some(vec![Segment {
            start: secs(0),
            cap_end: secs(120),
            report_duration: secs(200),
        }])
    );
    assert_eq!(
        segments(&track(90, &[])),
        Some(vec![Segment {
            start: secs(0),
            cap_end: secs(90),
            report_duration: secs(90),
        }])
    );
    // A file whose tags say nothing of its length is still tried.
    assert_eq!(
        segments(&track(0, &[])),
        Some(vec![Segment {
            start: secs(0),
            cap_end: secs(120),
            report_duration: secs(120),
        }])
    );
}

#[test]
fn a_long_file_without_chapters_is_not_worth_it() {
    assert_eq!(segments(&track(MAX_FLAT_DURATION + 1, &[])), None);
    assert!(segments(&track(MAX_FLAT_DURATION, &[])).is_some());
    assert_eq!(MAX_FLAT_DURATION, 15 * 60);
}

#[test]
fn every_chapter_is_a_stretch() {
    assert_eq!(
        segments(&track(9_000, &[(0, 300), (300, 330), (330, 330)])),
        Some(vec![
            Segment {
                start: secs(0),
                cap_end: secs(MAX_FINGERPRINT),
                report_duration: secs(300),
            },
            Segment {
                start: secs(300),
                cap_end: secs(330),
                report_duration: secs(30),
            },
            Segment {
                start: secs(330),
                cap_end: secs(330),
                report_duration: secs(0),
            },
        ])
    );
}

#[test]
fn the_least_score_is_a_half() {
    assert_eq!(f64::from_bits(MIN_SCORE), 0.5);
}

/// Cuts the frames 0, 1, 2, ... of a stereo file, each holding its number twice.
fn cut(spans: &[(u64, u64)], frames: i16) -> (Vec<Vec<i16>>, Option<(usize, Vec<i16>)>) {
    let spans = spans
        .iter()
        .map(|&(opens, closes)| Span { opens, closes })
        .collect();
    let mut cutter = Cutter::new(spans, 2);
    let mut over = Vec::new();
    for frame in 0..frames {
        if cutter.done() {
            break;
        }
        over.extend(cutter.push(frame));
        over.extend(cutter.push(frame));
    }
    (over, cutter.finish())
}

#[test]
fn a_file_is_cut_into_its_stretches() {
    let (over, rest) = cut(&[(1, 3), (3, 5)], 10);

    assert_eq!(over, vec![vec![1, 1, 2, 2], vec![3, 3, 4, 4]]);
    assert_eq!(rest, None);
}

#[test]
fn the_last_stretch_may_end_with_the_file() {
    let (over, rest) = cut(&[(0, 2), (4, 100)], 6);

    assert_eq!(over, vec![vec![0, 0, 1, 1]]);
    assert_eq!(rest, Some((1, vec![4, 4, 5, 5])));
}

#[test]
fn an_empty_stretch_holds_nothing() {
    let (over, rest) = cut(&[(2, 2), (2, 2), (2, 4)], 5);

    assert_eq!(over, vec![vec![], vec![], vec![2, 2, 3, 3]]);
    assert_eq!(rest, None);
    assert_eq!(cut(&[(50, 60)], 5), (Vec::new(), None));
}

#[test]
fn stretches_that_overlap_do_not_share_a_frame() {
    let (over, _) = cut(&[(0, 3), (1, 5)], 10);

    assert_eq!(over, vec![vec![0, 0, 1, 1, 2, 2], vec![3, 3, 4, 4]]);
}

/// A tone that wanders, so that its fingerprint is not all the same.
fn tune(frames: usize, rate: u32) -> Vec<i16> {
    (0..frames)
        .map(|i| {
            let t = i as f64 / rate as f64;
            let pitch = 220.0 + 110.0 * (t * 0.7).floor();
            ((t * pitch * std::f64::consts::TAU).sin() * 12_000.0) as i16
        })
        .collect()
}

/// The fingerprint and its text, by the outside crates directly.
fn reference(samples: &[i16], rate: u32, channels: u32) -> (Vec<u32>, String) {
    let config = Configuration::preset_test2();
    let mut printer = Fingerprinter::new(&config);
    printer.start(rate, channels).unwrap();
    printer.consume(samples);
    printer.finish();
    let packed = FingerprintCompressor::from(&config).compress(printer.fingerprint());
    (printer.fingerprint().to_vec(), URL_SAFE_NO_PAD.encode(packed))
}

#[test]
fn a_stretch_is_sent_as_text() {
    let samples = tune(60_000, NATIVE_RATE);
    let (fingerprint, text) = reference(&samples, NATIVE_RATE, 1);

    assert_eq!(fingerprint_segment(&samples, NATIVE_RATE, 1), Some(text.clone()));
    assert_eq!(print_text(&fingerprint), Some(text));

    let samples = tune(96_000 * 4, 48_000);
    let (_, text) = reference(&samples, 48_000, 2);
    assert_eq!(fingerprint_segment(&samples, 48_000, 2), Some(text));
}

#[test]
fn a_fingerprint_has_an_item_for_each_step() {
    for frames in [0, 1, 4_096, 28_665, 28_666, 30_030, 30_031, 31_396, 65_536, 100_000] {
        let samples = tune(frames * 2, NATIVE_RATE);
        let (fingerprint, _) = reference(&samples, NATIVE_RATE, 2);
        let items = if frames < 28_666 { 0 } else { (frames - 28_666) / 1365 };
        assert_eq!(fingerprint.len(), items, "{frames}");
        assert_eq!(
            fingerprint_segment(&samples, NATIVE_RATE, 2).is_some(),
            items > 0,
            "{frames}"
        );
    }
}

/// Whatever is heard and on however many channels, as many frames at a rate make as many
/// items.
#[test]
fn the_number_of_items_goes_by_the_frames_and_the_rate() {
    for rate in [8_000, 22_050, 44_100, 48_000] {
        for frames in [1, 16, 20_000, 120_000, 130_000, 250_000] {
            let mono = tune(frames, rate);
            let stereo: Vec<i16> = mono.iter().flat_map(|&s| [s, s / 3]).collect();
            let silence = vec![0; frames];

            let items = reference(&silence, rate, 1).0.len();
            assert_eq!(reference(&mono, rate, 1).0.len(), items, "{frames} at {rate}");
            assert_eq!(reference(&stereo, rate, 2).0.len(), items, "{frames} at {rate}");
            for (samples, channels) in [(&mono, 1), (&stereo, 2), (&silence, 1)] {
                assert_eq!(
                    fingerprint_segment(samples, rate, channels).is_some(),
                    items > 0,
                    "{frames} at {rate}"
                );
            }
        }
    }
}

/// What a stretch is fingerprinted as is its own, and not another's.
#[test]
fn different_sounds_have_different_fingerprints() {
    let samples = tune(200_000, 44_100);
    let backwards: Vec<i16> = samples.iter().rev().copied().collect();

    assert_ne!(
        fingerprint_segment(&samples, 44_100, 1),
        fingerprint_segment(&backwards, 44_100, 1)
    );
    assert_ne!(
        fingerprint_segment(&samples, 44_100, 1),
        fingerprint_segment(&samples, 22_050, 1)
    );
}

#[test]
fn there_may_be_nothing_to_fingerprint() {
    assert_eq!(print_text(&[]), None);
    assert_eq!(fingerprint_segment(&[], NATIVE_RATE, 2), None);
    assert_eq!(fingerprint_segment(&tune(60_000, 1_000), SLOWEST_RATE, 1), None);
}

#[test]
fn a_fingerprint_is_packed_and_then_written_in_letters() {
    // One item, nought: the packed form is a header of four bytes and nothing set.
    let text = print_text(&[0]).unwrap();
    let bytes = URL_SAFE_NO_PAD.decode(&text).unwrap();
    assert_eq!(bytes[..4], [1, 0, 0, 1]);

    for n in 1..40u32 {
        let fingerprint: Vec<u32> = (0..n).map(|i| i.wrapping_mul(0x9e37_79b9)).collect();
        let packed =
            FingerprintCompressor::from(&Configuration::preset_test2()).compress(&fingerprint);
        assert_eq!(print_text(&fingerprint), Some(URL_SAFE_NO_PAD.encode(packed)));
    }
}

#[test]
fn a_listener_fingerprints_each_stretch() {
    let spans = vec![
        Span { opens: 0, closes: 40_000 },
        Span { opens: 40_000, closes: 40_010 },
        Span { opens: 40_010, closes: u64::MAX },
    ];
    let samples = tune(80_000, NATIVE_RATE);
    let mut listener = Listener::new(spans, NATIVE_RATE, 1);
    for &sample in &samples {
        assert!(!listener.done());
        listener.hear(sample);
    }

    let prints = listener.finish().unwrap();
    assert_eq!(prints.len(), 3);
    assert_eq!(prints[0], Some(reference(&samples[..40_000], NATIVE_RATE, 1).1));
    assert_eq!(prints[1], None);
    assert_eq!(prints[2], Some(reference(&samples[40_010..], NATIVE_RATE, 1).1));
}

#[test]
fn a_file_with_nothing_to_hear_has_no_fingerprints() {
    let listener = Listener::new(vec![Span { opens: 0, closes: 10 }], NATIVE_RATE, 2);
    assert!(listener.finish().is_none());

    let mut listener = Listener::new(vec![Span { opens: 0, closes: 10 }], NATIVE_RATE, 1);
    for sample in 0..11 {
        listener.hear(sample);
    }
    assert!(listener.done());
    assert!(listener.finish().is_none());
}
