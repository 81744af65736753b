use hark::meta_cache::Stamp;
use hark::peak_cache::{self, HEADER, RECORD, VERSION};
use hark::waveform::PEAKS;

const STAMP: Stamp = Stamp {
    mtime_ns: 1_721_742_401_123_456_789,
    size: 8_123_456,
};

/// A set with the shape of a real track: quiet at the edges, loud in the
/// middle, and never outside the usual range.
fn peaks() -> Vec<f32> {
    (0..PEAKS)
        .map(|i| {
            let t = i as f32 / (PEAKS - 1) as f32;
            (0.05 + 0.95 * (t * std::f32::consts::PI).sin()).clamp(0.05, 1.0)
        })
        .collect()
}

/// Each peak as the byte that stands for it.
fn levels(peaks: &[f32]) -> Vec<u8> {
    peaks
        .iter()
        .map(|&peak| (peak.clamp(0.0, 1.0) * 255.0).round() as u8)
        .collect()
}

fn encode(stamp: Stamp, peaks: &[f32]) -> Option<Vec<u8>> {
    peak_cache::encode(stamp, &levels(peaks))
}

fn decode(bytes: &[u8], stamp: Stamp) -> Option<Vec<f32>> {
    peak_cache::decode(bytes, stamp)
        .map(|levels| levels.iter().map(|&level| level as f32 / 255.0).collect())
}

#[test]
fn peak_cache_a_full_record_survives_a_round_trip() {
    let peaks = peaks();
    let Some(bytes) = encode(STAMP, &peaks) else {
        panic!("encode refused a full set of peaks");
    };
    let Some(decoded) = decode(&bytes, STAMP) else {
        panic!("decode refused its own output");
    };

    assert_eq!(decoded.len(), PEAKS);
    for (original, decoded) in peaks.iter().zip(&decoded) {
        assert!(
            (original - decoded).abs() <= 1.0 / 255.0,
            "{original} came back as {decoded}"
        );
    }
}

#[test]
fn the_record_is_the_size_it_claims() {
    let bytes = encode(STAMP, &peaks()).expect("encode refused a full set of peaks");
    assert_eq!(bytes.len(), RECORD);
    assert_eq!(bytes.len(), 237);
}

/// Quantization is lossy, so a second pass must not drift further than the
/// first — otherwise a record rewritten often would decay.
#[test]
fn the_round_trip_is_a_fixed_point() {
    let once = encode(STAMP, &peaks()).expect("encode refused a full set of peaks");
    let decoded = decode(&once, STAMP).expect("decode refused its own output");
    let twice = encode(STAMP, &decoded).expect("encode refused a decoded set");

    assert_eq!(once, twice);
}

#[test]
fn what_was_read_of_a_record_makes_it_again() {
    for step in 1..=RECORD as u8 {
        let levels: Vec<u8> = (0..PEAKS).map(|i| (i as u8).wrapping_mul(step)).collect();
        let bytes = peak_cache::encode(STAMP, &levels).unwrap();
        let read = peak_cache::decode(&bytes, STAMP).unwrap();
        assert_eq!(read, levels);
        assert_eq!(peak_cache::encode(STAMP, &read), Some(bytes));
    }
}

#[test]
fn silence_and_full_scale_are_exact() {
    for value in [0.0f32, 1.0f32] {
        let bytes = encode(STAMP, &vec![value; PEAKS]).expect("encode refused a full set of peaks");
        let decoded = decode(&bytes, STAMP).expect("decode refused its own output");
        assert!(decoded.iter().all(|&peak| peak == value));
    }
}

#[test]
fn peak_cache_a_changed_file_invalidates_the_record() {
    let bytes = encode(STAMP, &peaks()).expect("encode refused a full set of peaks");

    let touched = Stamp {
        mtime_ns: STAMP.mtime_ns + 1,
        ..STAMP
    };
    let resized = Stamp {
        size: STAMP.size + 1,
        ..STAMP
    };

    assert!(decode(&bytes, touched).is_none());
    assert!(decode(&bytes, resized).is_none());
}

#[test]
fn peak_cache_another_version_is_a_miss() {
    let mut bytes = encode(STAMP, &peaks()).expect("encode refused a full set of peaks");
    bytes[0] = VERSION + 1;
    assert!(decode(&bytes, STAMP).is_none());

    bytes[0] = 0;
    assert!(decode(&bytes, STAMP).is_none());
}

#[test]
fn a_truncated_or_padded_record_is_a_miss() {
    let bytes = encode(STAMP, &peaks()).expect("encode refused a full set of peaks");

    let mut padded = bytes.clone();
    padded.push(0);

    assert!(decode(&[], STAMP).is_none());
    assert!(decode(&bytes[..HEADER], STAMP).is_none());
    assert!(decode(&bytes[..bytes.len() - 1], STAMP).is_none());
    assert!(decode(&padded, STAMP).is_none());
    assert!(decode(b"not a record", STAMP).is_none());
}

#[test]
fn an_incomplete_set_of_peaks_is_never_written() {
    let peaks = peaks();

    assert!(encode(STAMP, &[]).is_none());
    assert!(encode(STAMP, &peaks[..PEAKS - 1]).is_none());

    let mut too_many = peaks.clone();
    too_many.push(0.5);
    assert!(encode(STAMP, &too_many).is_none());
}

#[test]
fn a_peak_record_is_these_bytes() {
    let stamp = Stamp {
        mtime_ns: -2,
        size: 0x0102_0304_0506_0708,
    };
    let levels: Vec<u8> = (0..PEAKS).map(|i| i as u8).collect();
    let bytes = peak_cache::encode(stamp, &levels).unwrap();

    assert_eq!(bytes[0], 1);
    assert_eq!(bytes[1..9], (-2i64).to_le_bytes());
    assert_eq!(bytes[9..17], 0x0102_0304_0506_0708u64.to_le_bytes());
    assert_eq!(bytes[17..], levels[..]);
}

#[test]
fn a_file_that_was_never_measured_has_no_peaks() {
    assert!(peak_cache::read(None, STAMP).is_none());

    let levels = levels(&peaks());
    let attribute = peak_cache::write(STAMP, &levels).unwrap();
    assert_eq!(peak_cache::read(Some(&attribute), STAMP), Some(levels));
}
