//! Identifying badly tagged files by their sound, so that a cover and the right
//! names can be recovered where the tags are no help.
//!
//! The decoded sound makes a Chromaprint fingerprint, and AcoustID knows the
//! recording by it: the album's MusicBrainz release group, the artist, the album
//! and the title. A file that holds a whole album is fingerprinted one chapter at a
//! time, so that every song gets its title and the file one cover.
//!
//! Decoding, asking and waiting are the caller's. What to fingerprint, what to ask
//! and what the answers come to is decided here.

use crate::cutter;
use crate::cutter::{Cutter, Span};
use crate::time::{Duration, LONGEST, NANOS_PER_SEC};
use crate::track;
use crate::track::Track;
use base64::Engine;
use rusty_chromaprint::{Configuration, FingerprintCompressor, Fingerprinter};
use vstd::prelude::*;

verus! {

/// The longest stretch of one recording that is fingerprinted: two minutes. The
/// start of a song still matches the whole one that AcoustID stores.
pub const MAX_FINGERPRINT: u64 = 120;

/// A file without chapters that is longer than this, a quarter of an hour, is a
/// string of songs that matches no single recording. Asking about it would be
/// wasted.
pub const MAX_FLAT_DURATION: u64 = 900;

/// Matches weaker than this are not trusted: the bits of one half. A wrong cover
/// and wrong names are worse than none.
pub const MIN_SCORE: u64 = 0x3fe0_0000_0000_0000;

/// How long to wait between questions, in milliseconds, to keep under the
/// service's limit of three a second.
pub const THROTTLE: u64 = 350;

/// Sound sampled no faster than this is not fingerprinted.
pub const SLOWEST_RATE: u32 = 1000;

/// A file's identity, as recovered from its sound.
#[derive(Debug)]
pub struct Identification {
    /// The MusicBrainz release group: the album, and the key to its cover.
    pub mbid: String,
    pub artist: Option<String>,
    pub album: Option<String>,
    /// One title per chapter, in order, and a single one for a file without
    /// chapters. `None` where a chapter could not be matched.
    pub chapter_titles: Vec<Option<String>>,
}

/// What an identity is.
#[verifier::ext_equal]
pub struct IdModel {
    pub mbid: Seq<char>,
    pub artist: Option<Seq<char>>,
    pub album: Option<Seq<char>>,
    pub titles: Seq<Option<Seq<char>>>,
}

/// The titles in a list, as text.
pub open spec fn title_views(titles: Seq<Option<String>>) -> Seq<Option<Seq<char>>> {
    titles.map_values(|t: Option<String>| t.deep_view())
}

impl View for Identification {
    type V = IdModel;

    open spec fn view(&self) -> IdModel {
        IdModel {
            mbid: self.mbid@,
            artist: self.artist.deep_view(),
            album: self.album.deep_view(),
            titles: title_views(self.chapter_titles@),
        }
    }
}

/// A stretch of a file to fingerprint as one recording.
#[derive(Clone, Copy, PartialEq, Eq, Structural, Debug)]
pub struct Segment {
    pub start: Duration,
    /// Where fingerprinting stops: at the end of the song, or two minutes in,
    /// whichever comes first.
    pub cap_end: Duration,
    /// The length of the whole recording, which is what AcoustID is told.
    pub report_duration: Duration,
}

/// A span of so many seconds.
pub open spec fn seconds(n: u64) -> Duration {
    Duration { nanos: (n * NANOS_PER_SEC) as u128 }
}

/// The one stretch of a file without chapters. A file that does not say how long it
/// is gets its start fingerprinted all the same.
pub open spec fn flat_segment(duration: Duration) -> Segment {
    let report = if duration.nanos == 0 {
        seconds(MAX_FINGERPRINT)
    } else {
        duration
    };
    Segment {
        start: Duration { nanos: 0 },
        cap_end: report.least(seconds(MAX_FINGERPRINT)),
        report_duration: report,
    }
}

/// The stretch that a chapter is.
pub open spec fn chapter_segment(c: track::ChapterModel) -> Segment {
    Segment {
        start: c.start,
        cap_end: (Duration {
            nanos: (c.start.nanos + MAX_FINGERPRINT * NANOS_PER_SEC) as u128,
        }).least(c.end),
        report_duration: c.end.past(c.start),
    }
}

/// The stretches of a track to fingerprint, and `None` when it is not worth it.
pub open spec fn segments_of(t: track::TrackModel) -> Option<Seq<Segment>> {
    if t.chapters.len() > 0 {
        Some(t.chapters.map_values(|c: track::ChapterModel| chapter_segment(c)))
    } else if t.duration.nanos > MAX_FLAT_DURATION * NANOS_PER_SEC {
        None
    } else {
        Some(seq![flat_segment(t.duration)])
    }
}

/// Whether two minutes can be added to the start of every chapter.
pub open spec fn chapters_fit(t: track::TrackModel) -> bool {
    forall|i: int|
        0 <= i < t.chapters.len() ==> (#[trigger] t.chapters[i]).start.nanos + MAX_FINGERPRINT
            * NANOS_PER_SEC <= LONGEST
}

/// Splits a track into the stretches to fingerprint: one per chapter, or a single
/// one for a plain file. `None` means that it is not worth fingerprinting.
pub fn segments(t: &Track) -> (r: Option<Vec<Segment>>)
    requires
        chapters_fit(t@),
    ensures
        r is Some <==> segments_of(t@) is Some,
        r matches Some(list) ==> segments_of(t@) == Some(list@),
{
    let longest = Duration::from_secs(MAX_FINGERPRINT);
    let mut list: Vec<Segment> = Vec::new();
    if t.chapters.len() == 0 {
        let limit = Duration::from_secs(MAX_FLAT_DURATION);
        if t.duration.nanos > limit.nanos {
            return None;
        }
        let report = if t.duration.is_zero() {
            longest
        } else {
            t.duration
        };
        list.push(
            Segment {
                start: Duration::zero(),
                cap_end: report.shorter(longest),
                report_duration: report,
            },
        );
        assert(list@ =~= seq![flat_segment(t.duration)]);
        return Some(list);
    }
    let mut i: usize = 0;
    while i < t.chapters.len()
        invariant
            i <= t.chapters@.len(),
            chapters_fit(t@),
            longest == seconds(MAX_FINGERPRINT),
            list@.len() == i,
            forall|j: int|
                0 <= j < i ==> #[trigger] list@[j] == chapter_segment(t.chapters@[j]@),
        decreases t.chapters@.len() - i,
    {
        let chapter = &t.chapters[i];
        assert(t@.chapters[i as int] == chapter@);
        list.push(
            Segment {
                start: chapter.start,
                cap_end: chapter.start.plus(longest).shorter(chapter.end),
                report_duration: chapter.end.saturating_sub(chapter.start),
            },
        );
        i = i + 1;
    }
    assert(list@ =~= t@.chapters.map_values(|c: track::ChapterModel| chapter_segment(c)));
    Some(list)
}

/// No stretch is longer than two minutes, and none begins after it ends unless its
/// chapter does.
pub proof fn stretches_are_short(t: track::TrackModel, i: int)
    requires
        chapters_fit(t),
        segments_of(t) is Some,
        0 <= i < segments_of(t)->0.len(),
    ensures
        segments_of(t)->0[i].cap_end.nanos <= segments_of(t)->0[i].start.nanos + MAX_FINGERPRINT
            * NANOS_PER_SEC,
        t.chapters.len() == 0 ==> segments_of(t)->0[i].start.nanos
            < segments_of(t)->0[i].cap_end.nanos,
        t.chapters.len() > 0 ==> segments_of(t)->0.len() == t.chapters.len(),
{
    if t.chapters.len() > 0 {
        assert(segments_of(t)->0[i] == chapter_segment(t.chapters[i]));
        assert(t.chapters[i].start.nanos + MAX_FINGERPRINT * NANOS_PER_SEC <= LONGEST);
    }
}

/// A fingerprint in the packed form AcoustID takes.
pub uninterp spec fn compressed(fingerprint: Seq<u32>) -> Seq<u8>;

/// Whether a fingerprint is short enough to be packed: its packed form is counted in
/// bits before it is made.
pub open spec fn packable(fingerprint: Seq<u32>) -> bool {
    fingerprint.len() <= usize::MAX / 128
}

/// The rate that sound is fingerprinted at. Any other is converted to it first.
pub const NATIVE_RATE: u32 = 11_025;

/// How many items a fingerprint has that so many frames at its own rate make: one for
/// each step, once the first has been waited for.
pub open spec fn items(frames: nat) -> nat {
    if frames < 28_666 {
        0
    } else {
        ((frames - 28_666) / 1365) as nat
    }
}

/// How many items a fingerprint has that so many frames at a rate make.
pub uninterp spec fn items_at(frames: nat, rate: u32) -> nat;

/// Whether a fingerprint is one that interleaved samples can be heard as.
pub uninterp spec fn heard_as(
    samples: Seq<i16>,
    rate: u32,
    channels: u16,
    fingerprint: Seq<u32>,
) -> bool;

/// `Fingerprinter` of `rusty_chromaprint`, set up as AcoustID's own client is, on
/// the interleaved samples of whole frames: the fingerprint, unless there are no
/// channels or the rate is too slow. Sound is converted to one rate first, and how many
/// frames come of that depends on their number and their rate alone. Then it waits for
/// as many frames as `Configuration::delay` says and makes an item of each step, so that
/// the number of items follows too, and is plain where nothing is converted. What the
/// items are goes through floating point that differs between machines: the fingerprint
/// is one of those the samples can be heard as, and which one is left unsaid.
#[verifier::external_body]
fn chromaprint(samples: &[i16], rate: u32, channels: u16) -> (r: Option<Vec<u32>>)
    requires
        channels > 0 ==> samples@.len() % (channels as nat) == 0,
    ensures
        r is Some <==> (SLOWEST_RATE < rate && 0 < channels),
        r matches Some(f) ==> (rate == NATIVE_RATE ==> f@.len() == items(
            samples@.len() / (channels as nat),
        )),
        r matches Some(f) ==> f@.len() == items_at(samples@.len() / (channels as nat), rate),
        r matches Some(f) ==> heard_as(samples@, rate, channels, f@),
{
    let mut printer = Fingerprinter::new(&Configuration::preset_test2());
    printer.start(rate, channels.into()).ok()?;
    printer.consume(samples);
    printer.finish();
    Some(printer.fingerprint().to_vec())
}

/// `FingerprintCompressor::compress` of `rusty_chromaprint`, for the same set-up: the
/// packed form, which depends on the fingerprint alone.
#[verifier::external_body]
fn compress(fingerprint: &[u32]) -> (r: Vec<u8>)
    requires
        packable(fingerprint@),
    ensures
        r@ == compressed(fingerprint@),
{
    FingerprintCompressor::from(&Configuration::preset_test2()).compress(fingerprint)
}

/// The character for six bits: letters, digits, a hyphen and an underscore.
pub open spec fn sextet_char(v: int) -> char {
    if v < 26 {
        (v + 'A' as int) as char
    } else if v < 52 {
        (v - 26 + 'a' as int) as char
    } else if v < 62 {
        (v - 52 + '0' as int) as char
    } else if v == 62 {
        '-'
    } else {
        '_'
    }
}

/// The six bits at a place in a run of bytes, with noughts behind its end. Four of
/// them go into three bytes.
pub open spec fn sextet(bytes: Seq<u8>, i: int) -> int {
    let n = i * 3 / 4;
    let here = bytes[n] as int;
    let next = if n + 1 < bytes.len() {
        bytes[n + 1] as int
    } else {
        0
    };
    if i % 4 == 0 {
        here / 4
    } else if i % 4 == 1 {
        here % 4 * 16 + next / 16
    } else if i % 4 == 2 {
        here % 16 * 4 + next / 64
    } else {
        here % 64
    }
}

/// Bytes as base64 text, fit for a web address and without padding.
pub open spec fn base64(bytes: Seq<u8>) -> Seq<char> {
    Seq::new((bytes.len() * 4 + 2) / 3, |i: int| sextet_char(sextet(bytes, i)))
}

/// `URL_SAFE_NO_PAD.encode` of `base64`.
#[verifier::external_body]
fn to_base64(bytes: &[u8]) -> (r: String)
    ensures
        r@ == base64(bytes@),
{
    base64::engine::general_purpose::URL_SAFE_NO_PAD.encode(bytes)
}

/// The text a fingerprint is sent as. An empty fingerprint is none.
pub open spec fn print_of(fingerprint: Seq<u32>) -> Option<Seq<char>> {
    if fingerprint.len() > 0 && packable(fingerprint) {
        Some(base64(compressed(fingerprint)))
    } else {
        None
    }
}

/// Puts a fingerprint into the form that AcoustID takes.
pub fn print_text(fingerprint: &[u32]) -> (r: Option<String>)
    ensures
        r.deep_view() == print_of(fingerprint@),
{
    if fingerprint.len() == 0 || fingerprint.len() > usize::MAX / 128 {
        return None;
    }
    let packed = compress(fingerprint);
    Some(to_base64(packed.as_slice()))
}

/// What a stretch of sound may be fingerprinted as: nothing where there is nothing
/// to hear, too slow a rate or no item to be had, and else what a fingerprint makes that
/// the stretch can be heard as. At the rate that sound is fingerprinted at, the number of
/// items is plain.
pub open spec fn may_print(
    samples: Seq<i16>,
    rate: u32,
    channels: u16,
    r: Option<Seq<char>>,
) -> bool {
    let frames = samples.len() / (channels as nat);
    let count = items_at(frames, rate);
    &&& r is Some <==> samples.len() > 0 && rate > SLOWEST_RATE && 0 < count <= usize::MAX / 128
    &&& samples.len() > 0 && rate == NATIVE_RATE ==> count == items(frames)
    &&& rate == NATIVE_RATE ==> (r is Some <==> items(frames) > 0)
    &&& r is Some ==> exists|fingerprint: Seq<u32>| #[trigger]
        heard_as(samples, rate, channels, fingerprint) && fingerprint.len() == count && print_of(
            fingerprint,
        ) == r
}

/// Fingerprints one stretch's interleaved samples.
pub fn fingerprint_segment(samples: &[i16], rate: u32, channels: u16) -> (r: Option<String>)
    requires
        channels > 0,
        samples@.len() % (channels as nat) == 0,
    ensures
        may_print(samples@, rate, channels, r.deep_view()),
{
    let ghost frames = samples@.len() / (channels as nat);
    assert(frames <= samples@.len()) by (nonlinear_arith)
        requires
            channels > 0,
            frames == samples@.len() / (channels as nat),
    ;
    if samples.len() == 0 {
        return None;
    }
    let Some(fingerprint) = chromaprint(samples, rate, channels) else {
        return None;
    };
    assert(heard_as(samples@, rate, channels, fingerprint@));
    print_text(fingerprint.as_slice())
}

/// Listens to a file and fingerprints its stretches as they are over.
pub struct Listener {
    pub cutter: Cutter,
    pub rate: u32,
    pub prints: Vec<Option<String>>,
}

impl Listener {
    /// There is a place for every stretch, and each that is over was fingerprinted
    /// from exactly what there is of it.
    pub open spec fn well_formed(&self) -> bool {
        &&& self.cutter.well_formed()
        &&& self.prints@.len() == self.cutter.spans@.len()
        &&& forall|i: int|
            0 <= i < self.cutter.index ==> may_print(
                cutter::window(self.cutter.heard@, self.cutter.spans@, i),
                self.rate,
                self.cutter.channels,
                (#[trigger] self.prints@[i]).deep_view(),
            )
        &&& forall|i: int|
            self.cutter.index <= i < self.prints@.len() ==> #[trigger] self.prints@[i] is None
    }

    pub fn new(spans: Vec<Span>, rate: u32, channels: u16) -> (l: Listener)
        requires
            channels > 0,
        ensures
            l.well_formed(),
            l.cutter.spans == spans,
            l.cutter.channels == channels,
            l.rate == rate,
            l.cutter.index == 0,
            l.cutter.frames == 0,
            l.cutter.frame@.len() == 0,
    {
        let mut prints: Vec<Option<String>> = Vec::new();
        let mut i: usize = 0;
        while i < spans.len()
            invariant
                i <= spans@.len(),
                prints@.len() == i,
                forall|j: int| 0 <= j < i ==> #[trigger] prints@[j] is None,
            decreases spans@.len() - i,
        {
            prints.push(None);
            i = i + 1;
        }
        Listener { cutter: Cutter::new(spans, channels), rate, prints }
    }

    /// Whether nothing more need be heard.
    pub fn done(&self) -> (r: bool)
        ensures
            r == (self.cutter.index >= self.cutter.spans@.len()),
    {
        self.cutter.done()
    }

    /// Hears one sample.
    pub fn hear(&mut self, sample: i16)
        requires
            old(self).well_formed(),
            old(self).cutter.frames < u64::MAX,
        ensures
            final(self).well_formed(),
            final(self).rate == old(self).rate,
            final(self).cutter.spans == old(self).cutter.spans,
            final(self).cutter.channels == old(self).cutter.channels,
            final(self).cutter.index >= old(self).cutter.index,
            forall|i: int|
                0 <= i < old(self).cutter.index ==> #[trigger] final(self).prints@[i] == old(
                    self,
                ).prints@[i],
            old(self).cutter.frame@.len() + 1 < old(self).cutter.channels ==> {
                &&& final(self).cutter.frame@ == old(self).cutter.frame@.push(sample)
                &&& final(self).cutter.heard@ == old(self).cutter.heard@
            },
            old(self).cutter.frame@.len() + 1 == old(self).cutter.channels ==> {
                &&& final(self).cutter.frame@.len() == 0
                &&& final(self).cutter.heard@ == old(self).cutter.heard@.push(
                    old(self).cutter.frame@.push(sample),
                )
            },
    {
        let ghost before = *self;
        let first: usize = self.cutter.index;
        let over = self.cutter.push(sample);
        let ghost cut = self.cutter;
        let ghost heard = cut.heard@;
        let ghost spans = cut.spans@;
        proof {
            assert forall|i: int| 0 <= i < first implies #[trigger] cutter::window(
                heard,
                spans,
                i,
            ) == cutter::window(before.cutter.heard@, spans, i) by {
                assert(heard.take(before.cutter.heard@.len() as int)
                    =~= before.cutter.heard@);
                assert(spans[i].closes < before.cutter.frames);
                cutter::window_settled(before.cutter.heard@, heard, spans, i);
            }
        }
        let mut k: usize = 0;
        while k < over.len()
            invariant
                k <= over@.len(),
                before.well_formed(),
                first == before.cutter.index,
                self.cutter == cut,
                cut.well_formed(),
                cut.index == first + over@.len(),
                cut.heard@ == heard,
                cut.spans@ == spans,
                self.rate == before.rate,
                self.prints@.len() == spans.len(),
                forall|i: int| 0 <= i < first ==> #[trigger] self.prints@[i] == before.prints@[i],
                forall|i: int|
                    first <= i < first + k ==> may_print(
                        cutter::window(heard, spans, i),
                        self.rate,
                        self.cutter.channels,
                        (#[trigger] self.prints@[i]).deep_view(),
                    ),
                forall|i: int|
                    first + k <= i < self.prints@.len() ==> #[trigger] self.prints@[i] is None,
                forall|j: int|
                    0 <= j < over@.len() ==> (#[trigger] over@[j])@ == cutter::window(
                        heard,
                        spans,
                        first + j,
                    ),
            decreases over@.len() - k,
        {
            proof {
                cutter::whole_frames(heard, self.cutter.channels as nat, spans, first + k);
            }
            let print = fingerprint_segment(over[k].as_slice(), self.rate, self.cutter.channels);
            self.prints.set(first + k, print);
            k = k + 1;
        }
        proof {
            assert forall|i: int| 0 <= i < self.cutter.index implies may_print(
                cutter::window(heard, spans, i),
                self.rate,
                self.cutter.channels,
                (#[trigger] self.prints@[i]).deep_view(),
            ) by {
                if i < first {
                    assert(self.prints@[i] == before.prints@[i]);
                    assert(cutter::window(heard, spans, i) == cutter::window(
                        before.cutter.heard@,
                        spans,
                        i,
                    ));
                }
            }
        }
    }

    /// The fingerprints of all the stretches, once the file has ended, and `None`
    /// when there is not a single one.
    pub fn finish(self) -> (r: Option<Vec<Option<String>>>)
        requires
            self.well_formed(),
        ensures
            r matches Some(prints) ==> {
                &&& prints@.len() == self.cutter.spans@.len()
                &&& forall|i: int|
                    0 <= i < prints@.len() ==> may_print(
                        cutter::window(self.cutter.heard@, self.cutter.spans@, i),
                        self.rate,
                        self.cutter.channels,
                        (#[trigger] prints@[i]).deep_view(),
                    )
                &&& forall|i: int|
                    0 <= i < self.cutter.index ==> #[trigger] prints@[i] == self.prints@[i]
                &&& exists|i: int| 0 <= i < prints@.len() && #[trigger] prints@[i] is Some
            },
            r is None ==> forall|i: int|
                0 <= i < self.cutter.index ==> #[trigger] self.prints@[i] is None,
            r is None ==> forall|i: int|
                0 <= i < self.cutter.spans@.len() ==> may_print(
                    #[trigger] cutter::window(self.cutter.heard@, self.cutter.spans@, i),
                    self.rate,
                    self.cutter.channels,
                    None,
                ),
            (forall|i: int|
                0 <= i < self.cutter.spans@.len() ==> #[trigger] cutter::window(
                    self.cutter.heard@,
                    self.cutter.spans@,
                    i,
                ).len() == 0) ==> r is None,
    {
        let ghost c = self.cutter;
        let ghost before = self.prints@;
        let rate: u32 = self.rate;
        let channels: u16 = self.cutter.channels;
        let mut prints = self.prints;
        proof {
            assert forall|i: int| c.index < i < prints@.len() implies cutter::window(
                c.heard@,
                c.spans@,
                i,
            ).len() == 0 && (#[trigger] prints@[i]).deep_view() is None by {
                cutter::nothing_lies_ahead(c, i);
            }
        }
        if let Some((i, stretch)) = self.cutter.finish() {
            proof {
                cutter::whole_frames(c.heard@, channels as nat, c.spans@, i as int);
            }
            let print = fingerprint_segment(stretch.as_slice(), rate, channels);
            prints.set(i, print);
        }
        let mut i: usize = 0;
        while i < prints.len()
            invariant
                i <= prints@.len(),
                forall|j: int| 0 <= j < i ==> #[trigger] prints@[j] is None,
                prints@.len() == c.spans@.len(),
                c.index <= prints@.len(),
                forall|j: int|
                    0 <= j < prints@.len() ==> may_print(
                        cutter::window(c.heard@, c.spans@, j),
                        rate,
                        channels,
                        (#[trigger] prints@[j]).deep_view(),
                    ),
                forall|j: int| 0 <= j < c.index ==> #[trigger] prints@[j] == before[j],
                c == self.cutter,
                before == self.prints@,
                rate == self.rate,
                channels == self.cutter.channels,
            decreases prints@.len() - i,
        {
            if prints[i].is_some() {
                assert(prints@[i as int].deep_view() is Some);
                return Some(prints);
            }
            i = i + 1;
        }
        assert forall|j: int| 0 <= j < c.index implies #[trigger] before[j] is None by {
            assert(prints@[j] == before[j]);
        }
        assert forall|j: int| 0 <= j < c.spans@.len() implies may_print(
            #[trigger] cutter::window(c.heard@, c.spans@, j),
            rate,
            channels,
            None,
        ) by {
            assert(prints@[j].deep_view() is None);
        }
        None
    }
}

/// A file with chapters is fingerprinted one chapter at a time, each from its start up to
/// its end or two minutes on, whichever comes first, and said to be as long as the chapter.
/// One without is fingerprinted from its start, up to two minutes of it, and said to be as
/// long as it is; of one that does not say, two minutes. A file without chapters that is
/// longer than a quarter of an hour is not fingerprinted at all.
pub proof fn what_is_fingerprinted(t: track::TrackModel, i: int)
    requires
        chapters_fit(t),
    ensures
        t.chapters.len() == 0 && t.duration.nanos > 900_000_000_000 ==> segments_of(t) is None,
        t.chapters.len() > 0 || t.duration.nanos <= 900_000_000_000 ==> segments_of(t) is Some,
        t.chapters.len() == 0 && t.duration.nanos <= 900_000_000_000 ==> {
            let s = segments_of(t)->0[0];
            &&& segments_of(t)->0.len() == 1
            &&& s.start.nanos == 0
            &&& t.duration.nanos == 0 ==> s.cap_end.nanos == 120_000_000_000
                && s.report_duration.nanos == 120_000_000_000
            &&& t.duration.nanos > 0 ==> s.report_duration == t.duration
            &&& 0 < t.duration.nanos <= 120_000_000_000 ==> s.cap_end == t.duration
            &&& t.duration.nanos > 120_000_000_000 ==> s.cap_end.nanos == 120_000_000_000
        },
        t.chapters.len() > 0 ==> segments_of(t)->0.len() == t.chapters.len(),
        0 <= i < t.chapters.len() ==> {
            let s = segments_of(t)->0[i];
            let c = t.chapters[i];
            &&& s.start == c.start
            &&& c.end.nanos <= c.start.nanos + 120_000_000_000 ==> s.cap_end == c.end
            &&& c.end.nanos > c.start.nanos + 120_000_000_000 ==> s.cap_end.nanos == c.start.nanos
                + 120_000_000_000
            &&& c.end.nanos >= c.start.nanos ==> s.report_duration.nanos == c.end.nanos
                - c.start.nanos
            &&& c.end.nanos < c.start.nanos ==> s.report_duration.nanos == 0
        },
{
    if 0 <= i < t.chapters.len() {
        assert(t.chapters[i].start.nanos + MAX_FINGERPRINT * NANOS_PER_SEC <= LONGEST);
        assert(segments_of(t)->0[i] == chapter_segment(t.chapters[i]));
    }
}

/// A stretch has a fingerprint exactly when there is something to hear, the rate is above
/// a thousand and there is at least one item, as far as it can be packed.
pub proof fn what_can_be_heard_has_a_fingerprint(
    samples: Seq<i16>,
    rate: u32,
    channels: u16,
    r: Option<Seq<char>>,
)
    requires
        may_print(samples, rate, channels, r),
        channels > 0,
    ensures
        samples.len() == 0 ==> r is None,
        rate <= 1000 ==> r is None,
        samples.len() > 0 && rate > 1000 && items_at(samples.len() / (channels as nat), rate)
            <= usize::MAX / 128 ==> (r is Some <==> items_at(samples.len() / (channels as nat), rate)
            > 0),
        rate == 11_025 && samples.len() / (channels as nat) >= 30_031 ==> r is Some,
        rate == 11_025 && samples.len() / (channels as nat) < 30_031 ==> r is None,
        r is Some ==> exists|f: Seq<u32>| #[trigger]
            heard_as(samples, rate, channels, f) && f.len() > 0 && r == Some(base64(compressed(f))),
{
    let frames = samples.len() / (channels as nat);
    if frames >= 30_031 {
        assert(items(frames) >= 1);
    }
    if r is Some {
        let f = choose|f: Seq<u32>| #[trigger]
            heard_as(samples, rate, channels, f) && f.len() == items_at(frames, rate) && print_of(f)
                == r;
        assert(heard_as(samples, rate, channels, f));
    }
}

/// A fingerprint is sent packed and in letters, as long as there is anything of it and it
/// can be packed.
pub proof fn a_fingerprint_is_sent_packed(fingerprint: Seq<u32>)
    ensures
        fingerprint.len() == 0 ==> print_of(fingerprint) is None,
        0 < fingerprint.len() <= usize::MAX / 128 ==> print_of(fingerprint) == Some(
            base64(compressed(fingerprint)),
        ),
{
}

} // verus!
