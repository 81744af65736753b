//! The waveform: folding a track's loudness into bars, and whether a file has to
//! be decoded for it at all.

use crate::meta_cache::Stamp;
use crate::peak_cache;
use crate::single::{Single, ZERO};
use vstd::prelude::*;

verus! {

/// How many peaks are kept of a track. The window folds them down to as many bars
/// as fit its width.
pub const PEAKS: usize = 220;

/// How many samples make up one measurement of loudness.
pub const WINDOW: usize = 1024;

/// The largest of some values and of nought.
pub open spec fn loudest(values: Seq<Single>) -> Single
    decreases values.len(),
{
    if values.len() == 0 {
        Single { bits: ZERO }
    } else {
        loudest(values.drop_last()).larger_of(values.last())
    }
}

/// Where the values that make up a bar begin.
pub open spec fn bar_start(len: nat, bars: nat, bar: int) -> int {
    bar * len / (bars as int)
}

/// Where the values that make up a bar end. There is always at least one.
pub open spec fn bar_end(len: nat, bars: nat, bar: int) -> int {
    let start = bar_start(len, bars, bar);
    let end = bar_start(len, bars, bar + 1);
    let longer = if end < start + 1 {
        start + 1
    } else {
        end
    };
    if longer > len {
        len as int
    } else {
        longer
    }
}

/// What values are folded into so many bars: the loudest of those each bar covers.
pub open spec fn resampled(peaks: Seq<Single>, bars: nat) -> Seq<Single> {
    if peaks.len() == 0 {
        seq![]
    } else {
        Seq::new(
            bars,
            |bar: int|
                loudest(
                    peaks.subrange(
                        bar_start(peaks.len(), bars, bar),
                        bar_end(peaks.len(), bars, bar),
                    ),
                ),
        )
    }
}

proof fn bars_in_range(len: nat, bars: nat, bar: int)
    requires
        len > 0,
        0 <= bar < bars,
    ensures
        0 <= bar_start(len, bars, bar) < len,
        bar_start(len, bars, bar) <= bar_start(len, bars, bar + 1) <= len,
        bar_start(len, bars, bar) < bar_end(len, bars, bar) <= len,
        bar * len <= (bar + 1) * len <= bars * len,
{
    assert(0 <= bar * len && bar * len <= (bar + 1) * len && (bar + 1) * len <= bars * len && bar
        * len < bars * len) by (nonlinear_arith)
        requires
            len > 0,
            0 <= bar < bars,
    ;
    assert(bar * len / (bars as int) < len && 0 <= bar * len / (bars as int)) by (nonlinear_arith)
        requires
            bars > 0,
            0 <= bar * len,
            bar * len < bars * len,
    ;
    assert(bar * len / (bars as int) <= (bar + 1) * len / (bars as int)) by (nonlinear_arith)
        requires
            bars > 0,
            bar * len <= (bar + 1) * len,
    ;
    assert((bar + 1) * len / (bars as int) <= len) by (nonlinear_arith)
        requires
            bars > 0,
            (bar + 1) * len <= bars * len,
    ;
}

fn find_loudest(values: &[Single]) -> (r: Single)
    ensures
        r == loudest(values@),
{
    let mut r = Single { bits: ZERO };
    let mut i: usize = 0;
    while i < values.len()
        invariant
            i <= values@.len(),
            r == loudest(values@.take(i as int)),
        decreases values@.len() - i,
    {
        assert(values@.take(i + 1).drop_last() =~= values@.take(i as int));
        assert(values@.take(i + 1).last() == values@[i as int]);
        r = r.larger(values[i]);
        i = i + 1;
    }
    assert(values@.take(values@.len() as int) =~= values@);
    r
}

/// The values from one place to another. A place past the end is the end, and a stretch
/// that would end before it begins is empty.
pub open spec fn stretched(peaks: Seq<Single>, from: nat, to: nat) -> Seq<Single> {
    let start = if from > peaks.len() {
        peaks.len()
    } else {
        from
    };
    let end = if to > peaks.len() {
        peaks.len()
    } else if to < start {
        start
    } else {
        to
    };
    peaks.subrange(start as int, end as int)
}

/// The part of a track's peaks that a chapter takes up, given the places where it begins
/// and ends among them.
pub fn stretch(peaks: &[Single], from: usize, to: usize) -> (r: Vec<Single>)
    ensures
        r@ == stretched(peaks@, from as nat, to as nat),
{
    let len: usize = peaks.len();
    let start: usize = if from > len {
        len
    } else {
        from
    };
    let end: usize = if to > len {
        len
    } else if to < start {
        start
    } else {
        to
    };
    vstd::slice::slice_to_vec(vstd::slice::slice_subrange(peaks, start, end))
}

/// Folds values into `bars` of them, keeping the loudest each bar covers, so that a
/// short burst survives. Serves both to measure a track and to draw it.
pub fn resample(peaks: &[Single], bars: usize) -> (r: Vec<Single>)
    requires
        peaks@.len() * bars <= usize::MAX,
    ensures
        r@ == resampled(peaks@, bars as nat),
{
    let mut r: Vec<Single> = Vec::new();
    let len: usize = peaks.len();
    if len == 0 {
        assert(r@ =~= seq![]);
        return r;
    }
    let mut bar: usize = 0;
    while bar < bars
        invariant
            bar <= bars,
            len == peaks@.len(),
            len > 0,
            peaks@.len() * bars <= usize::MAX,
            r@.len() == bar,
            forall|j: int|
                0 <= j < bar ==> #[trigger] r@[j] == resampled(peaks@, bars as nat)[j],
        decreases bars - bar,
    {
        proof {
            bars_in_range(len as nat, bars as nat, bar as int);
            assert(bars * len == len * bars) by (nonlinear_arith);
        }
        let start: usize = bar * len / bars;
        let mut end: usize = (bar + 1) * len / bars;
        if end < start + 1 {
            end = start + 1;
        }
        if end > len {
            end = len;
        }
        r.push(find_loudest(vstd::slice::slice_subrange(peaks, start, end)));
        bar = bar + 1;
    }
    assert(r@ =~= resampled(peaks@, bars as nat));
    r
}

/// With no more bars than values, the next bar begins further along.
proof fn bars_advance(len: nat, bars: nat, bar: int)
    requires
        0 <= bar < bars <= len,
    ensures
        bar_start(len, bars, bar) + 1 <= bar_start(len, bars, bar + 1) <= len,
{
    bars_in_range(len, bars, bar);
    let (a, n, m) = (bar * len, len as int, bars as int);
    assert((bar + 1) * len == a + n) by (nonlinear_arith)
        requires
            a == bar * len,
            n == len as int,
    ;
    assert((a + n) / m >= (a + m) / m && (a + m) / m == a / m + 1) by (nonlinear_arith)
        requires
            0 < m <= n,
    ;
}

/// Every bar covers at least one value, the first one begins with the first value,
/// each begins where the one before ends as long as there are no more bars than
/// values, and the last one ends with the last value: nothing is left out.
pub proof fn bars_cover_everything(len: nat, bars: nat)
    requires
        0 < bars <= len,
    ensures
        bar_start(len, bars, 0) == 0,
        bar_end(len, bars, bars - 1) == len,
        forall|bar: int|
            0 <= bar < bars - 1 ==> #[trigger] bar_end(len, bars, bar) == bar_start(
                len,
                bars,
                bar + 1,
            ),
{
    assert(0int * len / (bars as int) == 0) by (nonlinear_arith)
        requires
            bars > 0,
    ;
    bars_advance(len, bars, bars - 1);
    assert forall|bar: int| 0 <= bar < bars - 1 implies #[trigger] bar_end(len, bars, bar)
        == bar_start(len, bars, bar + 1) by {
        bars_advance(len, bars, bar);
    }
    assert(bar_start(len, bars, bars as int) == len) by (nonlinear_arith)
        requires
            bars > 0,
            bar_start(len, bars, bars as int) == (bars as int) * len / (bars as int),
    ;
}

/// What the record on a file says of its peaks.
pub open spec fn recalls(
    stamp: Option<Stamp>,
    attribute: Option<Seq<u8>>,
    r: Option<Vec<u8>>,
) -> bool {
    match (stamp, attribute) {
        (Some(stamp), Some(bytes)) => {
            &&& r is Some <==> peak_cache::reading(bytes, stamp) is Some
            &&& r matches Some(levels) ==> peak_cache::reading(bytes, stamp) == Some(levels@)
        },
        _ => r is None,
    }
}

/// What a file's own record settles about its peaks, and `None` when the file has
/// to be decoded. `stamp` is missing when the file could not be looked at.
pub fn remembered(stamp: Option<Stamp>, attribute: Option<&[u8]>) -> (r: Option<Vec<u8>>)
    ensures
        recalls(
            stamp,
            match attribute {
                Some(bytes) => Some(bytes@),
                None => None,
            },
            r,
        ),
{
    match stamp {
        Some(stamp) => peak_cache::read(attribute, stamp),
        None => None,
    }
}

/// The record that peaks leave on a file.
pub open spec fn leaves(stamp: Option<Stamp>, levels: Seq<u8>, attribute: Option<Vec<u8>>) -> bool {
    &&& attribute is Some <==> stamp is Some && levels.len() == PEAKS
    &&& attribute matches Some(bytes) ==> bytes@ == peak_cache::record(stamp->0, levels)
}

/// The attribute to leave on a file that was decoded, if there is one to leave.
pub fn to_remember(stamp: Option<Stamp>, levels: &[u8]) -> (attribute: Option<Vec<u8>>)
    ensures
        leaves(stamp, levels@, attribute),
{
    match stamp {
        Some(stamp) => peak_cache::write(stamp, levels),
        None => None,
    }
}

/// The loudest of some values is not below any of them nor below nought, and it is one of
/// them or nought.
pub proof fn none_is_louder(values: Seq<Single>)
    ensures
        loudest(values).is_number(),
        !loudest(values).below(Single { bits: 0 }),
        forall|i: int| 0 <= i < values.len() ==> !loudest(values).below(#[trigger] values[i]),
        loudest(values).bits == 0 || values.contains(loudest(values)),
    decreases values.len(),
{
    if values.len() > 0 {
        let front = values.drop_last();
        none_is_louder(front);
        let (m, v) = (loudest(front), values.last());
        crate::single::the_larger_is_not_below(m, v);
        assert forall|i: int| 0 <= i < values.len() implies !loudest(values).below(
            #[trigger] values[i],
        ) by {
            if i < front.len() {
                assert(!m.below(front[i]));
            }
        }
        if loudest(values) == v {
            assert(values[values.len() - 1] == v);
        } else if front.contains(m) {
            let k = choose|k: int| 0 <= k < front.len() && front[k] == m;
            assert(values[k] == m);
        }
    }
}

/// Folding gives as many bars as were asked for, and each is the loudest of its share of
/// the values: those from its place among the bars to that of the next, and at least one.
/// Nothing folds into nothing.
pub proof fn a_bar_is_the_loudest_of_its_share(peaks: Seq<Single>, bars: nat, bar: int)
    requires
        peaks.len() > 0,
        0 <= bar < bars,
    ensures
        resampled(peaks, bars).len() == bars,
        resampled(Seq::<Single>::empty(), bars).len() == 0,
        ({
            let from = bar * peaks.len() / (bars as int);
            let next = (bar + 1) * peaks.len() / (bars as int);
            let to = if next > from {
                next
            } else {
                from + 1
            };
            let value = resampled(peaks, bars)[bar];
            &&& 0 <= from < to <= peaks.len()
            &&& forall|k: int| from <= k < to ==> !value.below(#[trigger] peaks[k])
            &&& value.bits == 0 || exists|k: int| from <= k < to && #[trigger] peaks[k] == value
        }),
{
    let from = bar * peaks.len() / (bars as int);
    let next = (bar + 1) * peaks.len() / (bars as int);
    let to = if next > from {
        next
    } else {
        from + 1
    };
    bars_in_range(peaks.len(), bars, bar);
    let share = peaks.subrange(from, to);
    let value = resampled(peaks, bars)[bar];
    assert(value == loudest(share));
    none_is_louder(share);
    assert forall|k: int| from <= k < to implies !value.below(#[trigger] peaks[k]) by {
        assert(share[k - from] == peaks[k]);
    }
    if value.bits != 0 {
        let k = choose|k: int| 0 <= k < share.len() && share[k] == value;
        assert(peaks[from + k] == value);
    }
}

/// A stretch of values is those between two places, as far as there are any.
pub proof fn a_stretch_lies_between(peaks: Seq<Single>, from: nat, to: nat)
    ensures
        from <= to <= peaks.len() ==> stretched(peaks, from, to) == peaks.subrange(
            from as int,
            to as int,
        ),
        from <= peaks.len() < to ==> stretched(peaks, from, to) == peaks.skip(from as int),
        to <= from || from >= peaks.len() ==> stretched(peaks, from, to).len() == 0,
{
    if from <= peaks.len() < to {
        assert(stretched(peaks, from, to) =~= peaks.skip(from as int));
    }
}

/// Peaks that were left on a file are recalled from it as they were, as long as the file is
/// the same. A file that has changed, or that nobody could look at, has to be decoded.
pub proof fn peaks_are_recalled(
    stamp: Stamp,
    levels: Seq<u8>,
    attribute: Vec<u8>,
    r: Option<Vec<u8>>,
    other: Option<Stamp>,
    lost: Option<Vec<u8>>,
)
    requires
        leaves(Some(stamp), levels, Some(attribute)),
        recalls(Some(stamp), Some(attribute@), r),
        other is Some ==> other->0 != stamp,
        recalls(other, Some(attribute@), lost),
    ensures
        levels.len() == 220,
        r is Some && r->0@ == levels,
        lost is None,
{
    peak_cache::a_record_reads_back(stamp, levels);
    if let Some(now) = other {
        peak_cache::a_changed_file_has_no_record(stamp, levels, now);
    }
}

/// A record is left exactly where the file could be looked at and there are as many peaks
/// as a record holds.
pub proof fn whole_peaks_are_left(stamp: Option<Stamp>, levels: Seq<u8>, attribute: Option<Vec<u8>>)
    requires
        leaves(stamp, levels, attribute),
    ensures
        attribute is Some <==> stamp is Some && levels.len() == 220,
{
}

} // verus!
