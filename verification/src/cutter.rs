//! Cutting the sound of a file into the stretches that are fingerprinted.
//!
//! A file is decoded once, from front to back, and never held whole. The cutter
//! takes it a sample at a time and hands out each stretch as soon as it is over.

use vstd::prelude::*;

verus! {

/// The stretch of a file that is fingerprinted as one recording, by frames: the
/// first that may belong to it, and the first that no longer does.
#[derive(Clone, Copy, PartialEq, Eq, Structural, Debug)]
pub struct Span {
    pub opens: u64,
    pub closes: u64,
}

/// The samples of several frames, in order.
pub open spec fn joined(frames: Seq<Seq<i16>>) -> Seq<i16>
    decreases frames.len(),
{
    if frames.len() == 0 {
        seq![]
    } else {
        joined(frames.drop_last()) + frames.last()
    }
}

/// The frame by which the first `i` stretches are all over.
pub open spec fn over_by(spans: Seq<Span>, i: int) -> int
    decreases i,
{
    if i <= 0 {
        0
    } else {
        let before = over_by(spans, i - 1);
        if spans[i - 1].closes > before {
            spans[i - 1].closes as int
        } else {
            before
        }
    }
}

/// The first frame of stretch `i`: where it opens, but not before all those ahead
/// of it are over.
pub open spec fn first_frame(spans: Seq<Span>, i: int) -> int {
    if spans[i].opens > over_by(spans, i) {
        spans[i].opens as int
    } else {
        over_by(spans, i)
    }
}

/// What there is of stretch `i` in the frames heard so far.
pub open spec fn window(heard: Seq<Seq<i16>>, spans: Seq<Span>, i: int) -> Seq<i16> {
    let from = first_frame(spans, i);
    let to = if spans[i].closes < heard.len() {
        spans[i].closes as int
    } else {
        heard.len() as int
    };
    if from < to {
        joined(heard.subrange(from, to))
    } else {
        seq![]
    }
}

/// Frames of equal length come to that many samples for each.
pub proof fn joined_length(frames: Seq<Seq<i16>>, channels: nat)
    requires
        forall|i: int| 0 <= i < frames.len() ==> (#[trigger] frames[i]).len() == channels,
    ensures
        joined(frames).len() == frames.len() * channels,
    decreases frames.len(),
{
    if frames.len() > 0 {
        let front = frames.drop_last();
        assert forall|i: int| 0 <= i < front.len() implies (#[trigger] front[i]).len()
            == channels by {
            assert(front[i] == frames[i]);
        }
        joined_length(front, channels);
        assert(frames.len() * channels == (frames.len() - 1) * channels + channels)
            by (nonlinear_arith);
    } else {
        assert(0nat * channels == 0) by (nonlinear_arith);
    }
}

proof fn over_by_grows(spans: Seq<Span>, i: int, j: int)
    requires
        0 <= i <= j,
    ensures
        0 <= over_by(spans, i) <= over_by(spans, j),
    decreases j,
{
    if i < j {
        over_by_grows(spans, i, j - 1);
    } else if i > 0 {
        over_by_grows(spans, i - 1, i - 1);
    }
}

/// A stretch that is over does not change when more is heard.
pub proof fn window_settled(heard: Seq<Seq<i16>>, more: Seq<Seq<i16>>, spans: Seq<Span>, i: int)
    requires
        0 <= i < spans.len(),
        heard.len() <= more.len(),
        more.take(heard.len() as int) == heard,
        spans[i].closes <= heard.len(),
    ensures
        window(heard, spans, i) == window(more, spans, i),
{
    let from = first_frame(spans, i);
    let to = spans[i].closes as int;
    over_by_grows(spans, 0, i);
    if from < to {
        assert(heard.subrange(from, to) =~= more.subrange(from, to)) by {
            assert forall|k: int| from <= k < to implies heard[k] == more[k] by {
                assert(more.take(heard.len() as int)[k] == more[k]);
            }
        }
    }
}

/// Takes a file's samples one at a time and cuts out the stretches.
pub struct Cutter {
    pub channels: u16,
    pub spans: Vec<Span>,
    /// The stretch that is open, or coming up.
    pub index: usize,
    /// How many frames were heard whole.
    pub frames: u64,
    /// The frame that is being put together.
    pub frame: Vec<i16>,
    /// What there is of the open stretch.
    pub buffer: Vec<i16>,
    /// Everything that was heard.
    pub heard: Ghost<Seq<Seq<i16>>>,
}

/// What a sample does to a cutter, and which stretches are over with it.
pub open spec fn cuts(before: Cutter, sample: i16, now: Cutter, over: Seq<Vec<i16>>) -> bool {
    &&& now.spans == before.spans
    &&& now.channels == before.channels
    &&& before.frame@.len() + 1 < before.channels ==> {
        &&& now.frame@ == before.frame@.push(sample)
        &&& now.heard@ == before.heard@
        &&& now.index == before.index
    }
    &&& before.frame@.len() + 1 == before.channels ==> {
        &&& now.frame@.len() == 0
        &&& now.heard@ == before.heard@.push(before.frame@.push(sample))
    }
    &&& now.index == before.index + over.len()
    &&& forall|k: int|
        0 <= k < over.len() ==> (#[trigger] over[k])@ == window(
            now.heard@,
            before.spans@,
            before.index + k,
        )
}

/// What is left of a file that has ended.
pub open spec fn is_left(c: Cutter, r: Option<(usize, Vec<i16>)>) -> bool {
    match r {
        Some((i, stretch)) => i == c.index && i < c.spans@.len() && stretch@.len()
            > 0 && stretch@ == window(c.heard@, c.spans@, i as int),
        None => c.index < c.spans@.len() ==> window(
            c.heard@,
            c.spans@,
            c.index as int,
        ).len() == 0,
    }
}

impl Cutter {
    /// Everything ahead of the open stretch is over, the open one is not, and what
    /// there is of it is at hand.
    pub open spec fn well_formed(&self) -> bool {
        &&& self.channels > 0
        &&& self.frame@.len() < self.channels
        &&& self.heard@.len() == self.frames
        &&& forall|i: int|
            0 <= i < self.heard@.len() ==> (#[trigger] self.heard@[i]).len() == self.channels
        &&& self.index <= self.spans@.len()
        &&& forall|i: int|
            0 <= i < self.index ==> (#[trigger] self.spans@[i]).closes < self.frames
        &&& self.index < self.spans@.len() ==> self.spans@[self.index as int].closes
            >= self.frames
        &&& self.index < self.spans@.len() ==> self.buffer@ == window(
            self.heard@,
            self.spans@,
            self.index as int,
        )
        &&& self.index == self.spans@.len() ==> self.buffer@.len() == 0
    }

    pub fn new(spans: Vec<Span>, channels: u16) -> (c: Cutter)
        requires
            channels > 0,
        ensures
            c.well_formed(),
            c.spans == spans,
            c.channels == channels,
            c.index == 0,
            c.frames == 0,
            c.frame@.len() == 0,
            c.heard@.len() == 0,
    {
        let c = Cutter {
            channels,
            spans,
            index: 0,
            frames: 0,
            frame: Vec::new(),
            buffer: Vec::new(),
            heard: Ghost(Seq::empty()),
        };
        proof {
            if spans@.len() > 0 {
                over_by_grows(spans@, 0, 0);
                assert(window(c.heard@, spans@, 0) =~= seq![]);
                assert(c.buffer@ =~= seq![]);
            }
        }
        c
    }

    /// Whether every stretch is over, so that nothing more need be heard.
    pub fn done(&self) -> (r: bool)
        ensures
            r == (self.index >= self.spans@.len()),
    {
        self.index >= self.spans.len()
    }

    /// Takes one sample, and hands out the stretches that it shows to be over, in
    /// order. There are none unless it completes a frame.
    pub fn push(&mut self, sample: i16) -> (over: Vec<Vec<i16>>)
        requires
            old(self).well_formed(),
            old(self).frames < u64::MAX,
        ensures
            final(self).well_formed(),
            cuts(*old(self), sample, *final(self), over@),
    {
        let mut over: Vec<Vec<i16>> = Vec::new();
        let ghost before = *self;
        let ghost spans = self.spans@;
        self.frame.push(sample);
        if self.frame.len() < self.channels as usize {
            return over;
        }
        let now: u64 = self.frames;
        let ghost heard = self.heard@;
        let ghost more = heard.push(self.frame@);
        assert(more.take(heard.len() as int) =~= heard);
        while self.index < self.spans.len() && self.spans[self.index].closes <= now
            invariant
                self.spans@ == spans,
                spans == before.spans@,
                self.spans == before.spans,
                self.channels == before.channels,
                self.frames == now,
                self.frame@ == before.frame@.push(sample),
                self.heard@ == heard,
                heard == before.heard@,
                heard.len() == now,
                more == heard.push(self.frame@),
                more.take(heard.len() as int) == heard,
                before.well_formed(),
                before.index <= self.index <= spans.len(),
                forall|i: int| 0 <= i < self.index ==> (#[trigger] spans[i]).closes <= now,
                self.index < spans.len() ==> spans[self.index as int].closes >= now
                    || self.buffer@.len() == 0,
                self.index == before.index ==> self.buffer@ == before.buffer@,
                self.index > before.index ==> self.buffer@.len() == 0 && over_by(
                    spans,
                    self.index as int,
                ) >= now,
                over@.len() == self.index - before.index,
                forall|k: int|
                    0 <= k < over@.len() ==> (#[trigger] over@[k])@ == window(
                        more,
                        spans,
                        before.index + k,
                    ),
            decreases spans.len() - self.index,
        {
            let ghost i = self.index as int;
            let mut stretch: Vec<i16> = Vec::new();
            std::mem::swap(&mut stretch, &mut self.buffer);
            proof {
                over_by_grows(spans, i, i + 1);
                if i == before.index {
                    // It was still open a frame ago, so it closes right here.
                    assert(spans[i].closes == now);
                    window_settled(heard, more, spans, i);
                } else {
                    // It opened only now, and there is nothing of it.
                    assert(window(more, spans, i) =~= seq![]);
                    assert(stretch@ =~= seq![]);
                }
            }
            over.push(stretch);
            self.index = self.index + 1;
        }
        let ghost i = self.index as int;
        if self.index < self.spans.len() {
            let belongs = now >= self.spans[self.index].opens;
            proof {
                over_by_bounded(spans, i, now as int);
                over_by_grows(spans, 0, i);
            }
            let ghost was = self.buffer@;
            if belongs {
                let mut k: usize = 0;
                assert(was + self.frame@.take(0) =~= was);
                while k < self.frame.len()
                    invariant
                        k <= self.frame@.len(),
                        self.buffer@ == was + self.frame@.take(k as int),
                        self.spans == before.spans,
                        self.channels == before.channels,
                        self.frames == now,
                        self.frame@ == before.frame@.push(sample),
                        self.heard@ == heard,
                        self.index == i,
                    decreases self.frame@.len() - k,
                {
                    assert((was + self.frame@.take(k as int)).push(self.frame@[k as int]) =~= was
                        + self.frame@.take(k + 1));
                    let s: i16 = self.frame[k];
                    self.buffer.push(s);
                    k = k + 1;
                }
                assert(self.frame@.take(self.frame@.len() as int) =~= self.frame@);
            }
            proof {
                let from = first_frame(spans, i);
                let len = heard.len() as int;
                if belongs {
                    assert(from <= now);
                    assert(more.subrange(from, len + 1).drop_last() =~= heard.subrange(from, len));
                    assert(more.subrange(from, len + 1).last() == self.frame@);
                    if from < now {
                        assert(was == joined(heard.subrange(from, len)));
                    } else {
                        assert(heard.subrange(from, len) =~= seq![]);
                        assert(was =~= seq![]);
                    }
                    assert(was == joined(heard.subrange(from, len)));
                    assert(self.buffer@ == was + self.frame@);
                    assert(joined(more.subrange(from, len + 1)) == was + self.frame@);
                    assert(window(more, spans, i) == joined(more.subrange(from, len + 1)));
                } else {
                    assert(from > now);
                    assert(was =~= seq![]);
                    assert(window(more, spans, i) =~= seq![]);
                }
            }
        }
        self.frames = self.frames + 1;
        let mut empty: Vec<i16> = Vec::new();
        std::mem::swap(&mut empty, &mut self.frame);
        self.heard = Ghost(more);
        over
    }

    /// What there is of the stretch that was open when the file ended, and which
    /// one it is. Nothing of it is as good as none.
    pub fn finish(self) -> (r: Option<(usize, Vec<i16>)>)
        requires
            self.well_formed(),
        ensures
            is_left(self, r),
    {
        if self.index < self.spans.len() && self.buffer.len() > 0 {
            Some((self.index, self.buffer))
        } else {
            None
        }
    }
}

/// Stretches that are all over by a frame are over by it together.
proof fn over_by_bounded(spans: Seq<Span>, i: int, now: int)
    requires
        0 <= i <= spans.len(),
        0 <= now,
        forall|j: int| 0 <= j < i ==> (#[trigger] spans[j]).closes <= now,
    ensures
        over_by(spans, i) <= now,
    decreases i,
{
    if i > 0 {
        over_by_bounded(spans, i - 1, now);
        assert(spans[i - 1].closes <= now);
    }
}

/// A stretch is made of whole frames.
pub proof fn whole_frames(heard: Seq<Seq<i16>>, channels: nat, spans: Seq<Span>, i: int)
    requires
        channels > 0,
        0 <= i < spans.len(),
        forall|k: int| 0 <= k < heard.len() ==> (#[trigger] heard[k]).len() == channels,
    ensures
        window(heard, spans, i).len() % channels == 0,
{
    let from = first_frame(spans, i);
    let to = if spans[i].closes < heard.len() {
        spans[i].closes as int
    } else {
        heard.len() as int
    };
    over_by_grows(spans, 0, i);
    if from < to {
        let frames = heard.subrange(from, to);
        assert forall|k: int| 0 <= k < frames.len() implies (#[trigger] frames[k]).len()
            == channels by {
            assert(frames[k] == heard[from + k]);
        }
        joined_length(frames, channels);
        assert((frames.len() * channels) % channels == 0) by (nonlinear_arith)
            requires
                channels > 0,
        ;
    } else {
        assert(0nat % channels == 0) by (nonlinear_arith)
            requires
                channels > 0,
        ;
    }
}

/// There is nothing yet of the stretches behind the open one, so what was handed
/// out and what is left at the end are all there is of any of them.
pub proof fn nothing_lies_ahead(c: Cutter, i: int)
    requires
        c.well_formed(),
        c.index < i < c.spans@.len(),
    ensures
        window(c.heard@, c.spans@, i).len() == 0,
{
    let spans = c.spans@;
    over_by_grows(spans, c.index + 1, i);
    assert(over_by(spans, c.index + 1) >= c.frames);
}

/// The samples of frames come one frame after the other.
pub proof fn frames_are_joined_in_order(a: Seq<Seq<i16>>, b: Seq<Seq<i16>>, frame: Seq<i16>)
    ensures
        joined(Seq::<Seq<i16>>::empty()) == Seq::<i16>::empty(),
        joined(seq![frame]) == frame,
        joined(a + b) == joined(a) + joined(b),
    decreases b.len(),
{
    assert(seq![frame].drop_last() =~= seq![]);
    assert(joined(seq![frame].drop_last()) == Seq::<i16>::empty());
    assert(joined(seq![frame]) =~= frame);
    if b.len() == 0 {
        assert(a + b =~= a);
        assert(joined(a) + joined(b) =~= joined(a));
    } else {
        frames_are_joined_in_order(a, b.drop_last(), frame);
        assert((a + b).drop_last() =~= a + b.drop_last());
        assert(joined(a + b) =~= joined(a) + joined(b));
    }
}

/// A stretch is exactly the frames from where it opens up to where it closes, without any
/// that a stretch ahead of it may still have had and without what was not heard. `from` is
/// where it opens, or where the last of those ahead closes if that is later.
pub proof fn a_stretch_is_its_frames(
    heard: Seq<Seq<i16>>,
    spans: Seq<Span>,
    i: int,
    from: int,
    to: int,
)
    requires
        0 <= i < spans.len(),
        from >= spans[i].opens,
        forall|j: int| 0 <= j < i ==> from >= (#[trigger] spans[j]).closes,
        from == spans[i].opens || exists|j: int| 0 <= j < i && from == (#[trigger] spans[j]).closes,
        to <= spans[i].closes,
        to <= heard.len(),
        to == spans[i].closes || to == heard.len(),
    ensures
        from < to ==> window(heard, spans, i) == joined(heard.subrange(from, to)),
        from >= to ==> window(heard, spans, i).len() == 0,
{
    over_by_bounded(spans, i, from);
    over_by_grows(spans, 0, i);
    over_by_reaches(spans, i);
    if from != spans[i].opens {
        let j = choose|j: int| 0 <= j < i && from == (#[trigger] spans[j]).closes;
        over_by_reaches_each(spans, i, j);
    }
}

/// Stretches that are all over by a frame include one that closes there, unless it is the
/// first.
proof fn over_by_reaches(spans: Seq<Span>, i: int)
    requires
        0 <= i <= spans.len(),
    ensures
        over_by(spans, i) == 0 || exists|j: int|
            0 <= j < i && over_by(spans, i) == (#[trigger] spans[j]).closes,
    decreases i,
{
    if i > 0 {
        over_by_reaches(spans, i - 1);
        assert(spans[i - 1].closes == spans[i - 1].closes);
    }
}

proof fn over_by_reaches_each(spans: Seq<Span>, i: int, j: int)
    requires
        0 <= j < i <= spans.len(),
    ensures
        over_by(spans, i) >= spans[j].closes,
    decreases i,
{
    if j < i - 1 {
        over_by_reaches_each(spans, i - 1, j);
    }
}

/// Every sample counts once, in order: what was heard whole and what there is of the next
/// frame together grow by each sample and nothing else.
pub proof fn every_sample_counts_once(
    before: Cutter,
    sample: i16,
    now: Cutter,
    over: Seq<Vec<i16>>,
)
    requires
        before.frame@.len() < before.channels,
        cuts(before, sample, now, over),
    ensures
        joined(now.heard@) + now.frame@ == (joined(before.heard@) + before.frame@).push(sample),
        now.frame@.len() < before.channels,
        now.channels == before.channels && now.spans == before.spans,
{
    let frame = before.frame@.push(sample);
    if frame.len() < before.channels {
        assert(joined(now.heard@) + now.frame@ =~= (joined(before.heard@) + before.frame@).push(
            sample,
        ));
    } else {
        let heard = before.heard@.push(frame);
        assert(heard.drop_last() =~= before.heard@);
        assert(joined(heard) == joined(before.heard@) + frame);
        assert(joined(now.heard@) + now.frame@ =~= (joined(before.heard@) + before.frame@).push(
            sample,
        ));
    }
}

/// Stretches are handed out in order, each once and whole: those that are over with a
/// sample follow on those handed out before, and what is left at the end is the one after
/// them, as far as it was heard.
pub proof fn stretches_are_handed_out_in_order(
    before: Cutter,
    sample: i16,
    now: Cutter,
    over: Seq<Vec<i16>>,
    k: int,
    left: Option<(usize, Vec<i16>)>,
)
    requires
        cuts(before, sample, now, over),
        is_left(now, left),
    ensures
        now.index - before.index == over.len(),
        0 <= k < over.len() ==> over[k]@ == window(now.heard@, before.spans@, before.index + k),
        left matches Some((i, stretch)) ==> i == before.index + over.len() && i
            < before.spans@.len() && stretch@ == window(now.heard@, before.spans@, i as int)
            && stretch@.len() > 0,
        left is None && now.index < now.spans@.len() ==> window(
            now.heard@,
            now.spans@,
            now.index as int,
        ).len() == 0,
{
}

} // verus!
