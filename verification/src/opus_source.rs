//! Playing Ogg Opus: reading the stream's header, and which of the decoded samples
//! are heard.

use crate::lists;
use crate::lists::starts_with_bytes;
use vstd::prelude::*;

verus! {

/// Opus always decodes to this many samples a second, whatever went in.
pub const RATE: u32 = 48_000;

/// The longest frame there is, in samples per channel.
pub const MAX_FRAME: usize = 5760;

/// The header of a stream.
#[derive(Clone, Copy, PartialEq, Eq, Structural, Debug)]
pub struct Head {
    /// One or two.
    pub channels: u16,
    /// The encoder's delay, in samples per channel, to drop from the start.
    pub pre_skip: u64,
}

/// Why a stream cannot be played.
#[derive(Clone, Copy, PartialEq, Eq, Structural, Debug)]
pub enum HeadError {
    NotOpus,
    /// More channels than can be played, or none.
    Channels(u16),
}

/// `OpusHead`, which every header starts with.
pub open spec fn magic() -> Seq<u8> {
    seq![0x4fu8, 0x70, 0x75, 0x73, 0x48, 0x65, 0x61, 0x64]
}

/// What a stream's first packet says.
pub open spec fn head_of(data: Seq<u8>) -> Result<Head, HeadError> {
    if !lists::starts(data, magic()) || data.len() < 19 {
        Err(HeadError::NotOpus)
    } else if data[9] != 1 && data[9] != 2 {
        Err(HeadError::Channels(data[9] as u16))
    } else {
        Ok(Head { channels: data[9] as u16, pre_skip: (data[10] + data[11] * 256) as u64 })
    }
}

/// Reads a stream's first packet. That it is no Opus stream is how a caller knows to
/// try another decoder.
pub fn read_head(data: &[u8]) -> (r: Result<Head, HeadError>)
    ensures
        r == head_of(data@),
{
    let word: [u8; 8] = [0x4f, 0x70, 0x75, 0x73, 0x48, 0x65, 0x61, 0x64];
    assert(word@ =~= magic());
    if !starts_with_bytes(data, word.as_slice()) || data.len() < 19 {
        return Err(HeadError::NotOpus);
    }
    let channels: u16 = data[9] as u16;
    if channels != 1 && channels != 2 {
        return Err(HeadError::Channels(channels));
    }
    let pre_skip: u64 = data[10] as u64 + data[11] as u64 * 256;
    Ok(Head { channels, pre_skip })
}

/// How far along a stream is: which of the samples decoded last are still to be
/// heard, and how many are to be dropped before any is.
#[derive(Clone, Copy, PartialEq, Eq, Structural, Debug)]
pub struct Playout {
    pub channels: u16,
    /// How many samples were decoded last, over all channels.
    pub len: usize,
    /// How many of them were heard or dropped.
    pub cursor: usize,
    /// How many samples per channel are still to be dropped.
    pub skip_remaining: u64,
    pub ended: bool,
}

/// What to do for the next sample.
#[derive(Clone, Copy, PartialEq, Eq, Structural, Debug)]
pub enum Next {
    /// It is at hand, at this place.
    At(usize),
    /// Another packet has to be decoded first.
    Decode,
    /// There is none.
    End,
}

/// What asking for the next sample does to a playout.
pub open spec fn plays_on(before: Playout, now: Playout, r: Next) -> bool {
    &&& before.cursor < before.len ==> r == Next::At(before.cursor) && now
        == (Playout { cursor: (before.cursor + 1) as usize, ..before })
    &&& before.cursor >= before.len ==> now == before && r == (if before.ended {
        Next::End
    } else {
        Next::Decode
    })
}

/// What a packet that was decoded does to a playout.
pub open spec fn takes_packet(before: Playout, frames: usize, now: Playout) -> bool {
    &&& now.channels == before.channels
    &&& now.ended == before.ended
    &&& now.len == frames * before.channels
    &&& before.skip_remaining <= frames ==> {
        &&& now.cursor == before.skip_remaining * before.channels
        &&& now.skip_remaining == 0
    }
    &&& before.skip_remaining > frames ==> {
        &&& now.cursor == now.len
        &&& now.skip_remaining == before.skip_remaining - frames
    }
}

/// What moving elsewhere in the stream does to a playout.
pub open spec fn starts_elsewhere(before: Playout, now: Playout) -> bool {
    now == (Playout {
        len: 0,
        cursor: 0,
        skip_remaining: 0,
        ended: false,
        ..before
    })
}

impl Playout {
    pub open spec fn well_formed(self) -> bool {
        &&& 1 <= self.channels <= 2
        &&& self.cursor <= self.len
        &&& self.skip_remaining <= 0xffff
    }

    /// At the very start of a stream.
    pub fn new(head: Head) -> (p: Playout)
        requires
            1 <= head.channels <= 2,
            head.pre_skip <= 0xffff,
        ensures
            p.well_formed(),
            p == (Playout {
                channels: head.channels,
                len: 0,
                cursor: 0,
                skip_remaining: head.pre_skip,
                ended: false,
            }),
    {
        Playout {
            channels: head.channels,
            len: 0,
            cursor: 0,
            skip_remaining: head.pre_skip,
            ended: false,
        }
    }

    /// The next sample, or what has to happen before there is one.
    pub fn next(&mut self) -> (r: Next)
        requires
            old(self).well_formed(),
        ensures
            final(self).well_formed(),
            plays_on(*old(self), *final(self), r),
    {
        if self.cursor < self.len {
            let at: usize = self.cursor;
            self.cursor = self.cursor + 1;
            return Next::At(at);
        }
        if self.ended {
            Next::End
        } else {
            Next::Decode
        }
    }

    /// A packet was decoded to so many samples per channel. What is still to be
    /// dropped is dropped from its front, and more of it from the packets that
    /// follow.
    pub fn decoded(&mut self, frames: usize)
        requires
            old(self).well_formed(),
            frames <= MAX_FRAME,
        ensures
            final(self).well_formed(),
            takes_packet(*old(self), frames, *final(self)),
    {
        let channels: usize = self.channels as usize;
        let skip_remaining: usize = self.skip_remaining as usize;
        assert(frames * channels <= 2 * MAX_FRAME && skip_remaining * channels <= 0x1fffe)
            by (nonlinear_arith)
            requires
                1 <= channels <= 2,
                frames <= MAX_FRAME,
                MAX_FRAME == 5760,
                skip_remaining <= 0xffff,
        ;
        self.len = frames * channels;
        self.cursor = 0;
        if self.skip_remaining > 0 {
            let wanted: usize = skip_remaining * channels;
            let skip: usize = if wanted < self.len {
                wanted
            } else {
                self.len
            };
            proof {
                if skip_remaining <= frames {
                    assert(skip == skip_remaining * channels && skip / channels
                        == skip_remaining) by (nonlinear_arith)
                        requires
                            1 <= channels <= 2,
                            skip_remaining <= frames,
                            wanted == skip_remaining * channels,
                            skip == (if wanted < frames * channels {
                                wanted as int
                            } else {
                                frames * channels
                            }),
                    ;
                } else {
                    assert(skip == frames * channels && skip / channels == frames)
                        by (nonlinear_arith)
                        requires
                            1 <= channels <= 2,
                            skip_remaining > frames,
                            wanted == skip_remaining * channels,
                            skip == (if wanted < frames * channels {
                                wanted as int
                            } else {
                                frames * channels
                            }),
                    ;
                }
            }
            self.cursor = skip;
            self.skip_remaining = self.skip_remaining - (skip / channels) as u64;
        } else {
            assert(0 * channels == 0) by (nonlinear_arith);
        }
    }

    /// The stream has no more packets, or none that can be read.
    pub fn end(&mut self)
        requires
            old(self).well_formed(),
        ensures
            *final(self) == (Playout { ended: true, ..*old(self) }),
            final(self).well_formed(),
    {
        self.ended = true;
    }

    /// The stream was moved elsewhere: what was decoded is void, and the delay was
    /// dropped long ago.
    pub fn moved(&mut self)
        requires
            old(self).well_formed(),
        ensures
            final(self).well_formed(),
            starts_elsewhere(*old(self), *final(self)),
    {
        self.len = 0;
        self.cursor = 0;
        self.skip_remaining = 0;
        self.ended = false;
    }

    /// How many decoded samples are still to be heard.
    pub fn left(&self) -> (n: usize)
        requires
            self.well_formed(),
        ensures
            n == self.len - self.cursor,
    {
        self.len - self.cursor
    }
}

/// A header that can be played has one or two channels, and a delay that a packet's
/// count of samples can express.
pub proof fn a_good_head_starts_a_playout(data: Seq<u8>)
    ensures
        head_of(data) matches Ok(head) ==> 1 <= head.channels <= 2 && head.pre_skip <= 0xffff,
{
}

/// A stream's first packet is a header exactly when it begins with the word and is long
/// enough. The tenth byte then is the number of channels, of which one and two can be
/// played, and the two after it are the delay, the lower first.
pub proof fn a_header_is_read_like_this(data: Seq<u8>)
    ensures
        data.len() < 19 ==> head_of(data) == Err::<Head, HeadError>(HeadError::NotOpus),
        data.len() >= 19 && data.take(8) != seq![0x4fu8, 0x70, 0x75, 0x73, 0x48, 0x65, 0x61, 0x64]
            ==> head_of(data) == Err::<Head, HeadError>(HeadError::NotOpus),
        data.len() >= 19 && data.take(8) == seq![0x4fu8, 0x70, 0x75, 0x73, 0x48, 0x65, 0x61, 0x64]
            ==> {
            &&& data[9] == 1 || data[9] == 2 ==> {
                &&& head_of(data) is Ok
                &&& head_of(data)->Ok_0.channels == data[9]
                &&& head_of(data)->Ok_0.pre_skip == data[10] + 256 * data[11]
            }
            &&& data[9] != 1 && data[9] != 2 ==> head_of(data) == Err::<Head, HeadError>(
                HeadError::Channels(data[9] as u16),
            )
        },
{
}

/// Of every packet exactly what is left of the delay is dropped, in whole samples of all
/// channels, and no more than it holds; the rest of the delay is left for the packets that
/// follow. Everything after that is still to be heard.
pub proof fn the_delay_is_dropped_once(before: Playout, frames: usize, now: Playout)
    requires
        before.well_formed(),
        frames <= 5760,
        takes_packet(before, frames, now),
    ensures
        now.cursor == before.channels * (before.skip_remaining - now.skip_remaining),
        before.skip_remaining - now.skip_remaining == (if before.skip_remaining <= frames {
            before.skip_remaining as int
        } else {
            frames as int
        }),
        now.len == before.channels * frames,
        now.len - now.cursor == before.channels * (frames - (before.skip_remaining
            - now.skip_remaining)),
        now.channels == before.channels,
        now.ended == before.ended,
{
    let (c, f, s, t) = (
        before.channels as int,
        frames as int,
        before.skip_remaining as int,
        now.skip_remaining as int,
    );
    assert(c * f == f * c && c * s == s * c && c * (s - t) == c * s - c * t && c * (f - (s - t))
        == c * f - c * (s - t)) by (nonlinear_arith);
    if s <= f {
        assert(c * t == 0) by (nonlinear_arith)
            requires
                t == 0,
        ;
    } else {
        assert(c * t == c * s - c * f) by (nonlinear_arith)
            requires
                t == s - f,
        ;
    }
}

/// The samples of a packet are handed out one after the other, each once; then another
/// packet is wanted, unless the stream has ended.
pub proof fn samples_come_one_after_the_other(
    before: Playout,
    now: Playout,
    r: Next,
    after: Playout,
    second: Next,
)
    requires
        before.well_formed(),
        plays_on(before, now, r),
        plays_on(now, after, second),
    ensures
        before.cursor < before.len ==> r == Next::At(before.cursor),
        before.cursor + 1 < before.len ==> second is At && second->At_0 == before.cursor + 1,
        before.cursor == before.len ==> now == before && r == (if before.ended {
            Next::End
        } else {
            Next::Decode
        }),
        before.cursor < before.len ==> now.len - now.cursor + 1 == before.len - before.cursor,
        now.len == before.len && now.skip_remaining == before.skip_remaining && now.channels
            == before.channels && now.ended == before.ended,
{
}

/// A stream that was moved plays on from there with the next packet, even where it had
/// ended, and drops nothing of it.
pub proof fn a_moved_stream_drops_nothing(
    before: Playout,
    now: Playout,
    frames: usize,
    after: Playout,
    again: Playout,
    r: Next,
)
    requires
        starts_elsewhere(before, now),
        plays_on(now, again, r),
        frames <= 5760,
        takes_packet(now, frames, after),
    ensures
        r == Next::Decode,
        after.cursor == 0,
        after.len == before.channels * frames,
{
    assert(0 * now.channels == 0 && now.channels * frames == frames * now.channels)
        by (nonlinear_arith);
}

} // verus!
