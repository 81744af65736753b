//! The transport: whether a track is loaded, whether it is meant to be heard, and
//! how loud.

use crate::single::{Single, ONE};
use crate::time::Duration;
use vstd::prelude::*;

verus! {

/// What the player knows about its output, apart from the device itself.
#[derive(Clone, Copy, PartialEq, Eq, Structural, Debug)]
pub struct Audio {
    /// The volume the listener chose, from nought to one.
    pub volume: Single,
    /// A gain that is ramped to ease playback in and out. The device runs at the
    /// two multiplied, so a fade never disturbs the volume.
    pub fade: Single,
    /// Whether the track is meant to be heard. Kept apart from the device, so that
    /// a pause shows the instant its fade begins, while sound still flows.
    pub playing: bool,
    /// A track has been loaded. Before that an empty device has not "finished".
    pub loaded: bool,
}

impl Audio {
    pub fn new(volume: Single) -> (t: Audio)
        ensures
            t == (Audio {
                volume,
                fade: Single { bits: ONE },
                playing: false,
                loaded: false,
            }),
    {
        Audio { volume, fade: Single { bits: ONE }, playing: false, loaded: false }
    }

    /// A track was loaded. It comes up at full gain, whatever fade the one before
    /// was left at, and with `audible` false it comes up silent.
    pub fn play_file(&mut self, audible: bool)
        ensures
            *final(self) == (Audio {
                volume: old(self).volume,
                fade: Single { bits: ONE },
                playing: audible,
                loaded: true,
            }),
    {
        self.fade = Single { bits: ONE };
        self.loaded = true;
        self.playing = audible;
    }

    /// Lets the sound flow.
    pub fn resume(&mut self)
        ensures
            *final(self) == (Audio { playing: true, ..*old(self) }),
    {
        self.playing = true;
    }

    /// Shows as paused while the sound still runs, so that the fade can be heard.
    pub fn begin_pause(&mut self)
        ensures
            *final(self) == (Audio { playing: false, ..*old(self) }),
    {
        self.playing = false;
    }

    pub fn stop(&mut self)
        ensures
            *final(self) == (Audio { playing: false, loaded: false, ..*old(self) }),
    {
        self.playing = false;
        self.loaded = false;
    }

    /// Whether something is heard, given whether the device has run out of sound.
    pub open spec fn heard(&self, empty: bool) -> bool {
        self.loaded && self.playing && !empty
    }

    /// Whether something is heard, given whether the device has run out of sound.
    pub fn is_playing(&self, empty: bool) -> (r: bool)
        ensures
            r == self.heard(empty),
    {
        self.loaded && self.playing && !empty
    }

    /// Whether the track is over, given whether the device has run out of sound.
    pub open spec fn over(&self, empty: bool) -> bool {
        self.loaded && empty
    }

    /// Whether the track has played to its end.
    pub fn finished(&self, empty: bool) -> (r: bool)
        ensures
            r == self.over(empty),
    {
        self.loaded && empty
    }

    /// Where in the track the sound is, given what the device reports.
    pub open spec fn heard_at(&self, reported: Duration) -> Duration {
        if self.loaded {
            reported
        } else {
            Duration { nanos: 0 }
        }
    }

    /// Where in the track it is, given what the device says: nowhere unless one is
    /// loaded.
    pub fn position(&self, reported: Duration) -> (d: Duration)
        ensures
            d == self.heard_at(reported),
    {
        if self.loaded {
            reported
        } else {
            Duration::zero()
        }
    }

    /// Whether there is anything to seek in.
    pub fn can_seek(&self) -> (r: bool)
        ensures
            r == self.loaded,
    {
        self.loaded
    }

    pub fn set_volume(&mut self, volume: Single)
        ensures
            *final(self) == (Audio { volume: volume.clamped(), ..*old(self) }),
    {
        self.volume = volume.clamp_unit();
    }

    /// With the sound eased to a part of the volume.
    pub open spec fn faded(self, fade: Single) -> Audio {
        Audio { fade: fade.clamped(), ..self }
    }

    pub fn set_fade(&mut self, fade: Single)
        ensures
            *final(self) == old(self).faded(fade),
    {
        self.fade = fade.clamp_unit();
    }
}

/// Whether a track's rate is another than the device's.
pub open spec fn differs(track_rate: u32, device_rate: u32) -> bool {
    track_rate != device_rate
}

/// Whether the device has to be opened anew for a track: at the track's own rate,
/// so that its samples reach the output untouched.
pub fn needs_reopening(track_rate: u32, device_rate: u32) -> (r: bool)
    ensures
        r == differs(track_rate, device_rate),
{
    track_rate != device_rate
}

/// A track is heard or over but never both, and without one neither. What the device
/// reports counts only while a track is loaded.
pub proof fn a_track_is_heard_until_it_is_over(t: Audio, reported: Duration)
    ensures
        !(t.heard(true) && t.over(true)) && !(t.heard(false) && t.over(false)),
        t.loaded ==> t.over(true) && !t.over(false) && t.heard(false) == t.playing && t.heard_at(
            reported,
        ) == reported,
        !t.loaded ==> !t.heard(false) && !t.over(true) && t.heard_at(reported).nanos == 0,
        !t.heard(true),
{
}

/// Easing changes the part of the volume that is heard, between none and all of it, and
/// never the volume itself.
pub proof fn easing_leaves_the_volume(t: Audio, fade: Single)
    requires
        fade.is_number(),
    ensures
        t.faded(fade).volume == t.volume,
        t.faded(fade).playing == t.playing && t.faded(fade).loaded == t.loaded,
        0 <= fade.rank() <= 0x3f80_0000 ==> t.faded(fade).fade.equal(fade),
        fade.rank() < 0 ==> t.faded(fade).fade.rank() == 0,
        fade.rank() > 0x3f80_0000 ==> t.faded(fade).fade.bits == 0x3f80_0000,
{
}

/// The device is opened anew for every rate but its own.
pub proof fn only_another_rate_reopens(rate: u32, other: u32)
    ensures
        !differs(rate, rate),
        rate != other ==> differs(rate, other),
{
}

} // verus!
