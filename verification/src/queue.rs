//! The queue: the tracks, which of them is loaded, and the order they play in.

use crate::lists;
use crate::path;
use crate::path::{parts_start, same_parts, FilePath};
use crate::track;
use crate::track::{Track, TrackModel};
use vstd::prelude::*;

verus! {

/// What happens when the queue runs out.
#[derive(Clone, Copy, PartialEq, Eq, Structural, Debug)]
pub enum Repeat {
    Off,
    All,
    One,
}

impl Default for Repeat {
    fn default() -> (r: Repeat)
        ensures
            r == Repeat::Off,
    {
        Repeat::Off
    }
}

impl Repeat {
    /// The mode after this one, round and round.
    pub fn cycle(self) -> (r: Repeat)
        ensures
            r == self.after(),
    {
        match self {
            Repeat::Off => Repeat::All,
            Repeat::All => Repeat::One,
            Repeat::One => Repeat::Off,
        }
    }

    pub open spec fn after(self) -> Repeat {
        match self {
            Repeat::Off => Repeat::All,
            Repeat::All => Repeat::One,
            Repeat::One => Repeat::Off,
        }
    }
}

/// Cycling three times comes back to where it started, and not before.
pub proof fn cycling_comes_round(r: Repeat)
    ensures
        r.after().after().after() == r,
        r.after() != r,
        r.after().after() != r,
{
}

pub struct Queue {
    pub tracks: Vec<Track>,
    /// Which of the tracks is loaded in the player.
    pub current: Option<usize>,
    pub shuffle: bool,
    pub repeat: Repeat,
    /// The order the tracks play in, each of them once.
    pub order: Vec<usize>,
}

/// `s` with two of its entries exchanged.
pub open spec fn exchanged(s: Seq<usize>, i: int, j: int) -> Seq<usize> {
    s.update(i, s[j]).update(j, s[i])
}

/// Whether `order` goes through the first `n` numbers, each of them once.
pub open spec fn permutes(order: Seq<usize>, n: nat) -> bool {
    &&& order.len() == n
    &&& forall|i: int| 0 <= i < n ==> #[trigger] order[i] < n
    &&& forall|i: int, j: int| 0 <= i < j < n ==> #[trigger] order[i] != #[trigger] order[j]
    &&& forall|x: usize| x < n ==> #[trigger] order.contains(x)
}

/// The numbers below `n`, in order.
pub open spec fn straight(n: nat) -> Seq<usize> {
    Seq::new(n, |i: int| i as usize)
}

/// One step of the generator behind the shuffle.
pub open spec fn random(state: u64) -> u64 {
    let a = state ^ (state << 13);
    let b = a ^ (a >> 7);
    b ^ (b << 17)
}

/// What shuffling makes of a list: from the back, the entry at `n` and each one
/// before it changes places with one that the generator picks from those up to
/// it.
pub open spec fn shuffled(s: Seq<usize>, n: int, state: u64) -> Seq<usize>
    decreases n,
{
    if n < 1 {
        s
    } else {
        let now = random(state);
        shuffled(exchanged(s, n, now as int % (n + 1)), n - 1, now)
    }
}

/// What the generator starts from when there is no telling the time.
pub const FALLBACK_SEED: u64 = 0x2545_f491_4f6c_dd1d;

/// What the generator starts from at a time: an odd number, since nought would
/// never leave itself.
pub open spec fn seed_at(nanos: Option<u128>) -> u64 {
    match nanos {
        Some(nanos) => (nanos as u64) | 1,
        None => FALLBACK_SEED | 1,
    }
}

/// The order that `n` tracks play in. When shuffling, the current one comes
/// first, so that going on from it does not jump backwards.
pub open spec fn order_for(
    n: nat,
    shuffle: bool,
    current: Option<usize>,
    nanos: Option<u128>,
) -> Seq<usize> {
    if !shuffle {
        straight(n)
    } else {
        let s = shuffled(straight(n), n - 1, seed_at(nanos));
        match current {
            Some(c) if lists::find(s, c) < n => exchanged(s, 0, lists::find(s, c)),
            _ => s,
        }
    }
}

/// The first track that lies at a place, or the number of tracks when none does.
pub open spec fn place_of(tracks: Seq<TrackModel>, path: Seq<u8>) -> int
    decreases tracks.len(),
{
    if tracks.len() == 0 || path::same_place(tracks[0].path, path) {
        0
    } else {
        1 + place_of(tracks.drop_first(), path)
    }
}

/// Whether a track lies at the place that is playing.
pub open spec fn is_playing(t: TrackModel, playing: Option<Seq<u8>>) -> bool {
    match playing {
        Some(path) => path::same_place(t.path, path),
        None => false,
    }
}

/// Whether a scan leaves a track in the queue: it was found, or it lies under no
/// root that was scanned.
pub open spec fn scan_keeps(t: TrackModel, roots: Seq<Seq<u8>>, found: Seq<Seq<u8>>) -> bool {
    path::among(t.path, found) || !path::under_any(t.path, roots)
}

proof fn straight_permutes(n: nat)
    requires
        n <= usize::MAX,
    ensures
        permutes(straight(n), n),
{
    assert forall|x: usize| x < n implies #[trigger] straight(n).contains(x) by {
        assert(straight(n)[x as int] == x);
    }
}

proof fn exchange_permutes(s: Seq<usize>, n: nat, i: int, j: int)
    requires
        permutes(s, n),
        0 <= i < n,
        0 <= j < n,
    ensures
        permutes(exchanged(s, i, j), n),
{
    let t = exchanged(s, i, j);
    assert forall|x: usize| x < n implies #[trigger] t.contains(x) by {
        assert(s.contains(x));
        let k = choose|k: int| 0 <= k < s.len() && s[k] == x;
        if k == i {
            assert(t[j] == x);
        } else if k == j {
            assert(t[i] == x);
        } else {
            assert(t[k] == x);
        }
    }
}

/// Shuffling changes the order and nothing else: every number is still there, and
/// still once.
pub proof fn shuffling_permutes(s: Seq<usize>, len: nat, n: int, state: u64)
    requires
        permutes(s, len),
        n < len,
    ensures
        permutes(shuffled(s, n, state), len),
    decreases n,
{
    if n >= 1 {
        let now = random(state);
        exchange_permutes(s, len, n, now as int % (n + 1));
        shuffling_permutes(exchanged(s, n, now as int % (n + 1)), len, n - 1, now);
    }
}

/// Whatever the time, the order goes through every track once; unshuffled it is
/// the order they stand in, and shuffled it begins with the current track.
pub proof fn order_for_permutes(
    n: nat,
    shuffle: bool,
    current: Option<usize>,
    nanos: Option<u128>,
)
    requires
        n <= usize::MAX,
    ensures
        permutes(order_for(n, shuffle, current, nanos), n),
        !shuffle ==> order_for(n, shuffle, current, nanos) == straight(n),
        shuffle && (current matches Some(c) && c < n) ==> order_for(
            n,
            shuffle,
            current,
            nanos,
        )[0] == current->0,
{
    straight_permutes(n);
    if shuffle {
        shuffling_permutes(straight(n), n, n - 1, seed_at(nanos));
        let s = shuffled(straight(n), n - 1, seed_at(nanos));
        if let Some(c) = current {
            let p = lists::find(s, c);
            lists::find_first(s, c);
            if p < n {
                exchange_permutes(s, n, 0, p);
            }
            if c < n {
                assert(s.contains(c));
                assert(p < n);
            }
        }
    }
}

/// `SystemTime::elapsed` since the start of 1970, in nanoseconds: whatever the
/// clock shows, and nothing when it shows a time before that.
#[verifier::external_body]
fn clock() -> (nanos: Option<u128>) {
    std::time::UNIX_EPOCH.elapsed().ok().map(|d| d.as_nanos())
}

/// Shuffles a list with a generator started from `seed`. A music player does not
/// need a statistically serious source of chance.
pub fn shuffle(items: &mut Vec<usize>, seed: u64)
    ensures
        final(items)@ == shuffled(old(items)@, old(items)@.len() - 1, seed),
{
    if items.len() == 0 {
        return;
    }
    let mut state: u64 = seed;
    let mut i: usize = items.len() - 1;
    let ghost all = items@;
    while i >= 1
        invariant
            items@.len() == all.len(),
            i < items@.len(),
            shuffled(items@, i as int, state) == shuffled(all, all.len() - 1, seed),
        decreases i,
    {
        let ghost before = items@;
        let ghost old_state = state;
        state = state ^ (state << 13);
        state = state ^ (state >> 7);
        state = state ^ (state << 17);
        assert(state == random(old_state));
        let len: usize = items.len();
        assert(i < len);
        let j: usize = (state % (i as u64 + 1)) as usize;
        let a: usize = items[i];
        let b: usize = items[j];
        items.set(i, b);
        items.set(j, a);
        assert(items@ =~= exchanged(before, i as int, j as int));
        i = i - 1;
    }
}

/// Finds a number in a list.
fn find_index(s: &Vec<usize>, x: usize) -> (i: usize)
    ensures
        i == lists::find(s@, x),
        i <= s@.len(),
{
    let mut i: usize = 0;
    while i < s.len() && s[i] != x
        invariant
            i <= s@.len(),
            forall|j: int| 0 <= j < i ==> s@[j] != x,
        decreases s@.len() - i,
    {
        i = i + 1;
    }
    proof {
        lists::find_is(s@, x, i as int);
    }
    i
}

impl Default for Queue {
    fn default() -> (q: Queue)
        ensures
            q.well_formed(),
            q.tracks@ == Seq::<Track>::empty(),
            q.current is None,
            !q.shuffle,
            q.repeat == Repeat::Off,
    {
        let q = Queue {
            tracks: Vec::new(),
            current: None,
            shuffle: false,
            repeat: Repeat::Off,
            order: Vec::new(),
        };
        q
    }
}

impl Queue {
    /// The order the tracks play in.
    pub open spec fn playing_order(&self) -> Seq<usize> {
        self.order@
    }

    /// The order goes through every track once.
    pub open spec fn well_formed(&self) -> bool {
        permutes(self.playing_order(), self.tracks@.len())
    }

    /// What the tracks are.
    pub open spec fn models(&self) -> Seq<TrackModel> {
        track::track_views(self.tracks@)
    }

    /// The track that is loaded.
    pub open spec fn loaded(&self) -> Option<TrackModel> {
        match self.current {
            Some(i) if i < self.tracks@.len() => Some(self.tracks@[i as int]@),
            _ => None,
        }
    }

    /// Where the track that is loaded lies.
    pub open spec fn playing(&self) -> Option<Seq<u8>> {
        match self.loaded() {
            Some(t) => Some(t.path),
            None => None,
        }
    }

    /// The order is the one that some time of day makes.
    pub open spec fn freshly_ordered(&self) -> bool {
        exists|nanos: Option<u128>|
            self.playing_order() == #[trigger] order_for(
                self.tracks@.len(),
                self.shuffle,
                self.current,
                nanos,
            )
    }

    pub fn is_empty(&self) -> (b: bool)
        ensures
            b == (self.tracks@.len() == 0),
    {
        self.tracks.len() == 0
    }

    pub fn current_track(&self) -> (r: Option<&Track>)
        ensures
            self.loaded() == (match r {
                Some(t) => Some(t@),
                None => None::<TrackModel>,
            }),
            r is Some <==> (self.current matches Some(i) && i < self.tracks@.len()),
            r matches Some(t) ==> *t == self.tracks@[self.current->0 as int],
    {
        match self.current {
            Some(i) => {
                if i < self.tracks.len() {
                    Some(&self.tracks[i])
                } else {
                    None
                }
            },
            None => None,
        }
    }

    /// Rebuilds the order as of a time, `None` when there is no telling it.
    pub fn reorder_at(&mut self, nanos: Option<u128>)
        ensures
            final(self).tracks == old(self).tracks,
            final(self).current == old(self).current,
            final(self).shuffle == old(self).shuffle,
            final(self).repeat == old(self).repeat,
            final(self).well_formed(),
            final(self).playing_order() == order_for(
                old(self).tracks@.len(),
                old(self).shuffle,
                old(self).current,
                nanos,
            ),
    {
        let n: usize = self.tracks.len();
        let mut order: Vec<usize> = Vec::new();
        let mut i: usize = 0;
        while i < n
            invariant
                i <= n,
                order@ == straight(i as nat),
            decreases n - i,
        {
            order.push(i);
            i = i + 1;
            assert(order@ =~= straight(i as nat));
        }
        if self.shuffle {
            #[verifier::truncate]
            let seed: u64 = match nanos {
                Some(nanos) => (nanos as u64) | 1,
                None => FALLBACK_SEED | 1,
            };
            let ghost base = order@;
            shuffle(&mut order, seed);
            let ghost s = order@;
            proof {
                straight_permutes(n as nat);
                shuffling_permutes(base, n as nat, n - 1, seed);
            }
            if let Some(current) = self.current {
                let pos: usize = find_index(&order, current);
                if pos < n {
                    let a: usize = order[0];
                    let b: usize = order[pos];
                    order.set(0, b);
                    order.set(pos, a);
                    assert(order@ =~= exchanged(s, 0, pos as int));
                }
            }
        }
        proof {
            order_for_permutes(n as nat, self.shuffle, self.current, nanos);
        }
        self.order = order;
    }

    /// Rebuilds the order as of now.
    fn reorder(&mut self)
        ensures
            final(self).tracks == old(self).tracks,
            final(self).current == old(self).current,
            final(self).shuffle == old(self).shuffle,
            final(self).repeat == old(self).repeat,
            final(self).well_formed(),
            final(self).freshly_ordered(),
    {
        let nanos = if self.shuffle {
            clock()
        } else {
            None
        };
        self.reorder_at(nanos);
    }

    /// Adds tracks behind those that are there.
    pub fn extend(&mut self, tracks: Vec<Track>)
        requires
            old(self).tracks@.len() + tracks@.len() <= usize::MAX,
        ensures
            final(self).tracks@ == old(self).tracks@ + tracks@,
            final(self).current == old(self).current,
            final(self).shuffle == old(self).shuffle,
            final(self).repeat == old(self).repeat,
            final(self).well_formed(),
            final(self).freshly_ordered(),
    {
        let mut tracks = tracks;
        self.tracks.append(&mut tracks);
        self.reorder();
    }

    /// Turns shuffling on or off.
    pub fn set_shuffle(&mut self, shuffle: bool)
        ensures
            final(self).tracks == old(self).tracks,
            final(self).current == old(self).current,
            final(self).shuffle == shuffle,
            final(self).repeat == old(self).repeat,
            final(self).well_formed(),
            final(self).freshly_ordered(),
    {
        self.shuffle = shuffle;
        self.reorder();
    }

    /// The track after the current one, and `None` where playback is to stop.
    pub open spec fn following(&self, manual: bool) -> Option<usize> {
        let order = self.playing_order();
        let first = if order.len() > 0 {
            Some(order[0])
        } else {
            None
        };
        match self.current {
            _ if self.tracks@.len() == 0 => None,
            None => first,
            Some(c) => {
                let pos = lists::find(order, c);
                if self.repeat == Repeat::One && !manual {
                    Some(c)
                } else if pos >= order.len() {
                    None
                } else if pos + 1 < order.len() {
                    Some(order[pos + 1])
                } else if self.repeat == Repeat::Off && !manual {
                    None
                } else {
                    first
                }
            },
        }
    }

    /// The track before the current one. The first one has the last one before it.
    pub open spec fn preceding(&self) -> Option<usize> {
        let order = self.playing_order();
        match self.current {
            Some(c) if self.tracks@.len() > 0 => {
                let pos = lists::find(order, c);
                if pos >= order.len() {
                    None
                } else if pos > 0 {
                    Some(order[pos - 1])
                } else {
                    Some(order.last())
                }
            },
            _ => None,
        }
    }

    fn first_in_order(&self) -> (r: Option<usize>)
        ensures
            r == (if self.playing_order().len() > 0 {
                Some(self.playing_order()[0])
            } else {
                None
            }),
    {
        if self.order.len() > 0 {
            Some(self.order[0])
        } else {
            None
        }
    }

    /// The track after the current one in playing order, honouring repeat. `None`
    /// means that playback should stop.
    ///
    /// `manual` is true when the listener asked for it: repeating one track then
    /// behaves like repeating all instead of playing the same one forever.
    pub fn next(&self, manual: bool) -> (r: Option<usize>)
        ensures
            r == self.following(manual),
    {
        if self.tracks.len() == 0 {
            return None;
        }
        let Some(current) = self.current else {
            return self.first_in_order();
        };
        if self.repeat == Repeat::One && !manual {
            return Some(current);
        }
        let pos: usize = find_index(&self.order, current);
        if pos >= self.order.len() {
            return None;
        }
        if pos + 1 < self.order.len() {
            return Some(self.order[pos + 1]);
        }
        if self.repeat == Repeat::Off && !manual {
            return None;
        }
        self.first_in_order()
    }

    /// The track before the current one in playing order.
    pub fn previous(&self) -> (r: Option<usize>)
        ensures
            r == self.preceding(),
    {
        if self.tracks.len() == 0 {
            return None;
        }
        let Some(current) = self.current else {
            return None;
        };
        let pos: usize = find_index(&self.order, current);
        if pos >= self.order.len() {
            return None;
        }
        if pos > 0 {
            Some(self.order[pos - 1])
        } else {
            Some(self.order[self.order.len() - 1])
        }
    }

    /// Whether the queue is what is left of an earlier one when only the tracks
    /// that `keep` accepts stay, and the one that is playing with them.
    pub open spec fn kept_from(&self, before: Queue, keep: spec_fn(TrackModel) -> bool) -> bool {
        &&& self.models() == before.models().filter(
            |t: TrackModel| keep(t) || is_playing(t, before.playing()),
        )
        &&& self.current == (match before.playing() {
            Some(path) if place_of(self.models(), path) < self.models().len() => Some(
                place_of(self.models(), path) as usize,
            ),
            _ => None,
        })
        &&& self.shuffle == before.shuffle
        &&& self.repeat == before.repeat
    }

    /// Keeps the tracks that are marked, and the one that is playing in any case:
    /// taking it away from under the player would be worse than letting it finish.
    /// The places in the queue shift, so the current track is found again by its
    /// path.
    fn retain_marked(&mut self, marks: Vec<bool>, Ghost(keep): Ghost<spec_fn(TrackModel) -> bool>)
        requires
            marks@.len() == old(self).tracks@.len(),
            forall|i: int|
                0 <= i < marks@.len() ==> #[trigger] marks@[i] == keep(old(self).tracks@[i]@),
        ensures
            final(self).kept_from(*old(self), keep),
            final(self).well_formed(),
            final(self).freshly_ordered(),
            old(self).playing() is Some ==> final(self).playing() is Some && path::same_place(
                final(self).playing()->0,
                old(self).playing()->0,
            ),
    {
        let ghost before = *self;
        let ghost stays = |t: TrackModel| keep(t) || is_playing(t, before.playing());
        let parts: Option<Vec<Vec<u8>>> = match self.current_track() {
            Some(t) => Some(t.path.components()),
            None => None,
        };
        let mut tracks: Vec<Track> = Vec::new();
        std::mem::swap(&mut tracks, &mut self.tracks);
        let ghost all = before.models();
        let mut kept: Vec<Track> = Vec::new();
        let mut k: usize = 0;
        proof {
            reveal(Seq::filter);
            assert(track::track_views(kept@) =~= all.take(0).filter(stays));
        }
        for t in it: tracks.into_iter()
            invariant
                it.seq() == before.tracks@,
                all == before.models(),
                k == it.index(),
                marks@.len() == before.tracks@.len(),
                forall|i: int|
                    0 <= i < marks@.len() ==> #[trigger] marks@[i] == keep(before.tracks@[i]@),
                stays == (|t: TrackModel| keep(t) || is_playing(t, before.playing())),
                parts is Some <==> before.playing() is Some,
                parts matches Some(p) ==> p.deep_view() == path::components(
                    before.playing()->0,
                ),
                track::track_views(kept@) == all.take(it.index() as int).filter(stays),
        {
            let ghost i = it.index() as int;
            let ghost kept_before = kept@;
            let ghost view = t@;
            proof {
                reveal(Seq::filter);
                assert(all.take(i + 1).drop_last() =~= all.take(i));
                assert(all.take(i + 1).last() == view);
                assert(marks@[i] == keep(view));
            }
            let playing_here = match &parts {
                Some(parts) => same_parts(&t.path.components(), parts),
                None => false,
            };
            if marks[k] || playing_here {
                kept.push(t);
                assert(track::track_views(kept@) =~= track::track_views(kept_before).push(view));
            }
            let len: usize = marks.len();
            assert(k < len);
            k = k + 1;
        }
        assert(all.take(all.len() as int) =~= all);
        self.tracks = kept;
        self.current = match &parts {
            Some(parts) => {
                let n: usize = find_place(&self.tracks, parts, Ghost(before.playing()->0));
                if n < self.tracks.len() {
                    Some(n)
                } else {
                    None
                }
            },
            None => None,
        };
        proof {
            if before.playing() is Some {
                let path = before.playing()->0;
                let c = before.current->0 as int;
                assert(all[c].path == path);
                assert(stays(all[c]));
                assert(all.filter(stays).contains(all[c])) by {
                    broadcast use vstd::seq_lib::group_filter_ensures;
                }
                place_is_first(self.models(), path);
                let m = choose|m: int|
                    0 <= m < self.models().len() && self.models()[m] == all[c];
                assert(path::same_place(self.models()[m].path, path));
            }
        }
        self.reorder();
    }

    /// Drops the tracks that a scan of the root they came from no longer finds.
    /// `roots` are those whose scan could be believed, and `found` is everything
    /// those scans saw.
    ///
    /// Two kinds of track stay on purpose. One that lies under no scanned root was
    /// never the library's to remove. And a root whose scan came back empty is not
    /// among `roots`, which keeps a thousand rows on screen while the mount they
    /// live on is down.
    pub fn retain_scanned(&mut self, roots: &[FilePath], found: &[FilePath])
        ensures
            final(self).kept_from(
                *old(self),
                |t: TrackModel| scan_keeps(t, path::views(roots@), path::views(found@)),
            ),
            final(self).well_formed(),
            final(self).freshly_ordered(),
            old(self).playing() is Some ==> final(self).playing() is Some && path::same_place(
                final(self).playing()->0,
                old(self).playing()->0,
            ),
    {
        let ghost keep = |t: TrackModel|
            scan_keeps(t, path::views(roots@), path::views(found@));
        let root_parts = all_parts(roots);
        let found_parts = all_parts(found);
        let mut marks: Vec<bool> = Vec::new();
        let mut i: usize = 0;
        while i < self.tracks.len()
            invariant
                i <= self.tracks@.len(),
                *self == *old(self),
                parts_of(root_parts@, path::views(roots@)),
                parts_of(found_parts@, path::views(found@)),
                keep == (|t: TrackModel|
                    scan_keeps(t, path::views(roots@), path::views(found@))),
                marks@.len() == i,
                forall|j: int| 0 <= j < i ==> #[trigger] marks@[j] == keep(self.tracks@[j]@),
            decreases self.tracks@.len() - i,
        {
            let parts = self.tracks[i].path.components();
            let ghost place = self.tracks@[i as int].path@;
            let kept = is_one_of(&parts, &found_parts, Ghost(place), Ghost(path::views(found@)))
                || !is_below(&parts, &root_parts, Ghost(place), Ghost(path::views(roots@)));
            marks.push(kept);
            i = i + 1;
        }
        self.retain_marked(marks, Ghost(keep));
    }

    /// Drops every track that came from `root`, for a folder that the listener took
    /// out of the library.
    pub fn remove_under(&mut self, root: &FilePath)
        ensures
            final(self).kept_from(*old(self), |t: TrackModel| !path::under(t.path, root@)),
            final(self).well_formed(),
            final(self).freshly_ordered(),
            old(self).playing() is Some ==> final(self).playing() is Some && path::same_place(
                final(self).playing()->0,
                old(self).playing()->0,
            ),
    {
        let ghost keep = |t: TrackModel| !path::under(t.path, root@);
        let parts = root.components();
        let mut marks: Vec<bool> = Vec::new();
        let mut i: usize = 0;
        while i < self.tracks.len()
            invariant
                i <= self.tracks@.len(),
                *self == *old(self),
                parts.deep_view() == path::components(root@),
                keep == (|t: TrackModel| !path::under(t.path, root@)),
                marks@.len() == i,
                forall|j: int| 0 <= j < i ==> #[trigger] marks@[j] == keep(self.tracks@[j]@),
            decreases self.tracks@.len() - i,
        {
            marks.push(!parts_start(&self.tracks[i].path.components(), &parts));
            i = i + 1;
        }
        self.retain_marked(marks, Ghost(keep));
    }
}

impl Queue {
    /// Drops every track that came from one of `roots`.
    pub fn remove_under_any(&mut self, roots: &[FilePath])
        ensures
            final(self).kept_from(
                *old(self),
                |t: TrackModel| !path::under_any(t.path, path::views(roots@)),
            ),
            final(self).well_formed(),
            final(self).freshly_ordered(),
            old(self).playing() is Some ==> final(self).playing() is Some && path::same_place(
                final(self).playing()->0,
                old(self).playing()->0,
            ),
    {
        let ghost keep = |t: TrackModel| !path::under_any(t.path, path::views(roots@));
        let root_parts = all_parts(roots);
        let mut marks: Vec<bool> = Vec::new();
        let mut i: usize = 0;
        while i < self.tracks.len()
            invariant
                i <= self.tracks@.len(),
                *self == *old(self),
                parts_of(root_parts@, path::views(roots@)),
                keep == (|t: TrackModel| !path::under_any(t.path, path::views(roots@))),
                marks@.len() == i,
                forall|j: int| 0 <= j < i ==> #[trigger] marks@[j] == keep(self.tracks@[j]@),
            decreases self.tracks@.len() - i,
        {
            let parts = self.tracks[i].path.components();
            let ghost place = self.tracks@[i as int].path@;
            marks.push(!is_below(&parts, &root_parts, Ghost(place), Ghost(path::views(roots@))));
            i = i + 1;
        }
        self.retain_marked(marks, Ghost(keep));
    }

    /// Where the tracks lie.
    pub open spec fn places(&self) -> Seq<Seq<u8>> {
        self.models().map_values(|t: TrackModel| t.path)
    }

    /// Of some paths, those that no track of the queue lies at.
    pub fn unknown_paths(&self, paths: Vec<FilePath>) -> (r: Vec<FilePath>)
        ensures
            path::views(r@) == path::views(paths@).filter(
                |p: Seq<u8>| !path::among(p, self.places()),
            ),
    {
        let ghost all = path::views(paths@);
        let ghost fresh = |p: Seq<u8>| !path::among(p, self.places());
        let known = self.all_places();
        let mut r: Vec<FilePath> = Vec::new();
        proof {
            reveal(Seq::filter);
            assert(path::views(r@) =~= all.take(0).filter(fresh));
        }
        for p in it: paths.into_iter()
            invariant
                it.seq() == paths@,
                all == path::views(paths@),
                fresh == (|p: Seq<u8>| !path::among(p, self.places())),
                parts_of(known@, self.places()),
                path::views(r@) == all.take(it.index() as int).filter(fresh),
        {
            let ghost i = it.index() as int;
            let ghost before = r@;
            let ghost view = p@;
            proof {
                reveal(Seq::filter);
                assert(all.take(i + 1).drop_last() =~= all.take(i));
                assert(all.take(i + 1).last() == view);
            }
            let parts = p.components();
            if !is_one_of(&parts, &known, Ghost(view), Ghost(self.places())) {
                r.push(p);
                assert(path::views(r@) =~= path::views(before).push(view));
            }
        }
        assert(all.take(all.len() as int) =~= all);
        r
    }

    /// Of some tracks, those that do not lie where a track of the queue does.
    pub fn unknown_tracks(&self, tracks: Vec<Track>) -> (r: Vec<Track>)
        ensures
            track::track_views(r@) == track::track_views(tracks@).filter(
                |t: TrackModel| !path::among(t.path, self.places()),
            ),
            r@.len() <= tracks@.len(),
    {
        let ghost all = track::track_views(tracks@);
        let ghost fresh = |t: TrackModel| !path::among(t.path, self.places());
        let known = self.all_places();
        let mut r: Vec<Track> = Vec::new();
        proof {
            reveal(Seq::filter);
            assert(track::track_views(r@) =~= all.take(0).filter(fresh));
        }
        for t in it: tracks.into_iter()
            invariant
                it.seq() == tracks@,
                all == track::track_views(tracks@),
                fresh == (|t: TrackModel| !path::among(t.path, self.places())),
                parts_of(known@, self.places()),
                track::track_views(r@) == all.take(it.index() as int).filter(fresh),
                r@.len() <= it.index(),
        {
            let ghost i = it.index() as int;
            let ghost before = r@;
            let ghost view = t@;
            proof {
                reveal(Seq::filter);
                assert(all.take(i + 1).drop_last() =~= all.take(i));
                assert(all.take(i + 1).last() == view);
            }
            let parts = t.path.components();
            if !is_one_of(&parts, &known, Ghost(view.path), Ghost(self.places())) {
                r.push(t);
                assert(track::track_views(r@) =~= track::track_views(before).push(view));
            }
        }
        assert(all.take(all.len() as int) =~= all);
        r
    }

    /// Takes the paths of all the tracks apart.
    fn all_places(&self) -> (r: Vec<Vec<Vec<u8>>>)
        ensures
            parts_of(r@, self.places()),
    {
        let mut r: Vec<Vec<Vec<u8>>> = Vec::new();
        let mut i: usize = 0;
        while i < self.tracks.len()
            invariant
                i <= self.tracks@.len(),
                r@.len() == i,
                forall|j: int|
                    0 <= j < i ==> (#[trigger] r@[j]).deep_view() == path::components(
                        self.tracks@[j].path@,
                    ),
            decreases self.tracks@.len() - i,
        {
            r.push(self.tracks[i].path.components());
            i = i + 1;
        }
        r
    }
}

/// The place that [`place_of`] names is the first.
pub proof fn place_is_first(tracks: Seq<TrackModel>, path: Seq<u8>)
    ensures
        0 <= place_of(tracks, path) <= tracks.len(),
        forall|i: int|
            0 <= i < place_of(tracks, path) ==> !path::same_place(
                (#[trigger] tracks[i]).path,
                path,
            ),
        place_of(tracks, path) < tracks.len() ==> path::same_place(
            tracks[place_of(tracks, path)].path,
            path,
        ),
    decreases tracks.len(),
{
    if tracks.len() != 0 && !path::same_place(tracks[0].path, path) {
        let rest = tracks.drop_first();
        place_is_first(rest, path);
        assert forall|i: int| 0 <= i < place_of(tracks, path) implies !path::same_place(
            (#[trigger] tracks[i]).path,
            path,
        ) by {
            if i > 0 {
                assert(tracks[i] == rest[i - 1]);
            }
        }
    }
}

/// Finds the first track that lies at a place.
pub(crate) fn find_place(tracks: &Vec<Track>, parts: &Vec<Vec<u8>>, Ghost(path): Ghost<Seq<u8>>) -> (n: usize)
    requires
        parts.deep_view() == path::components(path),
    ensures
        n == place_of(track::track_views(tracks@), path),
        n <= tracks@.len(),
{
    let ghost all = track::track_views(tracks@);
    let mut n: usize = 0;
    assert(all.skip(0) =~= all);
    while n < tracks.len()
        invariant
            n <= tracks@.len(),
            all == track::track_views(tracks@),
            parts.deep_view() == path::components(path),
            place_of(all, path) == n + place_of(all.skip(n as int), path),
        decreases tracks@.len() - n,
    {
        assert(all.skip(n as int).drop_first() =~= all.skip(n + 1));
        assert(all.skip(n as int)[0] == tracks@[n as int]@);
        if same_parts(&tracks[n].path.components(), parts) {
            return n;
        }
        n = n + 1;
    }
    n
}

/// Whether the lists of names in `parts` are those of `paths`.
spec fn parts_of(parts: Seq<Vec<Vec<u8>>>, paths: Seq<Seq<u8>>) -> bool {
    parts.len() == paths.len() && forall|i: int|
        0 <= i < parts.len() ==> (#[trigger] parts[i]).deep_view() == path::components(paths[i])
}

/// Takes several paths apart.
fn all_parts(paths: &[FilePath]) -> (r: Vec<Vec<Vec<u8>>>)
    ensures
        parts_of(r@, path::views(paths@)),
{
    let mut r: Vec<Vec<Vec<u8>>> = Vec::new();
    let mut i: usize = 0;
    while i < paths.len()
        invariant
            i <= paths@.len(),
            r@.len() == i,
            forall|j: int|
                0 <= j < i ==> (#[trigger] r@[j]).deep_view() == path::components(paths@[j]@),
        decreases paths@.len() - i,
    {
        r.push(paths[i].components());
        i = i + 1;
    }
    r
}

fn is_one_of(
    parts: &Vec<Vec<u8>>,
    list: &Vec<Vec<Vec<u8>>>,
    Ghost(path): Ghost<Seq<u8>>,
    Ghost(paths): Ghost<Seq<Seq<u8>>>,
) -> (r: bool)
    requires
        parts.deep_view() == path::components(path),
        parts_of(list@, paths),
    ensures
        r == path::among(path, paths),
{
    let mut i: usize = 0;
    while i < list.len()
        invariant
            i <= list@.len(),
            parts.deep_view() == path::components(path),
            parts_of(list@, paths),
            forall|j: int| 0 <= j < i ==> !path::same_place(path, #[trigger] paths[j]),
        decreases list@.len() - i,
    {
        if same_parts(parts, &list[i]) {
            assert(path::same_place(path, paths[i as int]));
            return true;
        }
        i = i + 1;
    }
    false
}

fn is_below(
    parts: &Vec<Vec<u8>>,
    list: &Vec<Vec<Vec<u8>>>,
    Ghost(path): Ghost<Seq<u8>>,
    Ghost(roots): Ghost<Seq<Seq<u8>>>,
) -> (r: bool)
    requires
        parts.deep_view() == path::components(path),
        parts_of(list@, roots),
    ensures
        r == path::under_any(path, roots),
{
    let mut i: usize = 0;
    while i < list.len()
        invariant
            i <= list@.len(),
            parts.deep_view() == path::components(path),
            parts_of(list@, roots),
            forall|j: int| 0 <= j < i ==> !path::under(path, #[trigger] roots[j]),
        decreases list@.len() - i,
    {
        if parts_start(parts, &list[i]) {
            assert(path::under(path, roots[i as int]));
            return true;
        }
        i = i + 1;
    }
    false
}

/// What comes after the current track and what comes before it are tracks of the
/// queue.
pub proof fn neighbours_are_in_the_queue(q: Queue, manual: bool)
    requires
        q.well_formed(),
        q.current matches Some(c) ==> c < q.tracks@.len(),
    ensures
        q.following(manual) matches Some(i) ==> i < q.tracks@.len(),
        q.preceding() matches Some(i) ==> i < q.tracks@.len(),
        q.current is Some ==> q.preceding() is Some,
        q.current is Some ==> q.following(true) is Some,
{
    if let Some(c) = q.current {
        assert(q.playing_order().contains(c));
        lists::find_first(q.playing_order(), c);
    }
}

/// Going on and then back leads to the track it started from.
pub proof fn previous_undoes_next(q: Queue, manual: bool, moved: Queue)
    requires
        q.well_formed(),
        q.current matches Some(c) && c < q.tracks@.len(),
        q.repeat != Repeat::One || manual,
        q.following(manual) is Some,
        moved == (Queue { current: q.following(manual), ..q }),
    ensures
        moved.preceding() == q.current,
{
    let order = q.playing_order();
    let c = q.current->0;
    let next = q.following(manual)->0;
    assert(order.contains(c));
    lists::find_first(order, c);
    lists::find_first(order, next);
    let p = lists::find(order, c);
    let n = if p + 1 < order.len() { p + 1 } else { 0 };
    assert(order[n] == next);
    lists::find_is(order, next, n);
}

/// Pressing next over and over goes through the whole queue: so many presses on,
/// the player is as many places further along the order, starting over at its end.
pub proof fn next_goes_through_the_order(q: Queue, i: int)
    requires
        q.well_formed(),
        0 <= i < q.tracks@.len(),
        q.current == Some(q.playing_order()[i]),
    ensures
        q.following(true) == Some(
            q.playing_order()[if i + 1 < q.tracks@.len() { i + 1 } else { 0 }],
        ),
{
    let order = q.playing_order();
    lists::find_is(order, order[i], i);
}

/// Left alone, the queue goes through the order once and stops at its end, unless
/// it is told to repeat.
pub proof fn playing_on_stops_at_the_end(q: Queue)
    requires
        q.well_formed(),
        q.tracks@.len() > 0,
        q.current == Some(q.playing_order().last()),
    ensures
        q.repeat == Repeat::Off ==> q.following(false) is None,
        q.repeat == Repeat::All ==> q.following(false) == Some(q.playing_order()[0]),
        q.repeat == Repeat::One ==> q.following(false) == q.current,
{
    let order = q.playing_order();
    lists::find_is(order, order.last(), order.len() - 1);
}

/// Asked for by hand, the next track is the same whether one track repeats or all
/// of them do.
pub proof fn by_hand_one_is_as_all(one: Queue, all: Queue)
    requires
        one.repeat == Repeat::One,
        all == (Queue { repeat: Repeat::All, ..one }),
    ensures
        one.following(true) == all.following(true),
{
}

/// Whatever is dropped from the queue, the track that is playing stays, and is found
/// again.
pub proof fn the_playing_track_stays(before: Queue, now: Queue, keep: spec_fn(TrackModel) -> bool)
    requires
        before.playing() is Some,
        now.kept_from(before, keep),
    ensures
        now.playing() is Some,
        path::same_place(now.playing()->0, before.playing()->0),
{
    let all = before.models();
    let path = before.playing()->0;
    let stays = |t: TrackModel| keep(t) || is_playing(t, before.playing());
    let c = before.current->0 as int;
    assert(all[c].path == path);
    assert(stays(all[c]));
    assert(all.filter(stays).contains(all[c])) by {
        broadcast use vstd::seq_lib::group_filter_ensures;

    }
    place_is_first(now.models(), path);
    let m = choose|m: int| 0 <= m < now.models().len() && now.models()[m] == all[c];
    assert(path::same_place(now.models()[m].path, path));
    assert(now.tracks.len() == now.models().len());
    assert(now.models()[place_of(now.models(), path)] == now.tracks@[place_of(
        now.models(),
        path,
    )]@);
}

/// A scan takes no track from the queue that lies under none of the roots it could be
/// believed about, and none that it found.
pub proof fn only_what_was_scanned_is_dropped(
    before: Queue,
    now: Queue,
    roots: Seq<Seq<u8>>,
    found: Seq<Seq<u8>>,
    t: TrackModel,
)
    requires
        now.kept_from(before, |t: TrackModel| scan_keeps(t, roots, found)),
        before.models().contains(t),
        path::among(t.path, found) || !path::under_any(t.path, roots),
    ensures
        now.models().contains(t),
{
    broadcast use vstd::seq_lib::group_filter_ensures;

    let keep = |t: TrackModel| scan_keeps(t, roots, found);
    let stays = |t: TrackModel| keep(t) || is_playing(t, before.playing());
    let i = choose|i: int| 0 <= i < before.models().len() && before.models()[i] == t;
    assert(stays(before.models()[i]));
    assert(before.models().filter(stays).contains(before.models()[i]));
}

/// After a scan, every track that is left was found, lies under no scanned root, or is
/// the one that is playing.
pub proof fn what_is_gone_is_dropped(
    before: Queue,
    now: Queue,
    roots: Seq<Seq<u8>>,
    found: Seq<Seq<u8>>,
    i: int,
)
    requires
        now.kept_from(before, |t: TrackModel| scan_keeps(t, roots, found)),
        0 <= i < now.models().len(),
    ensures
        scan_keeps(now.models()[i], roots, found) || is_playing(
            now.models()[i],
            before.playing(),
        ),
{
    broadcast use vstd::seq_lib::group_filter_ensures;

    let keep = |t: TrackModel| scan_keeps(t, roots, found);
    let stays = |t: TrackModel| keep(t) || is_playing(t, before.playing());
    assert(stays(before.models().filter(stays)[i]));
}

/// Left alone, one track that repeats plays again, wherever in the order it stands.
/// Otherwise the next one in the order plays; behind the last of them the first does when
/// all repeat, and none when nothing does. By hand it is the next one in every mode, round
/// and round, and the one before it the other way.
pub proof fn the_next_track_is_the_next_in_the_order(q: Queue, i: int)
    requires
        permutes(q.order@, q.tracks@.len()),
        0 <= i < q.tracks@.len(),
        q.current == Some(q.order@[i]),
    ensures
        q.repeat == Repeat::One ==> q.following(false) == Some(q.order@[i]),
        q.repeat != Repeat::One && i + 1 < q.tracks@.len() ==> q.following(false) == Some(
            q.order@[i + 1],
        ),
        q.repeat == Repeat::All && i + 1 == q.tracks@.len() ==> q.following(false) == Some(
            q.order@[0],
        ),
        q.repeat == Repeat::Off && i + 1 == q.tracks@.len() ==> q.following(false) is None,
        q.following(true) == Some(q.order@[(i + 1) % q.tracks@.len() as int]),
        q.preceding() == Some(q.order@[(i + q.tracks@.len() - 1) % q.tracks@.len() as int]),
{
    let order = q.order@;
    lists::find_is(order, order[i], i);
    let n = order.len() as int;
    if i == 0 {
        assert((i + n - 1) % n == n - 1) by (nonlinear_arith)
            requires
                i == 0,
                n > 0,
        ;
    } else {
        assert((i + n - 1) % n == i - 1) by (nonlinear_arith)
            requires
                0 < i < n,
        ;
    }
    if i + 1 == n {
        assert((i + 1) % n == 0) by (nonlinear_arith)
            requires
                i + 1 == n,
                n > 0,
        ;
    } else {
        assert((i + 1) % n == i + 1) by (nonlinear_arith)
            requires
                0 <= i + 1 < n,
        ;
    }
}

/// A queue in which nothing is loaded starts with the first track of its order and has
/// nothing to go back to, and an empty one has nothing to play at all. Repeating one track
/// never leads away from it.
pub proof fn an_idle_queue_starts_at_the_front(q: Queue, manual: bool)
    requires
        permutes(q.order@, q.tracks@.len()),
    ensures
        q.tracks@.len() == 0 ==> q.following(manual) is None && q.preceding() is None,
        q.tracks@.len() > 0 && q.current is None ==> q.following(manual) == Some(q.order@[0]),
        q.current is None ==> q.preceding() is None,
        q.tracks@.len() > 0 && q.current is Some && q.repeat == Repeat::One ==> q.following(false)
            == q.current,
{
}

/// The modes come in this order.
pub proof fn repeating_goes_from_none_to_all_to_one()
    ensures
        Repeat::Off.after() == Repeat::All,
        Repeat::All.after() == Repeat::One,
        Repeat::One.after() == Repeat::Off,
{
}

/// What is left of a queue is exactly the tracks to be kept and the one that is playing,
/// in the order they stood in. The track that was loaded is loaded still: the first one at
/// its place. Shuffling and repeating stay as they were.
pub proof fn dropping_keeps_the_rest_as_it_was(
    before: Queue,
    now: Queue,
    keep: spec_fn(TrackModel) -> bool,
    i: int,
)
    requires
        now.kept_from(before, keep),
    ensures
        before.current is Some && before.current->0 < before.tracks@.len() ==> {
            let here = before.tracks@[before.current->0 as int].path@;
            &&& track::track_views(now.tracks@) == track::track_views(before.tracks@).filter(
                |t: TrackModel| keep(t) || path::same_place(t.path, here),
            )
            &&& now.current is Some
            &&& now.current->0 < now.tracks@.len()
            &&& path::same_place(now.tracks@[now.current->0 as int].path@, here)
            &&& 0 <= i < now.current->0 ==> !path::same_place(now.tracks@[i].path@, here)
        },
        before.current is None || before.current->0 >= before.tracks@.len() ==> {
            &&& track::track_views(now.tracks@) == track::track_views(before.tracks@).filter(keep)
            &&& now.current is None
        },
        now.shuffle == before.shuffle,
        now.repeat == before.repeat,
{
    let all = track::track_views(before.tracks@);
    if before.current is Some && before.current->0 < before.tracks@.len() {
        let here = before.tracks@[before.current->0 as int].path@;
        assert(before.playing() == Some(here));
        let f = |t: TrackModel| keep(t) || is_playing(t, before.playing());
        let g = |t: TrackModel| keep(t) || path::same_place(t.path, here);
        assert(f =~= g);
        the_playing_track_stays(before, now, keep);
        place_is_first(now.models(), here);
        assert(now.models()[now.current->0 as int] == now.tracks@[now.current->0 as int]@);
        if 0 <= i < now.current->0 {
            assert(now.models()[i] == now.tracks@[i]@);
        }
    } else {
        let f = |t: TrackModel| keep(t) || is_playing(t, before.playing());
        assert(f =~= keep);
    }
}

/// A scan keeps a track exactly when it found a file at its place, or when no root that
/// was scanned has it at or below its own place.
pub proof fn a_scan_keeps_what_it_found(t: TrackModel, roots: Seq<Seq<u8>>, found: Seq<Seq<u8>>)
    ensures
        scan_keeps(t, roots, found) <==> (exists|i: int|
            0 <= i < found.len() && path::same_place(t.path, #[trigger] found[i])) || (forall|i: int|
            0 <= i < roots.len() ==> !path::under(t.path, #[trigger] roots[i])),
{
}

/// Shuffling puts into the last place the entry that the generator picks from all of
/// them, and goes on with the rest.
pub proof fn the_generator_picks_the_last(s: Seq<usize>, n: int, state: u64)
    requires
        0 < n < s.len(),
    ensures
        shuffled(s, n, state).len() == s.len(),
        shuffled(s, n, state)[n] == s[random(state) as int % (n + 1)],
        forall|i: int| n < i < s.len() ==> #[trigger] shuffled(s, n, state)[i] == s[i],
        n > 1 ==> shuffled(s, n, state)[n - 1] == exchanged(
            s,
            n,
            random(state) as int % (n + 1),
        )[random(random(state)) as int % n],
    decreases n,
{
    let now = random(state);
    let t = exchanged(s, n, now as int % (n + 1));
    shuffling_leaves_the_back(t, n - 1, now);
    if n > 1 {
        the_generator_picks_the_last(t, n - 1, now);
    }
}

proof fn shuffling_leaves_the_back(s: Seq<usize>, n: int, state: u64)
    requires
        n < s.len(),
    ensures
        shuffled(s, n, state).len() == s.len(),
        forall|i: int| n < i < s.len() && i >= 0 ==> #[trigger] shuffled(s, n, state)[i] == s[i],
    decreases n,
{
    if n >= 1 {
        let now = random(state);
        let j = now as int % (n + 1);
        shuffling_leaves_the_back(exchanged(s, n, j), n - 1, now);
    }
}

/// The generator never comes to a stop: what is not nought never becomes nought, and it
/// never starts at nought whatever the time.
pub proof fn the_generator_never_stops(state: u64, nanos: Option<u128>)
    requires
        state != 0,
    ensures
        random(state) != 0,
        seed_at(nanos) != 0,
        nanos matches Some(n) ==> seed_at(nanos) == (n as u64) | 1,
        random(state) == {
            let a = state ^ (state << 13);
            let b = a ^ (a >> 7);
            b ^ (b << 17)
        },
{
    let a = state ^ (state << 13);
    let b = a ^ (a >> 7);
    assert(a != 0) by (bit_vector)
        requires
            state != 0,
            a == state ^ (state << 13),
    ;
    assert(b != 0) by (bit_vector)
        requires
            a != 0,
            b == a ^ (a >> 7),
    ;
    assert(b ^ (b << 17) != 0) by (bit_vector)
        requires
            b != 0,
    ;
    if let Some(n) = nanos {
        let m = n as u64;
        assert(m | 1 != 0) by (bit_vector);
    } else {
        assert(0x2545_f491_4f6c_dd1du64 | 1 != 0) by (bit_vector);
    }
}

} // verus!
