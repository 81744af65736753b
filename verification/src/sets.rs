//! What was tried already this session: names and places, each of them once.

use crate::path;
use crate::path::{same_parts, FilePath};
use crate::text::same_text;
use vstd::prelude::*;

verus! {

/// A set of names.
pub struct KeySet {
    pub keys: Vec<String>,
}

/// The names in a list.
pub open spec fn key_views(keys: Seq<String>) -> Seq<Seq<char>> {
    keys.map_values(|k: String| k@)
}

impl View for KeySet {
    type V = Set<Seq<char>>;

    open spec fn view(&self) -> Set<Seq<char>> {
        key_views(self.keys@).to_set()
    }
}

impl KeySet {
    pub fn new() -> (s: KeySet)
        ensures
            s@ == Set::<Seq<char>>::empty(),
    {
        let s = KeySet { keys: Vec::new() };
        assert(s@ =~= Set::<Seq<char>>::empty());
        s
    }

    pub fn contains(&self, key: &str) -> (r: bool)
        ensures
            r == self@.contains(key@),
    {
        let mut i: usize = 0;
        while i < self.keys.len()
            invariant
                i <= self.keys@.len(),
                forall|j: int| 0 <= j < i ==> #[trigger] self.keys@[j]@ != key@,
            decreases self.keys@.len() - i,
        {
            if same_text(self.keys[i].as_str(), key) {
                assert(key_views(self.keys@)[i as int] == key@);
                return true;
            }
            i = i + 1;
        }
        assert forall|j: int| 0 <= j < self.keys@.len() implies #[trigger] key_views(
            self.keys@,
        )[j] != key@ by {
            assert(key_views(self.keys@)[j] == self.keys@[j]@);
        }
        false
    }

    /// Puts a name in, and tells whether it was not there before.
    pub fn insert(&mut self, key: &str) -> (fresh: bool)
        ensures
            fresh == !old(self)@.contains(key@),
            final(self)@ == old(self)@.insert(key@),
    {
        if self.contains(key) {
            assert(self@ =~= self@.insert(key@));
            return false;
        }
        let ghost before = key_views(self.keys@);
        self.keys.push(key.to_string());
        proof {
            let now = key_views(self.keys@);
            assert(now =~= before.push(key@));
            assert(now.to_set() =~= before.to_set().insert(key@)) by {
                assert forall|k: Seq<char>| now.contains(k) == (before.contains(k) || k == key@) by {
                    if before.contains(k) {
                        let j = choose|j: int| 0 <= j < before.len() && before[j] == k;
                        assert(now[j] == k);
                    }
                    if k == key@ {
                        assert(now[before.len() as int] == k);
                    }
                }
            }
        }
        true
    }

    /// Takes a name out.
    pub fn remove(&mut self, key: &str)
        ensures
            final(self)@ == old(self)@.remove(key@),
    {
        let ghost before = key_views(self.keys@);
        let mut kept: Vec<String> = Vec::new();
        let mut i: usize = 0;
        while i < self.keys.len()
            invariant
                i <= self.keys@.len(),
                before == key_views(self.keys@),
                forall|k: Seq<char>| #[trigger]
                    key_views(kept@).contains(k) <==> (k != key@ && before.take(
                        i as int,
                    ).contains(k)),
            decreases self.keys@.len() - i,
        {
            let ghost was = key_views(kept@);
            let ghost here = self.keys@[i as int]@;
            let keep = !same_text(self.keys[i].as_str(), key);
            if keep {
                kept.push(self.keys[i].clone());
            }
            proof {
                let now = key_views(kept@);
                if keep {
                    assert(now =~= was.push(here));
                }
                assert forall|k: Seq<char>| #[trigger] now.contains(k) <==> (k != key@
                    && before.take(i + 1).contains(k)) by {
                    pushed(was, here, k);
                    pushed(before.take(i as int), here, k);
                    assert(before.take(i + 1) =~= before.take(i as int).push(here));
                    assert(was.contains(k) <==> (k != key@ && before.take(i as int).contains(k)));
                }
            }
            i = i + 1;
        }
        self.keys = kept;
        proof {
            assert(before.take(before.len() as int) =~= before);
            assert(self@ =~= before.to_set().remove(key@)) by {
                assert forall|k: Seq<char>| self@.contains(k) <==> before.to_set().remove(
                    key@,
                ).contains(k) by {
                    assert(key_views(self.keys@).contains(k) <==> (k != key@ && before.contains(k)));
                }
            }
        }
    }
}

proof fn pushed<T>(s: Seq<T>, x: T, k: T)
    ensures
        s.push(x).contains(k) <==> (s.contains(k) || k == x),
{
    let now = s.push(x);
    if s.contains(k) {
        let j = choose|j: int| 0 <= j < s.len() && s[j] == k;
        assert(now[j] == k);
    }
    if k == x {
        assert(now[s.len() as int] == k);
    }
    if now.contains(k) {
        let j = choose|j: int| 0 <= j < now.len() && now[j] == k;
        if j < s.len() {
            assert(s[j] == k);
        }
    }
}

/// A set of places.
pub struct PathSet {
    pub paths: Vec<FilePath>,
}

impl PathSet {
    /// Whether a place is in the set.
    pub open spec fn has(&self, p: Seq<u8>) -> bool {
        path::among(p, path::views(self.paths@))
    }

    pub fn new() -> (s: PathSet)
        ensures
            forall|p: Seq<u8>| !s.has(p),
    {
        PathSet { paths: Vec::new() }
    }

    /// Puts a place in, and tells whether it was not there before.
    pub fn insert(&mut self, p: &FilePath) -> (fresh: bool)
        ensures
            fresh == !old(self).has(p@),
            forall|q: Seq<u8>| #[trigger]
                final(self).has(q) <==> (old(self).has(q) || path::same_place(q, p@)),
    {
        let ghost before = path::views(self.paths@);
        if p.is_among(self.paths.as_slice()) {
            proof {
                let i = choose|i: int|
                    0 <= i < before.len() && path::same_place(p@, #[trigger] before[i]);
                assert forall|q: Seq<u8>| path::same_place(q, p@) implies #[trigger] self.has(
                    q,
                ) by {
                    assert(path::same_place(q, before[i]));
                }
            }
            return false;
        }
        self.paths.push(p.clone());
        proof {
            let now = path::views(self.paths@);
            assert(now =~= before.push(p@));
            assert forall|q: Seq<u8>| #[trigger]
                self.has(q) <==> (path::among(q, before) || path::same_place(q, p@)) by {
                if path::among(q, before) {
                    let i = choose|i: int|
                        0 <= i < before.len() && path::same_place(q, #[trigger] before[i]);
                    assert(path::same_place(q, now[i]));
                }
                if path::same_place(q, p@) {
                    assert(path::same_place(q, now[before.len() as int]));
                }
                if self.has(q) {
                    let i = choose|i: int|
                        0 <= i < now.len() && path::same_place(q, #[trigger] now[i]);
                    if i < before.len() {
                        assert(path::same_place(q, before[i]));
                    }
                }
            }
        }
        true
    }

    /// Takes a place out.
    pub fn remove(&mut self, p: &FilePath)
        ensures
            forall|q: Seq<u8>| #[trigger]
                final(self).has(q) <==> (old(self).has(q) && !path::same_place(q, p@)),
    {
        let ghost before = path::views(self.paths@);
        let parts = p.components();
        let mut kept: Vec<FilePath> = Vec::new();
        let mut i: usize = 0;
        while i < self.paths.len()
            invariant
                i <= self.paths@.len(),
                before == path::views(self.paths@),
                parts.deep_view() == path::components(p@),
                forall|q: Seq<u8>| #[trigger]
                    path::among(q, path::views(kept@)) <==> (!path::same_place(q, p@)
                        && path::among(q, before.take(i as int))),
            decreases self.paths@.len() - i,
        {
            let ghost was = path::views(kept@);
            let ghost here = self.paths@[i as int]@;
            let keep = !same_parts(&self.paths[i].components(), &parts);
            if keep {
                kept.push(self.paths[i].clone());
            }
            proof {
                let now = path::views(kept@);
                if keep {
                    assert(now =~= was.push(here));
                }
                assert(before.take(i + 1) =~= before.take(i as int).push(here));
                assert forall|q: Seq<u8>| #[trigger]
                    path::among(q, now) <==> (!path::same_place(q, p@) && path::among(
                        q,
                        before.take(i + 1),
                    )) by {
                    among_pushed(was, here, q);
                    among_pushed(before.take(i as int), here, q);
                    assert(path::among(q, was) <==> (!path::same_place(q, p@) && path::among(
                        q,
                        before.take(i as int),
                    )));
                }
            }
            i = i + 1;
        }
        self.paths = kept;
        assert(before.take(before.len() as int) =~= before);
    }
}

proof fn among_pushed(s: Seq<Seq<u8>>, x: Seq<u8>, q: Seq<u8>)
    ensures
        path::among(q, s.push(x)) <==> (path::among(q, s) || path::same_place(q, x)),
{
    let now = s.push(x);
    if path::among(q, s) {
        let i = choose|i: int| 0 <= i < s.len() && path::same_place(q, #[trigger] s[i]);
        assert(path::same_place(q, now[i]));
    }
    if path::same_place(q, x) {
        assert(path::same_place(q, now[s.len() as int]));
    }
    if path::among(q, now) {
        let i = choose|i: int| 0 <= i < now.len() && path::same_place(q, #[trigger] now[i]);
        if i < s.len() {
            assert(path::same_place(q, s[i]));
        }
    }
}

} // verus!
