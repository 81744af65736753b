//! Paths, as the bytes a file system knows them by.
//!
//! What a path means is the list of names it is made of. How many slashes stand
//! between two of them, a slash at the end and a `.` in the middle make no
//! difference to that, so paths are compared, ordered and told apart by the list
//! and not by the bytes.

use crate::lists;
use crate::lists::{find_byte, same_bytes};
use crate::text::from_utf8;
use vstd::prelude::*;
use vstd::utf8::*;

verus! {

pub const SLASH: u8 = 47;

pub const DOT: u8 = 46;

/// A path.
#[derive(Debug)]
pub struct FilePath {
    pub bytes: Vec<u8>,
}

impl View for FilePath {
    type V = Seq<u8>;

    open spec fn view(&self) -> Seq<u8> {
        self.bytes@
    }
}

impl DeepView for FilePath {
    type V = Seq<u8>;

    open spec fn deep_view(&self) -> Seq<u8> {
        self.bytes@
    }
}

/// The paths in a list, by their bytes.
pub open spec fn views(paths: Seq<FilePath>) -> Seq<Seq<u8>> {
    paths.map_values(|p: FilePath| p@)
}

/// A name that is no part of the meaning: the empty one between two slashes, and
/// a lone dot.
pub open spec fn idle(name: Seq<u8>) -> bool {
    name.len() == 0 || name == seq![DOT]
}

/// The names in a list that mean something.
pub open spec fn named(pieces: Seq<Seq<u8>>) -> Seq<Seq<u8>>
    decreases pieces.len(),
{
    if pieces.len() == 0 {
        seq![]
    } else if idle(pieces[0]) {
        named(pieces.drop_first())
    } else {
        seq![pieces[0]] + named(pieces.drop_first())
    }
}

/// What comes before the names: the root of an absolute path, and the dot that a
/// path may begin with.
pub open spec fn head(path: Seq<u8>) -> Seq<Seq<u8>> {
    if path.len() > 0 && path[0] == SLASH {
        seq![seq![SLASH]]
    } else if lists::split(path, SLASH)[0] == seq![DOT] {
        seq![seq![DOT]]
    } else {
        seq![]
    }
}

/// The list of names a path is made of. The root of an absolute path is its first
/// entry, as a lone slash.
pub open spec fn components(path: Seq<u8>) -> Seq<Seq<u8>> {
    head(path) + named(lists::split(path, SLASH))
}

/// Whether two paths lead to the same place.
pub open spec fn same_place(a: Seq<u8>, b: Seq<u8>) -> bool {
    components(a) == components(b)
}

/// Whether `path` is `root` or lies somewhere below it.
pub open spec fn under(path: Seq<u8>, root: Seq<u8>) -> bool {
    lists::starts(components(path), components(root))
}

/// Whether `path` leads to the same place as one of `paths`.
pub open spec fn among(path: Seq<u8>, paths: Seq<Seq<u8>>) -> bool {
    exists|i: int| 0 <= i < paths.len() && same_place(path, #[trigger] paths[i])
}

/// Whether `path` lies under one of `roots`.
pub open spec fn under_any(path: Seq<u8>, roots: Seq<Seq<u8>>) -> bool {
    exists|i: int| 0 <= i < roots.len() && under(path, #[trigger] roots[i])
}

/// Whether a name is that of a file or a folder, and not the root, the dot or the
/// two dots that lead upwards.
pub open spec fn proper(name: Seq<u8>) -> bool {
    name != seq![SLASH] && name != seq![DOT] && name != seq![DOT, DOT]
}

/// The last name of a path, when it is the name of something.
pub open spec fn file_name(path: Seq<u8>) -> Option<Seq<u8>> {
    let parts = components(path);
    if parts.len() > 0 && proper(parts.last()) {
        Some(parts.last())
    } else {
        None
    }
}

/// Where the last dot of a name stands, or -1.
pub open spec fn last_dot(name: Seq<u8>) -> int
    decreases name.len(),
{
    if name.len() == 0 {
        -1
    } else if name.last() == DOT {
        name.len() - 1
    } else {
        last_dot(name.drop_last())
    }
}

/// A file name without its extension. A dot at the very front begins no
/// extension.
pub open spec fn stem_of(name: Seq<u8>) -> Seq<u8> {
    if last_dot(name) > 0 {
        name.take(last_dot(name))
    } else {
        name
    }
}

/// What follows the last dot of a file name, unless that dot stands at the front.
pub open spec fn extension_of(name: Seq<u8>) -> Option<Seq<u8>> {
    if last_dot(name) > 0 {
        Some(name.skip(last_dot(name) + 1))
    } else {
        None
    }
}

/// A run of bytes as text, when it is any.
pub open spec fn as_text(bytes: Seq<u8>) -> Option<Seq<char>> {
    if valid_utf8(bytes) {
        Some(decode_utf8(bytes))
    } else {
        None
    }
}

pub open spec fn stem_text(path: Seq<u8>) -> Option<Seq<char>> {
    match file_name(path) {
        Some(name) => as_text(stem_of(name)),
        None => None,
    }
}

pub open spec fn extension_text(path: Seq<u8>) -> Option<Seq<char>> {
    match file_name(path) {
        Some(name) => match extension_of(name) {
            Some(extension) => as_text(extension),
            None => None,
        },
        None => None,
    }
}

pub open spec fn absolute(path: Seq<u8>) -> bool {
    path.len() > 0 && path[0] == SLASH
}

/// `rest` taken from inside `base`. An absolute `rest` stands on its own.
pub open spec fn joined(base: Seq<u8>, rest: Seq<u8>) -> Seq<u8> {
    if absolute(rest) || base.len() == 0 {
        rest
    } else if base.last() == SLASH {
        base + rest
    } else {
        base.push(SLASH) + rest
    }
}

impl Clone for FilePath {
    fn clone(&self) -> (r: FilePath)
        ensures
            r@ == self@,
    {
        let bytes = self.bytes.clone();
        assert(bytes@ =~= self.bytes@);
        FilePath { bytes }
    }
}

impl PartialEq for FilePath {
    fn eq(&self, other: &FilePath) -> (r: bool) {
        same_parts(&self.components(), &other.components())
    }
}

impl vstd::std_specs::cmp::PartialEqSpecImpl for FilePath {
    open spec fn obeys_eq_spec() -> bool {
        true
    }

    open spec fn eq_spec(&self, other: &FilePath) -> bool {
        same_place(self@, other@)
    }
}

/// Whether two lists of names are the same.
pub fn same_parts(a: &Vec<Vec<u8>>, b: &Vec<Vec<u8>>) -> (r: bool)
    ensures
        r == (a.deep_view() == b.deep_view()),
{
    if a.len() != b.len() {
        assert(a.deep_view().len() != b.deep_view().len());
        return false;
    }
    let mut i: usize = a.len();
    while i > 0
        invariant
            i <= a@.len(),
            a@.len() == b@.len(),
            forall|j: int| i <= j < a@.len() ==> a.deep_view()[j] == b.deep_view()[j],
        decreases i,
    {
        i = i - 1;
        assert(a.deep_view()[i as int] =~= a@[i as int]@);
        assert(b.deep_view()[i as int] =~= b@[i as int]@);
        if !same_bytes(a[i].as_slice(), b[i].as_slice()) {
            return false;
        }
    }
    assert(a.deep_view() =~= b.deep_view());
    true
}

/// Whether a list of names begins with another.
pub fn parts_start(a: &Vec<Vec<u8>>, p: &Vec<Vec<u8>>) -> (r: bool)
    ensures
        r == lists::starts(a.deep_view(), p.deep_view()),
{
    if a.len() < p.len() {
        return false;
    }
    let mut i: usize = 0;
    while i < p.len()
        invariant
            i <= p@.len(),
            p@.len() <= a@.len(),
            forall|j: int| 0 <= j < i ==> a.deep_view()[j] == p.deep_view()[j],
        decreases p@.len() - i,
    {
        assert(a.deep_view()[i as int] =~= a@[i as int]@);
        assert(p.deep_view()[i as int] =~= p@[i as int]@);
        if !same_bytes(a[i].as_slice(), p[i].as_slice()) {
            assert(a.deep_view().take(p@.len() as int)[i as int] != p.deep_view()[i as int]);
            return false;
        }
        i = i + 1;
    }
    assert(a.deep_view().take(p@.len() as int) =~= p.deep_view());
    true
}

fn is_idle(name: &[u8]) -> (r: bool)
    ensures
        r == idle(name@),
{
    let r = name.len() == 0 || (name.len() == 1 && name[0] == DOT);
    assert(r == idle(name@)) by {
        if name@.len() == 1 && name@[0] == DOT {
            assert(name@ =~= seq![DOT]);
        }
    }
    r
}

/// Where the last dot of a name stands, if there is one past its front.
fn inner_dot(name: &[u8]) -> (r: Option<usize>)
    ensures
        r is Some <==> last_dot(name@) > 0,
        r matches Some(i) ==> i == last_dot(name@) && i < name@.len(),
{
    let mut i: usize = name.len();
    assert(name@.take(i as int) =~= name@);
    while i > 0
        invariant
            i <= name@.len(),
            last_dot(name@.take(i as int)) == last_dot(name@),
        decreases i,
    {
        assert(name@.take(i as int).drop_last() =~= name@.take(i - 1));
        assert(name@.take(i as int).last() == name@[i - 1]);
        i = i - 1;
        if name[i] == DOT {
            return if i > 0 {
                Some(i)
            } else {
                None
            };
        }
    }
    None
}

impl FilePath {
    pub fn new(bytes: Vec<u8>) -> (p: FilePath)
        ensures
            p@ == bytes@,
    {
        FilePath { bytes }
    }

    /// The path a text spells.
    pub fn from_text(text: &str) -> (p: FilePath)
        ensures
            p@ == encode_utf8(text@),
    {
        FilePath { bytes: vstd::slice::slice_to_vec(text.as_bytes()) }
    }

    /// The path as text, when its bytes are any.
    pub fn to_text(&self) -> (r: Option<String>)
        ensures
            r.deep_view() == as_text(self@),
    {
        match from_utf8(self.bytes.as_slice()) {
            Some(text) => Some(text.to_string()),
            None => None,
        }
    }

    /// The list of names the path is made of.
    pub fn components(&self) -> (parts: Vec<Vec<u8>>)
        ensures
            parts.deep_view() == components(self@),
    {
        let b = self.bytes.as_slice();
        let mut parts: Vec<Vec<u8>> = Vec::new();
        let first: usize = find_byte(b, SLASH);
        proof {
            lists::find_first(b@, SLASH);
        }
        if b.len() > 0 && b[0] == SLASH {
            let mut root: Vec<u8> = Vec::new();
            root.push(SLASH);
            assert(root.deep_view() =~= seq![SLASH]);
            parts.push(root);
            assert(parts.deep_view() =~= seq![seq![SLASH]]);
        } else if first == 1 && b[0] == DOT {
            assert(lists::split(b@, SLASH)[0] =~= seq![DOT]);
            let mut dot: Vec<u8> = Vec::new();
            dot.push(DOT);
            assert(dot.deep_view() =~= seq![DOT]);
            parts.push(dot);
            assert(parts.deep_view() =~= seq![seq![DOT]]);
        } else {
            assert(lists::split(b@, SLASH)[0] =~= b@.take(first as int));
            assert(lists::split(b@, SLASH)[0] != seq![DOT]) by {
                if lists::split(b@, SLASH)[0] == seq![DOT] {
                    assert(b@.take(first as int).len() == 1);
                    assert(b@.take(first as int)[0] == DOT);
                }
            }
            assert(parts.deep_view() =~= seq![]);
        }
        let mut rest = b;
        loop
            invariant
                parts.deep_view() + named(lists::split(rest@, SLASH)) == components(self@),
            decreases rest@.len(),
        {
            let ghost before = parts.deep_view();
            let n: usize = find_byte(rest, SLASH);
            let name = vstd::slice::slice_subrange(rest, 0, n);
            assert(name@ =~= rest@.take(n as int));
            let ghost pieces = lists::split(rest@, SLASH);
            assert(n < rest@.len() ==> pieces.drop_first() =~= lists::split(rest@.skip(n + 1), SLASH));
            assert(n == rest@.len() ==> rest@.take(n as int) =~= rest@);
            assert(n == rest@.len() ==> pieces.drop_first() =~= seq![]);
            assert(pieces[0] == name@);
            if !is_idle(name) {
                let owned = vstd::slice::slice_to_vec(name);
                assert(owned.deep_view() =~= name@);
                parts.push(owned);
                assert(parts.deep_view() =~= before.push(name@));
            }
            assert(parts.deep_view() + named(pieces.drop_first()) =~= before + named(pieces));
            if n == rest.len() {
                assert(parts.deep_view() + named(seq![]) =~= parts.deep_view());
                return parts;
            }
            let ghost old_rest = rest@;
            rest = vstd::slice::slice_subrange(rest, n + 1, rest.len());
            assert(rest@ =~= old_rest.skip(n + 1));
        }
    }

    /// Whether the path is `root` or lies somewhere below it. Whole names are
    /// compared, so a sibling whose name merely begins the same way is not below.
    pub fn starts_with(&self, root: &FilePath) -> (r: bool)
        ensures
            r == under(self@, root@),
    {
        parts_start(&self.components(), &root.components())
    }

    pub fn is_absolute(&self) -> (r: bool)
        ensures
            r == absolute(self@),
    {
        self.bytes.len() > 0 && self.bytes[0] == SLASH
    }

    pub fn join(&self, rest: &FilePath) -> (r: FilePath)
        ensures
            r@ == joined(self@, rest@),
    {
        if rest.is_absolute() || self.bytes.len() == 0 {
            return rest.clone();
        }
        let mut r = self.clone();
        if self.bytes[self.bytes.len() - 1] != SLASH {
            r.bytes.push(SLASH);
        }
        let mut i: usize = 0;
        let ghost start = r.bytes@;
        assert(start + rest@.take(0) =~= start);
        while i < rest.bytes.len()
            invariant
                i <= rest.bytes@.len(),
                r.bytes@ == start + rest@.take(i as int),
            decreases rest.bytes@.len() - i,
        {
            assert((start + rest@.take(i as int)).push(rest@[i as int]) =~= start + rest@.take(
                i + 1,
            ));
            r.bytes.push(rest.bytes[i]);
            i = i + 1;
        }
        assert(rest@.take(rest@.len() as int) =~= rest@);
        r
    }

    /// The last name of the path, when it is the name of something.
    pub fn file_name(&self) -> (r: Option<Vec<u8>>)
        ensures
            r.deep_view() == file_name(self@),
    {
        let mut parts = self.components();
        let ghost all = parts.deep_view();
        match parts.pop() {
            Some(name) => {
                assert(all.last() =~= name@);
                assert(name.deep_view() =~= name@);
                let improper = (name.len() == 1 && (name[0] == SLASH || name[0] == DOT)) || (
                name.len() == 2 && name[0] == DOT && name[1] == DOT);
                assert(improper == !proper(name@)) by {
                    if name@.len() == 1 {
                        assert(name@ =~= seq![name@[0]]);
                    } else if name@.len() == 2 {
                        assert(name@ =~= seq![name@[0], name@[1]]);
                    }
                }
                if improper {
                    None
                } else {
                    Some(name)
                }
            },
            None => None,
        }
    }

    /// The file name without its extension, as text.
    pub fn file_stem(&self) -> (r: Option<String>)
        ensures
            r.deep_view() == stem_text(self@),
    {
        match self.file_name() {
            Some(name) => {
                assert(name.deep_view() =~= name@);
                let end: usize = match inner_dot(name.as_slice()) {
                    Some(dot) => dot,
                    None => name.len(),
                };
                let stem = vstd::slice::slice_subrange(name.as_slice(), 0, end);
                assert(stem@ =~= stem_of(name@));
                match from_utf8(stem) {
                    Some(text) => Some(text.to_string()),
                    None => None,
                }
            },
            None => None,
        }
    }

    /// The extension of the file name, as text.
    pub fn extension(&self) -> (r: Option<String>)
        ensures
            r.deep_view() == extension_text(self@),
    {
        match self.file_name() {
            Some(name) => {
                assert(name.deep_view() =~= name@);
                let len: usize = name.len();
                match inner_dot(name.as_slice()) {
                    Some(dot) => {
                        assert(dot < len);
                        let extension = vstd::slice::slice_subrange(
                            name.as_slice(),
                            dot + 1,
                            name.len(),
                        );
                        assert(extension@ =~= name@.skip(dot + 1));
                        match from_utf8(extension) {
                            Some(text) => Some(text.to_string()),
                            None => None,
                        }
                    },
                    None => None,
                }
            },
            None => None,
        }
    }

    /// Whether the path leads to the same place as one of `paths`.
    pub fn is_among(&self, paths: &[FilePath]) -> (r: bool)
        ensures
            r == among(self@, views(paths@)),
    {
        let parts = self.components();
        let mut i: usize = 0;
        while i < paths.len()
            invariant
                i <= paths@.len(),
                parts.deep_view() == components(self@),
                forall|j: int| 0 <= j < i ==> !same_place(self@, #[trigger] views(paths@)[j]),
            decreases paths@.len() - i,
        {
            let ghost here = views(paths@)[i as int];
            if same_parts(&parts, &paths[i].components()) {
                assert(same_place(self@, here));
                return true;
            }
            i = i + 1;
        }
        false
    }

    /// Whether the path lies under one of `roots`.
    pub fn is_under_any(&self, roots: &[FilePath]) -> (r: bool)
        ensures
            r == under_any(self@, views(roots@)),
    {
        let parts = self.components();
        let mut i: usize = 0;
        while i < roots.len()
            invariant
                i <= roots@.len(),
                parts.deep_view() == components(self@),
                forall|j: int| 0 <= j < i ==> !under(self@, #[trigger] views(roots@)[j]),
            decreases roots@.len() - i,
        {
            let ghost here = views(roots@)[i as int];
            if parts_start(&parts, &roots[i].components()) {
                assert(under(self@, here));
                return true;
            }
            i = i + 1;
        }
        false
    }
}

/// Copies a list of paths.
pub fn clone_paths(paths: &[FilePath]) -> (r: Vec<FilePath>)
    ensures
        views(r@) == views(paths@),
{
    let mut r: Vec<FilePath> = Vec::new();
    let mut i: usize = 0;
    while i < paths.len()
        invariant
            i <= paths@.len(),
            r@.len() == i,
            forall|j: int| 0 <= j < i ==> (#[trigger] r@[j])@ == paths@[j]@,
        decreases paths@.len() - i,
    {
        r.push(paths[i].clone());
        i = i + 1;
    }
    assert(views(r@) =~= views(paths@));
    r
}

/// A place lies under itself, and under whatever its own root lies under.
pub proof fn under_is_an_order(a: Seq<u8>, b: Seq<u8>, c: Seq<u8>)
    ensures
        under(a, a),
        under(a, b) && under(b, c) ==> under(a, c),
        under(a, b) && under(b, a) ==> same_place(a, b),
{
    let (x, y, z) = (components(a), components(b), components(c));
    assert(x.take(x.len() as int) =~= x);
    if under(a, b) && under(b, c) {
        assert(x.take(z.len() as int) =~= y.take(z.len() as int)) by {
            assert forall|i: int| 0 <= i < z.len() implies x[i] == y[i] by {
                assert(x.take(y.len() as int)[i] == y[i]);
            }
        }
    }
    if under(a, b) && under(b, a) {
        assert(x.take(y.len() as int) =~= x);
    }
}

/// Paths that lead to the same place lie under the same roots, and have the same
/// places under them.
pub proof fn place_decides(a: Seq<u8>, b: Seq<u8>, c: Seq<u8>)
    requires
        same_place(a, b),
    ensures
        under(a, c) == under(b, c),
        under(c, a) == under(c, b),
        same_place(a, c) == same_place(b, c),
{
}

/// Cutting two lists with `x` between them gives the pieces of the one and then those of
/// the other.
proof fn pieces_of_both(a: Seq<u8>, b: Seq<u8>)
    ensures
        lists::split(a.push(SLASH) + b, SLASH) == lists::split(a, SLASH) + lists::split(b, SLASH),
        a.len() > 0 ==> lists::split(a.push(SLASH) + b, SLASH)[0] == lists::split(a, SLASH)[0],
    decreases a.len(),
{
    lists::find_first(a, SLASH);
    let n = lists::find(a, SLASH);
    let s = a.push(SLASH) + b;
    if n < a.len() {
        let front = a.take(n);
        let rest = a.skip(n + 1);
        assert(a =~= front.push(SLASH) + rest);
        assert(s =~= front.push(SLASH) + (rest.push(SLASH) + b));
        lists::pieces_lie_between(front, SLASH, rest);
        lists::pieces_lie_between(front, SLASH, rest.push(SLASH) + b);
        pieces_of_both(rest, b);
        assert(lists::split(s, SLASH) =~= lists::split(a, SLASH) + lists::split(b, SLASH));
    } else {
        lists::pieces_lie_between(a, SLASH, b);
    }
    lists::split_pieces(a, SLASH);
}

proof fn names_of_both(a: Seq<Seq<u8>>, b: Seq<Seq<u8>>)
    ensures
        named(a + b) == named(a) + named(b),
    decreases a.len(),
{
    if a.len() == 0 {
        assert(a + b =~= b);
        assert(named(a) + named(b) =~= named(b));
    } else {
        names_of_both(a.drop_first(), b);
        assert((a + b).drop_first() =~= a.drop_first() + b);
        assert(named(a + b) =~= named(a) + named(b));
    }
}

proof fn one_name(name: Seq<u8>)
    requires
        !name.contains(SLASH),
    ensures
        lists::split(name, SLASH) == seq![name],
        !idle(name) ==> named(seq![name]) == seq![name],
        idle(name) ==> named(seq![name]) == Seq::<Seq<u8>>::empty(),
{
    lists::pieces_lie_between(name, SLASH, seq![]);
    assert(seq![name].drop_first() =~= seq![]);
    assert(named(Seq::<Seq<u8>>::empty()) == Seq::<Seq<u8>>::empty());
    assert(seq![name] + Seq::<Seq<u8>>::empty() =~= seq![name]);
}

/// What a path is made of, name by name. Nothing is made of nothing, the root of itself,
/// and a name of itself. A name taken from inside a path is made of that path's names and
/// its own behind them. A slash at the end, two of them and a dot between two make no
/// difference.
pub proof fn a_path_is_its_names(base: Seq<u8>, name: Seq<u8>)
    requires
        base.len() > 0,
        name.len() > 0,
        !name.contains(47u8),
        name != seq![46u8],
    ensures
        components(Seq::<u8>::empty()) == Seq::<Seq<u8>>::empty(),
        components(seq![47u8]) == seq![seq![47u8]],
        components(seq![46u8]) == seq![seq![46u8]],
        components(name) == seq![name],
        components(base.push(47u8) + name) == components(base).push(name),
        components(joined(base, name)) == components(base).push(name),
        components(base.push(47u8)) == components(base),
        components(base.push(47u8).push(46u8)) == components(base),
{
    let empty = Seq::<u8>::empty();
    one_name(name);
    one_name(empty);
    one_name(seq![46u8]);
    lists::split_pieces(base, SLASH);
    assert(components(empty) =~= Seq::<Seq<u8>>::empty()) by {
        assert(lists::split(empty, SLASH)[0] == empty);
        assert(empty != seq![DOT]) by {
            assert(empty.len() != seq![DOT].len());
        }
    }
    pieces_of_both(empty, empty);
    assert(empty.push(SLASH) + empty =~= seq![47u8]);
    names_of_both(seq![empty], seq![empty]);
    assert(components(seq![47u8]) =~= seq![seq![47u8]]);
    assert(components(seq![46u8]) =~= seq![seq![46u8]]) by {
        assert(lists::split(seq![46u8], SLASH)[0] == seq![46u8]);
    }
    assert(components(name) =~= seq![name]) by {
        assert(lists::split(name, SLASH)[0] == name);
        if name[0] == SLASH {
            assert(name.contains(SLASH));
        }
    }
    let parts = lists::split(base, SLASH);
    pieces_of_both(base, name);
    names_of_both(parts, seq![name]);
    assert(components(base.push(47u8) + name) =~= components(base).push(name));
    pieces_of_both(base, empty);
    names_of_both(parts, seq![empty]);
    assert(base.push(SLASH) + empty =~= base.push(47u8));
    assert(components(base.push(47u8)) =~= components(base));
    pieces_of_both(base, seq![46u8]);
    names_of_both(parts, seq![seq![46u8]]);
    assert(base.push(SLASH) + seq![46u8] =~= base.push(47u8).push(46u8));
    assert(components(base.push(47u8).push(46u8)) =~= components(base));
    if name[0] == SLASH {
        assert(name.contains(SLASH));
    }
    if base.last() == SLASH {
        let shorter = base.drop_last();
        assert(shorter.push(SLASH) =~= base);
        pieces_of_both(shorter, name);
        pieces_of_both(shorter, empty);
        assert(shorter.push(SLASH) + empty =~= base);
        assert(shorter.push(SLASH) + name =~= base + name);
        let pieces = lists::split(shorter, SLASH);
        names_of_both(pieces, seq![name]);
        names_of_both(pieces, seq![empty]);
        lists::split_pieces(shorter, SLASH);
        assert(lists::split(base, SLASH)[0] == pieces[0]);
        assert(lists::split(base + name, SLASH)[0] == pieces[0]);
        assert(head(base + name) == head(base));
        assert(components(base + name) =~= components(base).push(name));
    }
}

/// A path lies under another exactly when it is made of the other's names and perhaps more
/// behind them: whole names, so that what merely begins the same way does not. What is
/// taken from inside a folder lies under it.
pub proof fn under_goes_by_whole_names(a: Seq<u8>, b: Seq<u8>, name: Seq<u8>)
    ensures
        under(a, b) <==> exists|more: Seq<Seq<u8>>| components(a) == #[trigger] (components(b) + more),
        same_place(a, b) <==> components(a) == components(b),
        b.len() > 0 && name.len() > 0 && !name.contains(47u8) && name != seq![46u8] ==> under(
            joined(b, name),
            b,
        ) && !same_place(joined(b, name), b) && !under(b, joined(b, name)),
{
    let (x, y) = (components(a), components(b));
    if under(a, b) {
        assert(x =~= y + x.skip(y.len() as int));
    }
    if exists|more: Seq<Seq<u8>>| x == #[trigger] (y + more) {
        let more = choose|more: Seq<Seq<u8>>| x == #[trigger] (y + more);
        assert(x.take(y.len() as int) =~= y);
    }
    if b.len() > 0 && name.len() > 0 && !name.contains(47u8) && name != seq![46u8] {
        a_path_is_its_names(b, name);
        let inner = components(joined(b, name));
        assert(inner.take(y.len() as int) =~= y);
        assert(inner.len() == y.len() + 1);
    }
}

/// A file is called by the last name of its path. What follows the last dot of that name
/// is its extension, unless nothing stands before the dot, and what precedes it the rest of
/// its name; a name without a dot has no extension.
pub proof fn a_file_is_called_by_its_last_name(
    base: Seq<u8>,
    stem: Seq<u8>,
    extension: Seq<u8>,
)
    requires
        base.len() > 0,
        stem.len() > 0,
        !stem.contains(47u8),
        !extension.contains(47u8),
        !extension.contains(46u8),
        stem != seq![46u8] || extension.len() > 0,
    ensures
        ({
            let full = stem.push(46u8) + extension;
            &&& file_name(joined(base, full)) == Some(full)
            &&& extension_of(full) == Some(extension)
            &&& stem_of(full) == stem
            &&& extension_text(joined(base, full)) == (if valid_utf8(extension) {
                Some(decode_utf8(extension))
            } else {
                None
            })
            &&& stem_text(joined(base, full)) == (if valid_utf8(stem) {
                Some(decode_utf8(stem))
            } else {
                None
            })
        }),
        extension.len() > 0 ==> {
            &&& extension_of(extension) is None
            &&& stem_of(extension) == extension
            &&& extension_of(seq![46u8] + extension) is None
            &&& stem_of(seq![46u8] + extension) == seq![46u8] + extension
            &&& file_name(joined(base, extension)) == Some(extension)
            &&& extension_text(joined(base, extension)) is None
        },
{
    let full = stem.push(46u8) + extension;
    assert forall|i: int| 0 <= i < full.len() implies full[i] != 47u8 by {
        if i < stem.len() {
            assert(full[i] == stem[i]);
        } else if i > stem.len() {
            assert(full[i] == extension[i - stem.len() - 1]);
        }
    }
    assert(full != seq![46u8]) by {
        assert(full.len() >= 2);
    }
    assert(full != seq![46u8, 46u8]) by {
        if full == seq![46u8, 46u8] {
            assert(full.len() == 2);
            if extension.len() == 0 {
                assert(stem =~= seq![46u8]) by {
                    assert(stem[0] == full[0]);
                }
            }
        }
    }
    assert(full != seq![SLASH]) by {
        assert(full.len() >= 2);
    }
    a_path_is_its_names(base, full);
    assert(components(joined(base, full)).last() == full);
    the_last_dot(stem, extension);
    assert(full.skip(stem.len() + 1int) =~= extension);
    assert(full.take(stem.len() as int) =~= stem);
    if extension.len() > 0 {
        assert(extension != seq![46u8]) by {
            if extension == seq![46u8] {
                assert(extension[0] == 46u8);
            }
        }
        assert(extension != seq![SLASH]) by {
            if extension == seq![SLASH] {
                assert(extension[0] == 47u8);
            }
        }
        assert(extension != seq![46u8, 46u8]) by {
            if extension == seq![46u8, 46u8] {
                assert(extension[0] == 46u8);
            }
        }
        a_path_is_its_names(base, extension);
        assert(components(joined(base, extension)).last() == extension);
        no_dot(extension);
        the_last_dot(seq![], extension);
        assert(Seq::<u8>::empty().push(46u8) + extension =~= seq![46u8] + extension);
    }
}

proof fn no_dot(name: Seq<u8>)
    requires
        !name.contains(46u8),
    ensures
        last_dot(name) == -1,
    decreases name.len(),
{
    if name.len() > 0 {
        assert(name.contains(name.last()));
        let front = name.drop_last();
        if front.contains(46u8) {
            let i = choose|i: int| 0 <= i < front.len() && front[i] == 46u8;
            assert(name[i] == 46u8);
        }
        no_dot(front);
    }
}

proof fn the_last_dot(stem: Seq<u8>, extension: Seq<u8>)
    requires
        !extension.contains(46u8),
    ensures
        last_dot(stem.push(46u8) + extension) == stem.len(),
    decreases extension.len(),
{
    let full = stem.push(46u8) + extension;
    if extension.len() > 0 {
        assert(extension.contains(extension.last()));
        let front = extension.drop_last();
        if front.contains(46u8) {
            let i = choose|i: int| 0 <= i < front.len() && front[i] == 46u8;
            assert(extension[i] == 46u8);
        }
        the_last_dot(stem, front);
        assert(full.drop_last() =~= stem.push(46u8) + front);
    } else {
        assert(full =~= stem.push(46u8));
        assert(full.last() == DOT);
    }
}

/// What is taken from inside a folder stands behind it and one slash; what is absolute
/// stands on its own. What is text is told by its bytes.
pub proof fn taking_from_inside_puts_a_slash_between(base: Seq<u8>, rest: Seq<u8>, text: Seq<char>)
    ensures
        rest.len() > 0 && rest[0] == 47 ==> joined(base, rest) == rest && absolute(rest),
        base.len() == 0 ==> joined(base, rest) == rest,
        !(rest.len() > 0 && rest[0] == 47) ==> !absolute(rest),
        base.len() > 0 && base.last() == 47 && !(rest.len() > 0 && rest[0] == 47) ==> joined(
            base,
            rest,
        ) == base + rest,
        base.len() > 0 && base.last() != 47 && !(rest.len() > 0 && rest[0] == 47) ==> joined(
            base,
            rest,
        ) == base + seq![47u8] + rest,
        as_text(encode_utf8(text)) == Some(text),
        as_text(base) matches Some(t) ==> encode_utf8(t) == base,
{
    broadcast use {encode_utf8_valid_utf8, encode_utf8_decode_utf8};

    assert(base.push(SLASH) + rest =~= base + seq![47u8] + rest);
    if valid_utf8(base) {
        decode_utf8_encode_utf8(base);
    }
}

} // verus!
