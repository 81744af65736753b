//! The order files are listed in: by the names their paths are made of, one name
//! after the other, so that everything in a folder stays together.

use crate::lists;
use crate::lists::same_bytes;
use crate::path;
use crate::path::{FilePath, DOT, SLASH};
use vstd::prelude::*;

verus! {

/// Whether a run of bytes comes before another, as in a dictionary.
pub open spec fn bytes_before(a: Seq<u8>, b: Seq<u8>) -> bool
    decreases a.len(),
{
    if b.len() == 0 {
        false
    } else if a.len() == 0 {
        true
    } else {
        a[0] < b[0] || (a[0] == b[0] && bytes_before(a.drop_first(), b.drop_first()))
    }
}

/// What kind of name it is: the root comes first, then a leading dot, then a way
/// up, then the names of things.
pub open spec fn kind(name: Seq<u8>) -> int {
    if name == seq![SLASH] {
        0
    } else if name == seq![DOT] {
        1
    } else if name == seq![DOT, DOT] {
        2
    } else {
        3
    }
}

/// Whether a name comes before another.
pub open spec fn name_before(a: Seq<u8>, b: Seq<u8>) -> bool {
    kind(a) < kind(b) || (kind(a) == 3 && kind(b) == 3 && bytes_before(a, b))
}

/// Whether a list of names comes before another.
pub open spec fn names_before(a: Seq<Seq<u8>>, b: Seq<Seq<u8>>) -> bool
    decreases a.len(),
{
    if b.len() == 0 {
        false
    } else if a.len() == 0 {
        true
    } else {
        name_before(a[0], b[0]) || (a[0] == b[0] && names_before(a.drop_first(), b.drop_first()))
    }
}

/// Whether a path comes before another.
pub open spec fn before(a: Seq<u8>, b: Seq<u8>) -> bool {
    names_before(path::components(a), path::components(b))
}

/// Whether a list of paths is in order.
pub open spec fn sorted(paths: Seq<Seq<u8>>) -> bool {
    forall|i: int, j: int|
        0 <= i < j < paths.len() ==> !before(#[trigger] paths[j], #[trigger] paths[i])
}

/// Where `p` goes in a list: behind everything that does not come after it.
pub open spec fn place(paths: Seq<Seq<u8>>, p: Seq<u8>) -> int
    decreases paths.len(),
{
    if paths.len() == 0 || before(p, paths[0]) {
        0
    } else {
        1 + place(paths.drop_first(), p)
    }
}

/// The list put in order, paths that lead to the same place staying in the order
/// they came in.
pub open spec fn in_order(paths: Seq<Seq<u8>>) -> Seq<Seq<u8>>
    decreases paths.len(),
{
    if paths.len() == 0 {
        seq![]
    } else {
        let rest = in_order(paths.drop_last());
        rest.insert(place(rest, paths.last()), paths.last())
    }
}

/// The list without the paths that lead to the same place as the one before.
pub open spec fn deduped(paths: Seq<Seq<u8>>) -> Seq<Seq<u8>>
    decreases paths.len(),
{
    if paths.len() == 0 {
        seq![]
    } else {
        let rest = deduped(paths.drop_last());
        if rest.len() > 0 && path::same_place(rest.last(), paths.last()) {
            rest
        } else {
            rest.push(paths.last())
        }
    }
}

proof fn bytes_order(a: Seq<u8>, b: Seq<u8>, c: Seq<u8>)
    ensures
        !bytes_before(a, a),
        bytes_before(a, b) && bytes_before(b, c) ==> bytes_before(a, c),
        bytes_before(a, b) || bytes_before(b, a) || a == b,
    decreases a.len(),
{
    if a.len() > 0 {
        let (x, y, z) = (a.drop_first(), b.drop_first(), c.drop_first());
        bytes_order(x, y, z);
        if b.len() > 0 && a[0] == b[0] && x == y {
            assert(a =~= seq![a[0]] + x);
            assert(b =~= seq![b[0]] + y);
        }
    } else if b.len() == 0 {
        assert(a =~= b);
    }
}

proof fn name_order(a: Seq<u8>, b: Seq<u8>, c: Seq<u8>)
    ensures
        !name_before(a, a),
        name_before(a, b) && name_before(b, c) ==> name_before(a, c),
        name_before(a, b) || name_before(b, a) || a == b,
{
    bytes_order(a, b, c);
}

proof fn names_order(a: Seq<Seq<u8>>, b: Seq<Seq<u8>>, c: Seq<Seq<u8>>)
    ensures
        !names_before(a, a),
        names_before(a, b) && names_before(b, c) ==> names_before(a, c),
        names_before(a, b) || names_before(b, a) || a == b,
    decreases a.len(),
{
    if a.len() > 0 {
        let (x, y, z) = (a.drop_first(), b.drop_first(), c.drop_first());
        names_order(x, y, z);
        name_order(a[0], a[0], a[0]);
        if b.len() > 0 {
            name_order(a[0], b[0], a[0]);
            if c.len() > 0 {
                name_order(a[0], b[0], c[0]);
            }
            if a[0] == b[0] && x == y {
                assert(a =~= seq![a[0]] + x);
                assert(b =~= seq![b[0]] + y);
            }
        }
    } else if b.len() == 0 {
        assert(a =~= b);
    }
}

/// The order is one: nothing comes before itself, it carries over, and of two
/// places one comes first.
pub proof fn before_is_an_order(a: Seq<u8>, b: Seq<u8>, c: Seq<u8>)
    ensures
        !before(a, a),
        before(a, b) && before(b, c) ==> before(a, c),
        before(a, b) || before(b, a) || path::same_place(a, b),
        before(a, b) ==> !before(b, a),
{
    names_order(path::components(a), path::components(b), path::components(c));
    names_order(path::components(a), path::components(b), path::components(a));
}

proof fn place_bounds(paths: Seq<Seq<u8>>, p: Seq<u8>)
    ensures
        0 <= place(paths, p) <= paths.len(),
        forall|i: int| 0 <= i < place(paths, p) ==> !before(p, #[trigger] paths[i]),
        place(paths, p) < paths.len() ==> before(p, paths[place(paths, p)]),
    decreases paths.len(),
{
    if paths.len() > 0 && !before(p, paths[0]) {
        let rest = paths.drop_first();
        place_bounds(rest, p);
        assert forall|i: int| 0 <= i < place(paths, p) implies !before(p, #[trigger] paths[i]) by {
            if i > 0 {
                assert(paths[i] == rest[i - 1]);
            }
        }
    }
}

proof fn place_is(paths: Seq<Seq<u8>>, p: Seq<u8>, n: int)
    requires
        0 <= n <= paths.len(),
        forall|i: int| 0 <= i < n ==> !before(p, #[trigger] paths[i]),
        n < paths.len() ==> before(p, paths[n]),
    ensures
        place(paths, p) == n,
{
    place_bounds(paths, p);
    let m = place(paths, p);
    if m < n {
        assert(!before(p, paths[m]));
    } else if n < m {
        assert(!before(p, paths[n]));
    }
}

proof fn inserting_keeps_order(paths: Seq<Seq<u8>>, p: Seq<u8>)
    requires
        sorted(paths),
    ensures
        sorted(paths.insert(place(paths, p), p)),
{
    place_bounds(paths, p);
    let n = place(paths, p);
    let out = paths.insert(n, p);
    assert forall|i: int, j: int| 0 <= i < j < out.len() implies !before(
        #[trigger] out[j],
        #[trigger] out[i],
    ) by {
        if i == n {
            // What stands behind `p` comes after it.
            before_is_an_order(p, paths[n], p);
            before_is_an_order(p, paths[j - 1], paths[n]);
            before_is_an_order(paths[j - 1], p, paths[n]);
            if before(out[j], p) {
                assert(before(paths[j - 1], paths[n]));
                assert(j - 1 == n || !before(paths[j - 1], paths[n]));
                before_is_an_order(paths[n], paths[n], paths[n]);
            }
        } else if j == n {
            assert(!before(p, paths[i]));
        } else {
            let a = if i < n { i } else { i - 1 };
            let b = if j < n { j } else { j - 1 };
            assert(out[i] == paths[a] && out[j] == paths[b]);
            assert(!before(paths[b], paths[a]));
        }
    }
}

/// Putting a list in order leaves it in order, with every path in it as often as
/// before.
pub proof fn in_order_sorts(paths: Seq<Seq<u8>>)
    ensures
        sorted(in_order(paths)),
        in_order(paths).to_multiset() == paths.to_multiset(),
        in_order(paths).len() == paths.len(),
    decreases paths.len(),
{
    broadcast use vstd::seq_lib::group_to_multiset_ensures;

    if paths.len() > 0 {
        let front = paths.drop_last();
        let rest = in_order(front);
        in_order_sorts(front);
        inserting_keeps_order(rest, paths.last());
        place_bounds(rest, paths.last());
        assert(paths =~= front.push(paths.last()));
    }
}

/// In a list that is in order, dropping what leads to the same place as the path
/// before leaves no place twice, keeps every place, and keeps the order.
pub proof fn deduped_is_distinct(paths: Seq<Seq<u8>>)
    requires
        sorted(paths),
    ensures
        sorted(deduped(paths)),
        forall|i: int, j: int|
            0 <= i < j < deduped(paths).len() ==> !path::same_place(
                #[trigger] deduped(paths)[i],
                #[trigger] deduped(paths)[j],
            ),
        forall|i: int|
            0 <= i < deduped(paths).len() ==> #[trigger] paths.contains(deduped(paths)[i]),
        forall|i: int|
            0 <= i < paths.len() ==> path::among(#[trigger] paths[i], deduped(paths)),
        paths.len() > 0 ==> deduped(paths).len() > 0 && path::same_place(
            deduped(paths).last(),
            paths.last(),
        ),
    decreases paths.len(),
{
    if paths.len() > 0 {
        let front = paths.drop_last();
        let rest = deduped(front);
        let p = paths.last();
        deduped_is_distinct(front);
        let out = deduped(paths);
        assert forall|i: int| 0 <= i < out.len() implies #[trigger] paths.contains(out[i]) by {
            if i < rest.len() {
                assert(front.contains(rest[i]));
                let k = choose|k: int| 0 <= k < front.len() && front[k] == rest[i];
                assert(paths[k] == out[i]);
            } else {
                assert(paths[paths.len() - 1] == out[i]);
            }
        }
        assert forall|i: int| 0 <= i < paths.len() implies path::among(
            #[trigger] paths[i],
            out,
        ) by {
            if i < front.len() {
                assert(front[i] == paths[i]);
                assert(path::among(front[i], rest));
                let k = choose|k: int|
                    0 <= k < rest.len() && path::same_place(front[i], #[trigger] rest[k]);
                assert(out[k] == rest[k]);
            } else {
                assert(path::same_place(paths[i], out.last()));
                assert(out[out.len() - 1] == out.last());
            }
        }
        assert forall|i: int, j: int| 0 <= i < j < out.len() implies !before(
            #[trigger] out[j],
            #[trigger] out[i],
        ) && !path::same_place(out[i], out[j]) by {
            if j < rest.len() {
                assert(out[j] == rest[j] && out[i] == rest[i]);
                assert(!before(rest[j], rest[i]));
                assert(!path::same_place(rest[i], rest[j]));
            } else {
                // `p` is new: it comes after the last place kept, which none of
                // the others comes after.
                assert(front.contains(rest[i]));
                let k = choose|k: int| 0 <= k < front.len() && front[k] == rest[i];
                assert(paths[k] == out[i]);
                assert(!before(paths[paths.len() - 1], paths[k]));
                let last = rest.last();
                assert(front.contains(rest[rest.len() - 1]));
                let m = choose|m: int| 0 <= m < front.len() && front[m] == last;
                assert(paths[m] == last);
                assert(!before(paths[paths.len() - 1], paths[m]));
                before_is_an_order(last, p, rest[i]);
                before_is_an_order(rest[i], last, p);
                if path::same_place(rest[i], p) {
                    if i < rest.len() - 1 {
                        assert(!before(rest[rest.len() - 1], rest[i]));
                        assert(before(last, p));
                    }
                }
            }
        }
    }
}

fn bytes_precede(a: &[u8], b: &[u8]) -> (r: bool)
    ensures
        r == bytes_before(a@, b@),
{
    let mut i: usize = 0;
    assert(a@.skip(0) =~= a@);
    assert(b@.skip(0) =~= b@);
    while i < a.len() && i < b.len()
        invariant
            i <= a@.len(),
            i <= b@.len(),
            bytes_before(a@, b@) == bytes_before(a@.skip(i as int), b@.skip(i as int)),
        decreases a@.len() - i,
    {
        assert(a@.skip(i as int).drop_first() =~= a@.skip(i + 1));
        assert(b@.skip(i as int).drop_first() =~= b@.skip(i + 1));
        if a[i] < b[i] {
            return true;
        }
        if b[i] < a[i] {
            return false;
        }
        i = i + 1;
    }
    i < b.len()
}

fn kind_of(name: &[u8]) -> (k: u8)
    ensures
        k == kind(name@),
{
    let root = name.len() == 1 && name[0] == SLASH;
    let dot = name.len() == 1 && name[0] == DOT;
    let up = name.len() == 2 && name[0] == DOT && name[1] == DOT;
    proof {
        if name@.len() == 1 {
            assert(name@ =~= seq![name@[0]]);
        } else if name@.len() == 2 {
            assert(name@ =~= seq![name@[0], name@[1]]);
        }
    }
    if root {
        0
    } else if dot {
        1
    } else if up {
        2
    } else {
        3
    }
}

fn names_precede(a: &Vec<Vec<u8>>, b: &Vec<Vec<u8>>) -> (r: bool)
    ensures
        r == names_before(a.deep_view(), b.deep_view()),
{
    let mut i: usize = 0;
    let ghost x = a.deep_view();
    let ghost y = b.deep_view();
    assert(x.skip(0) =~= x);
    assert(y.skip(0) =~= y);
    while i < a.len() && i < b.len()
        invariant
            i <= a@.len(),
            i <= b@.len(),
            x == a.deep_view(),
            y == b.deep_view(),
            names_before(x, y) == names_before(x.skip(i as int), y.skip(i as int)),
        decreases a@.len() - i,
    {
        let p = a[i].as_slice();
        let q = b[i].as_slice();
        assert(x[i as int] =~= p@);
        assert(y[i as int] =~= q@);
        assert(x.skip(i as int).drop_first() =~= x.skip(i + 1));
        assert(y.skip(i as int).drop_first() =~= y.skip(i + 1));
        let k: u8 = kind_of(p);
        let l: u8 = kind_of(q);
        if k < l || (k == 3 && l == 3 && bytes_precede(p, q)) {
            return true;
        }
        if !same_bytes(p, q) {
            return false;
        }
        i = i + 1;
    }
    i < b.len()
}

/// A path beside the names it is made of.
struct Keyed {
    path: FilePath,
    names: Vec<Vec<u8>>,
}

spec fn keyed_views(s: Seq<Keyed>) -> Seq<Seq<u8>> {
    s.map_values(|k: Keyed| k.path@)
}

spec fn keyed_well(s: Seq<Keyed>) -> bool {
    forall|i: int|
        0 <= i < s.len() ==> (#[trigger] s[i]).names.deep_view() == path::components(s[i].path@)
}

/// The place of a path in a list that is in order.
fn find_place(list: &Vec<Keyed>, names: &Vec<Vec<u8>>, Ghost(p): Ghost<Seq<u8>>) -> (n: usize)
    requires
        keyed_well(list@),
        sorted(keyed_views(list@)),
        names.deep_view() == path::components(p),
    ensures
        n == place(keyed_views(list@), p),
        n <= list@.len(),
{
    let ghost paths = keyed_views(list@);
    let mut low: usize = 0;
    let mut high: usize = list.len();
    while low < high
        invariant
            low <= high <= list@.len(),
            keyed_well(list@),
            paths == keyed_views(list@),
            sorted(paths),
            names.deep_view() == path::components(p),
            forall|i: int| 0 <= i < low ==> !before(p, #[trigger] paths[i]),
            forall|i: int| high <= i < paths.len() ==> before(p, #[trigger] paths[i]),
        decreases high - low,
    {
        let mid: usize = low + (high - low) / 2;
        assert(paths[mid as int] == list@[mid as int].path@);
        if names_precede(names, &list[mid].names) {
            proof {
                assert forall|i: int| mid <= i < paths.len() implies before(
                    p,
                    #[trigger] paths[i],
                ) by {
                    if i > mid {
                        assert(!before(paths[i], paths[mid as int]));
                        before_is_an_order(p, paths[mid as int], paths[i]);
                        before_is_an_order(paths[i], p, paths[mid as int]);
                        before_is_an_order(p, paths[i], paths[mid as int]);
                        if path::same_place(p, paths[i]) {
                            path::place_decides(p, paths[i], paths[mid as int]);
                        }
                    }
                }
            }
            high = mid;
        } else {
            proof {
                assert forall|i: int| 0 <= i <= mid implies !before(p, #[trigger] paths[i]) by {
                    if i < mid {
                        assert(!before(paths[mid as int], paths[i]));
                        before_is_an_order(p, paths[i], paths[mid as int]);
                        before_is_an_order(paths[i], paths[mid as int], p);
                        if path::same_place(paths[i], paths[mid as int]) {
                            path::place_decides(paths[i], paths[mid as int], p);
                        }
                    }
                }
            }
            low = mid + 1;
        }
    }
    proof {
        place_is(paths, p, low as int);
    }
    low
}

/// Puts a list of paths in order.
pub fn sort(paths: Vec<FilePath>) -> (r: Vec<FilePath>)
    ensures
        path::views(r@) == in_order(path::views(paths@)),
{
    let ghost all = path::views(paths@);
    let mut list: Vec<Keyed> = Vec::new();
    assert(keyed_views(list@) =~= in_order(all.take(0)));
    for p in it: paths.into_iter()
        invariant
            it.seq() == paths@,
            all == path::views(paths@),
            keyed_well(list@),
            keyed_views(list@) == in_order(all.take(it.index() as int)),
    {
        let ghost i = it.index() as int;
        proof {
            in_order_sorts(all.take(i));
            assert(all.take(i + 1).drop_last() =~= all.take(i));
            assert(all.take(i + 1).last() == p@);
        }
        let names = p.components();
        let n: usize = find_place(&list, &names, Ghost(p@));
        let ghost old_list = list@;
        list.insert(n, Keyed { path: p, names });
        assert(keyed_views(list@) =~= keyed_views(old_list).insert(n as int, p@));
    }
    assert(all.take(all.len() as int) =~= all);
    let mut r: Vec<FilePath> = Vec::new();
    let ghost sorted_list = list@;
    for k in it: list.into_iter()
        invariant
            it.seq() == sorted_list,
            path::views(r@) == keyed_views(sorted_list).take(it.index() as int),
    {
        let ghost old_r = r@;
        let ghost i = it.index() as int;
        let ghost view = k.path@;
        r.push(k.path);
        assert(path::views(r@) =~= path::views(old_r).push(view));
        assert(keyed_views(sorted_list).take(i + 1) =~= keyed_views(sorted_list).take(i).push(
            view,
        ));
    }
    assert(keyed_views(sorted_list).take(sorted_list.len() as int) =~= keyed_views(sorted_list));
    r
}

/// Drops every path that leads to the same place as the one before.
pub fn dedup(paths: Vec<FilePath>) -> (r: Vec<FilePath>)
    ensures
        path::views(r@) == deduped(path::views(paths@)),
{
    let ghost all = path::views(paths@);
    let mut r: Vec<FilePath> = Vec::new();
    assert(path::views(r@) =~= deduped(all.take(0)));
    for p in it: paths.into_iter()
        invariant
            it.seq() == paths@,
            all == path::views(paths@),
            path::views(r@) == deduped(all.take(it.index() as int)),
    {
        let ghost i = it.index() as int;
        let ghost old_r = r@;
        let ghost view = p@;
        proof {
            assert(all.take(i + 1).drop_last() =~= all.take(i));
            assert(all.take(i + 1).last() == view);
        }
        let fresh = r.len() == 0 || !(r[r.len() - 1] == p);
        assert(r@.len() > 0 ==> path::views(r@).last() == r@[r@.len() - 1]@);
        if fresh {
            r.push(p);
            assert(path::views(r@) =~= path::views(old_r).push(view));
        }
    }
    assert(all.take(all.len() as int) =~= all);
    r
}

proof fn bytes_differ_first(p: Seq<u8>, a: Seq<u8>, b: Seq<u8>)
    requires
        a.len() > 0,
        b.len() > 0,
        a[0] != b[0],
    ensures
        bytes_before(p + a, p + b) <==> a[0] < b[0],
        bytes_before(p, p + a),
        !bytes_before(p + a, p),
    decreases p.len(),
{
    if p.len() > 0 {
        let rest = p.drop_first();
        bytes_differ_first(rest, a, b);
        assert((p + a).drop_first() =~= rest + a);
        assert((p + b).drop_first() =~= rest + b);
    } else {
        assert(p + a =~= a);
        assert(p + b =~= b);
    }
}

proof fn names_differ_first(p: Seq<Seq<u8>>, a: Seq<Seq<u8>>, b: Seq<Seq<u8>>)
    requires
        a.len() > 0,
        b.len() > 0,
        a[0] != b[0],
    ensures
        names_before(p + a, p + b) <==> name_before(a[0], b[0]),
        names_before(p, p + a),
        !names_before(p + a, p),
    decreases p.len(),
{
    if p.len() > 0 {
        let rest = p.drop_first();
        names_differ_first(rest, a, b);
        name_order(p[0], p[0], p[0]);
        assert((p + a).drop_first() =~= rest + a);
        assert((p + b).drop_first() =~= rest + b);
    } else {
        assert(p + a =~= a);
        assert(p + b =~= b);
    }
}

/// Paths come in the order of a dictionary of names: the first name in which two of them
/// differ decides, by the first byte in which the names do, and a name comes before those
/// that go on where it ends. A folder comes before everything inside it.
pub proof fn the_first_difference_decides(
    a: Seq<u8>,
    b: Seq<u8>,
    shared: Seq<Seq<u8>>,
    x: Seq<u8>,
    y: Seq<u8>,
    front: Seq<u8>,
)
    ensures
        path::under(b, a) && !path::same_place(a, b) ==> before(a, b),
        lists::starts(path::components(a), shared.push(front + x)) && lists::starts(
            path::components(b),
            shared.push(front + y),
        ) && x.len() > 0 && y.len() > 0 && x[0] < y[0] && path::proper(front + x) && path::proper(
            front + y,
        ) ==> before(a, b) && !before(b, a),
        lists::starts(path::components(a), shared.push(front)) && lists::starts(
            path::components(b),
            shared.push(front + y),
        ) && y.len() > 0 && path::proper(front) && path::proper(front + y) ==> before(a, b)
            && !before(b, a),
{
    let (s, t) = (path::components(a), path::components(b));
    before_is_an_order(a, b, a);
    before_is_an_order(b, a, b);
    if path::under(b, a) && !path::same_place(a, b) {
        let more = t.skip(s.len() as int);
        assert(t =~= s + more);
        if more.len() == 0 {
            assert(t =~= s);
        }
        let other = if more[0] == seq![SLASH] {
            seq![DOT]
        } else {
            seq![SLASH]
        };
        assert(seq![SLASH] != seq![DOT]) by {
            assert(seq![SLASH][0] != seq![DOT][0]);
        }
        names_differ_first(s, more, seq![other]);
    }
    let n = shared.len() as int;
    if lists::starts(s, shared.push(front + x)) && lists::starts(t, shared.push(front + y)) && x.len()
        > 0 && y.len() > 0 && x[0] < y[0] && path::proper(front + x) && path::proper(front + y) {
        bytes_differ_first(front, x, y);
        the_tail_of(s, shared, front + x);
        the_tail_of(t, shared, front + y);
        assert((front + x)[front.len() as int] == x[0]);
        assert((front + y)[front.len() as int] == y[0]);
        names_differ_first(shared, s.skip(n), t.skip(n));
    }
    if lists::starts(s, shared.push(front)) && lists::starts(t, shared.push(front + y)) && y.len() > 0
        && path::proper(front) && path::proper(front + y) {
        let other = if y[0] == 0 {
            seq![1u8]
        } else {
            seq![0u8]
        };
        bytes_differ_first(front, y, other);
        the_tail_of(s, shared, front);
        the_tail_of(t, shared, front + y);
        assert(front.len() != (front + y).len());
        names_differ_first(shared, s.skip(n), t.skip(n));
    }
}

proof fn the_tail_of(s: Seq<Seq<u8>>, shared: Seq<Seq<u8>>, name: Seq<u8>)
    requires
        lists::starts(s, shared.push(name)),
    ensures
        s == shared + s.skip(shared.len() as int),
        s.skip(shared.len() as int).len() > 0,
        s.skip(shared.len() as int)[0] == name,
{
    let n = shared.len() as int;
    let head = s.take(n + 1);
    assert(head == shared.push(name));
    assert(head[n] == name);
    assert forall|i: int| 0 <= i < n implies s[i] == shared[i] by {
        assert(head[i] == shared[i]);
    }
    assert(s =~= shared + s.skip(n));
}

/// Paths that lead to the same place stay in the order they came in.
pub proof fn paths_to_one_place_keep_their_order(paths: Seq<Seq<u8>>, q: Seq<u8>)
    ensures
        in_order(paths).filter(|p: Seq<u8>| path::same_place(p, q)) == paths.filter(
            |p: Seq<u8>| path::same_place(p, q),
        ),
    decreases paths.len(),
{
    let there = |p: Seq<u8>| path::same_place(p, q);
    reveal(Seq::filter);
    if paths.len() > 0 {
        let front = paths.drop_last();
        let rest = in_order(front);
        let p = paths.last();
        paths_to_one_place_keep_their_order(front, q);
        in_order_sorts(front);
        place_bounds(rest, p);
        let n = place(rest, p);
        let (ahead, behind) = (rest.take(n), rest.skip(n));
        assert(rest =~= ahead + behind);
        assert(rest.insert(n, p) =~= ahead + seq![p] + behind);
        Seq::filter_distributes_over_add(ahead, behind, there);
        Seq::filter_distributes_over_add(ahead + seq![p], behind, there);
        Seq::filter_distributes_over_add(ahead, seq![p], there);
        assert(seq![p].drop_last() =~= seq![]);
        assert(Seq::<Seq<u8>>::empty().filter(there) =~= seq![]);
        if path::same_place(p, q) {
            assert forall|i: int| 0 <= i < behind.len() implies !there(#[trigger] behind[i]) by {
                assert(behind[i] == rest[n + i]);
                before_is_an_order(p, rest[n], rest[n + i]);
                before_is_an_order(p, rest[n + i], p);
                if i > 0 {
                    assert(!before(rest[n + i], rest[n]));
                    before_is_an_order(rest[n + i], rest[n], rest[n]);
                    before_is_an_order(p, rest[n], p);
                }
            }
            none_is_kept(behind, there);
            assert(seq![p].filter(there) =~= seq![p]);
            assert(in_order(paths).filter(there) =~= paths.filter(there));
        } else {
            assert(seq![p].filter(there) =~= seq![]);
            assert(in_order(paths).filter(there) =~= rest.filter(there));
        }
    }
}

proof fn none_is_kept(s: Seq<Seq<u8>>, keep: spec_fn(Seq<u8>) -> bool)
    requires
        forall|i: int| 0 <= i < s.len() ==> !keep(#[trigger] s[i]),
    ensures
        s.filter(keep) == Seq::<Seq<u8>>::empty(),
    decreases s.len(),
{
    reveal(Seq::filter);
    if s.len() > 0 {
        none_is_kept(s.drop_last(), keep);
        assert(!keep(s[s.len() - 1]));
    }
}

/// Of neighbours that lead to the same place the first is kept, and everything else.
pub proof fn the_first_of_several_is_kept(
    ahead: Seq<Seq<u8>>,
    p: Seq<u8>,
    others: Seq<Seq<u8>>,
)
    requires
        ahead.len() > 0 ==> !path::same_place(ahead.last(), p),
        forall|i: int| 0 <= i < others.len() ==> path::same_place(#[trigger] others[i], p),
    ensures
        deduped(ahead + seq![p] + others) == deduped(ahead).push(p),
    decreases others.len(),
{
    let all = ahead + seq![p] + others;
    if others.len() > 0 {
        assert(all.drop_last() =~= ahead + seq![p] + others.drop_last());
        assert(all.last() == others[others.len() - 1]);
        the_first_of_several_is_kept(ahead, p, others.drop_last());
    } else {
        assert(all.drop_last() =~= ahead);
        assert(all.last() == p);
        the_last_leads_there(ahead);
    }
}

proof fn the_last_leads_there(paths: Seq<Seq<u8>>)
    ensures
        paths.len() > 0 ==> deduped(paths).len() > 0 && path::same_place(
            deduped(paths).last(),
            paths.last(),
        ),
        paths.len() == 0 ==> deduped(paths).len() == 0,
    decreases paths.len(),
{
    if paths.len() > 0 {
        the_last_leads_there(paths.drop_last());
    }
}

} // verus!
