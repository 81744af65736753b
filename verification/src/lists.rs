//! Searching and cutting sequences.

use vstd::prelude::*;

verus! {

/// Where `x` first stands in `s`, or the length of `s` when it stands nowhere.
pub open spec fn find<T>(s: Seq<T>, x: T) -> int
    decreases s.len(),
{
    if s.len() == 0 || s[0] == x {
        0
    } else {
        1 + find(s.drop_first(), x)
    }
}

/// `s` cut at every `x`, the pieces between in order.
pub open spec fn split<T>(s: Seq<T>, x: T) -> Seq<Seq<T>>
    decreases s.len(),
    via split_decreases::<T>
{
    let n = find(s, x);
    if n < s.len() {
        seq![s.take(n)] + split(s.skip(n + 1), x)
    } else {
        seq![s]
    }
}

#[via_fn]
proof fn split_decreases<T>(s: Seq<T>, x: T) {
    find_first(s, x);
}

/// Whether `s` begins with `p`.
pub open spec fn starts<T>(s: Seq<T>, p: Seq<T>) -> bool {
    p.len() <= s.len() && s.take(p.len() as int) == p
}

/// Whether `s` ends with `p`.
pub open spec fn ends<T>(s: Seq<T>, p: Seq<T>) -> bool {
    p.len() <= s.len() && s.skip(s.len() - p.len()) == p
}

/// The place [`find`] names is the first one.
pub proof fn find_first<T>(s: Seq<T>, x: T)
    ensures
        0 <= find(s, x) <= s.len(),
        forall|j: int| 0 <= j < find(s, x) ==> s[j] != x,
        find(s, x) < s.len() ==> s[find(s, x)] == x,
    decreases s.len(),
{
    if s.len() != 0 && s[0] != x {
        find_first(s.drop_first(), x);
        assert forall|j: int| 0 <= j < find(s, x) implies s[j] != x by {
            if j > 0 {
                assert(s[j] == s.drop_first()[j - 1]);
            }
        }
    }
}

/// Only the first place is the one [`find`] names.
pub proof fn find_is<T>(s: Seq<T>, x: T, i: int)
    requires
        0 <= i <= s.len(),
        forall|j: int| 0 <= j < i ==> s[j] != x,
        i < s.len() ==> s[i] == x,
    ensures
        find(s, x) == i,
{
    find_first(s, x);
    let n = find(s, x);
    if n < i {
        assert(s[n] != x);
    } else if i < n {
        assert(s[i] != x);
    }
}

/// What is cut at `x` holds no `x`, and there is always a piece.
pub proof fn split_pieces<T>(s: Seq<T>, x: T)
    ensures
        split(s, x).len() > 0,
        forall|i: int, j: int|
            0 <= i < split(s, x).len() && 0 <= j < split(s, x)[i].len() ==> #[trigger] split(
                s,
                x,
            )[i][j] != x,
    decreases s.len(),
{
    find_first(s, x);
    let n = find(s, x);
    if n < s.len() {
        split_pieces(s.skip(n + 1), x);
        assert forall|i: int, j: int|
            0 <= i < split(s, x).len() && 0 <= j < split(s, x)[i].len() implies #[trigger] split(
            s,
            x,
        )[i][j] != x by {
            if i > 0 {
                assert(split(s, x)[i] == split(s.skip(n + 1), x)[i - 1]);
            }
        }
    }
}

pub fn find_byte(s: &[u8], x: u8) -> (i: usize)
    ensures
        i == find(s@, x),
        i <= s@.len(),
{
    let mut i: usize = 0;
    while i < s.len() && s[i] != x
        invariant
            i <= s@.len(),
            forall|j: int| 0 <= j < i ==> s@[j] != x,
        decreases s@.len() - i,
    {
        i = i + 1;
    }
    proof {
        find_is(s@, x, i as int);
    }
    i
}

pub fn find_char(s: &[char], x: char) -> (i: usize)
    ensures
        i == find(s@, x),
        i <= s@.len(),
{
    let mut i: usize = 0;
    while i < s.len() && s[i] != x
        invariant
            i <= s@.len(),
            forall|j: int| 0 <= j < i ==> s@[j] != x,
        decreases s@.len() - i,
    {
        i = i + 1;
    }
    proof {
        find_is(s@, x, i as int);
    }
    i
}

/// Whether two runs of bytes are the same.
pub fn same_bytes(a: &[u8], b: &[u8]) -> (r: bool)
    ensures
        r == (a@ == b@),
{
    if a.len() != b.len() {
        return false;
    }
    let mut i: usize = 0;
    while i < a.len()
        invariant
            i <= a@.len(),
            a@.len() == b@.len(),
            forall|j: int| 0 <= j < i ==> a@[j] == b@[j],
        decreases a@.len() - i,
    {
        if a[i] != b[i] {
            assert(a@[i as int] != b@[i as int]);
            return false;
        }
        i = i + 1;
    }
    assert(a@ =~= b@);
    true
}

/// Whether `s` begins with `p`.
pub fn starts_with_bytes(s: &[u8], p: &[u8]) -> (r: bool)
    ensures
        r == starts(s@, p@),
{
    if s.len() < p.len() {
        return false;
    }
    let head = vstd::slice::slice_subrange(s, 0, p.len());
    assert(head@ =~= s@.take(p@.len() as int));
    same_bytes(head, p)
}

pub fn same_chars(a: &[char], b: &[char]) -> (r: bool)
    ensures
        r == (a@ == b@),
{
    if a.len() != b.len() {
        return false;
    }
    let mut i: usize = 0;
    while i < a.len()
        invariant
            i <= a@.len(),
            a@.len() == b@.len(),
            forall|j: int| 0 <= j < i ==> a@[j] == b@[j],
        decreases a@.len() - i,
    {
        if a[i] != b[i] {
            assert(a@[i as int] != b@[i as int]);
            return false;
        }
        i = i + 1;
    }
    assert(a@ =~= b@);
    true
}

/// `s` cut at every `x`.
pub fn split_chars(s: &[char], x: char) -> (pieces: Vec<Vec<char>>)
    ensures
        pieces.deep_view() == split(s@, x),
{
    let mut pieces: Vec<Vec<char>> = Vec::new();
    let mut rest = s;
    assert(pieces.deep_view() + split(rest@, x) =~= split(s@, x));
    loop
        invariant
            pieces.deep_view() + split(rest@, x) == split(s@, x),
        decreases rest@.len(),
    {
        let ghost before = pieces.deep_view();
        let n: usize = find_char(rest, x);
        let piece = vstd::slice::slice_to_vec(vstd::slice::slice_subrange(rest, 0, n));
        assert(piece@ =~= rest@.take(n as int));
        assert(piece.deep_view() =~= piece@);
        pieces.push(piece);
        assert(pieces.deep_view() =~= before.push(rest@.take(n as int)));
        if n == rest.len() {
            assert(rest@.take(n as int) =~= rest@);
            assert(pieces.deep_view() =~= split(s@, x));
            return pieces;
        }
        let ghost old_rest = rest@;
        rest = vstd::slice::slice_subrange(rest, n + 1, rest.len());
        assert(rest@ =~= old_rest.skip(n + 1));
        assert(pieces.deep_view() + split(rest@, x) =~= before + split(old_rest, x));
    }
}

/// A list begins with what it is made of in front and ends with what it is made of behind,
/// and with nothing that differs from that.
pub proof fn what_is_put_together_begins_and_ends<T>(a: Seq<T>, b: Seq<T>)
    ensures
        starts(a + b, a),
        ends(a + b, b),
        (a + b).skip(a.len() as int) == b,
        (a + b).take(a.len() as int) == a,
        forall|s: Seq<T>| #[trigger] starts(s, a) ==> s == a + s.skip(a.len() as int),
        forall|s: Seq<T>| #[trigger] ends(s, b) ==> s == s.take(s.len() - b.len()) + b,
{
    assert((a + b).take(a.len() as int) =~= a);
    assert((a + b).skip(a.len() as int) =~= b);
    assert((a + b).skip((a + b).len() - b.len()) =~= b);
    assert forall|s: Seq<T>| #[trigger] starts(s, a) implies s == a + s.skip(a.len() as int) by {
        assert(s =~= s.take(a.len() as int) + s.skip(a.len() as int));
    }
    assert forall|s: Seq<T>| #[trigger] ends(s, b) implies s == s.take(s.len() - b.len()) + b by {
        assert(s =~= s.take(s.len() - b.len()) + s.skip(s.len() - b.len()));
    }
}

/// Cutting a list where `x` stands gives what stands before the first `x`, and then what
/// cutting the rest gives; a list without `x` is one piece.
pub proof fn pieces_lie_between<T>(a: Seq<T>, x: T, b: Seq<T>)
    requires
        !a.contains(x),
    ensures
        split(a, x) == seq![a],
        split(a.push(x) + b, x) == seq![a] + split(b, x),
        find(a, x) == a.len(),
        find(a.push(x) + b, x) == a.len(),
{
    let s = a.push(x) + b;
    find_is(a, x, a.len() as int);
    assert forall|j: int| 0 <= j < a.len() implies s[j] != x by {
        assert(s[j] == a[j]);
    }
    find_is(s, x, a.len() as int);
    assert(s.take(a.len() as int) =~= a);
    assert(s.skip(a.len() as int + 1) =~= b);
}

} // verus!
