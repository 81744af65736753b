//! Text: trimming, case, numbers in writing, and cutting it up.
//!
//! Most of it works on slices of characters, which is what a string is to a
//! contract.

use crate::lists;
use crate::lists::{find_char, same_chars};
use vstd::prelude::*;

verus! {

/// Whether a character counts as white space, as Unicode has it.
pub open spec fn whitespace(c: char) -> bool {
    let n = c as u32;
    ||| 0x9 <= n <= 0xd
    ||| n == 0x20
    ||| n == 0x85
    ||| n == 0xa0
    ||| n == 0x1680
    ||| 0x2000 <= n <= 0x200a
    ||| n == 0x2028
    ||| n == 0x2029
    ||| n == 0x202f
    ||| n == 0x205f
    ||| n == 0x3000
}

/// `char::is_whitespace`: whether `c` has Unicode's `White_Space` property, which
/// these characters have and no others.
#[verifier::external_body]
pub(crate) fn is_whitespace(c: char) -> (r: bool)
    ensures
        r == whitespace(c),
{
    c.is_whitespace()
}

/// A text in lower case, as Unicode has it.
pub uninterp spec fn lowercase(s: Seq<char>) -> Seq<char>;

/// `str::to_lowercase`: the text with every character mapped to its lower case
/// by Unicode's tables, whatever the locale.
#[verifier::external_body]
pub(crate) fn to_lowercase(s: &str) -> (r: String)
    ensures
        r@ == lowercase(s@),
{
    s.to_lowercase()
}

/// `String::from_iter`: the characters in a string, in order.
#[verifier::external_body]
pub(crate) fn text_of(chars: Vec<char>) -> (r: String)
    ensures
        r@ == chars@,
{
    String::from_iter(chars)
}

/// `str::from_utf8`: the text the bytes encode, where they are valid UTF-8, and
/// nothing where they are not.
#[verifier::external_body]
pub(crate) fn from_utf8(bytes: &[u8]) -> (r: Option<&str>)
    ensures
        r is Some <==> vstd::utf8::valid_utf8(bytes@),
        r matches Some(s) ==> s@ == vstd::utf8::decode_utf8(bytes@),
{
    std::str::from_utf8(bytes).ok()
}

/// Bytes as text, with a stand-in for whatever of them is none.
pub uninterp spec fn lossy(bytes: Seq<u8>) -> Seq<char>;

/// `String::from_utf8_lossy`: the text the bytes encode, where they are valid UTF-8,
/// and where they are not, the text with replacement characters for what is not.
#[verifier::external_body]
pub(crate) fn lossy_text(bytes: &[u8]) -> (r: String)
    ensures
        r@ == lossy(bytes@),
        vstd::utf8::valid_utf8(bytes@) ==> r@ == vstd::utf8::decode_utf8(bytes@),
{
    String::from_utf8_lossy(bytes).into_owned()
}

/// The characters of a string, in order.
pub fn chars_of(s: &str) -> (chars: Vec<char>)
    ensures
        chars@ == s@,
{
    let mut chars: Vec<char> = Vec::new();
    for c in it: s.chars()
        invariant
            it.seq() == s@,
            chars@ == s@.take(it.index() as int),
    {
        assert(s@.take(it.index() + 1) =~= s@.take(it.index() as int).push(c));
        chars.push(c);
    }
    assert(s@.take(s@.len() as int) =~= s@);
    chars
}

pub fn same_text(a: &str, b: &str) -> (r: bool)
    ensures
        r == (a@ == b@),
{
    let a = chars_of(a);
    let b = chars_of(b);
    same_chars(a.as_slice(), b.as_slice())
}

/// The text without the white space at its front.
pub open spec fn trim_start(s: Seq<char>) -> Seq<char>
    decreases s.len(),
{
    if s.len() > 0 && whitespace(s[0]) {
        trim_start(s.drop_first())
    } else {
        s
    }
}

/// The text without the white space at its back.
pub open spec fn trim_end(s: Seq<char>) -> Seq<char>
    decreases s.len(),
{
    if s.len() > 0 && whitespace(s.last()) {
        trim_end(s.drop_last())
    } else {
        s
    }
}

/// The text without the white space at either end.
pub open spec fn trimmed(s: Seq<char>) -> Seq<char> {
    trim_end(trim_start(s))
}

/// The text without the white space at either end.
pub fn trim(s: &[char]) -> (r: &[char])
    ensures
        r@ == trimmed(s@),
{
    let mut from: usize = 0;
    assert(s@.skip(0) =~= s@);
    while from < s.len() && is_whitespace(s[from])
        invariant
            from <= s@.len(),
            trim_start(s@.skip(from as int)) == trim_start(s@),
        decreases s@.len() - from,
    {
        assert(s@.skip(from as int).drop_first() =~= s@.skip(from + 1));
        from = from + 1;
    }
    let ghost front = s@.skip(from as int);
    let mut to: usize = s.len();
    assert(s@.subrange(from as int, to as int) =~= front);
    while to > from && is_whitespace(s[to - 1])
        invariant
            from <= to <= s@.len(),
            trim_end(s@.subrange(from as int, to as int)) == trim_end(front),
        decreases to - from,
    {
        assert(s@.subrange(from as int, to as int).drop_last() =~= s@.subrange(
            from as int,
            to - 1,
        ));
        assert(s@.subrange(from as int, to as int).last() == s@[to - 1]);
        to = to - 1;
    }
    assert(trim_end(s@.subrange(from as int, to as int)) == s@.subrange(from as int, to as int));
    vstd::slice::slice_subrange(s, from, to)
}

/// The text without every `c` at its front.
pub open spec fn stripped_start(s: Seq<char>, c: char) -> Seq<char>
    decreases s.len(),
{
    if s.len() > 0 && s[0] == c {
        stripped_start(s.drop_first(), c)
    } else {
        s
    }
}

/// The text without every `c` at its back.
pub open spec fn stripped_end(s: Seq<char>, c: char) -> Seq<char>
    decreases s.len(),
{
    if s.len() > 0 && s.last() == c {
        stripped_end(s.drop_last(), c)
    } else {
        s
    }
}

/// The text without every `c` at either end.
pub open spec fn stripped(s: Seq<char>, c: char) -> Seq<char> {
    stripped_end(stripped_start(s, c), c)
}

/// The text without every `c` at either end.
pub fn strip(s: &[char], c: char) -> (r: &[char])
    ensures
        r@ == stripped(s@, c),
{
    let mut from: usize = 0;
    assert(s@.skip(0) =~= s@);
    while from < s.len() && s[from] == c
        invariant
            from <= s@.len(),
            stripped_start(s@.skip(from as int), c) == stripped_start(s@, c),
        decreases s@.len() - from,
    {
        assert(s@.skip(from as int).drop_first() =~= s@.skip(from + 1));
        from = from + 1;
    }
    let ghost front = s@.skip(from as int);
    let mut to: usize = s.len();
    assert(s@.subrange(from as int, to as int) =~= front);
    while to > from && s[to - 1] == c
        invariant
            from <= to <= s@.len(),
            stripped_end(s@.subrange(from as int, to as int), c) == stripped_end(front, c),
        decreases to - from,
    {
        assert(s@.subrange(from as int, to as int).drop_last() =~= s@.subrange(
            from as int,
            to - 1,
        ));
        assert(s@.subrange(from as int, to as int).last() == s@[to - 1]);
        to = to - 1;
    }
    assert(stripped_end(s@.subrange(from as int, to as int), c) == s@.subrange(
        from as int,
        to as int,
    ));
    vstd::slice::slice_subrange(s, from, to)
}

pub fn is_digit(c: char) -> (r: bool)
    ensures
        r == digit(c),
{
    '0' <= c && c <= '9'
}

pub open spec fn digit(c: char) -> bool {
    '0' <= c && c <= '9'
}

pub open spec fn all_digits(s: Seq<char>) -> bool {
    forall|i: int| 0 <= i < s.len() ==> digit(#[trigger] s[i])
}

/// What a run of decimal digits is worth.
pub open spec fn value(s: Seq<char>) -> nat
    decreases s.len(),
{
    if s.len() == 0 {
        0
    } else {
        value(s.drop_last()) * 10 + (s.last() as int - '0' as int) as nat
    }
}

/// The number written as `s`, when `s` is one in decimal digits, with or without
/// a plus in front, and it is not past `max`.
pub open spec fn unsigned(s: Seq<char>, max: nat) -> Option<nat> {
    let digits = if s.len() > 0 && s[0] == '+' {
        s.drop_first()
    } else {
        s
    };
    if digits.len() > 0 && all_digits(digits) && value(digits) <= max {
        Some(value(digits))
    } else {
        None
    }
}

/// More digits only make a number larger.
proof fn value_grows(s: Seq<char>, n: int)
    requires
        0 <= n <= s.len(),
    ensures
        value(s.take(n)) <= value(s),
    decreases s.len(),
{
    if n < s.len() {
        value_grows(s.drop_last(), n);
        assert(s.drop_last().take(n) =~= s.take(n));
    } else {
        assert(s.take(n) =~= s);
    }
}

/// Reads a number in decimal digits, refusing anything past `max`.
pub fn parse_unsigned(s: &[char], max: u64) -> (r: Option<u64>)
    ensures
        r is Some <==> unsigned(s@, max as nat) is Some,
        r matches Some(n) ==> unsigned(s@, max as nat) == Some(n as nat),
{
    let mut from: usize = 0;
    if s.len() > 0 && s[0] == '+' {
        from = 1;
    }
    let digits = vstd::slice::slice_subrange(s, from, s.len());
    assert(from == 0 ==> digits@ =~= s@);
    assert(from == 1 ==> digits@ =~= s@.drop_first());
    if digits.len() == 0 {
        return None;
    }
    let mut n: u64 = 0;
    let mut i: usize = 0;
    while i < digits.len()
        invariant
            i <= digits@.len(),
            forall|j: int| 0 <= j < i ==> digit(#[trigger] digits@[j]),
            n == value(digits@.take(i as int)),
            n <= max,
            digits@ == (if s@.len() > 0 && s@[0] == '+' {
                s@.drop_first()
            } else {
                s@
            }),
        decreases digits@.len() - i,
    {
        let c = digits[i];
        if !is_digit(c) {
            return None;
        }
        assert(digits@.take(i + 1).drop_last() =~= digits@.take(i as int));
        let d: u64 = (c as u32 - '0' as u32) as u64;
        proof {
            value_grows(digits@, i + 1);
        }
        if d > max || n > max / 10 || n * 10 > max - d {
            proof {
                assert(value(digits@.take(i + 1)) > max) by {
                    if n > max / 10 {
                        assert(n * 10 > max) by (nonlinear_arith)
                            requires
                                n > max / 10,
                        ;
                    }
                }
            }
            return None;
        }
        n = n * 10 + d;
        i = i + 1;
    }
    assert(digits@.take(digits@.len() as int) =~= digits@);
    Some(n)
}

/// The character for a digit.
pub open spec fn digit_char(d: int) -> char {
    (d + '0' as int) as char
}

/// A number in decimal digits.
pub open spec fn decimal(n: nat) -> Seq<char>
    decreases n,
{
    if n < 10 {
        seq![digit_char(n as int)]
    } else {
        decimal(n / 10).push(digit_char((n % 10) as int))
    }
}

/// A number in at least two decimal digits.
pub open spec fn two_digits(n: nat) -> Seq<char> {
    if n < 10 {
        seq!['0'] + decimal(n)
    } else {
        decimal(n)
    }
}

fn char_of_digit(d: u8) -> (c: char)
    requires
        d < 10,
    ensures
        c == digit_char(d as int),
{
    (d + 48u8) as char
}

/// Writes a number in decimal digits.
pub fn decimal_chars(n: u128) -> (r: Vec<char>)
    ensures
        r@ == decimal(n as nat),
    decreases n,
{
    if n < 10 {
        let mut r: Vec<char> = Vec::new();
        r.push(char_of_digit(n as u8));
        r
    } else {
        let mut r = decimal_chars(n / 10);
        r.push(char_of_digit((n % 10) as u8));
        r
    }
}

/// A number in decimal digits is worth what the number is.
pub proof fn decimal_tells(n: nat)
    ensures
        value(decimal(n)) == n,
        all_digits(decimal(n)),
        decimal(n).len() > 0,
    decreases n,
{
    if n < 10 {
        assert(decimal(n).drop_last() =~= seq![]);
        assert(value(seq![]) == 0);
    } else {
        decimal_tells(n / 10);
        let d = decimal(n / 10);
        assert(decimal(n).drop_last() =~= d);
        assert forall|i: int| 0 <= i < decimal(n).len() implies digit(#[trigger] decimal(n)[i]) by {
            if i < d.len() {
                assert(decimal(n)[i] == d[i]);
            }
        }
    }
}

/// Appends `more` to `s`.
pub fn extend_chars(s: &mut Vec<char>, more: &[char])
    ensures
        final(s)@ == old(s)@ + more@,
{
    let mut i: usize = 0;
    let ghost start = s@;
    assert(start + more@.take(0) =~= start);
    while i < more.len()
        invariant
            i <= more@.len(),
            s@ == start + more@.take(i as int),
        decreases more@.len() - i,
    {
        assert((start + more@.take(i as int)).push(more@[i as int]) =~= start + more@.take(i + 1));
        s.push(more[i]);
        i = i + 1;
    }
    assert(more@.take(more@.len() as int) =~= more@);
}

/// The text whose characters are those of `a` and then those of `b`.
pub fn join_text(a: &str, b: &str) -> (r: String)
    ensures
        r@ == a@ + b@,
{
    let mut s = chars_of(a);
    let t = chars_of(b);
    extend_chars(&mut s, t.as_slice());
    text_of(s)
}

/// A number as text.
pub fn decimal_text(n: u128) -> (r: String)
    ensures
        r@ == decimal(n as nat),
{
    text_of(decimal_chars(n))
}

/// The character for a hexadecimal digit, in lower case.
pub open spec fn hex_char(d: int) -> char {
    if d < 10 {
        digit_char(d)
    } else {
        (d - 10 + 'a' as int) as char
    }
}

/// The `n` lowest hexadecimal digits of a number, the highest of them first.
pub open spec fn hex_digits(x: nat, n: nat) -> Seq<char>
    decreases n,
{
    if n == 0 {
        seq![]
    } else {
        hex_digits(x / 16, (n - 1) as nat).push(hex_char((x % 16) as int))
    }
}

fn char_of_hex(d: u8) -> (c: char)
    requires
        d < 16,
    ensures
        c == hex_char(d as int),
{
    if d < 10 {
        char_of_digit(d)
    } else {
        (d - 10 + 97u8) as char
    }
}

/// Writes the `n` lowest hexadecimal digits of a number.
pub fn hex_chars(x: u64, n: usize) -> (r: Vec<char>)
    ensures
        r@ == hex_digits(x as nat, n as nat),
    decreases n,
{
    if n == 0 {
        let r: Vec<char> = Vec::new();
        assert(r@ =~= seq![]);
        r
    } else {
        let mut r = hex_chars(x / 16, n - 1);
        r.push(char_of_hex((x % 16) as u8));
        r
    }
}

/// A letter of the Latin alphabet as a capital, and anything else as it is.
pub open spec fn ascii_upper(c: char) -> char {
    if 'a' <= c && c <= 'z' {
        (c as int - 32) as char
    } else {
        c
    }
}

pub open spec fn ascii_uppercase(s: Seq<char>) -> Seq<char> {
    s.map_values(|c: char| ascii_upper(c))
}

pub fn to_ascii_uppercase(s: &[char]) -> (r: Vec<char>)
    ensures
        r@ == ascii_uppercase(s@),
{
    let mut r: Vec<char> = Vec::new();
    let mut i: usize = 0;
    while i < s.len()
        invariant
            i <= s@.len(),
            r@ == ascii_uppercase(s@.take(i as int)),
        decreases s@.len() - i,
    {
        let c = s[i];
        let u: char = if 'a' <= c && c <= 'z' {
            (c as u8 - 32u8) as char
        } else {
            c
        };
        assert(ascii_uppercase(s@.take(i + 1)) =~= ascii_uppercase(s@.take(i as int)).push(
            ascii_upper(s@[i as int]),
        ));
        r.push(u);
        i = i + 1;
    }
    assert(s@.take(s@.len() as int) =~= s@);
    r
}

/// Whether `s` begins with `p`.
pub fn starts_with_chars(s: &[char], p: &[char]) -> (r: bool)
    ensures
        r == lists::starts(s@, p@),
{
    if s.len() < p.len() {
        return false;
    }
    let head = vstd::slice::slice_subrange(s, 0, p.len());
    assert(head@ =~= s@.take(p@.len() as int));
    same_chars(head, p)
}

/// `s` with every `from` in it replaced by `to`, from the front, a place that
/// was replaced not looked at again.
pub open spec fn replaced(s: Seq<char>, from: Seq<char>, to: Seq<char>) -> Seq<char>
    decreases s.len(),
{
    if s.len() == 0 || from.len() == 0 {
        s
    } else if lists::starts(s, from) {
        to + replaced(s.skip(from.len() as int), from, to)
    } else {
        seq![s[0]] + replaced(s.drop_first(), from, to)
    }
}

pub fn replace(s: &[char], from: &[char], to: &[char]) -> (r: Vec<char>)
    requires
        from@.len() > 0,
    ensures
        r@ == replaced(s@, from@, to@),
{
    let mut r: Vec<char> = Vec::new();
    let mut i: usize = 0;
    assert(s@.skip(0) =~= s@);
    assert(r@ + replaced(s@, from@, to@) =~= replaced(s@, from@, to@));
    while i < s.len()
        invariant
            from@.len() > 0,
            i <= s@.len(),
            r@ + replaced(s@.skip(i as int), from@, to@) == replaced(s@, from@, to@),
        decreases s@.len() - i,
    {
        let ghost before = r@;
        let rest = vstd::slice::slice_subrange(s, i, s.len());
        assert(rest@ =~= s@.skip(i as int));
        if starts_with_chars(rest, from) {
            extend_chars(&mut r, to);
            assert(rest@.skip(from@.len() as int) =~= s@.skip(i + from@.len()));
            assert(r@ + replaced(s@.skip(i + from@.len()), from@, to@) =~= before + replaced(
                rest@,
                from@,
                to@,
            ));
            i = i + from.len();
        } else {
            r.push(s[i]);
            assert(rest@.drop_first() =~= s@.skip(i + 1));
            assert(r@ + replaced(s@.skip(i + 1), from@, to@) =~= before + replaced(
                rest@,
                from@,
                to@,
            ));
            i = i + 1;
        }
    }
    assert(s@.skip(s@.len() as int) =~= seq![]);
    assert(r@ + replaced(seq![], from@, to@) =~= r@);
    r
}

/// The text before the first `x` and the text after it, when there is one.
pub open spec fn cut(s: Seq<char>, x: char) -> Option<(Seq<char>, Seq<char>)> {
    let n = lists::find(s, x);
    if n < s.len() {
        Some((s.take(n), s.skip(n + 1)))
    } else {
        None
    }
}

pub fn split_once(s: &[char], x: char) -> (r: Option<(&[char], &[char])>)
    ensures
        r is Some <==> cut(s@, x) is Some,
        r matches Some(p) ==> cut(s@, x) == Some((p.0@, p.1@)),
{
    let n: usize = find_char(s, x);
    if n < s.len() {
        let a = vstd::slice::slice_subrange(s, 0, n);
        let b = vstd::slice::slice_subrange(s, n + 1, s.len());
        assert(a@ =~= s@.take(n as int));
        assert(b@ =~= s@.skip(n + 1));
        Some((a, b))
    } else {
        None
    }
}

/// Trimming leaves a stretch of the text: all that it takes off at either end is white
/// space, and what it leaves neither begins nor ends with any.
pub proof fn trimming_takes_off_white_space(s: Seq<char>) -> (ends: (int, int))
    ensures
        0 <= ends.0 <= ends.1 <= s.len(),
        trimmed(s) == s.subrange(ends.0, ends.1),
        forall|i: int| 0 <= i < ends.0 ==> whitespace(#[trigger] s[i]),
        forall|i: int| ends.1 <= i < s.len() ==> whitespace(#[trigger] s[i]),
        trimmed(s).len() > 0 ==> !whitespace(trimmed(s)[0]) && !whitespace(trimmed(s).last()),
{
    let a = front_is_white(s);
    let b = back_is_white(trim_start(s));
    let ends = (a, a + b);
    assert(trimmed(s) =~= s.subrange(a, a + b));
    assert forall|i: int| a + b <= i < s.len() implies whitespace(#[trigger] s[i]) by {
        assert(trim_start(s)[i - a] == s[i]);
    }
    ends
}

proof fn front_is_white(s: Seq<char>) -> (n: int)
    ensures
        0 <= n <= s.len(),
        trim_start(s) == s.skip(n),
        forall|i: int| 0 <= i < n ==> whitespace(#[trigger] s[i]),
        n < s.len() ==> !whitespace(s[n]),
    decreases s.len(),
{
    if s.len() > 0 && whitespace(s[0]) {
        let rest = s.drop_first();
        let n = front_is_white(rest);
        assert(rest.skip(n) =~= s.skip(n + 1));
        assert forall|i: int| 0 <= i < n + 1 implies whitespace(#[trigger] s[i]) by {
            if i > 0 {
                assert(s[i] == rest[i - 1]);
            }
        }
        n + 1
    } else {
        assert(s.skip(0) =~= s);
        0
    }
}

proof fn back_is_white(s: Seq<char>) -> (n: int)
    ensures
        0 <= n <= s.len(),
        trim_end(s) == s.take(n),
        forall|i: int| n <= i < s.len() ==> whitespace(#[trigger] s[i]),
        n > 0 ==> !whitespace(s[n - 1]),
    decreases s.len(),
{
    if s.len() > 0 && whitespace(s.last()) {
        let n = back_is_white(s.drop_last());
        assert(s.drop_last().take(n) =~= s.take(n));
        assert forall|i: int| n <= i < s.len() implies whitespace(#[trigger] s[i]) by {
            if i < s.len() - 1 {
                assert(s[i] == s.drop_last()[i]);
            }
        }
        n
    } else {
        assert(s.take(s.len() as int) =~= s);
        s.len() as int
    }
}

/// A text without white space at its ends stays as it is when trimmed, with white space
/// put around it or not.
pub proof fn only_white_space_is_trimmed(a: Seq<char>, s: Seq<char>, b: Seq<char>)
    requires
        forall|i: int| 0 <= i < a.len() ==> whitespace(#[trigger] a[i]),
        forall|i: int| 0 <= i < b.len() ==> whitespace(#[trigger] b[i]),
        s.len() > 0,
        !whitespace(s[0]),
        !whitespace(s.last()),
    ensures
        trimmed(s) == s,
        trimmed(a + s + b) == s,
{
    let t = a + s + b;
    let (i, j) = trimming_takes_off_white_space(t);
    assert(t[a.len() as int] == s[0]);
    assert(t[a.len() + s.len() - 1] == s.last());
    assert(i <= a.len());
    assert(j >= a.len() + s.len());
    if i < a.len() {
        assert(t[i] == a[i]);
    }
    if j > a.len() + s.len() {
        assert(t[j - 1] == b[j - 1 - a.len() - s.len()]);
    }
    assert(t.subrange(i, j) =~= s);
    assert(trim_start(s) == s && trim_end(s) == s);
}

/// Stripping takes a character off either end as often as it stands there, and nothing
/// else.
pub proof fn stripping_takes_off_one_character(s: Seq<char>, c: char)
    requires
        s.len() > 0,
        s[0] != c,
        s.last() != c,
    ensures
        stripped(s, c) == s,
        stripped(seq![c] + s, c) == s,
        stripped(s.push(c), c) == s,
        stripped(seq![c] + s.push(c), c) == s,
{
    let a = seq![c] + s;
    assert(a.drop_first() =~= s);
    assert(s.push(c).drop_last() =~= s);
    let b = seq![c] + s.push(c);
    assert(b.drop_first() =~= s.push(c));
    assert(stripped_start(s, c) == s);
    assert(stripped_start(s.push(c), c) == s.push(c));
    assert(stripped_start(a, c) == s);
    assert(stripped_start(b, c) == s.push(c));
    assert(stripped_end(s, c) == s);
    assert(stripped_end(s.push(c), c) == s);
}

/// A digit more makes a number ten times as large and adds what the digit is worth;
/// noughts in front of it change nothing.
pub proof fn digits_count_by_tens(s: Seq<char>, c: char)
    requires
        '0' <= c <= '9',
    ensures
        value(Seq::<char>::empty()) == 0,
        value(s.push(c)) == 10 * value(s) + (c as nat - '0' as nat),
        value(seq!['0'] + s) == value(s),
    decreases s.len(),
{
    assert(s.push(c).drop_last() =~= s);
    if s.len() == 0 {
        assert((seq!['0'] + s).drop_last() =~= s);
    } else {
        let t = seq!['0'] + s;
        assert(t.drop_last() =~= seq!['0'] + s.drop_last());
        assert(t.last() == s.last());
        digits_count_by_tens(s.drop_last(), c);
    }
}

/// A number is read from any run of digits that is worth it, a plus in front or not, as
/// long as it is not past the limit; and from nothing else.
pub proof fn a_number_is_its_digits(s: Seq<char>, max: nat)
    requires
        s.len() > 0,
    ensures
        (forall|i: int| 0 <= i < s.len() ==> '0' <= #[trigger] s[i] <= '9') && value(s) <= max ==> {
            &&& unsigned(s, max) == Some(value(s))
            &&& unsigned(seq!['+'] + s, max) == Some(value(s))
        },
        (forall|i: int| 0 <= i < s.len() ==> '0' <= #[trigger] s[i] <= '9') && value(s) > max ==> {
            &&& unsigned(s, max) is None
            &&& unsigned(seq!['+'] + s, max) is None
        },
        s[0] != '+' && (exists|i: int| 0 <= i < s.len() && !('0' <= #[trigger] s[i] <= '9'))
            ==> unsigned(s, max) is None,
        (exists|i: int| 0 <= i < s.len() && !('0' <= #[trigger] s[i] <= '9')) ==> unsigned(
            seq!['+'] + s,
            max,
        ) is None,
        unsigned(seq![], max) is None,
        unsigned(seq!['+'], max) is None,
{
    let t = seq!['+'] + s;
    assert(t.drop_first() =~= s);
    assert(seq!['+'].drop_first() =~= seq![]);
    if forall|i: int| 0 <= i < s.len() ==> '0' <= #[trigger] s[i] <= '9' {
        assert forall|i: int| 0 <= i < s.len() implies digit(#[trigger] s[i]) by {
            assert('0' <= s[i] <= '9');
        }
        assert('0' <= s[0] <= '9');
    } else {
        let i = choose|i: int| 0 <= i < s.len() && !('0' <= #[trigger] s[i] <= '9');
        assert(!digit(s[i]));
    }
}

/// A number is written without noughts in front, and each of its digits is what is left
/// of it after so many tens.
pub proof fn decimals_are_the_digits(n: nat)
    ensures
        n < 10 ==> decimal(n).len() == 1,
        n >= 10 ==> decimal(n)[0] != '0',
        decimal(n).last() as nat == '0' as nat + n % 10,
        n >= 10 ==> decimal(n).drop_last() == decimal(n / 10),
        two_digits(n).len() >= 2,
        value(two_digits(n)) == n,
        n >= 10 ==> two_digits(n) == decimal(n),
    decreases n,
{
    decimal_tells(n);
    if n >= 10 {
        decimals_are_the_digits(n / 10);
        decimal_tells(n / 10);
        assert(decimal(n).drop_last() =~= decimal(n / 10));
        assert(decimal(n)[0] == decimal(n / 10)[0]);
        if n / 10 < 10 {
            assert(decimal(n / 10)[0] == decimal(n / 10).last());
        }
    } else {
        digits_count_by_tens(decimal(n), '0');
    }
}

/// The first place where a text stands in another is replaced, and the search goes on
/// behind it; where it stands nowhere nothing is replaced.
pub proof fn replacing_starts_at_the_first_place(
    s: Seq<char>,
    from: Seq<char>,
    to: Seq<char>,
    i: int,
)
    requires
        from.len() > 0,
        0 <= i <= s.len(),
        forall|j: int| 0 <= j < i ==> !lists::starts(#[trigger] s.skip(j), from),
    ensures
        i == s.len() ==> replaced(s, from, to) == s,
        i < s.len() && lists::starts(s.skip(i), from) ==> replaced(s, from, to) == s.take(i) + to
            + replaced(s.skip(i + from.len()), from, to),
    decreases i,
{
    assert(s.skip(0) =~= s);
    if i == 0 {
        if s.len() > 0 && lists::starts(s.skip(0), from) {
            assert(s.take(0) + to =~= to);
        }
    } else {
        assert(!lists::starts(s.skip(0), from));
        let rest = s.drop_first();
        assert forall|j: int| 0 <= j < i - 1 implies !lists::starts(#[trigger] rest.skip(j), from) by {
            assert(rest.skip(j) =~= s.skip(j + 1));
        }
        replacing_starts_at_the_first_place(rest, from, to, i - 1);
        assert(rest.skip(i - 1) =~= s.skip(i));
        if i == s.len() {
            assert(seq![s[0]] + rest =~= s);
        } else if lists::starts(s.skip(i), from) {
            assert(rest.skip(i - 1 + from.len()) =~= s.skip(i + from.len()));
            assert(replaced(s, from, to) =~= s.take(i) + to + replaced(
                s.skip(i + from.len()),
                from,
                to,
            ));
        }
    }
}

/// A text is cut at the first place where the character stands.
pub proof fn a_text_is_cut_at_the_first(a: Seq<char>, x: char, b: Seq<char>)
    requires
        !a.contains(x),
    ensures
        cut(a.push(x) + b, x) == Some((a, b)),
        cut(a, x) is None,
{
    lists::pieces_lie_between(a, x, b);
    assert((a.push(x) + b).take(a.len() as int) =~= a);
    assert((a.push(x) + b).skip(a.len() as int + 1) =~= b);
}

/// Hexadecimal digits count by sixteens, the last of them ones, from nought to nine and on
/// from a to f.
pub proof fn hexadecimal_digits_count_by_sixteens(x: nat, n: nat, d: int)
    requires
        n > 0,
        0 <= d < 16,
    ensures
        hex_digits(x, n).len() == n,
        hex_digits(x, n).drop_last() == hex_digits(x / 16, (n - 1) as nat),
        x % 16 == d && d < 10 ==> hex_digits(x, n).last() as int == '0' as int + d,
        x % 16 == d && d >= 10 ==> hex_digits(x, n).last() as int == 'a' as int + d - 10,
        hex_digits(x, 0).len() == 0,
    decreases n,
{
    if n > 1 {
        hexadecimal_digits_count_by_sixteens(x / 16, (n - 1) as nat, d);
    } else {
        assert(hex_digits(x / 16, 0).len() == 0);
    }
    assert(hex_digits(x, n).drop_last() =~= hex_digits(x / 16, (n - 1) as nat));
}

/// Upper case is the letters from a to z made large, each in its place, and nothing else
/// changed.
pub proof fn only_small_letters_are_made_large(s: Seq<char>, i: int)
    requires
        0 <= i < s.len(),
    ensures
        ascii_uppercase(s).len() == s.len(),
        'a' <= s[i] <= 'z' ==> ascii_uppercase(s)[i] as int - 'A' as int == s[i] as int
            - 'a' as int,
        !('a' <= s[i] <= 'z') ==> ascii_uppercase(s)[i] == s[i],
{
}

} // verus!
