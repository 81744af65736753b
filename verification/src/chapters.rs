//! Chapters marked inside a file, as Ogg comments have them: `CHAPTERnnn` says
//! where one starts and `CHAPTERnnnNAME` what it is called.

use crate::lists;
use crate::lists::split_chars;
use crate::text;
use crate::text::{
    chars_of, decimal_chars, extend_chars, is_digit, parse_unsigned, split_once,
    starts_with_chars, text_of, to_ascii_uppercase, trim,
};
use crate::time::{Duration, NANOS_PER_MILLI};
use crate::track;
use crate::track::{Chapter, ChapterModel};
use vstd::prelude::*;
use vstd::utf8::*;

verus! {

/// The part of a timecode before its first dot, and the part after it.
pub open spec fn timecode_parts(value: Seq<char>) -> (Seq<char>, Seq<char>) {
    match text::cut(value, '.') {
        Some(parts) => parts,
        None => (value, seq![]),
    }
}

/// The hours, minutes and seconds of a timecode, when it has exactly those. Only
/// the hours may have white space around them.
pub open spec fn clock(hms: Seq<char>) -> Option<(nat, nat, nat)> {
    let parts = lists::split(hms, ':');
    if parts.len() == 3 {
        match (
            text::unsigned(text::trimmed(parts[0]), u64::MAX as nat),
            text::unsigned(parts[1], u64::MAX as nat),
            text::unsigned(parts[2], u64::MAX as nat),
        ) {
            (Some(hours), Some(minutes), Some(seconds)) => Some((hours, minutes, seconds)),
            _ => None,
        }
    } else {
        None
    }
}

pub open spec fn byte_digit(b: u8) -> bool {
    0x30 <= b <= 0x39
}

/// The first three bytes of a fraction, with noughts for what is missing.
pub open spec fn three_bytes(fraction: Seq<u8>) -> Seq<u8> {
    Seq::new(
        3,
        |i: int|
            if i < fraction.len() {
                fraction[i]
            } else {
                0x30
            },
    )
}

/// The milliseconds a fraction comes to, when the three bytes of it that count
/// are a number. A plus may stand in front of it.
pub open spec fn thousandths(fraction: Seq<u8>) -> Option<nat> {
    let b = three_bytes(fraction);
    if byte_digit(b[1]) && byte_digit(b[2]) && (b[0] == 0x2b || byte_digit(b[0])) {
        Some(
            (if b[0] == 0x2b {
                0
            } else {
                (b[0] - 0x30) * 100
            } + (b[1] - 0x30) * 10 + (b[2] - 0x30)) as nat,
        )
    } else {
        None
    }
}

/// The milliseconds of a timecode: none where it has no fraction.
pub open spec fn timecode_millis(fraction: Seq<char>) -> Option<nat> {
    if fraction.len() == 0 {
        Some(0)
    } else {
        thousandths(encode_utf8(fraction))
    }
}

/// All the milliseconds there are in so many hours, minutes, seconds and
/// milliseconds.
pub open spec fn all_millis(hours: nat, minutes: nat, seconds: nat, millis: nat) -> nat {
    ((hours * 60 + minutes) * 60 + seconds) * 1000 + millis
}

/// The position a timecode stands for, in milliseconds.
pub open spec fn timecode(value: Seq<char>) -> Option<nat> {
    let (hms, fraction) = timecode_parts(value);
    match (clock(hms), timecode_millis(fraction)) {
        (Some((hours, minutes, seconds)), Some(millis)) => Some(
            all_millis(hours, minutes, seconds, millis),
        ),
        _ => None,
    }
}

/// Whether three bytes can be cut off the front of a text without cutting through
/// a character.
pub open spec fn cuts_cleanly(bytes: Seq<u8>) -> bool {
    bytes.len() <= 3 || !(0x80 <= bytes[3] < 0xc0)
}

/// Whether a value can be read as a timecode at all: its fraction can be cut to
/// three bytes, and its milliseconds fit a 64-bit counter. What is no timecode to
/// begin with can always be read, as nothing.
pub open spec fn timecode_fits(value: Seq<char>) -> bool {
    let (hms, fraction) = timecode_parts(value);
    clock(hms) is Some ==> cuts_cleanly(encode_utf8(fraction)) && (timecode(value) matches Some(
        millis,
    ) ==> millis <= u64::MAX)
}

/// A timecode taken apart.
struct Timecode {
    clock: Option<(u64, u64, u64)>,
    fraction: Vec<u8>,
    millis: Option<u64>,
}

impl Timecode {
    spec fn is_of(self, value: Seq<char>) -> bool {
        let (hms, fraction) = timecode_parts(value);
        &&& self.clock is Some <==> clock(hms) is Some
        &&& self.clock matches Some((h, m, s)) ==> clock(hms) == Some(
            (h as nat, m as nat, s as nat),
        )
        &&& self.fraction@ == encode_utf8(fraction)
        &&& self.millis is Some <==> timecode_millis(fraction) is Some
        &&& self.millis matches Some(ms) ==> timecode_millis(fraction) == Some(ms as nat) && ms
            < 1000
    }
}

fn read_clock(hms: &[char]) -> (r: Option<(u64, u64, u64)>)
    ensures
        r is Some <==> clock(hms@) is Some,
        r matches Some((h, m, s)) ==> clock(hms@) == Some((h as nat, m as nat, s as nat)),
{
    let parts = split_chars(hms, ':');
    if parts.len() != 3 {
        return None;
    }
    assert(parts.deep_view()[0] =~= parts@[0]@);
    assert(parts.deep_view()[1] =~= parts@[1]@);
    assert(parts.deep_view()[2] =~= parts@[2]@);
    let Some(hours) = parse_unsigned(trim(parts[0].as_slice()), u64::MAX) else {
        return None;
    };
    let Some(minutes) = parse_unsigned(parts[1].as_slice(), u64::MAX) else {
        return None;
    };
    let Some(seconds) = parse_unsigned(parts[2].as_slice(), u64::MAX) else {
        return None;
    };
    Some((hours, minutes, seconds))
}

fn read_thousandths(fraction: &[u8]) -> (r: Option<u64>)
    ensures
        r is Some <==> thousandths(fraction@) is Some,
        r matches Some(ms) ==> thousandths(fraction@) == Some(ms as nat) && ms < 1000,
{
    let len: usize = fraction.len();
    let a: u8 = if 0 < len {
        fraction[0]
    } else {
        0x30
    };
    let b: u8 = if 1 < len {
        fraction[1]
    } else {
        0x30
    };
    let c: u8 = if 2 < len {
        fraction[2]
    } else {
        0x30
    };
    assert(three_bytes(fraction@) =~= seq![a, b, c]);
    let digits = 0x30 <= b && b <= 0x39 && 0x30 <= c && c <= 0x39;
    if !digits || !(a == 0x2b || (0x30 <= a && a <= 0x39)) {
        return None;
    }
    let hundreds: u64 = if a == 0x2b {
        0
    } else {
        (a - 0x30) as u64 * 100
    };
    Some(hundreds + (b - 0x30) as u64 * 10 + (c - 0x30) as u64)
}

fn take_apart(value: &str) -> (t: Timecode)
    ensures
        t.is_of(value@),
{
    let chars = chars_of(value);
    let whole = chars.as_slice();
    let (hms, fraction): (&[char], &[char]) = match split_once(whole, '.') {
        Some(parts) => parts,
        None => {
            let none = vstd::slice::slice_subrange(whole, whole.len(), whole.len());
            assert(none@ =~= seq![]);
            (whole, none)
        },
    };
    let text = text_of(vstd::slice::slice_to_vec(fraction));
    let bytes = vstd::slice::slice_to_vec(text.as_str().as_bytes());
    let millis: Option<u64> = if fraction.len() == 0 {
        Some(0)
    } else {
        read_thousandths(bytes.as_slice())
    };
    Timecode { clock: read_clock(hms), fraction: bytes, millis }
}

/// Milliseconds that fit a counter all told fit it at every step there.
proof fn steps_fit(h: u64, m: u64, s: u64, ms: u64)
    requires
        all_millis(h as nat, m as nat, s as nat, ms as nat) <= u64::MAX,
    ensures
        h * 60 + m <= u64::MAX,
        (h * 60 + m) * 60 + s <= u64::MAX,
        ((h * 60 + m) * 60 + s) * 1000 + ms <= u64::MAX,
{
}

fn total_fits(h: u64, m: u64, s: u64, ms: u64) -> (r: bool)
    ensures
        r == (all_millis(h as nat, m as nat, s as nat, ms as nat) <= u64::MAX),
{
    let all: u128 = ((h as u128 * 60 + m as u128) * 60 + s as u128) * 1000 + ms as u128;
    all <= 18_446_744_073_709_551_615u128
}

/// Whether a value can be read as a timecode: see [`parse_timecode`].
pub fn can_read_timecode(value: &str) -> (r: bool)
    ensures
        r == timecode_fits(value@),
{
    let t = take_apart(value);
    let Some((h, m, s)) = t.clock else {
        return true;
    };
    let bytes = &t.fraction;
    if bytes.len() > 3 && 0x80 <= bytes[3] && bytes[3] < 0xc0 {
        return false;
    }
    match t.millis {
        Some(ms) => total_fits(h, m, s, ms),
        None => true,
    }
}

/// Reads a chapter's timecode, `HH:MM:SS.mmm`. A fraction is cut or filled up to
/// whole milliseconds.
pub fn parse_timecode(value: &str) -> (r: Option<Duration>)
    requires
        timecode_fits(value@),
    ensures
        r is Some <==> timecode(value@) is Some,
        r matches Some(d) ==> d.nanos == timecode(value@)->0 * NANOS_PER_MILLI,
{
    let t = take_apart(value);
    let Some((h, m, s)) = t.clock else {
        return None;
    };
    let Some(ms) = t.millis else {
        return None;
    };
    proof {
        steps_fit(h, m, s, ms);
    }
    Some(Duration::from_millis(((h * 60 + m) * 60 + s) * 1000 + ms))
}

/// How many digits a text begins with.
pub open spec fn leading_digits(s: Seq<char>) -> int
    decreases s.len(),
{
    if s.len() > 0 && text::digit(s[0]) {
        1 + leading_digits(s.drop_first())
    } else {
        0
    }
}

/// A chapter's title without the number in front of it, which the player shows
/// anyway: `03. Fajr` is `Fajr`.
pub open spec fn cleaned(raw: Seq<char>) -> Seq<char> {
    let s = text::trimmed(raw);
    let n = leading_digits(s);
    if n > 0 && n + 1 < s.len() && s[n] == '.' && s[n + 1] == ' ' {
        text::trimmed(s.skip(n + 2))
    } else {
        s
    }
}

fn count_digits(s: &[char]) -> (n: usize)
    ensures
        n == leading_digits(s@),
        n <= s@.len(),
{
    let mut n: usize = 0;
    assert(s@.skip(0) =~= s@);
    while n < s.len() && is_digit(s[n])
        invariant
            n <= s@.len(),
            leading_digits(s@) == n + leading_digits(s@.skip(n as int)),
        decreases s@.len() - n,
    {
        assert(s@.skip(n as int).drop_first() =~= s@.skip(n + 1));
        n = n + 1;
    }
    n
}

/// Drops the number in front of a chapter's title.
pub fn clean_title(raw: &str) -> (r: String)
    ensures
        r@ == cleaned(raw@),
{
    let chars = chars_of(raw);
    let s = trim(chars.as_slice());
    let n: usize = count_digits(s);
    let len: usize = s.len();
    if n > 0 && n < len && n + 1 < len && s[n] == '.' && s[n + 1] == ' ' {
        let rest = vstd::slice::slice_subrange(s, n + 2, len);
        assert(rest@ =~= s@.skip(n + 2));
        return text_of(vstd::slice::slice_to_vec(trim(rest)));
    }
    text_of(vstd::slice::slice_to_vec(s))
}

/// What the key of a comment says it is about.
pub enum KeyModel {
    Start(u32),
    Name(u32),
    Other,
}

/// What the key of a comment is about. Case makes no difference.
pub open spec fn key_of(key: Seq<char>) -> KeyModel {
    let upper = text::ascii_uppercase(key);
    if lists::starts(upper, "CHAPTER"@) {
        let rest = upper.skip(7);
        if lists::ends(rest, "NAME"@) {
            match text::unsigned(rest.take(rest.len() - 4), u32::MAX as nat) {
                Some(n) => KeyModel::Name(n as u32),
                None => KeyModel::Other,
            }
        } else {
            match text::unsigned(rest, u32::MAX as nat) {
                Some(n) => KeyModel::Start(n as u32),
                None => KeyModel::Other,
            }
        }
    } else {
        KeyModel::Other
    }
}

enum Key {
    Start(u32),
    Name(u32),
    Other,
}

impl Key {
    spec fn is(self, model: KeyModel) -> bool {
        match (self, model) {
            (Key::Start(a), KeyModel::Start(b)) => a == b,
            (Key::Name(a), KeyModel::Name(b)) => a == b,
            (Key::Other, KeyModel::Other) => true,
            _ => false,
        }
    }
}

fn read_key(key: &str) -> (r: Key)
    ensures
        r.is(key_of(key@)),
{
    let chars = chars_of(key);
    let upper = to_ascii_uppercase(chars.as_slice());
    let word = chars_of("CHAPTER");
    let suffix = chars_of("NAME");
    proof {
        reveal_strlit("CHAPTER");
        reveal_strlit("NAME");
    }
    if !starts_with_chars(upper.as_slice(), word.as_slice()) {
        return Key::Other;
    }
    let rest = vstd::slice::slice_subrange(upper.as_slice(), 7, upper.len());
    assert(rest@ =~= upper@.skip(7));
    if rest.len() >= 4 {
        let tail = vstd::slice::slice_subrange(rest, rest.len() - 4, rest.len());
        assert(tail@ =~= rest@.skip(rest@.len() - 4));
        if starts_with_chars(tail, suffix.as_slice()) {
            assert(tail@.take(4) =~= tail@);
            let digits = vstd::slice::slice_subrange(rest, 0, rest.len() - 4);
            assert(digits@ =~= rest@.take(rest@.len() - 4));
            return match parse_unsigned(digits, 0xffff_ffff) {
                Some(n) => Key::Name(n as u32),
                None => Key::Other,
            };
        }
        assert(tail@.take(4) =~= tail@);
    }
    match parse_unsigned(rest, 0xffff_ffff) {
        Some(n) => Key::Start(n as u32),
        None => Key::Other,
    }
}

/// A comment, by its key and its value.
pub open spec fn comment_views(comments: Seq<(String, String)>) -> Seq<(Seq<char>, Seq<char>)> {
    comments.map_values(|c: (String, String)| (c.0@, c.1@))
}

/// The start that a comment gives to a chapter.
pub open spec fn start_in(comment: (Seq<char>, Seq<char>)) -> Option<(u32, Duration)> {
    match (key_of(comment.0), timecode(comment.1)) {
        (KeyModel::Start(n), Some(millis)) => Some(
            (n, Duration { nanos: (millis * NANOS_PER_MILLI) as u128 }),
        ),
        _ => None,
    }
}

/// The name that a comment gives to a chapter.
pub open spec fn name_in(comment: (Seq<char>, Seq<char>)) -> Option<(u32, Seq<char>)> {
    match key_of(comment.0) {
        KeyModel::Name(n) => Some((n, comment.1)),
        _ => None,
    }
}

/// Where chapter `n` starts: the last comment that says so counts.
pub open spec fn start_of(comments: Seq<(Seq<char>, Seq<char>)>, n: u32) -> Option<Duration>
    decreases comments.len(),
{
    if comments.len() == 0 {
        None
    } else {
        match start_in(comments.last()) {
            Some((m, start)) if m == n => Some(start),
            _ => start_of(comments.drop_last(), n),
        }
    }
}

/// How chapter `n` is called: the last comment that says so counts.
pub open spec fn name_of(comments: Seq<(Seq<char>, Seq<char>)>, n: u32) -> Option<Seq<char>>
    decreases comments.len(),
{
    if comments.len() == 0 {
        None
    } else {
        match name_in(comments.last()) {
            Some((m, name)) if m == n => Some(name),
            _ => name_of(comments.drop_last(), n),
        }
    }
}

/// The numbers of the chapters that have a start, in the order they first come up.
pub open spec fn numbers(comments: Seq<(Seq<char>, Seq<char>)>) -> Seq<u32>
    decreases comments.len(),
{
    if comments.len() == 0 {
        seq![]
    } else {
        let before = numbers(comments.drop_last());
        match start_in(comments.last()) {
            Some((n, _)) if !before.contains(n) => before.push(n),
            _ => before,
        }
    }
}

/// The title of chapter `n`: its name without a number in front, or else its
/// place, counted from one.
pub open spec fn title_of(comments: Seq<(Seq<char>, Seq<char>)>, n: u32) -> Seq<char> {
    match name_of(comments, n) {
        Some(name) => cleaned(name),
        None => "Chapter "@ + text::decimal((n + 1) as nat),
    }
}

/// Where a chapter starts and what it is called.
#[verifier::ext_equal]
pub struct MarkModel {
    pub start: Duration,
    pub title: Seq<char>,
}

pub struct Mark {
    pub start: Duration,
    pub title: String,
}

impl View for Mark {
    type V = MarkModel;

    open spec fn view(&self) -> MarkModel {
        MarkModel { start: self.start, title: self.title@ }
    }
}

pub open spec fn mark_views(marks: Seq<Mark>) -> Seq<MarkModel> {
    marks.map_values(|m: Mark| m@)
}

/// The mark of chapter `n`.
pub open spec fn mark_of(comments: Seq<(Seq<char>, Seq<char>)>, n: u32) -> MarkModel {
    MarkModel { start: start_of(comments, n)->0, title: title_of(comments, n) }
}

/// The marks that a file's comments make.
pub open spec fn marks_in(comments: Seq<(Seq<char>, Seq<char>)>) -> Seq<MarkModel> {
    numbers(comments).map_values(|n: u32| mark_of(comments, n))
}

/// Whether a file's comments can be read: every start can, and the last number
/// there is has a name if it has a start, since it has no place to count from one.
pub open spec fn comments_fit(comments: Seq<(Seq<char>, Seq<char>)>) -> bool {
    &&& forall|i: int|
        0 <= i < comments.len() && key_of((#[trigger] comments[i]).0) is Start ==> timecode_fits(
            comments[i].1,
        )
    &&& start_of(comments, u32::MAX) is Some ==> name_of(comments, u32::MAX) is Some
}

fn find_number(list: &Vec<u32>, n: u32) -> (r: bool)
    ensures
        r == list@.contains(n),
{
    let mut i: usize = 0;
    while i < list.len()
        invariant
            i <= list@.len(),
            forall|j: int| 0 <= j < i ==> list@[j] != n,
        decreases list@.len() - i,
    {
        if list[i] == n {
            return true;
        }
        i = i + 1;
    }
    false
}

/// A chapter's number is listed exactly when it has a start.
proof fn numbered_have_starts(comments: Seq<(Seq<char>, Seq<char>)>, n: u32)
    ensures
        numbers(comments).contains(n) <==> start_of(comments, n) is Some,
    decreases comments.len(),
{
    if comments.len() > 0 {
        let front = comments.drop_last();
        numbered_have_starts(front, n);
        let before = numbers(front);
        if let Some((m, _)) = start_in(comments.last()) {
            if !before.contains(m) {
                let now = before.push(m);
                if n == m {
                    assert(now[before.len() as int] == m);
                } else {
                    assert(now.contains(n) ==> before.contains(n));
                    if before.contains(n) {
                        let k = choose|k: int| 0 <= k < before.len() && before[k] == n;
                        assert(now[k] == n);
                    }
                }
            }
        }
    }
}

/// Finds where chapter `n` starts.
fn find_start(comments: &[(String, String)], n: u32) -> (r: Option<Duration>)
    requires
        comments_fit(comment_views(comments@)),
    ensures
        r == start_of(comment_views(comments@), n),
{
    let ghost all = comment_views(comments@);
    let mut i: usize = comments.len();
    assert(all.take(i as int) =~= all);
    while i > 0
        invariant
            i <= comments@.len(),
            all == comment_views(comments@),
            comments_fit(all),
            start_of(all, n) == start_of(all.take(i as int), n),
        decreases i,
    {
        assert(all.take(i as int).drop_last() =~= all.take(i - 1));
        assert(all.take(i as int).last() == all[i - 1]);
        i = i - 1;
        let (key, value) = &comments[i];
        assert(all[i as int] == (key@, value@));
        if let Key::Start(m) = read_key(key.as_str()) {
            if let Some(start) = parse_timecode(value.as_str()) {
                if m == n {
                    return Some(start);
                }
            }
        }
    }
    None
}

/// Finds how chapter `n` is called.
fn find_name(comments: &[(String, String)], n: u32) -> (r: Option<&String>)
    ensures
        name_of(comment_views(comments@), n) == (match r {
            Some(name) => Some(name@),
            None => None::<Seq<char>>,
        }),
{
    let ghost all = comment_views(comments@);
    let mut i: usize = comments.len();
    assert(all.take(i as int) =~= all);
    while i > 0
        invariant
            i <= comments@.len(),
            all == comment_views(comments@),
            name_of(all, n) == name_of(all.take(i as int), n),
        decreases i,
    {
        assert(all.take(i as int).drop_last() =~= all.take(i - 1));
        assert(all.take(i as int).last() == all[i - 1]);
        i = i - 1;
        let (key, value) = &comments[i];
        assert(all[i as int] == (key@, value@));
        if let Key::Name(m) = read_key(key.as_str()) {
            if m == n {
                return Some(value);
            }
        }
    }
    None
}

fn make_title(name: Option<&String>, n: u32) -> (r: String)
    requires
        n == u32::MAX ==> name is Some,
    ensures
        r@ == (match name {
            Some(name) => cleaned(name@),
            None => "Chapter "@ + text::decimal((n + 1) as nat),
        }),
{
    match name {
        Some(name) => clean_title(name.as_str()),
        None => {
            let mut s = chars_of("Chapter ");
            let digits = decimal_chars((n + 1) as u128);
            extend_chars(&mut s, digits.as_slice());
            text_of(s)
        },
    }
}

/// Whether a file's comments can be read: see [`collect_marks`].
pub fn can_read(comments: &[(String, String)]) -> (r: bool)
    ensures
        r == comments_fit(comment_views(comments@)),
{
    let ghost all = comment_views(comments@);
    let mut i: usize = 0;
    while i < comments.len()
        invariant
            i <= comments@.len(),
            all == comment_views(comments@),
            forall|j: int|
                0 <= j < i && key_of((#[trigger] all[j]).0) is Start ==> timecode_fits(all[j].1),
        decreases comments@.len() - i,
    {
        let (key, value) = &comments[i];
        assert(all[i as int] == (key@, value@));
        if let Key::Start(_) = read_key(key.as_str()) {
            if !can_read_timecode(value.as_str()) {
                return false;
            }
        }
        i = i + 1;
    }
    let last: u32 = u32::MAX;
    if find_name(comments, last).is_some() {
        return true;
    }
    // Without a name for it, the last number must have no start.
    let mut i: usize = comments.len();
    assert(all.take(i as int) =~= all);
    while i > 0
        invariant
            i <= comments@.len(),
            last == u32::MAX,
            all == comment_views(comments@),
            name_of(all, last) is None,
            forall|j: int|
                0 <= j < all.len() && key_of((#[trigger] all[j]).0) is Start ==> timecode_fits(
                    all[j].1,
                ),
            start_of(all, last) == start_of(all.take(i as int), last),
        decreases i,
    {
        assert(all.take(i as int).drop_last() =~= all.take(i - 1));
        assert(all.take(i as int).last() == all[i - 1]);
        i = i - 1;
        let (key, value) = &comments[i];
        assert(all[i as int] == (key@, value@));
        if let Key::Start(m) = read_key(key.as_str()) {
            if parse_timecode(value.as_str()).is_some() && m == last {
                return false;
            }
        }
    }
    true
}

/// Lists the numbers of the chapters that have a start.
fn find_numbers(comments: &[(String, String)]) -> (r: Vec<u32>)
    requires
        comments_fit(comment_views(comments@)),
    ensures
        r@ == numbers(comment_views(comments@)),
{
    let ghost all = comment_views(comments@);
    let mut r: Vec<u32> = Vec::new();
    let mut i: usize = 0;
    assert(r@ =~= numbers(all.take(0)));
    while i < comments.len()
        invariant
            i <= comments@.len(),
            all == comment_views(comments@),
            comments_fit(all),
            r@ == numbers(all.take(i as int)),
        decreases comments@.len() - i,
    {
        assert(all.take(i + 1).drop_last() =~= all.take(i as int));
        assert(all.take(i + 1).last() == all[i as int]);
        let (key, value) = &comments[i];
        assert(all[i as int] == (key@, value@));
        if let Key::Start(n) = read_key(key.as_str()) {
            if parse_timecode(value.as_str()).is_some() && !find_number(&r, n) {
                r.push(n);
            }
        }
        i = i + 1;
    }
    assert(all.take(all.len() as int) =~= all);
    r
}

/// Pairs the starts of chapters with their titles.
pub fn collect_marks(comments: &[(String, String)]) -> (r: Vec<Mark>)
    requires
        comments_fit(comment_views(comments@)),
    ensures
        mark_views(r@) == marks_in(comment_views(comments@)),
{
    let ghost all = comment_views(comments@);
    let list = find_numbers(comments);
    let mut r: Vec<Mark> = Vec::new();
    let mut i: usize = 0;
    while i < list.len()
        invariant
            i <= list@.len(),
            all == comment_views(comments@),
            comments_fit(all),
            list@ == numbers(all),
            r@.len() == i,
            forall|j: int| 0 <= j < i ==> (#[trigger] r@[j])@ == mark_of(all, list@[j]),
        decreases list@.len() - i,
    {
        let n: u32 = list[i];
        proof {
            assert(numbers(all).contains(n));
            numbered_have_starts(all, n);
        }
        let start = match find_start(comments, n) {
            Some(start) => start,
            None => Duration::zero(),
        };
        let title = make_title(find_name(comments, n), n);
        r.push(Mark { start, title });
        i = i + 1;
    }
    assert(mark_views(r@) =~= marks_in(all));
    r
}

/// Where a mark goes in a list: behind everything that does not start after it.
pub open spec fn place(marks: Seq<MarkModel>, m: MarkModel) -> int
    decreases marks.len(),
{
    if marks.len() > 0 && m.start.nanos < marks.last().start.nanos {
        place(marks.drop_last(), m)
    } else {
        marks.len() as int
    }
}

/// Marks put in order of their start, those that start together staying in the
/// order they came in.
pub open spec fn by_start(marks: Seq<MarkModel>) -> Seq<MarkModel>
    decreases marks.len(),
{
    if marks.len() == 0 {
        seq![]
    } else {
        let rest = by_start(marks.drop_last());
        rest.insert(place(rest, marks.last()), marks.last())
    }
}

proof fn place_bounds(marks: Seq<MarkModel>, m: MarkModel)
    ensures
        0 <= place(marks, m) <= marks.len(),
        forall|i: int|
            place(marks, m) <= i < marks.len() ==> m.start.nanos < (
            #[trigger] marks[i]).start.nanos,
        place(marks, m) > 0 ==> marks[place(marks, m) - 1].start.nanos <= m.start.nanos,
    decreases marks.len(),
{
    if marks.len() > 0 && m.start.nanos < marks.last().start.nanos {
        place_bounds(marks.drop_last(), m);
        assert forall|i: int| place(marks, m) <= i < marks.len() implies m.start.nanos < (
        #[trigger] marks[i]).start.nanos by {
            if i < marks.len() - 1 {
                assert(marks[i] == marks.drop_last()[i]);
            }
        }
    }
}

/// Whether marks are in order of their start.
pub open spec fn in_time_order(marks: Seq<MarkModel>) -> bool {
    forall|i: int, j: int|
        0 <= i < j < marks.len() ==> (#[trigger] marks[i]).start.nanos <= (
        #[trigger] marks[j]).start.nanos
}

/// Putting marks in order leaves them in order, each of them as often as before.
pub proof fn by_start_sorts(marks: Seq<MarkModel>)
    ensures
        in_time_order(by_start(marks)),
        by_start(marks).to_multiset() == marks.to_multiset(),
        by_start(marks).len() == marks.len(),
    decreases marks.len(),
{
    broadcast use vstd::seq_lib::group_to_multiset_ensures;

    if marks.len() > 0 {
        let front = marks.drop_last();
        let rest = by_start(front);
        let m = marks.last();
        by_start_sorts(front);
        place_bounds(rest, m);
        let n = place(rest, m);
        let out = by_start(marks);
        assert(marks =~= front.push(m));
        assert forall|i: int, j: int| 0 <= i < j < out.len() implies (
        #[trigger] out[i]).start.nanos <= (#[trigger] out[j]).start.nanos by {
            if i < n && j == n {
                assert(rest[i].start.nanos <= rest[n - 1].start.nanos);
            } else if i != n && j != n {
                let a = if i < n { i } else { i - 1 };
                let b = if j < n { j } else { j - 1 };
                assert(out[i] == rest[a] && out[j] == rest[b]);
            }
        }
    }
}

fn sort_marks(marks: Vec<Mark>) -> (r: Vec<Mark>)
    ensures
        mark_views(r@) == by_start(mark_views(marks@)),
{
    let ghost all = mark_views(marks@);
    let mut r: Vec<Mark> = Vec::new();
    assert(mark_views(r@) =~= by_start(all.take(0)));
    for m in it: marks.into_iter()
        invariant
            it.seq() == marks@,
            all == mark_views(marks@),
            mark_views(r@) == by_start(all.take(it.index() as int)),
    {
        let ghost i = it.index() as int;
        let ghost view = m@;
        let ghost before = r@;
        proof {
            assert(all.take(i + 1).drop_last() =~= all.take(i));
            assert(all.take(i + 1).last() == view);
        }
        let mut n: usize = r.len();
        assert(mark_views(r@).take(n as int) =~= mark_views(r@));
        while n > 0 && m.start.nanos < r[n - 1].start.nanos
            invariant
                n <= r@.len(),
                view == m@,
                place(mark_views(r@).take(n as int), view) == place(mark_views(r@), view),
            decreases n,
        {
            assert(mark_views(r@).take(n as int).drop_last() =~= mark_views(r@).take(n - 1));
            assert(mark_views(r@).take(n as int).last() == r@[n - 1]@);
            n = n - 1;
        }
        assert(n > 0 ==> mark_views(r@).take(n as int).last() == r@[n - 1]@);
        assert(n == place(mark_views(r@), view));
        r.insert(n, m);
        assert(mark_views(r@) =~= mark_views(before).insert(n as int, view));
    }
    assert(all.take(all.len() as int) =~= all);
    r
}

/// The chapter that a mark in a list starts: up to the next mark, and the last one
/// up to the end of the track, if that is not already behind it.
pub open spec fn chapter_at(marks: Seq<MarkModel>, i: int, duration: Duration) -> ChapterModel {
    let end = if i + 1 < marks.len() {
        marks[i + 1].start
    } else {
        duration
    };
    ChapterModel { title: marks[i].title, start: marks[i].start, end: end.most(marks[i].start) }
}

/// The chapters that marks make of a track. A single chapter is as good as none.
pub open spec fn chapters_from(marks: Seq<MarkModel>, duration: Duration) -> Seq<ChapterModel> {
    if marks.len() < 2 {
        seq![]
    } else {
        Seq::new(marks.len(), |i: int| chapter_at(by_start(marks), i, duration))
    }
}

/// The chapters of a track, from the comments in its file. `None` when its kind of
/// file has no chapters, or the comments could not be read.
pub fn read_chapters(comments: Option<Vec<(String, String)>>, duration: Duration) -> (r: Vec<
    Chapter,
>)
    requires
        comments is Some ==> comments_fit(comment_views(comments->0@)),
    ensures
        track::chapter_views(r@) == (match comments {
            Some(comments) => chapters_from(marks_in(comment_views(comments@)), duration),
            None => seq![],
        }),
{
    let mut r: Vec<Chapter> = Vec::new();
    let Some(comments) = comments else {
        assert(track::chapter_views(r@) =~= seq![]);
        return r;
    };
    let marks = collect_marks(comments.as_slice());
    if marks.len() < 2 {
        assert(track::chapter_views(r@) =~= seq![]);
        return r;
    }
    let ghost all = mark_views(marks@);
    let marks = sort_marks(marks);
    let ghost sorted = mark_views(marks@);
    proof {
        by_start_sorts(all);
    }
    let mut i: usize = 0;
    while i < marks.len()
        invariant
            i <= marks@.len(),
            sorted == mark_views(marks@),
            r@.len() == i,
            forall|j: int| 0 <= j < i ==> (#[trigger] r@[j])@ == chapter_at(sorted, j, duration),
        decreases marks@.len() - i,
    {
        assert(sorted[i as int] == marks@[i as int]@);
        let start = marks[i].start;
        let end = if i + 1 < marks.len() {
            assert(sorted[i + 1] == marks@[i + 1]@);
            marks[i + 1].start
        } else {
            duration
        };
        r.push(Chapter { title: marks[i].title.clone(), start, end: end.longer(start) });
        i = i + 1;
    }
    assert(track::chapter_views(r@) =~= chapters_from(all, duration));
    r
}

/// The chapters of a track follow one another: each ends where the next one
/// starts, none ends before it starts, and there are never fewer than two.
pub proof fn chapters_follow_one_another(marks: Seq<MarkModel>, duration: Duration)
    ensures
        chapters_from(marks, duration).len() != 1,
        forall|i: int|
            0 <= i < chapters_from(marks, duration).len() ==> (#[trigger] chapters_from(
                marks,
                duration,
            )[i]).start.nanos <= chapters_from(marks, duration)[i].end.nanos,
        forall|i: int|
            0 <= i < chapters_from(marks, duration).len() - 1 ==> (#[trigger] chapters_from(
                marks,
                duration,
            )[i]).end == chapters_from(marks, duration)[i + 1].start,
{
    by_start_sorts(marks);
    let sorted = by_start(marks);
    assert forall|i: int| 0 <= i < chapters_from(marks, duration).len() - 1 implies (
    #[trigger] chapters_from(marks, duration)[i]).end == chapters_from(
        marks,
        duration,
    )[i + 1].start by {
        assert(sorted[i].start.nanos <= sorted[i + 1].start.nanos);
    }
}

/// A number with so many noughts in front.
pub open spec fn padded(noughts: nat, n: nat) -> Seq<char> {
    Seq::new(noughts, |i: int| '0') + text::decimal(n)
}

proof fn padding_is_worth_nothing(noughts: nat, n: nat)
    ensures
        text::value(padded(noughts, n)) == n,
        padded(noughts, n).len() > 0,
        forall|i: int| 0 <= i < padded(noughts, n).len() ==> '0' <= #[trigger] padded(noughts, n)[i] <= '9',
    decreases noughts,
{
    text::decimal_tells(n);
    let s = padded(noughts, n);
    if noughts == 0 {
        assert(s =~= text::decimal(n));
        assert forall|i: int| 0 <= i < s.len() implies '0' <= #[trigger] s[i] <= '9' by {
            assert(text::digit(text::decimal(n)[i]));
        }
    } else {
        let less = padded((noughts - 1) as nat, n);
        padding_is_worth_nothing((noughts - 1) as nat, n);
        assert(s =~= seq!['0'] + less);
        text::digits_count_by_tens(less, '0');
        assert forall|i: int| 0 <= i < s.len() implies '0' <= #[trigger] s[i] <= '9' by {
            if i > 0 {
                assert(s[i] == less[i - 1]);
            }
        }
    }
}

/// A chapter's number is the whole of the number in its key, whatever it is and however
/// many noughts stand in front of it: `CHAPTER011` is about chapter eleven and about no
/// other, and so is `Chapter11Name`.
pub proof fn a_key_tells_the_whole_number(noughts: nat, n: u32, key: Seq<char>)
    ensures
        text::ascii_uppercase(key) == "CHAPTER"@ + padded(noughts, n as nat) ==> key_of(key)
            == KeyModel::Start(n),
        text::ascii_uppercase(key) == "CHAPTER"@ + padded(noughts, n as nat) + "NAME"@ ==> key_of(
            key,
        ) == KeyModel::Name(n),
        key_of("CHAPTER"@ + padded(noughts, n as nat)) == KeyModel::Start(n),
        key_of("CHAPTER"@ + padded(noughts, n as nat) + "NAME"@) == KeyModel::Name(n),
{
    let digits = padded(noughts, n as nat);
    padding_is_worth_nothing(noughts, n as nat);
    reveal_strlit("CHAPTER");
    reveal_strlit("NAME");
    text::a_number_is_its_digits(digits, u32::MAX as nat);
    let start = "CHAPTER"@ + digits;
    let name = "CHAPTER"@ + digits + "NAME"@;
    assert(start.take(7) =~= "CHAPTER"@);
    assert(start.skip(7) =~= digits);
    assert(name.take(7) =~= "CHAPTER"@);
    assert(name.skip(7) =~= digits + "NAME"@);
    lists::what_is_put_together_begins_and_ends(digits, "NAME"@);
    assert((digits + "NAME"@).take((digits + "NAME"@).len() - 4) =~= digits);
    assert(!lists::ends(digits, "NAME"@)) by {
        if lists::ends(digits, "NAME"@) {
            let tail = digits.skip(digits.len() - 4);
            assert(tail[0] == 'N');
            assert('0' <= digits[digits.len() - 4] <= '9');
        }
    }
    assert(text::ascii_uppercase(start) =~= start);
    assert(text::ascii_uppercase(name) =~= name);
}

/// Nothing is a chapter's key that is not `CHAPTER`, a number and perhaps `NAME`.
pub proof fn other_keys_are_about_no_chapter(key: Seq<char>)
    ensures
        !lists::starts(text::ascii_uppercase(key), "CHAPTER"@) ==> key_of(key) is Other,
        key_of(key) matches KeyModel::Start(n) ==> {
            let rest = text::ascii_uppercase(key).skip(7);
            text::unsigned(rest, u32::MAX as nat) == Some(n as nat)
        },
        key_of(key) matches KeyModel::Name(n) ==> {
            let rest = text::ascii_uppercase(key).skip(7);
            &&& lists::ends(rest, "NAME"@)
            &&& text::unsigned(rest.take(rest.len() - 4), u32::MAX as nat) == Some(n as nat)
        },
{
    reveal_strlit("NAME");
}

/// A chapter's number is listed once, in however many comments it gets a start.
proof fn numbers_are_listed_once(comments: Seq<(Seq<char>, Seq<char>)>)
    ensures
        numbers(comments).no_duplicates(),
    decreases comments.len(),
{
    if comments.len() > 0 {
        numbers_are_listed_once(comments.drop_last());
    }
}

proof fn the_last_start_counts(comments: Seq<(Seq<char>, Seq<char>)>, n: u32, i: int)
    requires
        0 <= i < comments.len(),
        start_in(comments[i]) matches Some((m, _)) && m == n,
        forall|j: int|
            i < j < comments.len() ==> !(start_in(#[trigger] comments[j]) matches Some((m, _)) && m
                == n),
    ensures
        start_in(comments[i]) matches Some((_, start)) && start_of(comments, n) == Some(start),
    decreases comments.len(),
{
    if i < comments.len() - 1 {
        assert(!(start_in(comments[comments.len() - 1]) matches Some((m, _)) && m == n));
        the_last_start_counts(comments.drop_last(), n, i);
    }
}

proof fn the_last_name_counts(comments: Seq<(Seq<char>, Seq<char>)>, n: u32, i: int)
    requires
        -1 <= i < comments.len(),
        i >= 0 ==> key_of(comments[i].0) == KeyModel::Name(n),
        forall|j: int|
            i < j < comments.len() ==> key_of((#[trigger] comments[j]).0) != KeyModel::Name(n),
    ensures
        i >= 0 ==> name_of(comments, n) == Some(comments[i].1),
        i < 0 ==> name_of(comments, n) is None,
    decreases comments.len(),
{
    if comments.len() > 0 && i < comments.len() - 1 {
        assert(key_of(comments[comments.len() - 1].0) != KeyModel::Name(n));
        the_last_name_counts(comments.drop_last(), n, i);
    }
}

/// Comments that give so many different numbers a start that can be read make as many
/// marks. Each number has a mark of its own, with the start that the last of its comments
/// gives it and the name that the last comment about its name does, without a number in
/// front; without a name it is called by its place, counted from one.
pub proof fn every_number_has_its_mark(
    comments: Seq<(Seq<char>, Seq<char>)>,
    n: u32,
    starts: int,
    names: int,
) -> (k: int)
    requires
        0 <= starts < comments.len(),
        key_of(comments[starts].0) == KeyModel::Start(n),
        timecode(comments[starts].1) is Some,
        forall|j: int|
            starts < j < comments.len() ==> !(key_of((#[trigger] comments[j]).0)
                == KeyModel::Start(n) && timecode(comments[j].1) is Some),
        -1 <= names < comments.len(),
        names >= 0 ==> key_of(comments[names].0) == KeyModel::Name(n),
        forall|j: int|
            names < j < comments.len() ==> key_of((#[trigger] comments[j]).0)
                != KeyModel::Name(n),
    ensures
        0 <= k < marks_in(comments).len(),
        numbers(comments)[k] == n,
        marks_in(comments)[k].start.nanos == (timecode(comments[starts].1)->0 * 1_000_000) as u128,
        names >= 0 ==> marks_in(comments)[k].title == cleaned(comments[names].1),
        names < 0 ==> marks_in(comments)[k].title == "Chapter "@ + text::decimal((n + 1) as nat),
{
    assert forall|j: int| starts < j < comments.len() implies !(start_in(
        #[trigger] comments[j],
    ) matches Some((m, _)) && m == n) by {
        assert(!(key_of(comments[j].0) == KeyModel::Start(n) && timecode(comments[j].1) is Some));
    }
    the_last_start_counts(comments, n, starts);
    the_last_name_counts(comments, n, names);
    numbered_have_starts(comments, n);
    let k = choose|k: int| 0 <= k < numbers(comments).len() && numbers(comments)[k] == n;
    k
}

/// There is one mark for each number that has a start, and none for any other.
pub proof fn marks_are_made_by_numbers(comments: Seq<(Seq<char>, Seq<char>)>, n: u32)
    ensures
        marks_in(comments).len() == numbers(comments).len(),
        numbers(comments).no_duplicates(),
        numbers(comments).contains(n) <==> exists|i: int|
            0 <= i < comments.len() && key_of((#[trigger] comments[i]).0) == KeyModel::Start(n)
                && timecode(comments[i].1) is Some,
{
    numbers_are_listed_once(comments);
    numbered_have_starts(comments, n);
    a_start_is_in_a_comment(comments, n);
    if exists|i: int|
        0 <= i < comments.len() && key_of((#[trigger] comments[i]).0) == KeyModel::Start(n)
            && timecode(comments[i].1) is Some {
        let i = choose|i: int|
            0 <= i < comments.len() && key_of((#[trigger] comments[i]).0) == KeyModel::Start(n)
                && timecode(comments[i].1) is Some;
        a_comment_is_a_start(comments, n, i);
    }
}

proof fn a_start_is_in_a_comment(comments: Seq<(Seq<char>, Seq<char>)>, n: u32)
    ensures
        start_of(comments, n) is Some ==> exists|i: int|
            0 <= i < comments.len() && key_of((#[trigger] comments[i]).0) == KeyModel::Start(n)
                && timecode(comments[i].1) is Some,
    decreases comments.len(),
{
    if comments.len() > 0 {
        let front = comments.drop_last();
        a_start_is_in_a_comment(front, n);
        if start_in(comments.last()) matches Some((m, _)) && m == n {
            assert(key_of(comments[comments.len() - 1].0) == KeyModel::Start(n));
        } else if start_of(front, n) is Some {
            let i = choose|i: int|
                0 <= i < front.len() && key_of((#[trigger] front[i]).0) == KeyModel::Start(n)
                    && timecode(front[i].1) is Some;
            assert(comments[i] == front[i]);
        }
    }
}

proof fn a_comment_is_a_start(comments: Seq<(Seq<char>, Seq<char>)>, n: u32, i: int)
    requires
        0 <= i < comments.len(),
        key_of(comments[i].0) == KeyModel::Start(n),
        timecode(comments[i].1) is Some,
    ensures
        start_of(comments, n) is Some,
    decreases comments.len(),
{
    if i < comments.len() - 1 {
        a_comment_is_a_start(comments.drop_last(), n, i);
    }
}

/// Hours, minutes and seconds between colons.
#[verifier::spinoff_prover]
#[verifier::rlimit(30)]
proof fn a_clock_tells_the_time(
    pads: (nat, nat, nat),
    hours: u64,
    minutes: u64,
    seconds: u64,
    clock_text: Seq<char>,
)
    requires
        clock_text == padded(pads.0, hours as nat) + seq![':'] + padded(pads.1, minutes as nat)
            + seq![':'] + padded(pads.2, seconds as nat),
    ensures
        clock(clock_text) == Some((hours as nat, minutes as nat, seconds as nat)),
        forall|i: int| 0 <= i < clock_text.len() ==> #[trigger] clock_text[i] != '.',
{
    let (h, m, s) = (
        padded(pads.0, hours as nat),
        padded(pads.1, minutes as nat),
        padded(pads.2, seconds as nat),
    );
    padding_is_worth_nothing(pads.0, hours as nat);
    padding_is_worth_nothing(pads.1, minutes as nat);
    padding_is_worth_nothing(pads.2, seconds as nat);
    text::a_number_is_its_digits(h, u64::MAX as nat);
    text::a_number_is_its_digits(m, u64::MAX as nat);
    text::a_number_is_its_digits(s, u64::MAX as nat);
    no_such_character(h, ':');
    no_such_character(m, ':');
    no_such_character(s, ':');
    assert(text::trimmed(h) == h) by {
        assert('0' <= h[0] <= '9');
        assert('0' <= h[h.len() - 1] <= '9');
        text::only_white_space_is_trimmed(seq![], h, seq![]);
    }
    lists::pieces_lie_between(h, ':', m.push(':') + s);
    lists::pieces_lie_between(m, ':', s);
    lists::pieces_lie_between(s, ':', seq![]);
    assert(clock_text =~= h.push(':') + (m.push(':') + s));
    let parts = lists::split(clock_text, ':');
    assert(parts =~= seq![h, m, s]);
    assert(clock(clock_text) == Some((hours as nat, minutes as nat, seconds as nat)));
    assert forall|i: int| 0 <= i < clock_text.len() implies clock_text[i] != '.' by {
        if i < h.len() {
            assert(clock_text[i] == h[i]);
        } else if h.len() < i < h.len() + 1 + m.len() {
            assert(clock_text[i] == m[i - h.len() - 1]);
        } else if i > h.len() + 1 + m.len() {
            assert(clock_text[i] == s[i - h.len() - m.len() - 2]);
        }
    }
}

/// The time a timecode tells, whatever noughts stand in front of its numbers: hours,
/// minutes and seconds between colons, and behind a point the thousandths, of which only
/// three digits count.
#[verifier::spinoff_prover]
#[verifier::rlimit(30)]
pub proof fn a_timecode_tells_the_time(
    pads: (nat, nat, nat),
    hours: u64,
    minutes: u64,
    seconds: u64,
    fraction: Seq<char>,
)
    requires
        forall|i: int| 0 <= i < fraction.len() ==> '0' <= #[trigger] fraction[i] <= '9',
    ensures
        ({
            let clock = padded(pads.0, hours as nat) + seq![':'] + padded(pads.1, minutes as nat)
                + seq![':'] + padded(pads.2, seconds as nat);
            let whole = 3_600_000 * hours + 60_000 * minutes + 1000 * seconds;
            let digit = |i: int|
                if i < fraction.len() {
                    fraction[i] as int - '0' as int
                } else {
                    0
                };
            &&& timecode(clock) is Some
            &&& timecode(clock)->0 == whole
            &&& timecode(clock + seq!['.'] + fraction) is Some
            &&& timecode(clock + seq!['.'] + fraction)->0 == whole + 100 * digit(0) + 10 * digit(1)
                + digit(2)
        }),
{
    let clock_text = padded(pads.0, hours as nat) + seq![':'] + padded(pads.1, minutes as nat)
        + seq![':'] + padded(pads.2, seconds as nat);
    a_clock_tells_the_time(pads, hours, minutes, seconds, clock_text);
    text::a_text_is_cut_at_the_first(clock_text, '.', fraction);
    assert(clock_text.push('.') + fraction =~= clock_text + seq!['.'] + fraction);
    digits_are_bytes(fraction);
    let bytes = encode_utf8(fraction);
    assert forall|i: int| 0 <= i < 3 implies byte_digit(#[trigger] three_bytes(bytes)[i]) by {
        if i < fraction.len() {
            assert('0' <= fraction[i] <= '9');
        }
    }
    assert(byte_digit(three_bytes(bytes)[0]) && byte_digit(three_bytes(bytes)[1]) && byte_digit(
        three_bytes(bytes)[2],
    ));
}

proof fn no_such_character(digits: Seq<char>, c: char)
    requires
        forall|i: int| 0 <= i < digits.len() ==> '0' <= #[trigger] digits[i] <= '9',
        !('0' <= c <= '9'),
    ensures
        !digits.contains(c),
{
}

/// Digits are one byte each.
proof fn digits_are_bytes(s: Seq<char>)
    requires
        forall|i: int| 0 <= i < s.len() ==> '0' <= #[trigger] s[i] <= '9',
    ensures
        encode_utf8(s).len() == s.len(),
        forall|i: int| 0 <= i < s.len() ==> #[trigger] encode_utf8(s)[i] == s[i] as u8,
    decreases s.len(),
{
    if s.len() > 0 {
        let rest = s.drop_first();
        assert forall|i: int| 0 <= i < rest.len() implies '0' <= #[trigger] rest[i] <= '9' by {
            assert(rest[i] == s[i + 1]);
        }
        digits_are_bytes(rest);
        assert('0' <= s[0] <= '9');
        let c = s[0] as u32;
        assert((c & 0x7f) as u8 == c as u8) by (bit_vector)
            requires
                c < 0x80,
        ;
        assert(encode_scalar(c) =~= seq![s[0] as u8]);
        assert(encode_utf8(s) =~= seq![s[0] as u8] + encode_utf8(rest));
        assert forall|i: int| 0 <= i < s.len() implies #[trigger] encode_utf8(s)[i] == s[i] as u8 by {
            if i > 0 {
                assert(encode_utf8(s)[i] == encode_utf8(rest)[i - 1]);
            }
        }
    }
}

/// A number, a point and a space in front of a title are taken off it, and what is left is
/// the title; any other title stays as it is. White space around a title never counts.
pub proof fn only_a_number_is_taken_off_a_title(
    around: (Seq<char>, Seq<char>),
    digits: Seq<char>,
    title: Seq<char>,
)
    requires
        forall|i: int| 0 <= i < around.0.len() ==> text::whitespace(#[trigger] around.0[i]),
        forall|i: int| 0 <= i < around.1.len() ==> text::whitespace(#[trigger] around.1[i]),
        digits.len() > 0,
        forall|i: int| 0 <= i < digits.len() ==> '0' <= #[trigger] digits[i] <= '9',
        title.len() > 0,
        !text::whitespace(title[0]),
        !text::whitespace(title.last()),
    ensures
        cleaned(around.0 + (digits + seq!['.', ' '] + title) + around.1) == title,
        !('0' <= title[0] <= '9') ==> cleaned(around.0 + title + around.1) == title,
        title[0] != '.' && !('0' <= title[0] <= '9') ==> cleaned(around.0 + (digits + title)
            + around.1) == digits + title,
        cleaned(digits) == digits,
{
    let whole = digits + seq!['.', ' '] + title;
    assert('0' <= digits[0] <= '9');
    assert('0' <= digits[digits.len() - 1] <= '9');
    assert(whole[0] == digits[0] && whole.last() == title.last());
    text::only_white_space_is_trimmed(around.0, whole, around.1);
    leading_digits_are(digits, seq!['.', ' '] + title);
    assert(digits + (seq!['.', ' '] + title) =~= whole);
    assert(whole.skip(digits.len() + 2int) =~= title);
    text::only_white_space_is_trimmed(around.0, title, around.1);
    if !('0' <= title[0] <= '9') {
        assert(leading_digits(title) == 0);
        if title[0] != '.' {
            let glued = digits + title;
            assert(glued[0] == digits[0] && glued.last() == title.last());
            text::only_white_space_is_trimmed(around.0, glued, around.1);
            leading_digits_are(digits, title);
            assert(glued[digits.len() as int] == title[0]);
        }
    }
    text::only_white_space_is_trimmed(seq![], digits, seq![]);
    leading_digits_are(digits, seq![]);
    assert(digits + seq![] =~= digits);
}

proof fn leading_digits_are(digits: Seq<char>, rest: Seq<char>)
    requires
        forall|i: int| 0 <= i < digits.len() ==> '0' <= #[trigger] digits[i] <= '9',
        rest.len() > 0 ==> !('0' <= rest[0] <= '9'),
    ensures
        leading_digits(digits + rest) == digits.len(),
    decreases digits.len(),
{
    let s = digits + rest;
    if digits.len() > 0 {
        assert('0' <= digits[0] <= '9');
        let fewer = digits.drop_first();
        assert forall|i: int| 0 <= i < fewer.len() implies '0' <= #[trigger] fewer[i] <= '9' by {
            assert(fewer[i] == digits[i + 1]);
        }
        leading_digits_are(fewer, rest);
        assert(s.drop_first() =~= fewer + rest);
    } else {
        assert(s =~= rest);
    }
}

/// Two marks or more make a chapter each, in the order of their starts: each with the
/// start and the title of its mark, up to where the next one starts, and the last one up
/// to the end of the track. Fewer than two make none.
pub proof fn chapters_are_the_marks_in_order(marks: Seq<MarkModel>, duration: Duration, i: int)
    ensures
        marks.len() < 2 ==> chapters_from(marks, duration).len() == 0,
        marks.len() >= 2 ==> {
            let chapters = chapters_from(marks, duration);
            &&& chapters.len() == marks.len()
            &&& chapters.map_values(
                |c: ChapterModel| MarkModel { start: c.start, title: c.title },
            ).to_multiset() == marks.to_multiset()
            &&& 0 <= i < chapters.len() - 1 ==> chapters[i].start.nanos <= chapters[i
                + 1].start.nanos && chapters[i].end == chapters[i + 1].start
            &&& chapters.last().end.nanos == (if chapters.last().start.nanos > duration.nanos {
                chapters.last().start.nanos
            } else {
                duration.nanos
            })
        },
{
    if marks.len() >= 2 {
        by_start_sorts(marks);
        let chapters = chapters_from(marks, duration);
        let sorted = by_start(marks);
        assert(chapters.map_values(
            |c: ChapterModel| MarkModel { start: c.start, title: c.title },
        ) =~= sorted);
        if 0 <= i < chapters.len() - 1 {
            assert(sorted[i].start.nanos <= sorted[i + 1].start.nanos);
        }
    }
}

/// Marks that start together stay in the order they came in.
pub proof fn marks_that_start_together_keep_their_order(marks: Seq<MarkModel>, start: Duration)
    ensures
        by_start(marks).filter(|m: MarkModel| m.start == start) == marks.filter(
            |m: MarkModel| m.start == start,
        ),
    decreases marks.len(),
{
    let together = |m: MarkModel| m.start == start;
    reveal(Seq::filter);
    if marks.len() > 0 {
        let front = marks.drop_last();
        let rest = by_start(front);
        let m = marks.last();
        marks_that_start_together_keep_their_order(front, start);
        by_start_sorts(front);
        place_bounds(rest, m);
        let n = place(rest, m);
        let (before, after) = (rest.take(n), rest.skip(n));
        assert(rest =~= before + after);
        assert(rest.insert(n, m) =~= before + seq![m] + after);
        Seq::filter_distributes_over_add(before, after, together);
        Seq::filter_distributes_over_add(before + seq![m], after, together);
        Seq::filter_distributes_over_add(before, seq![m], together);
        assert(seq![m].drop_last() =~= seq![]);
        assert(Seq::<MarkModel>::empty().filter(together) =~= seq![]);
        if m.start == start {
            assert forall|i: int| 0 <= i < after.len() implies !together(#[trigger] after[i]) by {
                assert(after[i] == rest[n + i]);
            }
            none_is_kept(after, together);
            assert(seq![m].filter(together) =~= seq![m]);
            assert(by_start(marks).filter(together) =~= marks.filter(together));
        } else {
            assert(seq![m].filter(together) =~= seq![]);
            assert(by_start(marks).filter(together) =~= rest.filter(together));
        }
    }
}

proof fn none_is_kept(s: Seq<MarkModel>, keep: spec_fn(MarkModel) -> bool)
    requires
        forall|i: int| 0 <= i < s.len() ==> !keep(#[trigger] s[i]),
    ensures
        s.filter(keep) == Seq::<MarkModel>::empty(),
    decreases s.len(),
{
    reveal(Seq::filter);
    if s.len() > 0 {
        none_is_kept(s.drop_last(), keep);
        assert(!keep(s[s.len() - 1]));
    }
}

} // verus!
