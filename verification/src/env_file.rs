//! The file that AcoustID's application key is kept in, out of the repository.
//!
//! The key identifies the player to the service and is no secret of any user's. It
//! stands in a `.env` file, on a line of its own, and without one the fallback that
//! goes by the sound is simply off.

use crate::lists;
use crate::lists::{same_chars, split_chars};
use crate::text;
use crate::text::{chars_of, split_once, strip, text_of, trim};
use vstd::prelude::*;

verus! {

/// The value that a line gives to the key, when it is about it: without the white space
/// and the quotation marks around it.
pub open spec fn value_in(line: Seq<char>) -> Option<Seq<char>> {
    let line = text::trimmed(line);
    if line.len() > 0 && line[0] == '#' {
        None
    } else {
        match text::cut(line, '=') {
            Some((name, value)) if text::trimmed(name) == "ACOUSTID_API_KEY"@ => Some(
                text::stripped(text::stripped(text::trimmed(value), '"'), '\''),
            ),
            _ => None,
        }
    }
}

/// The key that some lines give: the first that is about it decides, and an empty value
/// is none.
pub open spec fn key_in(lines: Seq<Seq<char>>) -> Option<Seq<char>>
    decreases lines.len(),
{
    if lines.len() == 0 {
        None
    } else {
        match value_in(lines[0]) {
            Some(value) => if value.len() > 0 {
                Some(value)
            } else {
                None
            },
            None => key_in(lines.drop_first()),
        }
    }
}

fn read_value(line: &[char]) -> (r: Option<Vec<char>>)
    ensures
        value_in(line@) == (match r {
            Some(value) => Some(value@),
            None => None::<Seq<char>>,
        }),
{
    let line = trim(line);
    if line.len() > 0 && line[0] == '#' {
        return None;
    }
    let Some((name, value)) = split_once(line, '=') else {
        return None;
    };
    let wanted = chars_of("ACOUSTID_API_KEY");
    if !same_chars(trim(name), wanted.as_slice()) {
        return None;
    }
    Some(vstd::slice::slice_to_vec(strip(strip(trim(value), '"'), '\'')))
}

/// The key that the file gives, if it gives one.
pub fn api_key(contents: &str) -> (r: Option<String>)
    ensures
        r.deep_view() == key_in(lists::split(contents@, '\n')),
{
    let chars = chars_of(contents);
    let lines = split_chars(chars.as_slice(), '\n');
    let ghost all = lines.deep_view();
    let mut i: usize = 0;
    assert(all.skip(0) =~= all);
    while i < lines.len()
        invariant
            i <= lines@.len(),
            all == lines.deep_view(),
            all == lists::split(contents@, '\n'),
            key_in(all) == key_in(all.skip(i as int)),
        decreases lines@.len() - i,
    {
        assert(all.skip(i as int).drop_first() =~= all.skip(i + 1));
        assert(all.skip(i as int)[0] =~= lines@[i as int]@);
        if let Some(value) = read_value(lines[i].as_slice()) {
            return if value.len() > 0 {
                Some(text_of(value))
            } else {
                None
            };
        }
        i = i + 1;
    }
    None
}

/// A line that gives a value to the key gives it, with white space around the name and the
/// value or not, and with quotation marks of either kind around the value or not. A line
/// that is commented out gives none, and so does one about anything else.
pub proof fn a_line_gives_the_key_a_value(
    around: (Seq<char>, Seq<char>, Seq<char>, Seq<char>),
    name: Seq<char>,
    value: Seq<char>,
)
    requires
        forall|i: int| 0 <= i < around.0.len() ==> text::whitespace(#[trigger] around.0[i]),
        forall|i: int| 0 <= i < around.1.len() ==> text::whitespace(#[trigger] around.1[i]),
        forall|i: int| 0 <= i < around.2.len() ==> text::whitespace(#[trigger] around.2[i]),
        forall|i: int| 0 <= i < around.3.len() ==> text::whitespace(#[trigger] around.3[i]),
        name.len() > 0,
        !text::whitespace(name[0]),
        !text::whitespace(name.last()),
        !name.contains('='),
        value.len() > 0,
        !text::whitespace(value[0]) && value[0] != '"' && value[0] != '\'',
        !text::whitespace(value.last()) && value.last() != '"' && value.last() != '\'',
    ensures
        ({
            let key = around.0 + name + around.1;
            let line = key.push('=') + (around.2 + value + around.3);
            let quoted = key.push('=') + (around.2 + (seq!['"'] + value.push('"')) + around.3);
            let marked = key.push('=') + (around.2 + (seq!['\''] + value.push('\'')) + around.3);
            &&& name == "ACOUSTID_API_KEY"@ ==> value_in(line) == Some(value)
            &&& name == "ACOUSTID_API_KEY"@ ==> value_in(quoted) == Some(value)
            &&& name == "ACOUSTID_API_KEY"@ ==> value_in(marked) == Some(value)
            &&& name != "ACOUSTID_API_KEY"@ ==> value_in(line) is None
            &&& name[0] == '#' ==> value_in(line) is None
        }),
{
    reveal_strlit("ACOUSTID_API_KEY");
    let q = seq!['"'] + value.push('"');
    let m = seq!['\''] + value.push('\'');
    one_line(around, name, value);
    one_line(around, name, q);
    one_line(around, name, m);
    text::stripping_takes_off_one_character(value, '"');
    text::stripping_takes_off_one_character(value, '\'');
    assert(text::stripped(m, '"') == m) by {
        text::stripping_takes_off_one_character(m, '"');
    }
}

proof fn one_line(
    around: (Seq<char>, Seq<char>, Seq<char>, Seq<char>),
    name: Seq<char>,
    value: Seq<char>,
)
    requires
        forall|i: int| 0 <= i < around.0.len() ==> text::whitespace(#[trigger] around.0[i]),
        forall|i: int| 0 <= i < around.1.len() ==> text::whitespace(#[trigger] around.1[i]),
        forall|i: int| 0 <= i < around.2.len() ==> text::whitespace(#[trigger] around.2[i]),
        forall|i: int| 0 <= i < around.3.len() ==> text::whitespace(#[trigger] around.3[i]),
        name.len() > 0,
        !text::whitespace(name[0]),
        !text::whitespace(name.last()),
        !name.contains('='),
        value.len() > 0,
        !text::whitespace(value[0]),
        !text::whitespace(value.last()),
    ensures
        ({
            let line = (around.0 + name + around.1).push('=') + (around.2 + value + around.3);
            value_in(line) == (if name[0] != '#' && name == "ACOUSTID_API_KEY"@ {
                Some(text::stripped(text::stripped(value, '"'), '\''))
            } else {
                None
            })
        }),
{
    let line = (around.0 + name + around.1).push('=') + (around.2 + value + around.3);
    let none = Seq::<char>::empty();
    let middle = (name + around.1).push('=') + (around.2 + value);
    assert(line =~= around.0 + middle + around.3);
    assert(middle[0] == name[0]);
    assert(middle.last() == value.last());
    text::only_white_space_is_trimmed(around.0, middle, around.3);
    let front = name + around.1;
    assert(!front.contains('=')) by {
        if front.contains('=') {
            let i = choose|i: int| 0 <= i < front.len() && front[i] == '=';
            if i < name.len() {
                assert(name[i] == '=');
            } else {
                assert(text::whitespace(around.1[i - name.len()]));
            }
        }
    }
    text::a_text_is_cut_at_the_first(front, '=', around.2 + value);
    assert(none + name + around.1 =~= front);
    text::only_white_space_is_trimmed(none, name, around.1);
    assert(around.2 + value + none =~= around.2 + value);
    text::only_white_space_is_trimmed(around.2, value, none);
}

/// The first line that gives the key a value decides, and an empty value is none. Without
/// such a line there is no key.
pub proof fn the_first_line_about_the_key_decides(lines: Seq<Seq<char>>, i: int)
    requires
        0 <= i <= lines.len(),
        forall|j: int| 0 <= j < i ==> value_in(#[trigger] lines[j]) is None,
    ensures
        i == lines.len() ==> key_in(lines) is None,
        i < lines.len() && value_in(lines[i]) is Some ==> key_in(lines) == (if value_in(
            lines[i],
        )->0.len() > 0 {
            value_in(lines[i])
        } else {
            None
        }),
    decreases lines.len(),
{
    if i > 0 {
        let rest = lines.drop_first();
        assert(value_in(lines[0]) is None);
        assert forall|j: int| 0 <= j < i - 1 implies value_in(#[trigger] rest[j]) is None by {
            assert(rest[j] == lines[j + 1]);
        }
        the_first_line_about_the_key_decides(rest, i - 1);
    }
}

} // verus!
