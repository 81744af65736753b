//! The library: where the music is, and what a walk through a folder found there.

use crate::lists;
use crate::lists::split_chars;
use crate::order;
use crate::path;
use crate::path::FilePath;
use crate::text;
use crate::text::{chars_of, starts_with_chars, strip, text_of, trim};
use crate::track;
use crate::track::is_supported;
use vstd::prelude::*;
use vstd::utf8::*;

verus! {

/// The folder a line of the desktop's configuration names as that of the music:
/// `XDG_MUSIC_DIR="$HOME/Music"`.
pub open spec fn folder_in(line: Seq<char>, home: Seq<u8>) -> Option<Seq<u8>> {
    if lists::starts(line, "XDG_MUSIC_DIR="@) {
        let value = text::stripped(text::trimmed(line.skip(14)), '"');
        if lists::starts(value, "$HOME/"@) {
            Some(path::joined(home, encode_utf8(value.skip(6))))
        } else {
            Some(encode_utf8(value))
        }
    } else {
        None
    }
}

/// The folders that lines of the configuration name, in order.
pub open spec fn folders_in(lines: Seq<Seq<char>>, home: Seq<u8>) -> Seq<Seq<u8>>
    decreases lines.len(),
{
    if lines.len() == 0 {
        seq![]
    } else {
        let before = folders_in(lines.drop_last(), home);
        match folder_in(lines.last(), home) {
            Some(folder) => before.push(folder),
            None => before,
        }
    }
}

/// Where the music may be, the likeliest place first: where the environment says,
/// then where the desktop's configuration says, then `Music` in the home folder.
pub open spec fn candidates(
    named: Option<Seq<u8>>,
    home: Option<Seq<u8>>,
    config: Option<Seq<char>>,
) -> Seq<Seq<u8>> {
    let first = match named {
        Some(dir) => seq![dir],
        None => seq![],
    };
    match home {
        Some(home) => {
            let configured = match config {
                Some(config) => folders_in(lists::split(config, '\n'), home),
                None => seq![],
            };
            first + configured + seq![path::joined(home, encode_utf8("Music"@))]
        },
        None => first,
    }
}

fn read_folder(line: &[char], home: &FilePath) -> (r: Option<FilePath>)
    ensures
        r.deep_view() == folder_in(line@, home@),
{
    let key = chars_of("XDG_MUSIC_DIR=");
    let prefix = chars_of("$HOME/");
    proof {
        reveal_strlit("XDG_MUSIC_DIR=");
        reveal_strlit("$HOME/");
    }
    if !starts_with_chars(line, key.as_slice()) {
        return None;
    }
    let rest = vstd::slice::slice_subrange(line, 14, line.len());
    assert(rest@ =~= line@.skip(14));
    let value = strip(trim(rest), '"');
    if starts_with_chars(value, prefix.as_slice()) {
        let below = vstd::slice::slice_subrange(value, 6, value.len());
        assert(below@ =~= value@.skip(6));
        let below = text_of(vstd::slice::slice_to_vec(below));
        Some(home.join(&FilePath::from_text(below.as_str())))
    } else {
        let whole = text_of(vstd::slice::slice_to_vec(value));
        Some(FilePath::from_text(whole.as_str()))
    }
}

/// Where the desktop keeps the configuration that [`music_dirs`] reads.
pub fn config_file(home: &FilePath) -> (r: FilePath)
    ensures
        r@ == path::joined(home@, encode_utf8(".config/user-dirs.dirs"@)),
{
    home.join(&FilePath::from_text(".config/user-dirs.dirs"))
}

/// The folders the music may be in, given what `XDG_MUSIC_DIR` and `HOME` say and
/// what stands in the desktop's configuration. The first that is a folder is the
/// one.
pub fn music_dirs(named: &Option<FilePath>, home: &Option<FilePath>, config: Option<&str>) -> (r:
    Vec<FilePath>)
    ensures
        path::views(r@) == candidates(
            named.deep_view(),
            home.deep_view(),
            match config {
                Some(config) => Some(config@),
                None => None,
            },
        ),
{
    let mut r: Vec<FilePath> = Vec::new();
    if let Some(dir) = named {
        r.push(dir.clone());
    }
    let ghost first = path::views(r@);
    assert(first =~= (match named.deep_view() {
        Some(dir) => seq![dir],
        None => seq![],
    }));
    let Some(home) = home else {
        return r;
    };
    assert(first + seq![] =~= first);
    if let Some(config) = config {
        let chars = chars_of(config);
        let lines = split_chars(chars.as_slice(), '\n');
        let ghost all = lines.deep_view();
        let mut i: usize = 0;
        assert(all.take(0) =~= seq![]);
        while i < lines.len()
            invariant
                i <= lines@.len(),
                all == lines.deep_view(),
                path::views(r@) == first + folders_in(all.take(i as int), home@),
            decreases lines@.len() - i,
        {
            let ghost before = r@;
            proof {
                assert(all.take(i + 1).drop_last() =~= all.take(i as int));
                assert(all.take(i + 1).last() =~= lines@[i as int]@);
            }
            if let Some(folder) = read_folder(lines[i].as_slice(), home) {
                let ghost view = folder@;
                r.push(folder);
                assert(path::views(r@) =~= path::views(before).push(view));
                assert(path::views(r@) =~= first + folders_in(all.take(i + 1), home@));
            }
            i = i + 1;
        }
        assert(all.take(all.len() as int) =~= all);
    }
    let ghost before = r@;
    let last = home.join(&FilePath::from_text("Music"));
    let ghost view = last@;
    r.push(last);
    assert(path::views(r@) =~= path::views(before).push(view));
    assert(path::views(r@) =~= path::views(before) + seq![view]);
    r
}

/// Something found in a walk through the file system.
pub struct Node {
    pub path: FilePath,
    pub contents: Contents,
}

/// What was found at a place.
pub enum Contents {
    /// No folder: a file, or nothing at all.
    File,
    /// A folder, and what is in it.
    Folder(Vec<Node>),
    /// A folder that would not open, or an entry of one that could not be read, so that
    /// nobody knows what it is.
    Closed,
}

impl Node {
    /// The files that can be played at or below a place, in the order of the walk.
    pub open spec fn files(&self) -> Seq<Seq<u8>>
        decreases self,
    {
        match self.contents {
            Contents::File => if track::playable(self.path@) {
                seq![self.path@]
            } else {
                seq![]
            },
            Contents::Folder(nodes) => files_of(nodes@),
            Contents::Closed => seq![],
        }
    }

    /// Whether the walk saw all there is at or below a place: every folder would open, and
    /// every entry could be read.
    pub open spec fn readable(&self) -> bool
        decreases self,
    {
        match self.contents {
            Contents::File => true,
            Contents::Folder(nodes) => all_readable(nodes@),
            Contents::Closed => false,
        }
    }
}

/// The files that can be played at or below several places.
pub open spec fn files_of(nodes: Seq<Node>) -> Seq<Seq<u8>>
    decreases nodes,
{
    if nodes.len() == 0 {
        seq![]
    } else {
        files_of(nodes.drop_last()) + nodes.last().files()
    }
}

/// Whether the walk saw all there is at or below several places.
pub open spec fn all_readable(nodes: Seq<Node>) -> bool
    decreases nodes,
{
    nodes.len() == 0 || (all_readable(nodes.drop_last()) && nodes.last().readable())
}

/// One root's scan.
pub struct Scan {
    pub root: FilePath,
    /// Every file under the root that can be played, in a stable order.
    pub files: Vec<FilePath>,
    /// The walk saw the whole of the root and found music in it, so what it did
    /// *not* find can be taken as gone. A folder that would not open and an entry that
    /// could not be read are parts it did not see.
    ///
    /// An empty result is distrusted on purpose. A mount point whose mount is not
    /// up is still a folder that opens cheerfully and emptily, and reading that as
    /// "the music is gone" would empty the queue every time the player starts
    /// before the mount does.
    pub complete: bool,
}

/// Whether a scan is that of a walk from a root.
pub open spec fn scan_of(s: Scan, root: Node) -> bool {
    &&& s.root@ == root.path@
    &&& path::views(s.files@) == order::in_order(root.files())
    &&& s.complete == (root.readable() && root.files().len() > 0)
}

/// Gathers the files that can be played at or below a place: a file stays as it
/// is, a folder is gone through. False when a folder along the way would not open or an
/// entry could not be read.
pub fn collect(node: &Node, out: &mut Vec<FilePath>) -> (readable: bool)
    ensures
        readable == node.readable(),
        path::views(final(out)@) == path::views(old(out)@) + node.files(),
    decreases node,
{
    let ghost start = path::views(out@);
    match &node.contents {
        Contents::File => {
            if is_supported(&node.path) {
                let ghost before = out@;
                out.push(node.path.clone());
                assert(path::views(out@) =~= start + node.files());
            } else {
                assert(path::views(out@) =~= start + node.files());
            }
            true
        },
        Contents::Folder(nodes) => {
            let mut readable = true;
            let mut i: usize = 0;
            assert(path::views(out@) =~= start + files_of(nodes@.take(0)));
            while i < nodes.len()
                invariant
                    i <= nodes@.len(),
                    node.contents == Contents::Folder(*nodes),
                    readable == all_readable(nodes@.take(i as int)),
                    path::views(out@) == start + files_of(nodes@.take(i as int)),
                decreases nodes@.len() - i,
            {
                assert(nodes@.take(i + 1).drop_last() =~= nodes@.take(i as int));
                assert(nodes@.take(i + 1).last() == nodes@[i as int]);
                assert(decreases_to!(node => node.contents));
                assert(decreases_to!(node.contents => node.contents->Folder_0));
                assert(decreases_to!(nodes => nodes@));
                assert(decreases_to!(nodes@ => nodes@[i as int]));
                let opened = collect(&nodes[i], out);
                readable = readable && opened;
                assert(path::views(out@) =~= start + files_of(nodes@.take(i + 1)));
                i = i + 1;
            }
            assert(nodes@.take(nodes@.len() as int) =~= nodes@);
            readable
        },
        Contents::Closed => {
            assert(path::views(out@) =~= start + node.files());
            false
        },
    }
}

/// What a walk from a root comes to.
pub fn scan(root: &Node) -> (s: Scan)
    ensures
        scan_of(s, *root),
{
    let mut files: Vec<FilePath> = Vec::new();
    let readable = collect(root, &mut files);
    assert(path::views(files@) =~= root.files());
    let found = files.len() > 0;
    let files = order::sort(files);
    Scan { root: root.path.clone(), complete: readable && found, files }
}

/// What the walks from several roots come to, in the order given.
pub fn scan_roots(roots: &[Node]) -> (r: Vec<Scan>)
    ensures
        r@.len() == roots@.len(),
        forall|i: int| 0 <= i < roots@.len() ==> scan_of(#[trigger] r@[i], roots@[i]),
{
    let mut r: Vec<Scan> = Vec::new();
    let mut i: usize = 0;
    while i < roots.len()
        invariant
            i <= roots@.len(),
            r@.len() == i,
            forall|j: int| 0 <= j < i ==> scan_of(#[trigger] r@[j], roots@[j]),
        decreases roots@.len() - i,
    {
        r.push(scan(&roots[i]));
        i = i + 1;
    }
    r
}

/// A scan lists its files in order, each as often as the walk came upon it, and
/// is complete only where there is music.
pub proof fn a_scan_is_in_order(s: Scan, root: Node)
    requires
        scan_of(s, root),
    ensures
        order::sorted(path::views(s.files@)),
        path::views(s.files@).to_multiset() == root.files().to_multiset(),
        s.complete ==> s.files@.len() > 0,
{
    order::in_order_sorts(root.files());
}

/// Everything a scan lists can be played.
pub proof fn what_is_found_can_be_played(node: Node)
    ensures
        forall|i: int| 0 <= i < node.files().len() ==> track::playable(#[trigger] node.files()[i]),
    decreases node,
{
    if let Contents::Folder(nodes) = node.contents {
        all_found_can_be_played(nodes@);
        assert(node.files() == files_of(nodes@));
    }
}

proof fn all_found_can_be_played(nodes: Seq<Node>)
    ensures
        forall|i: int|
            0 <= i < files_of(nodes).len() ==> track::playable(#[trigger] files_of(nodes)[i]),
    decreases nodes,
{
    if nodes.len() > 0 {
        all_found_can_be_played(nodes.drop_last());
        what_is_found_can_be_played(nodes.last());
        let before = files_of(nodes.drop_last());
        assert(files_of(nodes) == before + nodes.last().files());
        assert forall|i: int| 0 <= i < files_of(nodes).len() implies track::playable(
            #[trigger] files_of(nodes)[i],
        ) by {
            if i < before.len() {
                assert(files_of(nodes)[i] == before[i]);
            } else {
                assert(files_of(nodes)[i] == nodes.last().files()[i - before.len()]);
            }
        }
    }
}

/// What a walk came upon by going down from a place: into the entry of a folder that the
/// first of `way` numbers, and on from there.
pub open spec fn reached(node: Node, way: Seq<int>) -> Option<Node>
    decreases way.len(),
{
    if way.len() == 0 {
        Some(node)
    } else {
        match node.contents {
            Contents::Folder(nodes) => if 0 <= way[0] < nodes@.len() {
                reached(nodes@[way[0]], way.drop_first())
            } else {
                None
            },
            _ => None,
        }
    }
}

/// A walk finds everything that can be played: each file at or below a place, however
/// deep, whose extension is one of these in any case is among its files. And it finds
/// nothing else.
pub proof fn everything_playable_is_found(node: Node, way: Seq<int>)
    requires
        reached(node, way) is Some,
        reached(node, way)->0.contents is File,
    ensures
        ({
            let found = reached(node, way)->0.path@;
            let extension = text::lowercase(path::extension_text(found)->0);
            node.files().contains(found) <==> path::extension_text(found) is Some && (extension
                == "mp3"@ || extension == "flac"@ || extension == "ogg"@ || extension == "oga"@
                || extension == "wav"@ || extension == "m4a"@ || extension == "aac"@ || extension
                == "opus"@)
        }),
    decreases way.len(),
{
    let found = reached(node, way)->0.path@;
    track::these_can_be_played(found);
    what_is_found_can_be_played(node);
    if node.files().contains(found) {
        let k = choose|k: int| 0 <= k < node.files().len() && node.files()[k] == found;
        assert(track::playable(node.files()[k]));
    }
    if track::playable(found) {
        if way.len() == 0 {
            assert(node.files() =~= seq![found]);
            assert(node.files()[0] == found);
        } else {
            let nodes = node.contents->Folder_0@;
            let i = way[0];
            everything_playable_is_found(nodes[i], way.drop_first());
            folders_hold_their_entries_files(nodes, i);
            let k = choose|k: int|
                0 <= k < nodes[i].files().len() && nodes[i].files()[k] == found;
            let before = files_of(nodes.take(i));
            assert(node.files()[before.len() + k] == found);
        }
    }
}

/// The files of several places are those of each of them, one after the other.
proof fn folders_hold_their_entries_files(nodes: Seq<Node>, i: int)
    requires
        0 <= i < nodes.len(),
    ensures
        files_of(nodes) == files_of(nodes.take(i)) + nodes[i].files() + files_of(nodes.skip(i + 1)),
    decreases nodes.len(),
{
    if i == nodes.len() - 1 {
        assert(nodes.drop_last() =~= nodes.take(i));
        assert(nodes.skip(i + 1) =~= seq![]);
        assert(files_of(nodes) =~= files_of(nodes.take(i)) + nodes[i].files() + files_of(
            nodes.skip(i + 1),
        ));
    } else {
        let front = nodes.drop_last();
        folders_hold_their_entries_files(front, i);
        assert(front.take(i) =~= nodes.take(i));
        assert(front.skip(i + 1) =~= nodes.skip(i + 1).drop_last());
        assert(nodes.skip(i + 1).last() == nodes.last());
        assert(files_of(nodes) =~= files_of(nodes.take(i)) + nodes[i].files() + files_of(
            nodes.skip(i + 1),
        ));
    }
}

/// A file that can be played is found once where it stands alone, one that cannot is not,
/// and a folder has the files of its entries, one entry after the other: the files of the
/// last entry come behind those of all that stand before it, and an empty folder has none.
/// What is closed hides everything.
pub proof fn a_folder_has_the_files_of_its_entries(node: Node, i: int)
    ensures
        node.contents is File && track::playable(node.path@) ==> node.files() == seq![node.path@],
        node.contents is File && !track::playable(node.path@) ==> node.files().len() == 0,
        node.contents is Closed ==> node.files().len() == 0,
        node.contents matches Contents::Folder(nodes) ==> {
            &&& nodes@.len() == 0 ==> node.files().len() == 0
            &&& 0 <= i < nodes@.len() ==> node.files() == files_of(nodes@.take(i))
                + nodes@[i].files() + files_of(nodes@.skip(i + 1))
        },
{
    if let Contents::Folder(nodes) = node.contents {
        if 0 <= i < nodes@.len() {
            folders_hold_their_entries_files(nodes@, i);
        }
    }
}

/// One thing that is closed, however deep, and the walk has not seen everything.
pub proof fn nothing_closed_is_overlooked(node: Node, way: Seq<int>)
    requires
        reached(node, way) is Some,
        reached(node, way)->0.contents is Closed,
    ensures
        !node.readable(),
    decreases way.len(),
{
    if way.len() > 0 {
        let nodes = node.contents->Folder_0@;
        nothing_closed_is_overlooked(nodes[way[0]], way.drop_first());
        one_closed_is_enough(nodes, way[0]);
    }
}

proof fn one_closed_is_enough(nodes: Seq<Node>, i: int)
    requires
        0 <= i < nodes.len(),
        !nodes[i].readable(),
    ensures
        !all_readable(nodes),
    decreases nodes.len(),
{
    if i < nodes.len() - 1 {
        one_closed_is_enough(nodes.drop_last(), i);
    }
}

/// A walk that has not seen everything came upon something that is closed.
pub proof fn only_what_is_closed_is_overlooked(node: Node) -> (way: Seq<int>)
    requires
        !node.readable(),
    ensures
        reached(node, way) is Some,
        reached(node, way)->0.contents is Closed,
    decreases node,
{
    if let Contents::Folder(nodes) = node.contents {
        let (i, rest) = some_entry_is_closed(nodes@);
        let way = seq![i] + rest;
        assert(way.drop_first() =~= rest);
        way
    } else {
        seq![]
    }
}

proof fn some_entry_is_closed(nodes: Seq<Node>) -> (r: (int, Seq<int>))
    requires
        !all_readable(nodes),
    ensures
        0 <= r.0 < nodes.len(),
        reached(nodes[r.0], r.1) is Some,
        reached(nodes[r.0], r.1)->0.contents is Closed,
    decreases nodes,
{
    if nodes.last().readable() {
        some_entry_is_closed(nodes.drop_last())
    } else {
        (nodes.len() - 1, only_what_is_closed_is_overlooked(nodes.last()))
    }
}

/// A scan is of the root that was walked, lists every file as often as the walk came upon
/// it, and is complete exactly when it saw everything and found music.
pub proof fn a_scan_is_the_whole_of_a_walk(s: Scan, root: Node, path: Seq<u8>)
    requires
        scan_of(s, root),
    ensures
        s.root@ == root.path@,
        path::views(s.files@).to_multiset().count(path) == root.files().to_multiset().count(path),
        s.files@.len() == root.files().len(),
        s.complete <==> root.readable() && root.files().len() > 0,
{
    order::in_order_sorts(root.files());
}

/// A line of the desktop's configuration names the music folder when it begins with that
/// key: what stands behind it, without white space and quotation marks around it, and in
/// the home folder when it says so. Any other line names none.
pub proof fn a_line_names_the_music_folder(
    around: (Seq<char>, Seq<char>),
    value: Seq<char>,
    home: Seq<u8>,
    line: Seq<char>,
)
    requires
        forall|i: int| 0 <= i < around.0.len() ==> text::whitespace(#[trigger] around.0[i]),
        forall|i: int| 0 <= i < around.1.len() ==> text::whitespace(#[trigger] around.1[i]),
        value.len() > 0,
        !text::whitespace(value[0]) && value[0] != '"',
        !text::whitespace(value.last()) && value.last() != '"',
    ensures
        ({
            let key = "XDG_MUSIC_DIR="@;
            let plain = key + (around.0 + value + around.1);
            let quoted = key + (around.0 + (seq!['"'] + value.push('"')) + around.1);
            let named = if lists::starts(value, "$HOME/"@) {
                path::joined(home, encode_utf8(value.skip(6)))
            } else {
                encode_utf8(value)
            };
            &&& folder_in(plain, home) == Some(named)
            &&& folder_in(quoted, home) == Some(named)
            &&& !lists::starts(line, key) ==> folder_in(line, home) is None
        }),
{
    reveal_strlit("XDG_MUSIC_DIR=");
    reveal_strlit("$HOME/");
    let key = "XDG_MUSIC_DIR="@;
    let quoted = seq!['"'] + value.push('"');
    lists::what_is_put_together_begins_and_ends(key, around.0 + value + around.1);
    lists::what_is_put_together_begins_and_ends(key, around.0 + quoted + around.1);
    text::only_white_space_is_trimmed(around.0, value, around.1);
    text::only_white_space_is_trimmed(around.0, quoted, around.1);
    text::stripping_takes_off_one_character(value, '"');
}

/// The music is looked for where the environment says first, then where each line of the
/// configuration says, in order, and last in `Music` in the home folder. Without a home
/// folder only the environment is asked.
pub proof fn the_music_is_looked_for_in_this_order(
    named: Seq<u8>,
    home: Seq<u8>,
    config: Seq<char>,
    lines: Seq<Seq<char>>,
    line: Seq<char>,
)
    ensures
        candidates(Some(named), None, Some(config)) == seq![named],
        candidates(None, None, Some(config)).len() == 0,
        candidates(None, Some(home), None) == seq![path::joined(home, encode_utf8("Music"@))],
        candidates(Some(named), Some(home), None) == seq![
            named,
            path::joined(home, encode_utf8("Music"@)),
        ],
        candidates(Some(named), Some(home), Some(config)) == seq![named] + folders_in(
            lists::split(config, '\n'),
            home,
        ) + seq![path::joined(home, encode_utf8("Music"@))],
        candidates(None, Some(home), Some(config)) == folders_in(lists::split(config, '\n'), home)
            + seq![path::joined(home, encode_utf8("Music"@))],
        folders_in(Seq::<Seq<char>>::empty(), home).len() == 0,
        folder_in(line, home) is None ==> folders_in(lines.push(line), home) == folders_in(
            lines,
            home,
        ),
        folder_in(line, home) is Some ==> folders_in(lines.push(line), home) == folders_in(
            lines,
            home,
        ).push(folder_in(line, home)->0),
{
    let music = path::joined(home, encode_utf8("Music"@));
    assert(lines.push(line).drop_last() =~= lines);
    let none = Seq::<Seq<u8>>::empty();
    assert(none + none + seq![music] =~= seq![music]);
    assert(seq![named] + none + seq![music] =~= seq![named, music]);
    let configured = folders_in(lists::split(config, '\n'), home);
    assert(none + configured + seq![music] =~= configured + seq![music]);
}

} // verus!
