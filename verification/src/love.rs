//! Which tracks the listener loves, kept in each file's own `user.hark.loved`
//! extended attribute.
//!
//! The other records on a file are caches; nothing can work out again that someone
//! loved a track, so here the record *is* the fact. It carries no stamp: tagging a
//! file anew changes its tags and nobody's opinion of it. And a write that fails is
//! a button that did nothing, so failure is reported.

use vstd::prelude::*;

verus! {

/// The extended attribute.
pub const XATTR_NAME: &'static str = "user.hark.loved";

/// What a loved file carries: the version, as one ASCII byte, and nothing else.
pub const MARK: u8 = 0x31;

/// What to do to a file's attribute.
#[derive(Clone, Copy, PartialEq, Eq, Structural, Debug)]
pub enum Change {
    /// Write it, holding the one byte.
    Write(u8),
    /// Take it off, so that the file is as it was found.
    Remove,
}

/// Whether what came of looking for a file's attribute says that it is loved.
pub open spec fn says_loved(attribute: Result<Option<Vec<u8>>, ()>) -> bool {
    attribute matches Ok(found) && found is Some
}

/// What loving a file, or no longer loving it, does to its attribute.
pub open spec fn change_for(loved: bool) -> Change {
    if loved {
        Change::Write(MARK)
    } else {
        Change::Remove
    }
}

/// Whether a change came to what was asked for.
pub open spec fn came_about(change: Change, failed: bool, loved_now: bool) -> bool {
    !failed || (change is Remove && !loved_now)
}

/// Whether a file is loved, given what came of looking for its attribute: the bytes,
/// no attribute, or a failure. Only that something is there counts, never what it
/// is, so that a later version's record is not read as "no". A file that is gone
/// and a file system without attributes both read as not loved.
pub fn read(attribute: &Result<Option<Vec<u8>>, ()>) -> (loved: bool)
    ensures
        loved == says_loved(*attribute),
{
    match attribute {
        Ok(Some(_)) => true,
        _ => false,
    }
}

/// What loving a file, or no longer loving it, does to its attribute. No record
/// says "no": clearing removes it.
pub fn change(loved: bool) -> (c: Change)
    ensures
        c == change_for(loved),
{
    if loved {
        Change::Write(MARK)
    } else {
        Change::Remove
    }
}

/// Whether a change came to what was asked for. Taking off an attribute that is not
/// there fails, and so does it on a file system that has none; but if the file is
/// not loved afterwards, that is what was wanted.
pub fn succeeded(change: Change, failed: bool, loved_now: bool) -> (r: bool)
    ensures
        r == came_about(change, failed, loved_now),
{
    match change {
        Change::Write(_) => !failed,
        Change::Remove => !failed || !loved_now,
    }
}

/// The attribute that a file carries after a change that did not fail.
pub open spec fn carried(change: Change) -> Option<Seq<u8>> {
    match change {
        Change::Write(byte) => Some(seq![byte]),
        Change::Remove => None,
    }
}

/// Loving a file and clearing that again leaves no attribute behind, and a file
/// carries one exactly when it is loved.
pub proof fn presence_is_the_answer(loved: bool)
    ensures
        carried(change_for(loved)) is Some <==> loved,
{
}

/// What a change leaves on a file reads as what was asked for, and says so in one byte or
/// not at all. So a change that did not fail came about; and one that failed came about
/// only where the file was to be without a heart and is.
pub proof fn what_was_asked_for_reads_back(
    loved: bool,
    attribute: Result<Option<Vec<u8>>, ()>,
    failed: bool,
    loved_now: bool,
)
    requires
        attribute is Ok,
        attribute->Ok_0.deep_view() == carried(change_for(loved)),
    ensures
        says_loved(attribute) == loved,
        loved ==> attribute->Ok_0->0@ == seq![0x31u8],
        !failed ==> came_about(change_for(loved), failed, loved_now),
        failed ==> (came_about(change_for(loved), failed, loved_now) <==> !loved && !loved_now),
{
}

/// A file reads as loved when there is an attribute, whatever is in it, and as not loved
/// when there is none or it could not be looked at.
pub proof fn only_that_it_is_there_counts(
    attribute: Result<Option<Vec<u8>>, ()>,
    content: Vec<u8>,
)
    ensures
        says_loved(Ok(Some(content))),
        attribute is Err ==> !says_loved(attribute),
        attribute is Ok && attribute->Ok_0 is None ==> !says_loved(attribute),
{
}

} // verus!
