use hark::love::{change, read, succeeded, Change, MARK};

/// A file on a filesystem that holds attributes: what stands in the file, and in
/// the attribute, if anything does.
struct Disk {
    contents: Vec<u8>,
    attribute: Option<Vec<u8>>,
}

impl Disk {
    fn fresh() -> Disk {
        Disk {
            contents: b"not really audio".to_vec(),
            attribute: None,
        }
    }

    fn read(&self) -> bool {
        read(&Ok(self.attribute.clone()))
    }

    /// Carries out the change that loving or unloving calls for, as the
    /// filesystem would: removing what is not there fails.
    fn write(&mut self, loved: bool) -> bool {
        let change = change(loved);
        let failed = match change {
            Change::Write(mark) => {
                self.attribute = Some(vec![mark]);
                false
            }
            Change::Remove => self.attribute.take().is_none(),
        };
        succeeded(change, failed, self.read())
    }
}

#[test]
fn a_file_starts_out_unloved() {
    let file = Disk::fresh();

    assert!(!file.read());
}

#[test]
fn loving_a_file_is_visible_to_the_next_read() {
    let mut file = Disk::fresh();

    assert!(file.write(true));
    assert!(file.read());
}

#[test]
fn the_mark_is_the_one_byte_it_claims() {
    let mut file = Disk::fresh();

    assert!(file.write(true));
    assert_eq!(file.attribute.as_deref(), Some(&b"1"[..]));
    assert_eq!(MARK, b'1');
}

#[test]
fn unloving_a_file_leaves_no_attribute_behind() {
    let mut file = Disk::fresh();

    assert!(file.write(true));
    assert!(file.write(false));
    assert!(!file.read());
    assert!(file.attribute.is_none());
}

#[test]
fn unloving_a_file_that_was_never_loved_is_not_a_failure() {
    let mut file = Disk::fresh();

    assert!(file.write(false));
    assert!(!file.read());
}

#[test]
fn loving_is_idempotent() {
    let mut file = Disk::fresh();

    assert!(file.write(true));
    assert!(file.write(true));
    assert!(file.read());
}

/// The whole reason there is no stamp here: a tagger rewriting the file moves
/// both its modification time and its size, and must not be able to take the
/// heart with it.
#[test]
fn the_flag_survives_a_change_to_the_file() {
    let mut file = Disk::fresh();

    assert!(file.write(true));
    let before = file.contents.len();
    file.contents = b"rewritten, longer, and at a later moment".to_vec();

    assert_ne!(file.contents.len(), before);
    assert!(file.read());
}

/// Presence is the answer, so a record hark did not write — an empty one, or
/// one from a version that does not exist yet — is never refused.
#[test]
fn an_attribute_written_by_hand_reads_as_loved() {
    for value in [&b""[..], &b"7"[..], &b"{\"v\":2}"[..]] {
        let file = Disk {
            attribute: Some(value.to_vec()),
            ..Disk::fresh()
        };
        assert!(file.read());
    }
}

/// On a file that is gone every request fails and every read says no.
#[test]
fn a_file_that_is_gone_cannot_be_loved_but_can_be_unloved() {
    let gone = read(&Err(()));

    assert!(!succeeded(change(true), true, gone));
    assert!(succeeded(change(false), true, gone));
    assert!(!gone);
}

#[test]
fn an_unloving_that_failed_on_a_loved_file_is_a_failure() {
    assert!(!succeeded(change(false), true, true));
}

#[test]
fn changes_are_the_mark_or_its_removal() {
    assert_eq!(change(true), Change::Write(b'1'));
    assert_eq!(change(false), Change::Remove);
}
