use pk2::entry::Entry;
use pk2::error::Pk2Error;
use pk2::helpers::{DIRECTORY, FILE};
use pk2::walker::{Phase, Walker};

fn entry(kind: u8, name: &str, position: u64, size: u32, next_chain: u64) -> Entry {
    let mut buffer = [0u8; 81];
    buffer[..name.len()].copy_from_slice(name.as_bytes());
    Entry {
        offset: 0,
        entry_type: kind,
        name: buffer,
        access_date: 0,
        create_date: 0,
        modify_date: 0,
        position,
        size,
        next_chain,
        padding: 0,
    }
}

fn directory(position: u64) -> Entry {
    entry(DIRECTORY, "dir", position, 0, 0)
}

#[test]
fn the_walk_starts_one_slot_behind_the_position() {
    let walker = Walker::new(&directory(256));
    assert_eq!(walker.phase(), Phase::Reading(384));
    assert_eq!(walker.pending(), Ok(Some(384)));
    assert!(walker.children().is_empty());

    let walker = Walker::new(&directory(0));
    assert_eq!(walker.pending(), Ok(Some(128)));
}

#[test]
fn an_entry_that_is_no_directory_has_no_children() {
    for kind in [0u8, FILE, 3, 255] {
        let walker = Walker::new(&entry(kind, "x", 256, 10, 0));
        assert_eq!(walker.phase(), Phase::Finished);
        assert_eq!(walker.pending(), Ok(None));
        assert!(walker.into_children().is_empty());
    }
}

#[test]
fn a_first_record_of_invalid_kind_gives_no_children() {
    for kind in [0u8, 3, 0x7f, 255] {
        let mut walker = Walker::new(&directory(256));
        let record = entry(kind, "ghost", 0, 0, 0).into_bytes();
        assert_eq!(walker.feed(&record), Ok(()));
        assert_eq!(walker.phase(), Phase::Finished);
        assert_eq!(walker.pending(), Ok(None));
        assert!(walker.children().is_empty());
    }
}

#[test]
fn children_in_adjoining_slots_are_found_in_order() {
    let mut walker = Walker::new(&directory(256));
    assert_eq!(walker.pending(), Ok(Some(384)));
    walker.feed(&entry(DIRECTORY, "one", 4096, 0, 0).into_bytes()).unwrap();
    assert_eq!(walker.pending(), Ok(Some(512)));
    walker.feed(&entry(FILE, "two", 8192, 7, 0).into_bytes()).unwrap();
    assert_eq!(walker.pending(), Ok(Some(640)));
    walker.feed(&entry(0, "", 0, 0, 0).into_bytes()).unwrap();
    assert_eq!(walker.pending(), Ok(None));

    let children = walker.into_children();
    assert_eq!(children.len(), 2);
    assert_eq!(children[0].name(), "one");
    assert_eq!(children[0].offset, 384);
    assert_eq!(children[0].entry_type, DIRECTORY);
    assert_eq!(children[1].name(), "two");
    assert_eq!(children[1].offset, 512);
    assert_eq!(children[1].size, 7);
}

#[test]
fn a_link_sends_the_walk_elsewhere() {
    let mut walker = Walker::new(&directory(256));
    walker.feed(&entry(FILE, "a", 9000, 1, 70_000).into_bytes()).unwrap();
    assert_eq!(walker.pending(), Ok(Some(70_000)));
    walker.feed(&entry(FILE, "b", 9001, 1, 0).into_bytes()).unwrap();
    assert_eq!(walker.pending(), Ok(Some(70_128)));
    let children = walker.children();
    assert_eq!(children[0].offset, 384);
    assert_eq!(children[1].offset, 70_000);
}

#[test]
fn a_link_to_the_record_itself_is_no_link() {
    let mut walker = Walker::new(&directory(256));
    walker.feed(&entry(FILE, "a", 9000, 1, 384).into_bytes()).unwrap();
    assert_eq!(walker.pending(), Ok(Some(512)));
}

#[test]
fn an_entry_that_points_behind_itself_ends_the_chain() {
    let mut walker = Walker::new(&directory(256));
    // read at 384, pointing at 512: the last of its chain, and still a child
    walker.feed(&entry(FILE, "last", 512, 3, 0).into_bytes()).unwrap();
    assert_eq!(walker.phase(), Phase::Finished);
    assert_eq!(walker.children().len(), 1);
    assert_eq!(walker.children()[0].name(), "last");

    // so it does where it also holds a link
    let mut walker = Walker::new(&directory(256));
    walker.feed(&entry(DIRECTORY, "last", 512, 0, 4096).into_bytes()).unwrap();
    assert_eq!(walker.pending(), Ok(None));
    assert_eq!(walker.children().len(), 1);
}

#[test]
fn a_finished_walk_takes_no_more() {
    let mut walker = Walker::new(&directory(256));
    walker.feed(&entry(0, "", 0, 0, 0).into_bytes()).unwrap();
    assert_eq!(walker.feed(&entry(FILE, "late", 1, 1, 0).into_bytes()), Ok(()));
    assert_eq!(walker.phase(), Phase::Finished);
    assert!(walker.children().is_empty());
}

#[test]
fn a_record_of_another_length_is_refused_and_changes_nothing() {
    let mut walker = Walker::new(&directory(256));
    assert_eq!(walker.feed(&[2u8; 127]), Err(Pk2Error::InvalidRecord));
    assert_eq!(walker.feed(&[2u8; 129]), Err(Pk2Error::InvalidRecord));
    assert_eq!(walker.feed(&[]), Err(Pk2Error::InvalidRecord));
    assert_eq!(walker.pending(), Ok(Some(384)));
    assert!(walker.children().is_empty());
}

#[test]
fn a_walk_that_runs_past_the_last_offset_fails() {
    let walker = Walker::new(&directory(u64::MAX - 128));
    assert_eq!(walker.pending(), Ok(Some(u64::MAX)));

    let walker = Walker::new(&directory(u64::MAX - 127));
    assert_eq!(walker.phase(), Phase::Overrun);
    assert_eq!(walker.pending(), Err(Pk2Error::IoError));

    let mut walker = Walker::new(&directory(u64::MAX - 200));
    assert_eq!(walker.pending(), Ok(Some(u64::MAX - 72)));
    walker.feed(&entry(FILE, "edge", 5, 5, 0).into_bytes()).unwrap();
    assert_eq!(walker.pending(), Err(Pk2Error::IoError));
    assert_eq!(walker.children().len(), 1);
}
