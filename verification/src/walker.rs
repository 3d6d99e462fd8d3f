//! The walk along a directory's chain of children.
//!
//! The children of a directory are not counted anywhere: they are found by
//! reading record after record until one ends the chain. A `Walker` holds the
//! state of such a walk and makes its decisions. It reads nothing itself: it
//! says which record it wants next, and is fed that record's decrypted bytes.

use crate::entry::{decode_record, views, Entry, EntryView};
use crate::error::Pk2Error;
use crate::helpers::{DIRECTORY, ENTRY_SIZE, FILE};
use vstd::prelude::*;

verus! {

/// Where a walk stands.
#[derive(Clone, Copy, Debug, PartialEq, Eq, Structural)]
pub enum Phase {
    /// The record at this offset is to be read and fed to the walk.
    Reading(u64),
    /// The chain has ended: the children are complete.
    Finished,
    /// The next record would lie beyond the last offset that can be
    /// addressed, so it cannot be read.
    Overrun,
}

/// A walk as a mathematical value.
pub struct WalkerView {
    pub phase: Phase,
    /// The children found so far, in the order of the chain.
    pub found: Seq<EntryView>,
}

/// The phase that follows the record at `cursor`, unless something else sends
/// the walk elsewhere: the slot right behind it.
pub open spec fn next_slot(cursor: u64) -> Phase {
    if cursor + ENTRY_SIZE > u64::MAX {
        Phase::Overrun
    } else {
        Phase::Reading((cursor + ENTRY_SIZE) as u64)
    }
}

/// The entry marks itself as the last of its chain: its `position` is the
/// slot right behind its own record.
pub open spec fn closes_chain(entry: EntryView) -> bool {
    entry.offset + ENTRY_SIZE == entry.position
}

/// The phase in which the walk over a directory's children starts: nothing to
/// read where the entry is no directory, else the slot behind the one that
/// `position` names.
pub open spec fn first_phase(directory: EntryView) -> Phase {
    if directory.entry_type != DIRECTORY {
        Phase::Finished
    } else {
        next_slot(directory.position)
    }
}

/// The phase after a live child was read at `cursor`: the walk ends where the
/// child closes the chain; else it jumps to the child's `next_chain` where
/// that is a link to another place, and moves on by one slot where it is not.
pub open spec fn phase_after(cursor: u64, child: EntryView) -> Phase {
    if closes_chain(child) {
        Phase::Finished
    } else if child.next_chain > 0 && child.next_chain != cursor {
        Phase::Reading(child.next_chain)
    } else {
        next_slot(cursor)
    }
}

/// The walk after it was fed `record`, the decrypted bytes read at the offset
/// it was waiting for. A record that is neither directory nor file ends the
/// chain and is no child. A walk that is not waiting for a record stays as it
/// is.
pub open spec fn walk_step(walk: WalkerView, record: Seq<u8>) -> WalkerView
    recommends
        record.len() == 128,
{
    match walk.phase {
        Phase::Reading(cursor) => {
            let entry = decode_record(record).at(cursor);
            if entry.is_live() {
                WalkerView { phase: phase_after(cursor, entry), found: walk.found.push(entry) }
            } else {
                WalkerView { phase: Phase::Finished, found: walk.found }
            }
        },
        _ => walk,
    }
}

/// The walk over the children of `directory`, before anything was read.
pub open spec fn walk_start(directory: EntryView) -> WalkerView {
    WalkerView { phase: first_phase(directory), found: Seq::empty() }
}

impl WalkerView {
    /// Every child found is a directory or a file.
    pub open spec fn children_live(self) -> bool {
        forall|i: int| 0 <= i < self.found.len() ==> (#[trigger] self.found[i]).is_live()
    }
}

/// The state of a walk along one directory's chain of children.
pub struct Walker {
    phase: Phase,
    found: Vec<Entry>,
}

impl View for Walker {
    type V = WalkerView;

    closed spec fn view(&self) -> WalkerView {
        WalkerView { phase: self.phase, found: views(self.found@) }
    }
}

impl Walker {
    /// Starts the walk over the children of `directory`. For an entry that is
    /// no directory the walk is finished at once, with no children.
    pub fn new(directory: &Entry) -> (walker: Walker)
        ensures
            walker@ == walk_start(directory@),
    {
        let phase = if directory.entry_type != DIRECTORY {
            Phase::Finished
        } else {
            Walker::slot_after(directory.position)
        };
        let walker = Walker { phase, found: Vec::new() };
        assert(walker@.found =~= Seq::<EntryView>::empty());
        walker
    }

    /// The slot right behind the record at `cursor`.
    fn slot_after(cursor: u64) -> (phase: Phase)
        ensures
            phase == next_slot(cursor),
    {
        match cursor.checked_add(ENTRY_SIZE) {
            Some(next) => Phase::Reading(next),
            None => Phase::Overrun,
        }
    }

    /// Where the walk stands.
    pub fn phase(&self) -> (phase: Phase)
        ensures
            phase == self@.phase,
    {
        self.phase
    }

    /// What the walk needs next: the offset of a record to read and feed, or
    /// nothing when it is finished. A walk that ran past the last offset fails
    /// with `IoError`, as the read of that record would.
    pub fn pending(&self) -> (wanted: Result<Option<u64>, Pk2Error>)
        ensures
            wanted == match self@.phase {
                Phase::Reading(offset) => Ok::<Option<u64>, Pk2Error>(Some(offset)),
                Phase::Finished => Ok(None),
                Phase::Overrun => Err(Pk2Error::IoError),
            },
    {
        match self.phase {
            Phase::Reading(offset) => Ok(Some(offset)),
            Phase::Finished => Ok(None),
            Phase::Overrun => Err(Pk2Error::IoError),
        }
    }

    /// Feeds the walk the decrypted bytes of the record it was waiting for.
    ///
    /// Fails with `InvalidRecord`, and leaves the walk as it was, exactly when
    /// `record` is not 128 bytes long.
    pub fn feed(&mut self, record: &[u8]) -> (fed: Result<(), Pk2Error>)
        ensures
            record@.len() == 128 ==> fed is Ok && final(self)@ == walk_step(old(self)@, record@),
            record@.len() != 128 ==> fed == Err::<(), Pk2Error>(Pk2Error::InvalidRecord),
            record@.len() != 128 ==> final(self)@ == old(self)@,
    {
        if record.len() != 128 {
            return Err(Pk2Error::InvalidRecord);
        }
        match self.phase {
            Phase::Reading(cursor) => {
                match Entry::read_at(record, cursor) {
                    Ok(entry) => {
                        if entry.is_directory() || entry.is_file() {
                            self.phase = Walker::after(cursor, &entry);
                            self.found.push(entry);
                            assert(self@.found =~= old(self)@.found.push(entry@));
                        } else {
                            self.phase = Phase::Finished;
                        }
                        Ok(())
                    },
                    Err(error) => Err(error),
                }
            },
            _ => Ok(()),
        }
    }

    /// The phase after the live child `child` was read at `cursor`.
    fn after(cursor: u64, child: &Entry) -> (phase: Phase)
        ensures
            phase == phase_after(cursor, child@),
    {
        if child.offset <= u64::MAX - ENTRY_SIZE && child.offset + ENTRY_SIZE == child.position {
            Phase::Finished
        } else if child.next_chain > 0 && child.next_chain != cursor {
            Phase::Reading(child.next_chain)
        } else {
            Walker::slot_after(cursor)
        }
    }

    /// The children found so far, in the order of the chain. Once the walk is
    /// finished they are all the children of the directory.
    pub fn children(&self) -> (found: &Vec<Entry>)
        ensures
            views(found@) == self@.found,
    {
        &self.found
    }

    /// Ends the walk and hands out the children found.
    pub fn into_children(self) -> (found: Vec<Entry>)
        ensures
            views(found@) == self@.found,
    {
        self.found
    }
}

/// A walk starts with children that are directories and files, having none,
/// and whatever it is fed, the children it holds stay so.
pub proof fn lemma_walk_keeps_children_live(walk: WalkerView, record: Seq<u8>)
    requires
        walk.children_live(),
    ensures
        walk_step(walk, record).children_live(),
        forall|directory: EntryView| #[trigger] walk_start(directory).children_live(),
{
}

/// A walk only grows: what it had found stays found, in the same order, and a
/// step adds at most one child.
pub proof fn lemma_walk_only_grows(walk: WalkerView, record: Seq<u8>)
    ensures
        walk.found.is_prefix_of(walk_step(walk, record).found),
        walk_step(walk, record).found.len() <= walk.found.len() + 1,
{
}

/// A record that is neither directory nor file ends the walk and adds no child.
pub proof fn lemma_blank_record_ends_walk(walk: WalkerView, record: Seq<u8>)
    requires
        walk.phase is Reading,
        record.len() == 128,
        record[0] != DIRECTORY,
        record[0] != FILE,
    ensures
        walk_step(walk, record).phase == Phase::Finished,
        walk_step(walk, record).found == walk.found,
{
}

/// A walk that is finished or has run past the last offset is not moved by
/// anything it is fed.
pub proof fn lemma_ended_walk_stays(walk: WalkerView, record: Seq<u8>)
    requires
        !(walk.phase is Reading),
    ensures
        walk_step(walk, record) == walk,
{
}

} // verus!
