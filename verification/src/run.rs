//! What an operation comes to when it is driven over a container.
//!
//! A caller drives a walk or a resolution by reading the record it asks for,
//! feeding it, and asking again. Here that loop is written down as
//! mathematics, over the decrypted records of a container, so that laws can
//! speak of whole operations: of the entry that a path names, and of what a
//! patch changes.
//!
//! A chain of records may be a cycle, and then the loop does not end. The
//! functions here take a number of reads that the caller is willing to make,
//! and give nothing where that is not enough.

use crate::engine::content_range_of;
use crate::entry::{decode_record, EntryView};
use crate::error::Pk2Error;
use crate::helpers::{DIRECTORY, FILE};
use crate::resolver::{resolve_start, ResolverView, Status};
use crate::walker::{lemma_walk_keeps_children_live, walk_start, walk_step, Phase, WalkerView};
use vstd::prelude::*;

verus! {

/// The decrypted records of a container: at each offset where 128 bytes can
/// be read, those bytes after decryption.
pub type Records = Map<u64, Seq<u8>>;

/// Every record is 128 bytes long.
pub open spec fn well_sized(records: Records) -> bool {
    forall|offset: u64| #[trigger]
        records.dom().contains(offset) ==> records[offset].len() == 128
}

/// The children that a walk finds when it is driven over `records` with at
/// most `reads` reads: nothing where that many reads do not end it, and
/// `IoError` where it asks for a record that cannot be read.
pub open spec fn walk_run(walk: WalkerView, records: Records, reads: nat) -> Option<
    Result<Seq<EntryView>, Pk2Error>,
>
    decreases reads,
{
    match walk.phase {
        Phase::Finished => Some(Ok(walk.found)),
        Phase::Overrun => Some(Err(Pk2Error::IoError)),
        Phase::Reading(offset) => if !records.dom().contains(offset) {
            Some(Err(Pk2Error::IoError))
        } else if reads == 0 {
            None
        } else {
            walk_run(walk_step(walk, records[offset]), records, (reads - 1) as nat)
        },
    }
}

/// The entry that a resolution finds when it is driven over `records` with at
/// most `reads` reads: nothing where that many reads do not end it, and
/// `IoError` where it asks for a record that cannot be read.
pub open spec fn resolve_run(resolution: ResolverView, records: Records, reads: nat) -> Option<
    Result<EntryView, Pk2Error>,
>
    decreases reads,
{
    match resolution.status() {
        Status::Resolved => Some(Ok(resolution.current)),
        Status::Failed(error) => Some(Err(error)),
        Status::Read(offset) => if !records.dom().contains(offset) {
            Some(Err(Pk2Error::IoError))
        } else if reads == 0 {
            None
        } else {
            resolve_run(resolution.fed(records[offset]), records, (reads - 1) as nat)
        },
    }
}

/// The entry that `path` names in the archive with root `root` and records
/// `records`.
pub open spec fn located(root: EntryView, path: Seq<char>, records: Records, reads: nat) -> Option<
    Result<EntryView, Pk2Error>,
> {
    resolve_run(resolve_start(root, path), records, reads)
}

/// The children of the entry that `path` names.
pub open spec fn listed(root: EntryView, path: Seq<char>, records: Records, reads: nat) -> Option<
    Result<Seq<EntryView>, Pk2Error>,
> {
    match located(root, path, records, reads) {
        Some(Ok(directory)) => walk_run(walk_start(directory), records, reads),
        Some(Err(error)) => Some(Err(error)),
        None => None,
    }
}

/// The range of the container that extracting `path` reads.
pub open spec fn extracted(root: EntryView, path: Seq<char>, records: Records, reads: nat) -> Option<
    Result<(u64, u32), Pk2Error>,
> {
    match located(root, path, records, reads) {
        Some(Ok(file)) => Some(content_range_of(file)),
        Some(Err(error)) => Some(Err(error)),
        None => None,
    }
}

/// What a walk finds does not depend on how many reads the caller allows,
/// once they are enough.
pub proof fn lemma_walk_run_settles(walk: WalkerView, records: Records, reads: nat, more: nat)
    requires
        walk_run(walk, records, reads) is Some,
        reads <= more,
    ensures
        walk_run(walk, records, more) == walk_run(walk, records, reads),
    decreases reads,
{
    if let Phase::Reading(offset) = walk.phase {
        if records.dom().contains(offset) {
            lemma_walk_run_settles(
                walk_step(walk, records[offset]),
                records,
                (reads - 1) as nat,
                (more - 1) as nat,
            );
        }
    }
}

/// What a resolution finds does not depend on how many reads the caller
/// allows, once they are enough. So two extractions of one path from one
/// container read the same range, however long each was given to run.
pub proof fn lemma_resolve_run_settles(
    resolution: ResolverView,
    records: Records,
    reads: nat,
    more: nat,
)
    requires
        resolve_run(resolution, records, reads) is Some,
        reads <= more,
    ensures
        resolve_run(resolution, records, more) == resolve_run(resolution, records, reads),
    decreases reads,
{
    if let Status::Read(offset) = resolution.status() {
        if records.dom().contains(offset) {
            lemma_resolve_run_settles(
                resolution.fed(records[offset]),
                records,
                (reads - 1) as nat,
                (more - 1) as nat,
            );
        }
    }
}

/// Extraction is determined by the container: two extractions of one path
/// that both come to an end read the same range, whatever number of reads
/// each was allowed.
pub proof fn lemma_extract_is_determined(
    root: EntryView,
    path: Seq<char>,
    records: Records,
    first: nat,
    second: nat,
)
    requires
        extracted(root, path, records, first) is Some,
        extracted(root, path, records, second) is Some,
    ensures
        extracted(root, path, records, first) == extracted(root, path, records, second),
{
    let start = resolve_start(root, path);
    if first <= second {
        lemma_resolve_run_settles(start, records, first, second);
    } else {
        lemma_resolve_run_settles(start, records, second, first);
    }
}

/// Every child that a walk finds is a directory or a file.
pub proof fn lemma_children_are_live(walk: WalkerView, records: Records, reads: nat)
    requires
        walk.children_live(),
        walk_run(walk, records, reads) is Some,
        walk_run(walk, records, reads)->Some_0 is Ok,
    ensures
        ({
            let children = walk_run(walk, records, reads)->Some_0->Ok_0;
            forall|i: int| 0 <= i < children.len() ==> (#[trigger] children[i]).is_live()
        }),
    decreases reads,
{
    if let Phase::Reading(offset) = walk.phase {
        if records.dom().contains(offset) && reads > 0 {
            lemma_walk_keeps_children_live(walk, records[offset]);
            lemma_children_are_live(
                walk_step(walk, records[offset]),
                records,
                (reads - 1) as nat,
            );
        }
    }
}

/// A directory whose first child record is neither directory nor file has no
/// children.
pub proof fn lemma_blank_first_record(directory: EntryView, records: Records, reads: nat)
    requires
        directory.entry_type == DIRECTORY,
        directory.position + 128 <= u64::MAX,
        records.dom().contains((directory.position + 128) as u64),
        !decode_record(records[(directory.position + 128) as u64]).is_live(),
        reads >= 1,
    ensures
        walk_run(walk_start(directory), records, reads) == Some(
            Ok::<Seq<EntryView>, Pk2Error>(Seq::empty()),
        ),
{
    let first = walk_step(walk_start(directory), records[(directory.position + 128) as u64]);
    assert(first.phase == Phase::Finished);
    assert(walk_run(first, records, (reads - 1) as nat) == Some(
        Ok::<Seq<EntryView>, Pk2Error>(first.found),
    ));
}

/// A resolution that stands on a file with a segment of the path left comes
/// to `NotAContainer`, whatever the container holds and without a read.
pub proof fn lemma_path_through_file(resolution: ResolverView, records: Records, reads: nat)
    requires
        resolution.depth < resolution.segments.len(),
        resolution.current.entry_type == FILE,
    ensures
        resolve_run(resolution, records, reads) == Some(
            Err::<EntryView, Pk2Error>(Pk2Error::NotAContainer),
        ),
{
}

} // verus!
