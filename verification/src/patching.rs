//! What a patch changes for those who read the container after it.
//!
//! A patch overwrites one record: that of its target, with the position and
//! size of the appended content. The laws here say that every resolution
//! then runs as it ran before and finds the entries it found before, the
//! target among them in its new form, so that extracting the target reads
//! the appended content.
//!
//! This holds where the patch leaves the chains as they are. A record whose
//! `position` is the slot right behind it ends its chain. So the laws leave
//! out a target that ended its chain before the patch, since it no longer
//! does so after it, and a target that has the end of the container right
//! behind its own record, since it then ends its chain after the patch.
//! They also leave out the root as target, which an opened archive holds in
//! memory and does not read again.

use crate::engine::patch_plan;
use crate::entry::{decode_record, encode_record, lemma_encode_then_decode, EntryView};
use crate::error::Pk2Error;
use crate::helpers::FILE;
use crate::path::{first_match, match_index, names};
use crate::resolver::{lookup_segments, ResolverView, Status};
use crate::run::{extracted, located, resolve_run, well_sized, Records};
use crate::scan::lemma_lead_map;
use crate::walker::{closes_chain, walk_start, walk_step, Phase, WalkerView};
use vstd::prelude::*;

verus! {

/// The entry is what the record at its offset says.
pub open spec fn read_from(entry: EntryView, records: Records) -> bool {
    &&& records.dom().contains(entry.offset)
    &&& entry == decode_record(records[entry.offset]).at(entry.offset)
}

/// A patch of a container: the archive's root and records before it, the
/// target, and where the content was appended and how long it is.
pub struct Patching {
    pub root: EntryView,
    pub records: Records,
    pub target: EntryView,
    pub appended_at: u64,
    pub size: u32,
}

impl Patching {
    /// The patch is one that the laws speak of: the target is a file that
    /// was read from the container and is not the root, and the patch leaves
    /// the chains as they are.
    pub open spec fn sound(self) -> bool {
        &&& well_sized(self.records)
        &&& read_from(self.target, self.records)
        &&& self.target.entry_type == FILE
        &&& self.target.offset != self.root.offset
        &&& !closes_chain(self.target)
        &&& self.target.offset + 128 != self.appended_at
    }

    /// The target after the patch.
    pub open spec fn patched(self) -> EntryView {
        self.target.repointed(self.appended_at, self.size)
    }

    /// The records after the patch: the target's record is overwritten, and
    /// no other.
    pub open spec fn after(self) -> Records {
        self.records.insert(self.target.offset, encode_record(self.patched()))
    }

    /// An entry as it is read after the patch: the target in its new form,
    /// every other entry as it was.
    pub open spec fn seen(self, entry: EntryView) -> EntryView {
        if entry.offset == self.target.offset {
            entry.repointed(self.appended_at, self.size)
        } else {
            entry
        }
    }

    /// A list of entries as they are read after the patch.
    pub open spec fn seen_all(self, entries: Seq<EntryView>) -> Seq<EntryView> {
        entries.map_values(|entry: EntryView| self.seen(entry))
    }

    /// What an operation that came to `outcome` before the patch comes to
    /// after it.
    pub open spec fn seen_outcome(self, outcome: Option<Result<EntryView, Pk2Error>>) -> Option<
        Result<EntryView, Pk2Error>,
    > {
        match outcome {
            Some(Ok(entry)) => Some(Ok(self.seen(entry))),
            other => other,
        }
    }

    /// Every child that the walk holds is what the record at its offset says.
    spec fn walk_read(self, walk: WalkerView) -> bool {
        forall|i: int| 0 <= i < walk.found.len() ==> read_from(#[trigger] walk.found[i], self.records)
    }

    /// The resolution stands on the root or on an entry that was read, and
    /// so was every child its walk holds.
    spec fn resolution_read(self, resolution: ResolverView) -> bool {
        &&& resolution.current == self.root || read_from(resolution.current, self.records)
        &&& self.walk_read(resolution.walk)
    }

    /// The second walk is the first as it goes after the patch.
    spec fn walks_agree(self, before: WalkerView, after: WalkerView) -> bool {
        &&& after.phase == before.phase
        &&& after.found == self.seen_all(before.found)
    }

    /// The second resolution is the first as it goes after the patch.
    spec fn resolutions_agree(self, before: ResolverView, after: ResolverView) -> bool {
        &&& after.segments == before.segments
        &&& after.depth == before.depth
        &&& after.current == self.seen(before.current)
        &&& self.walks_agree(before.walk, after.walk)
    }

    /// A step of a walk adds only what was read.
    proof fn lemma_step_reads(self, walk: WalkerView, offset: u64)
        requires
            well_sized(self.records),
            self.walk_read(walk),
            walk.phase == Phase::Reading(offset),
            self.records.dom().contains(offset),
        ensures
            self.walk_read(walk_step(walk, self.records[offset])),
    {
        let next = walk_step(walk, self.records[offset]);
        assert forall|i: int| 0 <= i < next.found.len() implies read_from(
            #[trigger] next.found[i],
            self.records,
        ) by {
            if i < walk.found.len() {
                assert(next.found[i] == walk.found[i]);
            }
        }
    }

    /// Settling keeps to what was read.
    proof fn lemma_settle_reads(self, resolution: ResolverView)
        requires
            self.resolution_read(resolution),
        ensures
            self.resolution_read(resolution.settled()),
        decreases resolution.segments.len() - resolution.depth,
    {
        if resolution.depth < resolution.segments.len() && resolution.current.entry_type != FILE
            && resolution.walk.phase == Phase::Finished {
            let segment = resolution.segments[resolution.depth as int];
            match first_match(resolution.walk.found, segment) {
                Some(child) => {
                    assert(child == resolution.walk.found[match_index(
                        resolution.walk.found,
                        segment,
                    ) as int]);
                    self.lemma_settle_reads(
                        ResolverView {
                            depth: resolution.depth + 1,
                            current: child,
                            walk: walk_start(child),
                            ..resolution
                        },
                    );
                },
                None => {},
            }
        }
    }

    /// A resolution finds the root or an entry that was read.
    proof fn lemma_run_reads(self, resolution: ResolverView, reads: nat)
        requires
            well_sized(self.records),
            self.resolution_read(resolution),
            resolve_run(resolution, self.records, reads) is Some,
            resolve_run(resolution, self.records, reads)->Some_0 is Ok,
        ensures
            ({
                let found = resolve_run(resolution, self.records, reads)->Some_0->Ok_0;
                found == self.root || read_from(found, self.records)
            }),
        decreases reads,
    {
        if let Status::Read(offset) = resolution.status() {
            if self.records.dom().contains(offset) && reads > 0 {
                let record = self.records[offset];
                self.lemma_step_reads(resolution.walk, offset);
                let stepped = ResolverView { walk: walk_step(resolution.walk, record), ..resolution };
                self.lemma_settle_reads(stepped);
                self.lemma_run_reads(resolution.fed(record), (reads - 1) as nat);
            }
        }
    }

    /// An entry that was read at the target's offset is the target, and is
    /// read after the patch in its new form.
    proof fn lemma_target_record(self)
        requires
            self.sound(),
        ensures
            self.after().dom() == self.records.dom(),
            self.target.name.len() == 81,
            decode_record(self.after()[self.target.offset]).at(self.target.offset)
                == self.patched(),
            forall|offset: u64|
                offset != self.target.offset ==> #[trigger] self.after()[offset]
                    == self.records[offset],
    {
        assert(self.after().dom() =~= self.records.dom());
        assert(self.records[self.target.offset].len() == 128);
        lemma_encode_then_decode(self.patched());
    }

    /// After the patch a walk takes the step it took before.
    proof fn lemma_steps_agree(self, before: WalkerView, after: WalkerView, offset: u64)
        requires
            self.sound(),
            self.walks_agree(before, after),
            before.phase == Phase::Reading(offset),
            self.records.dom().contains(offset),
        ensures
            self.walks_agree(
                walk_step(before, self.records[offset]),
                walk_step(after, self.after()[offset]),
            ),
    {
        self.lemma_target_record();
        let was = walk_step(before, self.records[offset]);
        let is = walk_step(after, self.after()[offset]);
        let entry = decode_record(self.records[offset]).at(offset);
        let entry_after = decode_record(self.after()[offset]).at(offset);
        assert(entry_after == self.seen(entry));
        assert(is.found =~= self.seen_all(was.found));
    }

    /// After the patch a segment picks the child it picked before.
    proof fn lemma_matches_agree(self, children: Seq<EntryView>, segment: Seq<char>)
        ensures
            match_index(self.seen_all(children), segment) == match_index(children, segment),
    {
        lemma_lead_map(
            children,
            |child: EntryView| names(segment, child),
            |entry: EntryView| self.seen(entry),
        );
    }

    /// After the patch a resolution settles as it settled before.
    proof fn lemma_settles_agree(self, before: ResolverView, after: ResolverView)
        requires
            self.sound(),
            self.resolution_read(before),
            self.resolutions_agree(before, after),
        ensures
            self.resolutions_agree(before.settled(), after.settled()),
        decreases before.segments.len() - before.depth,
    {
        if before.depth < before.segments.len() && before.current.entry_type != FILE
            && before.walk.phase == Phase::Finished {
            let segment = before.segments[before.depth as int];
            self.lemma_matches_agree(before.walk.found, segment);
            match first_match(before.walk.found, segment) {
                Some(child) => {
                    let at = match_index(before.walk.found, segment) as int;
                    assert(child == before.walk.found[at]);
                    assert(read_from(child, self.records));
                    let child_after = self.seen(child);
                    assert(first_match(after.walk.found, segment) == Some(child_after));
                    let next = ResolverView {
                        depth: before.depth + 1,
                        current: child,
                        walk: walk_start(child),
                        ..before
                    };
                    let next_after = ResolverView {
                        depth: after.depth + 1,
                        current: child_after,
                        walk: walk_start(child_after),
                        ..after
                    };
                    assert(walk_start(child_after).found =~= self.seen_all(
                        walk_start(child).found,
                    ));
                    self.lemma_settles_agree(next, next_after);
                },
                None => {
                    assert(first_match(after.walk.found, segment) is None);
                },
            }
        }
    }

    /// After the patch a resolution runs as it ran before, and comes to what
    /// it came to before: the same failure, or the entry it found, as that
    /// entry is read after the patch.
    proof fn lemma_runs_agree(self, before: ResolverView, after: ResolverView, reads: nat)
        requires
            self.sound(),
            self.resolution_read(before),
            self.resolutions_agree(before, after),
        ensures
            resolve_run(after, self.after(), reads) == self.seen_outcome(
                resolve_run(before, self.records, reads),
            ),
        decreases reads,
    {
        self.lemma_target_record();
        assert(after.status() == before.status());
        if let Status::Read(offset) = before.status() {
            if self.records.dom().contains(offset) && reads > 0 {
                let record = self.records[offset];
                let record_after = self.after()[offset];
                self.lemma_step_reads(before.walk, offset);
                self.lemma_steps_agree(before.walk, after.walk, offset);
                let stepped = ResolverView { walk: walk_step(before.walk, record), ..before };
                let stepped_after = ResolverView {
                    walk: walk_step(after.walk, record_after),
                    ..after
                };
                self.lemma_settle_reads(stepped);
                self.lemma_settles_agree(stepped, stepped_after);
                self.lemma_runs_agree(
                    before.fed(record),
                    after.fed(record_after),
                    (reads - 1) as nat,
                );
            }
        }
    }

    /// After the patch every path names what it named before: the target in
    /// its new form, every other entry as it was; and a path that failed
    /// fails in the same way.
    pub proof fn lemma_patch_spares_the_rest(self, path: Seq<char>, reads: nat)
        requires
            self.sound(),
        ensures
            located(self.root, path, self.after(), reads) == self.seen_outcome(
                located(self.root, path, self.records, reads),
            ),
    {
        let start = ResolverView {
            segments: lookup_segments(path),
            depth: 0,
            current: self.root,
            walk: walk_start(self.root),
        };
        assert(start.walk.found =~= self.seen_all(start.walk.found));
        self.lemma_settle_reads(start);
        self.lemma_settles_agree(start, start);
        self.lemma_runs_agree(start.settled(), start.settled(), reads);
    }
}

/// After a patch, the path that named the target names it in its new form:
/// the entry reports the length of the new content as its size, and
/// extracting it reads exactly the appended content, from the place where it
/// was appended and at its length.
///
/// Left out are a target that is the root, a target that ended its chain
/// before the patch, and a target that has the end of the container right
/// behind its own record.
pub proof fn lemma_patch_then_extract_in_place(
    root: EntryView,
    path: Seq<char>,
    records: Records,
    reads: nat,
    content_len: nat,
    appended_at: u64,
)
    requires
        well_sized(records),
        located(root, path, records, reads) is Some,
        located(root, path, records, reads)->Some_0 is Ok,
        content_len <= u32::MAX,
        ({
            let target = located(root, path, records, reads)->Some_0->Ok_0;
            &&& target.entry_type == FILE
            &&& target.offset != root.offset
            &&& !closes_chain(target)
            &&& target.offset + 128 != appended_at
        }),
    ensures
        ({
            let target = located(root, path, records, reads)->Some_0->Ok_0;
            let patch = patch_plan(target, content_len)->Ok_0;
            let after = records.insert(target.offset, encode_record(patch.patched(appended_at)));
            let patched = target.repointed(appended_at, content_len as u32);
            &&& patch_plan(target, content_len) is Ok
            &&& located(root, path, after, reads) == Some(Ok::<EntryView, Pk2Error>(patched))
            &&& patched.size == content_len
            &&& extracted(root, path, after, reads) == Some(
                Ok::<(u64, u32), Pk2Error>((appended_at, content_len as u32)),
            )
        }),
{
    let target = located(root, path, records, reads)->Some_0->Ok_0;
    let patching = Patching { root, records, target, appended_at, size: content_len as u32 };
    let start = ResolverView {
        segments: lookup_segments(path),
        depth: 0,
        current: root,
        walk: walk_start(root),
    };
    patching.lemma_settle_reads(start);
    patching.lemma_run_reads(start.settled(), reads);
    patching.lemma_patch_spares_the_rest(path, reads);
}

} // verus!
