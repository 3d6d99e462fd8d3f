//! Finding the entry that a path names.
//!
//! Resolution starts at the root and takes the path segment by segment: it
//! walks the children of the entry it stands on, and steps to the first child
//! that the segment names. A `Resolver` holds the state of one resolution and
//! makes its decisions. Like the walk it drives, it reads nothing itself: it
//! says which record it wants next, and is fed that record's decrypted bytes.

use crate::entry::{Entry, EntryView};
use crate::error::Pk2Error;
use crate::helpers::FILE;
use crate::path::{find_child, first_match, segments, split_path, texts};
use crate::walker::{walk_start, walk_step, Phase, Walker, WalkerView};
use vstd::prelude::*;
use vstd::string::StrSliceExecFns;

verus! {

/// Where a resolution stands.
#[derive(Clone, Copy, Debug, PartialEq, Eq, Structural)]
pub enum Status {
    /// The record at this offset is to be read and fed to the resolution.
    Read(u64),
    /// Every segment was matched: the entry is found.
    Resolved,
    /// The resolution failed, for this reason.
    Failed(Pk2Error),
}

/// A resolution as a mathematical value.
pub struct ResolverView {
    /// The segments of the path.
    pub segments: Seq<Seq<char>>,
    /// How many segments were matched.
    pub depth: nat,
    /// The entry that the matched segments lead to.
    pub current: EntryView,
    /// The walk over the children of `current`.
    pub walk: WalkerView,
}

impl ResolverView {
    /// A resolution that has taken every step it can take without a further
    /// record. While a segment is left, the current entry is no file and the
    /// walk over its children is finished, the first child that the segment
    /// names becomes the current entry, and the walk over its children starts.
    pub open spec fn settled(self) -> ResolverView
        decreases self.segments.len() - self.depth,
    {
        if self.depth < self.segments.len() && self.current.entry_type != FILE && self.walk.phase
            == Phase::Finished {
            match first_match(self.walk.found, self.segments[self.depth as int]) {
                Some(child) => ResolverView {
                    depth: self.depth + 1,
                    current: child,
                    walk: walk_start(child),
                    ..self
                }.settled(),
                None => self,
            }
        } else {
            self
        }
    }

    /// What a settled resolution asks for or has come to. With no segment
    /// left the entry is found. Else a file cannot be searched in, which is
    /// `NotAContainer`; a walk in progress wants its next record; a walk that
    /// ran past the last offset is `IoError`; and a finished walk, since the
    /// resolution is settled, holds no child that the segment names, which is
    /// `NotFound`.
    pub open spec fn status(self) -> Status {
        if self.depth >= self.segments.len() {
            Status::Resolved
        } else if self.current.entry_type == FILE {
            Status::Failed(Pk2Error::NotAContainer)
        } else {
            match self.walk.phase {
                Phase::Reading(offset) => Status::Read(offset),
                Phase::Overrun => Status::Failed(Pk2Error::IoError),
                Phase::Finished => Status::Failed(Pk2Error::NotFound),
            }
        }
    }

    /// The resolution after it was fed `record`, the decrypted bytes read at
    /// the offset it was waiting for. A resolution that is not waiting for a
    /// record stays as it is.
    pub open spec fn fed(self, record: Seq<u8>) -> ResolverView
        recommends
            record.len() == 128,
    {
        if self.status() is Read {
            ResolverView { walk: walk_step(self.walk, record), ..self }.settled()
        } else {
            self
        }
    }
}

/// The segments that a path is resolved by. The path `.` stands for the root
/// and has none.
pub open spec fn lookup_segments(path: Seq<char>) -> Seq<Seq<char>> {
    if path == seq!['.'] {
        Seq::empty()
    } else {
        segments(path)
    }
}

/// The resolution of `path` from `root`, before anything was read.
pub open spec fn resolve_start(root: EntryView, path: Seq<char>) -> ResolverView {
    ResolverView {
        segments: lookup_segments(path),
        depth: 0,
        current: root,
        walk: walk_start(root),
    }.settled()
}

/// The state of one resolution of a path.
pub struct Resolver<'a> {
    segments: Vec<&'a str>,
    depth: usize,
    current: Entry,
    walker: Walker,
}

impl<'a> View for Resolver<'a> {
    type V = ResolverView;

    closed spec fn view(&self) -> ResolverView {
        ResolverView {
            segments: texts(self.segments@),
            depth: self.depth as nat,
            current: self.current@,
            walk: self.walker@,
        }
    }
}

impl<'a> Resolver<'a> {
    /// Starts the resolution of `path` from `root`.
    pub fn new(root: Entry, path: &'a str) -> (resolver: Resolver<'a>)
        ensures
            resolver@ == resolve_start(root@, path@),
    {
        let is_root: bool = path.unicode_len() == 1 && path.get_char(0) == '.';
        assert(is_root == (path@ == seq!['.'])) by {
            if is_root {
                assert(path@ =~= seq!['.']);
            }
        }
        let segments: Vec<&'a str> = if is_root {
            Vec::new()
        } else {
            split_path(path)
        };
        assert(texts(segments@) =~= lookup_segments(path@));
        let mut resolver = Resolver { segments, depth: 0, current: root, walker: Walker::new(&root) };
        resolver.settle();
        resolver
    }

    /// Takes every step that needs no further record.
    fn settle(&mut self)
        ensures
            final(self)@ == old(self)@.settled(),
    {
        while self.depth < self.segments.len() && self.current.entry_type != FILE
            && self.walker.phase() == Phase::Finished
            invariant
                self@.settled() == old(self)@.settled(),
            decreases self.segments.len() - self.depth,
        {
            match find_child(self.walker.children(), self.segments[self.depth]) {
                Some(child) => {
                    self.current = child;
                    self.depth += 1;
                    self.walker = Walker::new(&child);
                },
                None => {
                    return ;
                },
            }
        }
    }

    /// Where the resolution stands.
    pub fn status(&self) -> (status: Status)
        ensures
            status == self@.status(),
    {
        if self.depth >= self.segments.len() {
            Status::Resolved
        } else if self.current.entry_type == FILE {
            Status::Failed(Pk2Error::NotAContainer)
        } else {
            match self.walker.phase() {
                Phase::Reading(offset) => Status::Read(offset),
                Phase::Overrun => Status::Failed(Pk2Error::IoError),
                Phase::Finished => Status::Failed(Pk2Error::NotFound),
            }
        }
    }

    /// What the resolution needs next: the offset of a record to read and
    /// feed, or nothing when the entry is found. A failed resolution gives
    /// its error.
    pub fn pending(&self) -> (wanted: Result<Option<u64>, Pk2Error>)
        ensures
            wanted == match self@.status() {
                Status::Read(offset) => Ok::<Option<u64>, Pk2Error>(Some(offset)),
                Status::Resolved => Ok(None),
                Status::Failed(error) => Err(error),
            },
    {
        match self.status() {
            Status::Read(offset) => Ok(Some(offset)),
            Status::Resolved => Ok(None),
            Status::Failed(error) => Err(error),
        }
    }

    /// Feeds the resolution the decrypted bytes of the record it was waiting
    /// for.
    ///
    /// Fails with `InvalidRecord`, and leaves the resolution as it was,
    /// exactly when `record` is not 128 bytes long.
    pub fn feed(&mut self, record: &[u8]) -> (fed: Result<(), Pk2Error>)
        ensures
            record@.len() == 128 ==> fed is Ok && final(self)@ == old(self)@.fed(record@),
            record@.len() != 128 ==> fed == Err::<(), Pk2Error>(Pk2Error::InvalidRecord),
            record@.len() != 128 ==> final(self)@ == old(self)@,
    {
        if record.len() != 128 {
            return Err(Pk2Error::InvalidRecord);
        }
        match self.status() {
            Status::Read(_) => {
                match self.walker.feed(record) {
                    Ok(()) => {
                        self.settle();
                        Ok(())
                    },
                    Err(error) => Err(error),
                }
            },
            _ => Ok(()),
        }
    }

    /// The entry that the path names, once the resolution has found it.
    pub fn entry(&self) -> (found: Option<Entry>)
        ensures
            found is Some <==> self@.status() == Status::Resolved,
            found matches Some(entry) ==> entry@ == self@.current,
    {
        if self.depth >= self.segments.len() {
            Some(self.current)
        } else {
            None
        }
    }
}

/// Settling takes every step there is: a settled resolution is not changed by
/// settling it again, and it keeps its path and does not go back in it.
pub proof fn lemma_settled_once(resolution: ResolverView)
    ensures
        resolution.settled().settled() == resolution.settled(),
        resolution.settled().segments == resolution.segments,
        resolution.settled().depth >= resolution.depth,
    decreases resolution.segments.len() - resolution.depth,
{
    if resolution.depth < resolution.segments.len() && resolution.current.entry_type != FILE
        && resolution.walk.phase == Phase::Finished {
        match first_match(resolution.walk.found, resolution.segments[resolution.depth as int]) {
            Some(child) => {
                lemma_settled_once(
                    ResolverView {
                        depth: resolution.depth + 1,
                        current: child,
                        walk: walk_start(child),
                        ..resolution
                    },
                );
            },
            None => {},
        }
    }
}

/// A settled resolution reports `NotFound` only where the segment at hand
/// names none of the children of the current entry.
pub proof fn lemma_not_found_means_no_match(resolution: ResolverView)
    requires
        resolution.settled().status() == Status::Failed(Pk2Error::NotFound),
    ensures
        first_match(
            resolution.settled().walk.found,
            resolution.settled().segments[resolution.settled().depth as int],
        ) is None,
    decreases resolution.segments.len() - resolution.depth,
{
    if resolution.depth < resolution.segments.len() && resolution.current.entry_type != FILE
        && resolution.walk.phase == Phase::Finished {
        match first_match(resolution.walk.found, resolution.segments[resolution.depth as int]) {
            Some(child) => {
                lemma_not_found_means_no_match(
                    ResolverView {
                        depth: resolution.depth + 1,
                        current: child,
                        walk: walk_start(child),
                        ..resolution
                    },
                );
            },
            None => {},
        }
    }
}

/// A path cannot go on below a file. A resolution that stands on a file with
/// a segment left has failed with `NotAContainer`, and nothing it is fed
/// changes that; and a resolution that steps onto a file with a segment left
/// fails so at that step.
pub proof fn lemma_file_is_no_container(resolution: ResolverView, record: Seq<u8>)
    requires
        resolution.depth < resolution.segments.len(),
    ensures
        resolution.current.entry_type == FILE ==> {
            &&& resolution.settled() == resolution
            &&& resolution.status() == Status::Failed(Pk2Error::NotAContainer)
            &&& resolution.fed(record) == resolution
        },
        resolution.current.entry_type != FILE && resolution.walk.phase == Phase::Finished
            && resolution.depth + 1 < resolution.segments.len() ==> (match first_match(
            resolution.walk.found,
            resolution.segments[resolution.depth as int],
        ) {
            Some(child) => child.entry_type == FILE ==> resolution.settled().status()
                == Status::Failed(Pk2Error::NotAContainer),
            None => true,
        }),
{
    if resolution.current.entry_type != FILE && resolution.walk.phase == Phase::Finished
        && resolution.depth + 1 < resolution.segments.len() {
        match first_match(resolution.walk.found, resolution.segments[resolution.depth as int]) {
            Some(child) => {
                if child.entry_type == FILE {
                    let next = ResolverView {
                        depth: resolution.depth + 1,
                        current: child,
                        walk: walk_start(child),
                        ..resolution
                    };
                    assert(next.settled() == next);
                }
            },
            None => {},
        }
    }
}

/// A path without segments names the root, and so does the path `.`: the
/// resolution is done before anything is read.
pub proof fn lemma_root_paths(root: EntryView, path: Seq<char>)
    ensures
        lookup_segments(seq!['.']).len() == 0,
        lookup_segments(Seq::<char>::empty()).len() == 0,
        lookup_segments(path).len() == 0 ==> {
            &&& resolve_start(root, path).status() == Status::Resolved
            &&& resolve_start(root, path).current == root
        },
{
}

/// A resolution that has found its entry or has failed is not moved by
/// anything it is fed; one that is fed a record keeps its path and does not
/// go back in it.
pub proof fn lemma_resolution_advances(resolution: ResolverView, record: Seq<u8>)
    ensures
        !(resolution.status() is Read) ==> resolution.fed(record) == resolution,
        resolution.fed(record).segments == resolution.segments,
        resolution.fed(record).depth >= resolution.depth,
{
    if resolution.status() is Read {
        lemma_settled_once(ResolverView { walk: walk_step(resolution.walk, record), ..resolution });
    }
}

} // verus!
