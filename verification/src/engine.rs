//! The archive as a whole: where its root lies, and the plans for the
//! operations on it.
//!
//! Every operation is a sequence of reads and writes on the container with a
//! decision between each two. The decisions are made here; the reads and
//! writes are the caller's:
//!
//! - to open, read the record at `Extractor::root_offset`, decrypt it, and
//!   hand it to `Extractor::new`;
//! - to find an entry, drive the `Resolver` that `Extractor::resolve` starts;
//! - to list a directory, drive the `Walker` that `Extractor::list` starts on
//!   the entry found;
//! - to extract a file, read the range that `Extractor::content_range` gives;
//! - to patch a file, make a `Patch`, append the content, and overwrite the
//!   record at `Patch::record_offset` with the encrypted `Patch::record`.

use crate::entry::{
    decode_record, encode_record, lemma_encode_then_decode, Entry, EntryView,
};
use crate::error::Pk2Error;
use crate::helpers::{FILE, SKIP_HEADER_SIZE};
use crate::resolver::{resolve_start, Resolver};
use crate::walker::{walk_start, Walker};
use vstd::prelude::*;
use vstd::string::StringExecFns;

verus! {

/// The content of a file entry: where it starts and how long it is. An entry
/// that is no file has none, which is `NotAFile`.
pub open spec fn content_range_of(entry: EntryView) -> Result<(u64, u32), Pk2Error> {
    if entry.entry_type == FILE {
        Ok((entry.position, entry.size))
    } else {
        Err(Pk2Error::NotAFile)
    }
}

/// An opened archive: the path of its container and its root directory.
pub struct Extractor {
    pk2_path: String,
    root: Entry,
}

/// An opened archive as a mathematical value.
pub struct ExtractorView {
    pub pk2_path: Seq<char>,
    pub root: EntryView,
}

impl View for Extractor {
    type V = ExtractorView;

    closed spec fn view(&self) -> ExtractorView {
        ExtractorView { pk2_path: self.pk2_path@, root: self.root@ }
    }
}

impl Extractor {
    /// Where the root directory's record lies: right behind the header.
    pub fn root_offset() -> (offset: u64)
        ensures
            offset == SKIP_HEADER_SIZE,
    {
        SKIP_HEADER_SIZE
    }

    /// Opens the archive at `pk2_path`, given the decrypted bytes of the
    /// record at `root_offset`.
    ///
    /// Fails with `InvalidRecord` exactly when `root_record` is not 128 bytes
    /// long.
    pub fn new(pk2_path: &str, root_record: &[u8]) -> (opened: Result<Extractor, Pk2Error>)
        ensures
            opened is Ok <==> root_record@.len() == 128,
            opened matches Ok(extractor) ==> extractor@ == (ExtractorView {
                pk2_path: pk2_path@,
                root: decode_record(root_record@).at(SKIP_HEADER_SIZE),
            }),
            opened matches Err(error) ==> error == Pk2Error::InvalidRecord,
    {
        match Entry::read_at(root_record, SKIP_HEADER_SIZE) {
            Ok(root) => Ok(Extractor { pk2_path: String::from_str(pk2_path), root }),
            Err(error) => Err(error),
        }
    }

    /// The path of the container.
    pub fn pk2_path(&self) -> (path: &str)
        ensures
            path@ == self@.pk2_path,
    {
        self.pk2_path.as_str()
    }

    /// The root directory.
    pub fn root(&self) -> (root: Entry)
        ensures
            root@ == self@.root,
    {
        self.root
    }

    /// Starts the resolution of `path` from the root. The path `.` names the
    /// root itself, as does a path without segments.
    pub fn resolve<'a>(&self, path: &'a str) -> (resolver: Resolver<'a>)
        ensures
            resolver@ == resolve_start(self@.root, path@),
    {
        Resolver::new(self.root, path)
    }

    /// Starts the walk over the children of `directory`. An entry that is no
    /// directory has no children.
    pub fn list(directory: &Entry) -> (walker: Walker)
        ensures
            walker@ == walk_start(directory@),
    {
        Walker::new(directory)
    }

    /// The range of the container that holds the content of `file`: its start
    /// and its length. The content is stored as it is, not encrypted.
    ///
    /// Fails with `NotAFile` exactly when the entry is no file.
    pub fn content_range(file: &Entry) -> (range: Result<(u64, u32), Pk2Error>)
        ensures
            range == content_range_of(file@),
    {
        if file.entry_type == FILE {
            Ok((file.position, file.size))
        } else {
            Err(Pk2Error::NotAFile)
        }
    }
}

/// A patch as a mathematical value.
pub struct PatchView {
    pub target: EntryView,
    pub size: u32,
}

impl PatchView {
    /// The target once it points at the new content, appended at `appended_at`.
    pub open spec fn patched(self, appended_at: u64) -> EntryView {
        self.target.repointed(appended_at, self.size)
    }
}

/// The patch planned for a target and a content length: none where the
/// target is no file, which is `NotAFile`; none where the length is more than
/// a record's `size` can say, so that the content cannot be written, which is
/// `IoError`.
pub open spec fn patch_plan(target: EntryView, content_len: nat) -> Result<PatchView, Pk2Error> {
    if target.entry_type != FILE {
        Err(Pk2Error::NotAFile)
    } else if content_len > u32::MAX {
        Err(Pk2Error::IoError)
    } else {
        Ok(PatchView { target, size: content_len as u32 })
    }
}

/// The replacement of a file's content: the new content is appended to the
/// container, and the file's record is made to point at it. The old content
/// stays where it was, with nothing pointing at it.
pub struct Patch {
    target: Entry,
    size: u32,
}

impl View for Patch {
    type V = PatchView;

    closed spec fn view(&self) -> PatchView {
        PatchView { target: self.target@, size: self.size }
    }
}

impl Patch {
    /// Plans to replace the content of `target` by `content_len` bytes. To be
    /// called before anything is appended.
    pub fn plan(target: &Entry, content_len: usize) -> (planned: Result<Patch, Pk2Error>)
        ensures
            planned is Ok <==> patch_plan(target@, content_len as nat) is Ok,
            planned matches Ok(patch) ==> Ok::<PatchView, Pk2Error>(patch@) == patch_plan(
                target@,
                content_len as nat,
            ),
            planned matches Err(error) ==> Err::<PatchView, Pk2Error>(error) == patch_plan(
                target@,
                content_len as nat,
            ),
    {
        if target.entry_type != FILE {
            Err(Pk2Error::NotAFile)
        } else if content_len > 0xffff_ffff {
            Err(Pk2Error::IoError)
        } else {
            Ok(Patch { target: *target, size: content_len as u32 })
        }
    }

    /// Where the target's record lies: the place to overwrite.
    pub fn record_offset(&self) -> (offset: u64)
        ensures
            offset == self@.target.offset,
    {
        self.target.offset
    }

    /// The target as it is after the patch, once the content was appended at
    /// `appended_at`.
    pub fn entry(&self, appended_at: u64) -> (patched: Entry)
        ensures
            patched@ == self@.patched(appended_at),
    {
        let mut patched = self.target;
        patched.position = appended_at;
        patched.size = self.size;
        patched
    }

    /// The bytes of the target's new record, before encryption, once the
    /// content was appended at `appended_at`.
    pub fn record(&self, appended_at: u64) -> (record: Vec<u8>)
        ensures
            record@ == encode_record(self@.patched(appended_at)),
            record@.len() == 128,
    {
        self.entry(appended_at).into_bytes()
    }
}

/// After a patch, the target's record read back from its place is the target
/// with the new position and size and nothing else changed, and extracting
/// it reads exactly the appended content: from where it was appended, at its
/// length.
pub proof fn lemma_patch_then_extract(target: EntryView, content_len: nat, appended_at: u64)
    requires
        target.name.len() == 81,
        target.entry_type == FILE,
        content_len <= u32::MAX,
    ensures
        patch_plan(target, content_len) is Ok,
        ({
            let patch = patch_plan(target, content_len)->Ok_0;
            let read_back = decode_record(encode_record(patch.patched(appended_at))).at(
                target.offset,
            );
            &&& read_back == target.repointed(appended_at, content_len as u32)
            &&& read_back.size == content_len
            &&& content_range_of(read_back) == Ok::<(u64, u32), Pk2Error>(
                (appended_at, content_len as u32),
            )
        }),
{
    let patch = patch_plan(target, content_len)->Ok_0;
    lemma_encode_then_decode(patch.patched(appended_at));
}

} // verus!
