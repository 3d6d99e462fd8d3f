use pk2::engine::{Extractor, Patch};
use pk2::entry::Entry;
use pk2::error::Pk2Error;
use pk2::helpers::{DIRECTORY, FILE};
use pk2::resolver::Status;

/// A container held in memory, with a toy cipher on its records. It does what
/// a caller of the library does with a file: reads, appends, overwrites, and
/// drives the walks and resolutions.
struct Container {
    bytes: Vec<u8>,
}

fn crypt(block: &[u8]) -> Vec<u8> {
    block.iter().enumerate().map(|(i, byte)| byte ^ (0x5a ^ (i as u8))).collect()
}

fn record(kind: u8, name: &str, position: u64, size: u32, next_chain: u64) -> Entry {
    let mut buffer = [0u8; 81];
    buffer[..name.len()].copy_from_slice(name.as_bytes());
    Entry {
        offset: 0,
        entry_type: kind,
        name: buffer,
        access_date: 11,
        create_date: 22,
        modify_date: 33,
        position,
        size,
        next_chain,
        padding: 0,
    }
}

impl Container {
    fn read_raw(&self, offset: u64, length: usize) -> Result<Vec<u8>, Pk2Error> {
        let start = usize::try_from(offset).map_err(|_| Pk2Error::IoError)?;
        let end = start.checked_add(length).ok_or(Pk2Error::IoError)?;
        self.bytes.get(start..end).map(|found| found.to_vec()).ok_or(Pk2Error::IoError)
    }

    fn read_record(&self, offset: u64) -> Result<Vec<u8>, Pk2Error> {
        Ok(crypt(&self.read_raw(offset, 128)?))
    }

    fn append(&mut self, content: &[u8]) -> u64 {
        let at = self.bytes.len() as u64;
        self.bytes.extend_from_slice(content);
        at
    }

    fn overwrite(&mut self, offset: u64, block: &[u8]) {
        let start = offset as usize;
        self.bytes[start..start + block.len()].copy_from_slice(block);
    }

    fn place(&mut self, offset: u64, entry: Entry) {
        let end = offset as usize + 128;
        if self.bytes.len() < end {
            self.bytes.resize(end, 0);
        }
        self.overwrite(offset, &crypt(&entry.into_bytes()));
    }

    fn place_content(&mut self, offset: u64, content: &[u8]) {
        let end = offset as usize + content.len();
        if self.bytes.len() < end {
            self.bytes.resize(end, 0);
        }
        self.overwrite(offset, content);
    }

    fn open(&self) -> Result<Extractor, Pk2Error> {
        let root = self.read_record(Extractor::root_offset())?;
        Extractor::new("memory.pk2", &root)
    }

    fn resolve(&self, path: &str) -> Result<Entry, Pk2Error> {
        let extractor = self.open()?;
        let mut resolver = extractor.resolve(path);
        while let Some(offset) = resolver.pending()? {
            resolver.feed(&self.read_record(offset)?)?;
        }
        Ok(resolver.entry().unwrap())
    }

    fn children(&self, directory: &Entry) -> Result<Vec<Entry>, Pk2Error> {
        let mut walker = Extractor::list(directory);
        while let Some(offset) = walker.pending()? {
            walker.feed(&self.read_record(offset)?)?;
        }
        Ok(walker.into_children())
    }

    fn list(&self, path: &str) -> Result<Vec<String>, Pk2Error> {
        let directory = self.resolve(path)?;
        Ok(self.children(&directory)?.iter().map(|child| child.name()).collect())
    }

    fn extract(&self, path: &str) -> Result<(Entry, Vec<u8>), Pk2Error> {
        let entry = self.resolve(path)?;
        let (position, size) = Extractor::content_range(&entry)?;
        Ok((entry, self.read_raw(position, size as usize)?))
    }

    fn patch(&mut self, path: &str, content: &[u8]) -> Result<(), Pk2Error> {
        let entry = self.resolve(path)?;
        let patch = Patch::plan(&entry, content.len())?;
        let at = self.append(content);
        self.overwrite(patch.record_offset(), &crypt(&patch.record(at)));
        Ok(())
    }
}

/// ```text
/// /                      root, record at 256, children from 384
///   TextData/            record at 384, children from 1152
///     a.txt              record at 1152, linked to 2048
///     b.txt              record at 2048, content right behind it: the last
///   readme.txt           record at 512
///   Empty/               record at 640, children from 3200: none
///   (blank)              record at 768
/// ```
fn sample() -> Container {
    let mut container = Container { bytes: vec![0xee; 256] };
    container.place(256, record(DIRECTORY, "", 256, 0, 0));
    container.place(384, record(DIRECTORY, "TextData", 1024, 0, 0));
    container.place(512, record(FILE, "readme.txt", 4096, 12, 0));
    container.place(640, record(DIRECTORY, "Empty", 3072, 0, 0));
    container.place(768, record(0, "", 0, 0, 0));
    container.place(1152, record(FILE, "a.txt", 4200, 5, 2048));
    container.place(2048, record(FILE, "b.txt", 2176, 4, 0));
    container.place_content(2176, b"bbbb");
    container.place(3200, record(0, "", 0, 0, 0));
    container.place_content(4096, b"hello reader");
    container.place_content(4200, b"alpha");
    container
}

#[test]
fn the_root_is_read_behind_the_header() {
    assert_eq!(Extractor::root_offset(), 256);
    let extractor = sample().open().unwrap();
    assert_eq!(extractor.pk2_path(), "memory.pk2");
    let root = extractor.root();
    assert_eq!(root.offset, 256);
    assert_eq!(root.entry_type, DIRECTORY);
    assert_eq!(root.position, 256);
    assert_eq!(root.name(), "");
}

#[test]
fn a_root_record_of_another_length_is_refused() {
    assert!(matches!(Extractor::new("x", &[1u8; 64]), Err(Pk2Error::InvalidRecord)));
    assert!(matches!(Extractor::new("x", &[1u8; 256]), Err(Pk2Error::InvalidRecord)));
    assert!(Extractor::new("x", &[1u8; 128]).is_ok());
}

#[test]
fn a_container_cut_short_cannot_be_opened() {
    let container = Container { bytes: vec![0; 300] };
    assert!(matches!(container.open(), Err(Pk2Error::IoError)));
}

#[test]
fn the_root_is_named_by_a_dot_and_by_no_segment() {
    let container = sample();
    for path in [".", "", "/", "//"] {
        let extractor = container.open().unwrap();
        let resolver = extractor.resolve(path);
        assert_eq!(resolver.status(), Status::Resolved);
        assert_eq!(resolver.pending(), Ok(None));
        assert_eq!(resolver.entry().unwrap().offset, 256);
    }
}

#[test]
fn listing_gives_the_children_in_chain_order() {
    let container = sample();
    assert_eq!(container.list("."), Ok(vec!["TextData".into(), "readme.txt".into(), "Empty".into()]));
    assert_eq!(container.list("TextData"), Ok(vec!["a.txt".into(), "b.txt".into()]));
    assert_eq!(container.list("/TextData/"), Ok(vec!["a.txt".into(), "b.txt".into()]));
}

#[test]
fn a_directory_whose_first_record_is_blank_is_empty() {
    assert_eq!(sample().list("Empty"), Ok(Vec::new()));
}

#[test]
fn listing_a_file_gives_nothing() {
    assert_eq!(sample().list("readme.txt"), Ok(Vec::new()));
}

#[test]
fn a_child_is_found_in_any_ascii_case() {
    let container = sample();
    assert_eq!(container.resolve("TextData").unwrap().offset, 384);
    assert_eq!(container.resolve("textdata").unwrap().offset, 384);
    assert_eq!(container.resolve("TEXTDATA").unwrap().offset, 384);
    assert_eq!(container.resolve("textdata/A.TXT").unwrap().offset, 1152);
    assert_eq!(container.resolve("TEXTDATA//b.TxT/").unwrap().offset, 2048);
}

#[test]
fn a_resolution_asks_for_one_record_at_a_time() {
    let container = sample();
    let extractor = container.open().unwrap();
    let mut resolver = extractor.resolve("TextData/b.txt");
    let mut asked = Vec::new();
    while let Some(offset) = resolver.pending().unwrap() {
        asked.push(offset);
        resolver.feed(&container.read_record(offset).unwrap()).unwrap();
    }
    // the root's children to the blank slot, then the chain of TextData
    assert_eq!(asked, vec![384, 512, 640, 768, 1152, 2048]);
    assert_eq!(resolver.status(), Status::Resolved);
    assert_eq!(resolver.entry().unwrap().name(), "b.txt");
}

#[test]
fn a_resolution_refuses_a_record_of_another_length() {
    let container = sample();
    let extractor = container.open().unwrap();
    let mut resolver = extractor.resolve("readme.txt");
    assert_eq!(resolver.pending(), Ok(Some(384)));
    assert_eq!(resolver.feed(&[0u8; 10]), Err(Pk2Error::InvalidRecord));
    assert_eq!(resolver.pending(), Ok(Some(384)));
    assert_eq!(resolver.entry(), None);
}

#[test]
fn a_resolution_that_is_done_takes_no_more() {
    let container = sample();
    let extractor = container.open().unwrap();
    let mut resolver = extractor.resolve(".");
    assert_eq!(resolver.feed(&container.read_record(384).unwrap()), Ok(()));
    assert_eq!(resolver.status(), Status::Resolved);
    assert_eq!(resolver.entry().unwrap().offset, 256);
}

#[test]
fn a_segment_without_a_child_is_not_found() {
    let container = sample();
    assert_eq!(container.resolve("missing"), Err(Pk2Error::NotFound));
    assert_eq!(container.resolve("TextData/c.txt"), Err(Pk2Error::NotFound));
    assert_eq!(container.resolve("Empty/anything"), Err(Pk2Error::NotFound));
    assert_eq!(container.extract("TextData/c.txt").map(|found| found.1), Err(Pk2Error::NotFound));
    assert_eq!(container.list("nowhere"), Err(Pk2Error::NotFound));
}

#[test]
fn a_path_through_a_file_is_not_a_container() {
    let container = sample();
    assert_eq!(container.resolve("readme.txt/inner"), Err(Pk2Error::NotAContainer));
    assert_eq!(container.resolve("TextData/a.txt/b/c"), Err(Pk2Error::NotAContainer));
    assert_eq!(container.resolve("README.TXT/readme.txt"), Err(Pk2Error::NotAContainer));

    let extractor = container.open().unwrap();
    let mut resolver = extractor.resolve("readme.txt/inner");
    while let Ok(Some(offset)) = resolver.pending() {
        resolver.feed(&container.read_record(offset).unwrap()).unwrap();
    }
    assert_eq!(resolver.status(), Status::Failed(Pk2Error::NotAContainer));
    assert_eq!(resolver.entry(), None);
}

#[test]
fn a_root_that_is_a_file_has_nothing_below_it() {
    let mut container = sample();
    container.place(256, record(FILE, "", 4096, 12, 0));
    assert_eq!(container.resolve("readme.txt"), Err(Pk2Error::NotAContainer));
    assert_eq!(container.resolve(".").unwrap().entry_type, FILE);
}

#[test]
fn a_chain_that_leaves_the_container_is_an_io_error() {
    let mut container = sample();
    // the blank slot that ended the root's chain becomes a file with a link
    // to a place beyond the end
    container.place(768, record(FILE, "stray", 4096, 1, 1 << 40));
    assert_eq!(container.resolve("readme.txt"), Err(Pk2Error::IoError));
    assert_eq!(container.list("."), Err(Pk2Error::IoError));
}

#[test]
fn extract_reads_the_content_as_it_is_stored() {
    let container = sample();
    let (entry, content) = container.extract("readme.txt").unwrap();
    assert_eq!(entry.name(), "readme.txt");
    assert_eq!(entry.offset, 512);
    assert_eq!((entry.position, entry.size), (4096, 12));
    assert_eq!(content, b"hello reader");
    assert_eq!(container.extract("TextData/a.txt").unwrap().1, b"alpha");
    assert_eq!(container.extract("textdata/B.TXT").unwrap().1, b"bbbb");
}

#[test]
fn extract_twice_gives_the_same_content() {
    let container = sample();
    let before = container.bytes.clone();
    let first = container.extract("TextData/a.txt").unwrap();
    let second = container.extract("TextData/a.txt").unwrap();
    assert_eq!(first.1, second.1);
    assert_eq!(first.0, second.0);
    assert_eq!(container.bytes, before);
}

#[test]
fn extract_of_a_directory_is_not_a_file() {
    let container = sample();
    assert_eq!(container.extract("TextData").map(|found| found.1), Err(Pk2Error::NotAFile));
    assert_eq!(container.extract(".").map(|found| found.1), Err(Pk2Error::NotAFile));
    assert_eq!(Extractor::content_range(&record(DIRECTORY, "d", 1, 2, 3)), Err(Pk2Error::NotAFile));
    assert_eq!(Extractor::content_range(&record(0, "d", 1, 2, 3)), Err(Pk2Error::NotAFile));
    assert_eq!(Extractor::content_range(&record(FILE, "f", 1, 2, 3)), Ok((1, 2)));
}

#[test]
fn extract_of_content_cut_short_is_an_io_error() {
    let mut container = sample();
    container.place(512, record(FILE, "readme.txt", 4096, 1_000_000, 0));
    assert_eq!(container.extract("readme.txt").map(|found| found.1), Err(Pk2Error::IoError));
}

#[test]
fn patch_points_the_entry_at_the_appended_content() {
    let mut container = sample();
    let length_before = container.bytes.len();
    let old = container.extract("readme.txt").unwrap().0;
    let content = b"a longer text than there was before";

    container.patch("readme.txt", content).unwrap();

    assert_eq!(container.bytes.len(), length_before + content.len());
    let (entry, found) = container.extract("readme.txt").unwrap();
    assert_eq!(found, content);
    assert_eq!(entry.size as usize, content.len());
    assert_eq!(entry.position, length_before as u64);
    // nothing else in the record has changed
    let mut expected = old;
    expected.position = length_before as u64;
    expected.size = content.len() as u32;
    assert_eq!(entry, expected);
    // the old content is still where it was
    assert_eq!(container.read_raw(4096, 12).unwrap(), b"hello reader");
    // and the siblings are where they were
    assert_eq!(container.list("."), Ok(vec!["TextData".into(), "readme.txt".into(), "Empty".into()]));
}

#[test]
fn patch_with_nothing_leaves_an_empty_file() {
    let mut container = sample();
    let length_before = container.bytes.len();
    container.patch("TextData/a.txt", b"").unwrap();
    assert_eq!(container.bytes.len(), length_before);
    let (entry, found) = container.extract("TextData/a.txt").unwrap();
    assert_eq!(entry.size, 0);
    assert!(found.is_empty());
}

#[test]
fn patch_twice_keeps_the_last_content() {
    let mut container = sample();
    container.patch("TextData/a.txt", b"first").unwrap();
    container.patch("textdata/A.txt", &[1, 2, 3, 4, 5, 6, 8, 9]).unwrap();
    assert_eq!(container.extract("TextData/a.txt").unwrap().1, vec![1, 2, 3, 4, 5, 6, 8, 9]);
}

#[test]
fn patch_of_a_directory_is_not_a_file_and_appends_nothing() {
    let mut container = sample();
    let before = container.bytes.clone();
    assert_eq!(container.patch("TextData", b"content"), Err(Pk2Error::NotAFile));
    assert_eq!(container.patch(".", b"content"), Err(Pk2Error::NotAFile));
    assert_eq!(container.patch("missing", b"content"), Err(Pk2Error::NotFound));
    assert_eq!(container.bytes, before);
}

#[test]
fn a_patch_plan_holds_the_target_and_the_length() {
    let mut target = record(FILE, "f", 100, 3, 640);
    target.offset = 512;
    let patch = Patch::plan(&target, 9).unwrap();
    assert_eq!(patch.record_offset(), 512);
    let patched = patch.entry(70_000);
    assert_eq!((patched.position, patched.size), (70_000, 9));
    assert_eq!((patched.offset, patched.next_chain), (512, 640));
    assert_eq!(patched.name, target.name);
    assert_eq!(patch.record(70_000), patched.into_bytes());
    assert_eq!(Entry::read_at(&patch.record(70_000), 512).unwrap(), patched);
}

#[test]
fn content_too_long_for_the_size_field_cannot_be_written() {
    let target = record(FILE, "f", 100, 3, 0);
    assert!(Patch::plan(&target, u32::MAX as usize).is_ok());
    if usize::BITS > 32 {
        let too_long = (u32::MAX as u64 + 1) as usize;
        assert!(matches!(Patch::plan(&target, too_long), Err(Pk2Error::IoError)));
        assert!(matches!(Patch::plan(&target, usize::MAX), Err(Pk2Error::IoError)));
        // the kind is looked at first
        let directory = record(DIRECTORY, "d", 100, 3, 0);
        assert!(matches!(Patch::plan(&directory, too_long), Err(Pk2Error::NotAFile)));
    }
}

/// ```text
/// /                                  root, record at 256, children from 384
///   server_dep/                      record at 384, children from 1024
///     silkroad/                      record at 1024, children from 2048
///       textdata/                    record at 2048, children from 3072
///         siegefortressreward.txt    record at 3072, content at 8192
/// ```
fn media() -> (Container, Extractor) {
    let mut container = Container { bytes: vec![0; 256] };
    container.place(256, record(DIRECTORY, "", 256, 0, 0));
    container.place(384, record(DIRECTORY, "server_dep", 896, 0, 0));
    container.place(512, record(0, "", 0, 0, 0));
    container.place(1024, record(DIRECTORY, "silkroad", 1920, 0, 0));
    container.place(1152, record(0, "", 0, 0, 0));
    container.place(2048, record(DIRECTORY, "textdata", 2944, 0, 0));
    container.place(2176, record(0, "", 0, 0, 0));
    container.place(3072, record(FILE, "siegefortressreward.txt", 8192, 6, 0));
    container.place(3200, record(0, "", 0, 0, 0));
    container.place_content(8192, b"reward");
    let root = container.read_record(Extractor::root_offset()).unwrap();
    let extractor = Extractor::new("/home/sorcerer/Desktop/Media.pk2", &root).unwrap();
    (container, extractor)
}

#[test]
fn lib_test_extract() {
    let (container, extractor) = media();
    assert_eq!(extractor.pk2_path(), "/home/sorcerer/Desktop/Media.pk2");
    let output = container.extract("server_dep/silkroad/textdata/siegefortressreward.txt");
    assert_eq!(output.unwrap().1, b"reward");
}

#[test]
fn lib_test_list() {
    let (container, _extractor) = media();
    let output = container.list("server_dep/silkroad/");
    assert_eq!(output, Ok(vec!["textdata".to_string()]));
}

#[test]
fn test_patch() {
    let (mut container, _extractor) = media();
    let path = "server_dep/silkroad/textdata/siegefortressreward.txt";
    let index = container.patch(path, &[1, 2, 3, 4, 5, 6, 8, 9]);
    assert_eq!(index, Ok(()));
    assert_eq!(container.extract(path).unwrap().1, vec![1, 2, 3, 4, 5, 6, 8, 9]);
}

#[test]
fn pk2_test_extract() {
    let (container, _extractor) = media();
    let output = container.extract("server_dep/silkroad/textdata/siegefortressreward.txt");
    let (entry, content) = output.unwrap();
    assert_eq!(entry.name(), "siegefortressreward.txt");
    assert_eq!(content.len(), entry.size as usize);
}

#[test]
fn pk2_test_list() {
    let (container, _extractor) = media();
    let children = container.list("server_dep/silkroad/textdata");
    assert_eq!(children, Ok(vec!["siegefortressreward.txt".to_string()]));
}
