//! The record that describes one node of the archive, and the codec between
//! it and its 128 bytes.
//!
//! Layout, all numbers little-endian:
//!
//! | bytes      | field         |
//! |------------|---------------|
//! | 0          | `entry_type`  |
//! | 1..82      | `name`        |
//! | 82..90     | `access_date` |
//! | 90..98     | `create_date` |
//! | 98..106    | `modify_date` |
//! | 106..114   | `position`    |
//! | 114..118   | `size`        |
//! | 118..126   | `next_chain`  |
//! | 126..128   | `padding`     |

use crate::endian::{
    le_bytes, le_value, lemma_le_bytes_len, lemma_le_bytes_of_value, lemma_le_value_bound,
    lemma_le_value_of_bytes, lemma_radix_values,
};
use crate::error::Pk2Error;
use crate::helpers::{DIRECTORY, FILE};
use crate::scan::{lead, lemma_lead_holds, lemma_lead_is};
use crate::text::string_from_utf8;
use crate::wire::{
    copy_to_array, get_u16_le, get_u32_le, get_u64_le, get_u8, put_slice, put_u16_le, put_u32_le,
    put_u64_le, put_u8,
};
use vstd::prelude::*;
use vstd::string::StringExecFns;
use vstd::utf8::{
    decode_utf8, encode_utf8, encode_utf8_decode_utf8, encode_utf8_valid_utf8, is_ascii_chars,
    is_ascii_chars_encode_utf8, valid_utf8,
};

verus! {

/// One node of the archive: a directory or a file.
#[derive(Clone, Copy, Debug, PartialEq, Eq)]
pub struct Entry {
    /// Where in the container this record was read from. Not part of the
    /// record's bytes.
    pub offset: u64,
    /// `DIRECTORY`, `FILE`, or anything else for a slot that holds no entry.
    pub entry_type: u8,
    /// The name, padded with zero bytes.
    pub name: [u8; 81],
    /// Three timestamps that the engine carries and never reads.
    pub access_date: u64,
    pub create_date: u64,
    pub modify_date: u64,
    /// For a directory, where its chain of children starts; for a file, where
    /// its content starts.
    pub position: u64,
    /// For a file, the length of its content.
    pub size: u32,
    /// Where the next record of the same directory lies, or 0 where it is the
    /// slot that follows this one.
    pub next_chain: u64,
    /// The two bytes that fill the record up to its size.
    pub padding: u16,
}

/// An entry as a mathematical value: the fields of `Entry`, the name as a
/// sequence of bytes.
pub struct EntryView {
    pub offset: u64,
    pub entry_type: u8,
    pub name: Seq<u8>,
    pub access_date: u64,
    pub create_date: u64,
    pub modify_date: u64,
    pub position: u64,
    pub size: u32,
    pub next_chain: u64,
    pub padding: u16,
}

impl View for Entry {
    type V = EntryView;

    open spec fn view(&self) -> EntryView {
        EntryView {
            offset: self.offset,
            entry_type: self.entry_type,
            name: self.name@,
            access_date: self.access_date,
            create_date: self.create_date,
            modify_date: self.modify_date,
            position: self.position,
            size: self.size,
            next_chain: self.next_chain,
            padding: self.padding,
        }
    }
}

impl EntryView {
    /// The entry is a directory or a file, not a blank slot.
    pub open spec fn is_live(self) -> bool {
        self.entry_type == DIRECTORY || self.entry_type == FILE
    }

    /// The same entry, read from `offset`.
    pub open spec fn at(self, offset: u64) -> EntryView {
        EntryView { offset, ..self }
    }

    /// The same entry, pointing at `size` bytes of content at `position`.
    pub open spec fn repointed(self, position: u64, size: u32) -> EntryView {
        EntryView { position, size, ..self }
    }
}

/// The mathematical values of a list of entries, in order.
pub open spec fn views(entries: Seq<Entry>) -> Seq<EntryView> {
    entries.map_values(|entry: Entry| entry@)
}

/// The entry that the 128 bytes of a record describe. Its `offset` is 0: the
/// record does not say where it lies.
pub open spec fn decode_record(bytes: Seq<u8>) -> EntryView
    recommends
        bytes.len() == 128,
{
    EntryView {
        offset: 0,
        entry_type: bytes[0],
        name: bytes.subrange(1, 82),
        access_date: le_value(bytes.subrange(82, 90)) as u64,
        create_date: le_value(bytes.subrange(90, 98)) as u64,
        modify_date: le_value(bytes.subrange(98, 106)) as u64,
        position: le_value(bytes.subrange(106, 114)) as u64,
        size: le_value(bytes.subrange(114, 118)) as u32,
        next_chain: le_value(bytes.subrange(118, 126)) as u64,
        padding: le_value(bytes.subrange(126, 128)) as u16,
    }
}

/// The bytes of the record that describes `entry`. The `offset` is left out.
pub open spec fn encode_record(entry: EntryView) -> Seq<u8>
    recommends
        entry.name.len() == 81,
{
    seq![entry.entry_type] + entry.name + le_bytes(entry.access_date as nat, 8) + le_bytes(
        entry.create_date as nat,
        8,
    ) + le_bytes(entry.modify_date as nat, 8) + le_bytes(entry.position as nat, 8) + le_bytes(
        entry.size as nat,
        4,
    ) + le_bytes(entry.next_chain as nat, 8) + le_bytes(entry.padding as nat, 2)
}

/// How many bytes of `raw` come before its first zero byte; all of them where
/// it has none.
pub open spec fn nul_index(raw: Seq<u8>) -> nat {
    lead(raw, |byte: u8| byte == 0)
}

/// The text shown for a name that is not valid UTF-8.
pub open spec fn unreadable_name() -> Seq<char> {
    "Couldn't"@
}

/// The text of a name buffer: its bytes up to the first zero byte, read as
/// UTF-8; the placeholder where they are not valid UTF-8.
pub open spec fn name_text(raw: Seq<u8>) -> Seq<char> {
    let used = raw.take(nul_index(raw) as int);
    if valid_utf8(used) {
        decode_utf8(used)
    } else {
        unreadable_name()
    }
}

impl Entry {
    /// Decodes one record. The entry's `offset` is 0.
    ///
    /// Fails with `InvalidRecord` exactly when `buffer` is not 128 bytes long.
    pub fn from_bytes(buffer: &[u8]) -> (decoded: Result<Entry, Pk2Error>)
        ensures
            decoded is Ok <==> buffer@.len() == 128,
            decoded matches Ok(entry) ==> entry@ == decode_record(buffer@),
            decoded matches Err(error) ==> error == Pk2Error::InvalidRecord,
    {
        if buffer.len() != 128 {
            return Err(Pk2Error::InvalidRecord);
        }
        let ghost all = buffer@;
        let mut cursor: &[u8] = buffer;
        let entry_type: u8 = get_u8(&mut cursor);
        assert(cursor@ =~= all.skip(1));
        let name: [u8; 81] = copy_to_array::<81>(&mut cursor);
        assert(name@ =~= all.subrange(1, 82));
        assert(cursor@ =~= all.skip(82));
        let access_date: u64 = get_u64_le(&mut cursor);
        assert(all.skip(82).take(8) =~= all.subrange(82, 90));
        assert(cursor@ =~= all.skip(90));
        let create_date: u64 = get_u64_le(&mut cursor);
        assert(all.skip(90).take(8) =~= all.subrange(90, 98));
        assert(cursor@ =~= all.skip(98));
        let modify_date: u64 = get_u64_le(&mut cursor);
        assert(all.skip(98).take(8) =~= all.subrange(98, 106));
        assert(cursor@ =~= all.skip(106));
        let position: u64 = get_u64_le(&mut cursor);
        assert(all.skip(106).take(8) =~= all.subrange(106, 114));
        assert(cursor@ =~= all.skip(114));
        let size: u32 = get_u32_le(&mut cursor);
        assert(all.skip(114).take(4) =~= all.subrange(114, 118));
        assert(cursor@ =~= all.skip(118));
        let next_chain: u64 = get_u64_le(&mut cursor);
        assert(all.skip(118).take(8) =~= all.subrange(118, 126));
        assert(cursor@ =~= all.skip(126));
        let padding: u16 = get_u16_le(&mut cursor);
        assert(all.skip(126).take(2) =~= all.subrange(126, 128));
        Ok(
            Entry {
                offset: 0,
                entry_type,
                name,
                access_date,
                create_date,
                modify_date,
                position,
                size,
                next_chain,
                padding,
            },
        )
    }

    /// Decodes the record that was read from `offset`, and notes in the entry
    /// where it lies.
    ///
    /// Fails with `InvalidRecord` exactly when `buffer` is not 128 bytes long.
    pub fn read_at(buffer: &[u8], offset: u64) -> (decoded: Result<Entry, Pk2Error>)
        ensures
            decoded is Ok <==> buffer@.len() == 128,
            decoded matches Ok(entry) ==> entry@ == decode_record(buffer@).at(offset),
            decoded matches Err(error) ==> error == Pk2Error::InvalidRecord,
    {
        match Entry::from_bytes(buffer) {
            Ok(mut entry) => {
                entry.offset = offset;
                Ok(entry)
            },
            Err(error) => Err(error),
        }
    }

    /// Encodes the entry as the 128 bytes of its record.
    pub fn into_bytes(&self) -> (buffer: Vec<u8>)
        ensures
            buffer@ == encode_record(self@),
            buffer@.len() == 128,
    {
        let mut buffer: Vec<u8> = Vec::with_capacity(128);
        put_u8(&mut buffer, self.entry_type);
        assert(buffer@ =~= seq![self.entry_type]);
        put_slice(&mut buffer, &self.name);
        put_u64_le(&mut buffer, self.access_date);
        put_u64_le(&mut buffer, self.create_date);
        put_u64_le(&mut buffer, self.modify_date);
        put_u64_le(&mut buffer, self.position);
        put_u32_le(&mut buffer, self.size);
        put_u64_le(&mut buffer, self.next_chain);
        put_u16_le(&mut buffer, self.padding);
        proof {
            lemma_encode_record_len(self@);
        }
        buffer
    }

    /// The entry's name as text: the bytes of the name buffer up to the first
    /// zero byte, read as UTF-8. A name that is not valid UTF-8 gives the
    /// placeholder `Couldn't`.
    pub fn name(&self) -> (text: String)
        ensures
            text@ == name_text(self@.name),
    {
        let mut used: Vec<u8> = Vec::new();
        let mut i: usize = 0;
        while i < 81 && self.name[i] != 0
            invariant
                0 <= i <= 81,
                used@ == self.name@.take(i as int),
                forall|j: int| 0 <= j < i ==> self.name@[j] != 0,
            decreases 81 - i,
        {
            used.push(self.name[i]);
            assert(used@ =~= self.name@.take(i + 1));
            i += 1;
        }
        proof {
            lemma_lead_is(self.name@, |byte: u8| byte == 0, i as int);
        }
        match string_from_utf8(used) {
            Some(text) => text,
            None => String::from_str("Couldn't"),
        }
    }

    /// Whether the entry is a directory.
    pub fn is_directory(&self) -> (yes: bool)
        ensures
            yes == (self@.entry_type == DIRECTORY),
    {
        self.entry_type == DIRECTORY
    }

    /// Whether the entry is a file.
    pub fn is_file(&self) -> (yes: bool)
        ensures
            yes == (self@.entry_type == FILE),
    {
        self.entry_type == FILE
    }
}

/// A name buffer that starts with a zero byte, or holds nothing, is the empty
/// name.
pub proof fn lemma_blank_name(raw: Seq<u8>)
    requires
        raw.len() == 0 || raw[0] == 0,
    ensures
        name_text(raw) == Seq::<char>::empty(),
{
    assert(raw.take(0) =~= Seq::<u8>::empty());
    assert(valid_utf8(Seq::<u8>::empty()));
    assert(decode_utf8(Seq::<u8>::empty()) =~= Seq::<char>::empty());
}

/// A name of ASCII bytes is the text of the same characters: each byte up to
/// the first zero byte stands for itself.
pub proof fn lemma_ascii_name(raw: Seq<u8>)
    requires
        forall|i: int| 0 <= i < nul_index(raw) ==> raw[i] < 128,
    ensures
        name_text(raw) == raw.take(nul_index(raw) as int).map_values(|byte: u8| byte as char),
{
    lemma_lead_holds(raw, |byte: u8| byte == 0);
    let used = raw.take(nul_index(raw) as int);
    let text = used.map_values(|byte: u8| byte as char);
    assert(is_ascii_chars(text));
    is_ascii_chars_encode_utf8(text);
    assert(encode_utf8(text) =~= used);
    encode_utf8_valid_utf8(text);
    encode_utf8_decode_utf8(text);
}

/// A record is 128 bytes long.
pub proof fn lemma_encode_record_len(entry: EntryView)
    requires
        entry.name.len() == 81,
    ensures
        encode_record(entry).len() == 128,
{
    lemma_le_bytes_len(entry.access_date as nat, 8);
    lemma_le_bytes_len(entry.create_date as nat, 8);
    lemma_le_bytes_len(entry.modify_date as nat, 8);
    lemma_le_bytes_len(entry.position as nat, 8);
    lemma_le_bytes_len(entry.size as nat, 4);
    lemma_le_bytes_len(entry.next_chain as nat, 8);
    lemma_le_bytes_len(entry.padding as nat, 2);
}

/// Decoding a record and encoding the entry again gives the record back,
/// byte for byte.
pub proof fn lemma_decode_then_encode(bytes: Seq<u8>)
    requires
        bytes.len() == 128,
    ensures
        encode_record(decode_record(bytes)) == bytes,
{
    lemma_radix_values();
    lemma_field_survives(bytes.subrange(82, 90));
    lemma_field_survives(bytes.subrange(90, 98));
    lemma_field_survives(bytes.subrange(98, 106));
    lemma_field_survives(bytes.subrange(106, 114));
    lemma_field_survives(bytes.subrange(114, 118));
    lemma_field_survives(bytes.subrange(118, 126));
    lemma_field_survives(bytes.subrange(126, 128));
    assert(encode_record(decode_record(bytes)) =~= bytes);
}

/// Encoding an entry and decoding the record again gives the entry back in
/// every field but `offset`, which the record does not hold.
pub proof fn lemma_encode_then_decode(entry: EntryView)
    requires
        entry.name.len() == 81,
    ensures
        decode_record(encode_record(entry)) == entry.at(0),
{
    lemma_radix_values();
    let bytes = encode_record(entry);
    lemma_encode_record_len(entry);
    lemma_le_bytes_len(entry.access_date as nat, 8);
    lemma_le_bytes_len(entry.create_date as nat, 8);
    lemma_le_bytes_len(entry.modify_date as nat, 8);
    lemma_le_bytes_len(entry.position as nat, 8);
    lemma_le_bytes_len(entry.size as nat, 4);
    lemma_le_bytes_len(entry.next_chain as nat, 8);
    lemma_le_bytes_len(entry.padding as nat, 2);
    lemma_le_value_of_bytes(entry.access_date as nat, 8);
    lemma_le_value_of_bytes(entry.create_date as nat, 8);
    lemma_le_value_of_bytes(entry.modify_date as nat, 8);
    lemma_le_value_of_bytes(entry.position as nat, 8);
    lemma_le_value_of_bytes(entry.size as nat, 4);
    lemma_le_value_of_bytes(entry.next_chain as nat, 8);
    lemma_le_value_of_bytes(entry.padding as nat, 2);
    assert(bytes.subrange(1, 82) =~= entry.name);
    assert(bytes.subrange(82, 90) =~= le_bytes(entry.access_date as nat, 8));
    assert(bytes.subrange(90, 98) =~= le_bytes(entry.create_date as nat, 8));
    assert(bytes.subrange(98, 106) =~= le_bytes(entry.modify_date as nat, 8));
    assert(bytes.subrange(106, 114) =~= le_bytes(entry.position as nat, 8));
    assert(bytes.subrange(114, 118) =~= le_bytes(entry.size as nat, 4));
    assert(bytes.subrange(118, 126) =~= le_bytes(entry.next_chain as nat, 8));
    assert(bytes.subrange(126, 128) =~= le_bytes(entry.padding as nat, 2));
}

/// The bytes of one field, read as a number and written out again at the
/// same width, are unchanged.
proof fn lemma_field_survives(field: Seq<u8>)
    requires
        field.len() == 2 || field.len() == 4 || field.len() == 8,
    ensures
        field.len() == 2 ==> le_bytes(le_value(field) as u16 as nat, 2) == field,
        field.len() == 4 ==> le_bytes(le_value(field) as u32 as nat, 4) == field,
        field.len() == 8 ==> le_bytes(le_value(field) as u64 as nat, 8) == field,
{
    lemma_radix_values();
    lemma_le_value_bound(field);
    lemma_le_bytes_of_value(field);
}

} // verus!
