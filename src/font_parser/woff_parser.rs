//! The WOFF container: header, table directory and the OpenType `name` table.
//!
//! All integers are big-endian. The header holds the table count at bytes
//! 12..14; the table directory starts at byte 44 with one 20-byte entry per
//! table (tag, offset, compressed length, uncompressed length, checksum). The
//! `name` table holds its record count at 2..4 and the offset of its string
//! storage at 4..6, then 12-byte records from byte 6 (platform, encoding,
//! language, name ID, length, offset).

use std::io::Read;

use flate2::read::ZlibDecoder;
use vstd::prelude::*;
use vstd::slice::slice_to_vec;
use vstd::utf8::{decode_utf8, valid_utf8};

use super::parser::FontData;
use crate::text::{chars_of, decode_utf8_bytes, string_of};

verus! {

/// Family, subfamily, unique identifier and full name, as characters.
pub type FontNames = (Seq<char>, Seq<char>, Seq<char>, Seq<char>);

/// Why a font blob could not be decoded.
#[derive(Debug, Clone, Copy, PartialEq, Eq, Structural)]
pub enum FontParseError {
    /// The blob does not carry the WOFF signature.
    UnsupportedFormat,
    /// The table directory has no entry tagged `name`.
    NameTableMissing,
    /// The compressed `name` table could not be inflated to its stated length.
    Decompression,
    /// The `name` table has no record with this name ID.
    MissingNameRecord(u16),
    /// The string of the record with this name ID is not UTF-8.
    InvalidUtf8(u16),
    /// A structure reaches past the end of the bytes that hold it.
    Truncated,
}

const HEADER_LEN: usize = 14;
const TABLE_DIRECTORY_START: usize = 44;
const TABLE_ENTRY_LEN: usize = 20;
const NAME_HEADER_LEN: usize = 6;
const NAME_RECORD_LEN: usize = 12;

/// The big-endian unsigned 16-bit integer stored at `b[i..i + 2]`.
pub open spec fn be16(b: Seq<u8>, i: int) -> int {
    b[i] as int * 256 + b[i + 1] as int
}

/// The big-endian unsigned 32-bit integer stored at `b[i..i + 4]`.
pub open spec fn be32(b: Seq<u8>, i: int) -> int {
    ((b[i] as int * 256 + b[i + 1] as int) * 256 + b[i + 2] as int) * 256 + b[i + 3] as int
}

fn read_u16(b: &[u8], i: usize) -> (r: u16)
    requires
        i + 2 <= b@.len(),
    ensures
        r as int == be16(b@, i as int),
{
    (b[i] as u16) * 256 + (b[i + 1] as u16)
}

fn read_u32(b: &[u8], i: usize) -> (r: u32)
    requires
        i + 4 <= b@.len(),
    ensures
        r as int == be32(b@, i as int),
{
    let hi = (b[i] as u32) * 256 + (b[i + 1] as u32);
    let mid = hi * 256 + (b[i + 2] as u32);
    mid * 256 + (b[i + 3] as u32)
}

/// Whether the four bytes at `b[s..s + 4]` spell the tag `name`.
pub open spec fn tag_is_name(b: Seq<u8>, s: int) -> bool {
    b[s] == 0x6e && b[s + 1] == 0x61 && b[s + 2] == 0x6d && b[s + 3] == 0x65
}

/// Where the directory entry of the `name` table starts, scanning entries
/// `i..n` of the table directory of `b`.
pub open spec fn name_entry_from(b: Seq<u8>, i: int, n: int) -> Result<int, FontParseError>
    decreases n - i,
{
    if i >= n {
        Err(FontParseError::NameTableMissing)
    } else if 44 + 20 * i + 4 > b.len() {
        Err(FontParseError::Truncated)
    } else if tag_is_name(b, 44 + 20 * i) {
        if 44 + 20 * i + 16 > b.len() {
            Err(FontParseError::Truncated)
        } else {
            Ok(44 + 20 * i)
        }
    } else {
        name_entry_from(b, i + 1, n)
    }
}

/// Where a table's data lies in the container, and how long it is once inflated.
pub struct TableDirectoryEntry {
    pub offset: u32,
    pub comp_length: u32,
    pub orig_length: u32,
}

/// The directory entry that starts at `b[s]`.
pub open spec fn entry_at(b: Seq<u8>, s: int) -> TableDirectoryEntry {
    TableDirectoryEntry {
        offset: be32(b, s + 4) as u32,
        comp_length: be32(b, s + 8) as u32,
        orig_length: be32(b, s + 12) as u32,
    }
}

/// What inflating the zlib stream `data` yields when at most `limit` bytes
/// are read out of it; `None` where the stream is corrupt.
pub uninterp spec fn zlib_inflated(data: Seq<u8>, limit: u64) -> Option<Seq<u8>>;

/// Relies on `flate2::read::ZlibDecoder`, read through `Read::take(limit)` to
/// its end: the inflated bytes, at most `limit` of them, or `None` where the
/// decoder reports an error.
#[verifier::external_body]
fn inflate(data: &[u8], limit: u64) -> (r: Option<Vec<u8>>)
    ensures
        match r {
            Some(v) => zlib_inflated(data@, limit) == Some(v@) && v@.len() <= limit,
            None => zlib_inflated(data@, limit) is None,
        },
{
    let mut out = Vec::new();
    match ZlibDecoder::new(data).take(limit).read_to_end(&mut out) {
        Ok(_) => Some(out),
        Err(_) => None,
    }
}

/// The bytes of the table that entry `e` describes: inflated where its two
/// lengths differ, which must give the uncompressed length, and copied as
/// they stand where they agree.
pub open spec fn table_bytes(b: Seq<u8>, e: TableDirectoryEntry) -> Result<Seq<u8>, FontParseError> {
    let start = e.offset as int;
    let end = e.offset as int + e.comp_length as int;
    if end > b.len() {
        Err(FontParseError::Truncated)
    } else if e.comp_length != e.orig_length {
        match zlib_inflated(b.subrange(start, end), e.orig_length as u64) {
            Some(d) => if d.len() == e.orig_length {
                Ok(d)
            } else {
                Err(FontParseError::Decompression)
            },
            None => Err(FontParseError::Decompression),
        }
    } else {
        Ok(b.subrange(start, end))
    }
}

/// One record of a `name` table.
#[derive(Debug, Clone, Copy)]
pub struct NameRecord {
    pub name_id: u16,
    pub length: u16,
    pub offset: u16,
}

/// The `k`-th record of the `name` table `d`.
pub open spec fn record_at(d: Seq<u8>, k: int) -> NameRecord {
    NameRecord {
        name_id: be16(d, 12 + 12 * k) as u16,
        length: be16(d, 14 + 12 * k) as u16,
        offset: be16(d, 16 + 12 * k) as u16,
    }
}

/// The first `count` records of the `name` table `d`.
pub open spec fn records_of(d: Seq<u8>, count: int) -> Seq<NameRecord> {
    Seq::new(count as nat, |k: int| record_at(d, k))
}

/// A decoded `name` table: the offset of its string storage, its records,
/// and its bytes.
pub struct NameTable {
    pub offset: usize,
    pub records: Vec<NameRecord>,
    pub data: Vec<u8>,
}

/// The `name` table that entry `e` of container `b` describes.
pub open spec fn name_table_of(b: Seq<u8>, e: TableDirectoryEntry) -> Result<(int, Seq<NameRecord>, Seq<u8>), FontParseError> {
    match table_bytes(b, e) {
        Err(err) => Err(err),
        Ok(d) => if d.len() < 6 || 6 + 12 * be16(d, 2) > d.len() {
            Err(FontParseError::Truncated)
        } else {
            Ok((be16(d, 4), records_of(d, be16(d, 2)), d))
        },
    }
}

/// `s` without its NUL characters.
pub open spec fn without_nul(s: Seq<char>) -> Seq<char> {
    s.filter(|c: char| c != '\0')
}

/// The first of `recs[k..]` whose name ID is `id`.
pub open spec fn first_record_from(recs: Seq<NameRecord>, id: u16, k: int) -> Option<int>
    decreases recs.len() - k,
{
    if k >= recs.len() {
        None
    } else if recs[k].name_id == id {
        Some(k)
    } else {
        first_record_from(recs, id, k + 1)
    }
}

/// The string that the first record with name ID `id` points to, in the
/// storage at `storage` of the table bytes `data`: decoded as UTF-8, with its
/// NUL characters removed.
pub open spec fn name_string(data: Seq<u8>, recs: Seq<NameRecord>, storage: int, id: u16) -> Result<Seq<char>, FontParseError> {
    match first_record_from(recs, id, 0) {
        None => Err(FontParseError::MissingNameRecord(id)),
        Some(k) => {
            let start = storage + recs[k].offset as int;
            let end = start + recs[k].length as int;
            if end > data.len() {
                Err(FontParseError::Truncated)
            } else if !valid_utf8(data.subrange(start, end)) {
                Err(FontParseError::InvalidUtf8(id))
            } else {
                Ok(without_nul(decode_utf8(data.subrange(start, end))))
            }
        },
    }
}

/// The four names that a `name` table holds under IDs 1 to 4, or the first
/// failure in that order.
pub open spec fn table_font_names(data: Seq<u8>, recs: Seq<NameRecord>, storage: int) -> Result<FontNames, FontParseError> {
    match name_string(data, recs, storage, 1) {
        Err(e) => Err(e),
        Ok(family) => match name_string(data, recs, storage, 2) {
            Err(e) => Err(e),
            Ok(sub_family) => match name_string(data, recs, storage, 3) {
                Err(e) => Err(e),
                Ok(identifier) => match name_string(data, recs, storage, 4) {
                    Err(e) => Err(e),
                    Ok(full_name) => Ok((family, sub_family, identifier, full_name)),
                },
            },
        },
    }
}

/// The names that the WOFF container `b` holds in its `name` table.
pub open spec fn woff_font_names(b: Seq<u8>) -> Result<FontNames, FontParseError> {
    if b.len() < 14 {
        Err(FontParseError::Truncated)
    } else {
        match name_entry_from(b, 0, be16(b, 12)) {
            Err(e) => Err(e),
            Ok(s) => match name_table_of(b, entry_at(b, s)) {
                Err(e) => Err(e),
                Ok(t) => table_font_names(t.2, t.1, t.0),
            },
        }
    }
}

proof fn lemma_name_entry_in_bounds(b: Seq<u8>, i: int, n: int)
    requires
        i >= 0,
    ensures
        name_entry_from(b, i, n) matches Ok(s) ==> s >= 44 && s + 16 <= b.len(),
    decreases n - i,
{
    if i < n && 44 + 20 * i + 4 <= b.len() && !tag_is_name(b, 44 + 20 * i) {
        lemma_name_entry_in_bounds(b, i + 1, n);
    }
}

proof fn lemma_no_record_with_id(recs: Seq<NameRecord>, id: u16, k: int)
    requires
        0 <= k,
        forall|j: int| 0 <= j < recs.len() ==> (#[trigger] recs[j]).name_id != id,
    ensures
        first_record_from(recs, id, k) is None,
    decreases recs.len() - k,
{
    if k < recs.len() {
        lemma_no_record_with_id(recs, id, k + 1);
    }
}

/// The `name` table that a WOFF container `b` holds, where its header, its
/// directory and the table itself can be read.
pub open spec fn readable_name_table(b: Seq<u8>) -> Option<(int, Seq<NameRecord>, Seq<u8>)> {
    if b.len() < 14 {
        None
    } else {
        match name_entry_from(b, 0, be16(b, 12)) {
            Ok(s) => match name_table_of(b, entry_at(b, s)) {
                Ok(t) => Some(t),
                Err(_) => None,
            },
            Err(_) => None,
        }
    }
}

/// Decoding a readable container gives exactly the four strings that its
/// records for name IDs 1 to 4 point to.
pub proof fn lemma_four_names_decoded(b: Seq<u8>, family: Seq<char>, sub_family: Seq<char>, identifier: Seq<char>, full_name: Seq<char>)
    requires
        readable_name_table(b) matches Some(t) && name_string(t.2, t.1, t.0, 1) == Ok::<_, FontParseError>(family)
            && name_string(t.2, t.1, t.0, 2) == Ok::<_, FontParseError>(sub_family)
            && name_string(t.2, t.1, t.0, 3) == Ok::<_, FontParseError>(identifier)
            && name_string(t.2, t.1, t.0, 4) == Ok::<_, FontParseError>(full_name),
    ensures
        woff_font_names(b) == Ok::<FontNames, FontParseError>((family, sub_family, identifier, full_name)),
{
}

/// A readable container whose name table has no record for the full name
/// (ID 4) fails with `MissingNameRecord(4)`, with no partial names, once
/// IDs 1 to 3 decode.
pub proof fn lemma_missing_full_name(b: Seq<u8>)
    requires
        readable_name_table(b) matches Some(t) && name_string(t.2, t.1, t.0, 1) is Ok && name_string(t.2, t.1, t.0, 2) is Ok
            && name_string(t.2, t.1, t.0, 3) is Ok && forall|j: int| 0 <= j < t.1.len() ==> (#[trigger] t.1[j]).name_id != 4,
    ensures
        woff_font_names(b) == Err::<FontNames, FontParseError>(FontParseError::MissingNameRecord(4)),
{
    let t = readable_name_table(b)->Some_0;
    lemma_no_record_with_id(t.1, 4, 0);
}

fn find_name_entry(content: &[u8], num_tables: u16) -> (r: Result<usize, FontParseError>)
    ensures
        match r {
            Ok(s) => name_entry_from(content@, 0, num_tables as int) == Ok::<int, FontParseError>(s as int),
            Err(e) => name_entry_from(content@, 0, num_tables as int) == Err::<int, FontParseError>(e),
        },
{
    let n = num_tables as usize;
    let mut i: usize = 0;
    while i < n
        invariant
            i <= n,
            n == num_tables as usize,
            name_entry_from(content@, 0, n as int) == name_entry_from(content@, i as int, n as int),
        decreases n - i,
    {
        let start = TABLE_DIRECTORY_START + TABLE_ENTRY_LEN * i;
        if start + 4 > content.len() {
            return Err(FontParseError::Truncated);
        }
        if content[start] == 0x6e && content[start + 1] == 0x61 && content[start + 2] == 0x6d
            && content[start + 3] == 0x65 {
            if start + 16 > content.len() {
                return Err(FontParseError::Truncated);
            }
            return Ok(start);
        }
        i = i + 1;
    }
    Err(FontParseError::NameTableMissing)
}

/// Decodes the names of the font in the WOFF container `content`.
pub fn parse_woff(content: &[u8]) -> (r: Result<FontData, FontParseError>)
    ensures
        super::parser::font_result(r) == woff_font_names(content@),
{
    if content.len() < HEADER_LEN {
        return Err(FontParseError::Truncated);
    }
    let num_tables = read_u16(content, 12);
    let start = match find_name_entry(content, num_tables) {
        Ok(s) => s,
        Err(e) => return Err(e),
    };
    proof {
        lemma_name_entry_in_bounds(content@, 0, num_tables as int);
    }
    let entry = TableDirectoryEntry {
        offset: read_u32(content, start + 4),
        comp_length: read_u32(content, start + 8),
        orig_length: read_u32(content, start + 12),
    };
    let name_table = match convert_to_name_table(content, &entry) {
        Ok(t) => t,
        Err(e) => return Err(e),
    };
    get_font_data(&name_table)
}

fn convert_to_name_table(data: &[u8], entry: &TableDirectoryEntry) -> (r: Result<NameTable, FontParseError>)
    ensures
        match r {
            Ok(t) => name_table_of(data@, *entry) == Ok::<_, FontParseError>((t.offset as int, t.records@, t.data@)),
            Err(e) => name_table_of(data@, *entry) == Err::<(int, Seq<NameRecord>, Seq<u8>), _>(e),
        },
{
    let offset = entry.offset as usize;
    let comp_length = entry.comp_length as usize;
    if offset > data.len() || comp_length > data.len() - offset {
        return Err(FontParseError::Truncated);
    }
    let raw = &data[offset..offset + comp_length];
    let name_data: Vec<u8> = if entry.comp_length != entry.orig_length {
        match inflate(raw, entry.orig_length as u64) {
            Some(d) => {
                if d.len() != entry.orig_length as usize {
                    return Err(FontParseError::Decompression);
                }
                d
            },
            None => return Err(FontParseError::Decompression),
        }
    } else {
        slice_to_vec(raw)
    };
    if name_data.len() < NAME_HEADER_LEN {
        return Err(FontParseError::Truncated);
    }
    let count = read_u16(name_data.as_slice(), 2);
    let storage = read_u16(name_data.as_slice(), 4) as usize;
    let records = match get_name_records(name_data.as_slice(), count) {
        Ok(v) => v,
        Err(e) => return Err(e),
    };
    Ok(NameTable { offset: storage, records, data: name_data })
}

fn get_name_records(data: &[u8], count: u16) -> (r: Result<Vec<NameRecord>, FontParseError>)
    requires
        data@.len() >= 6,
    ensures
        match r {
            Ok(v) => 6 + 12 * count <= data@.len() && v@ == records_of(data@, count as int),
            Err(e) => 6 + 12 * count > data@.len() && e == FontParseError::Truncated,
        },
{
    let n = count as usize;
    if NAME_RECORD_LEN * n > data.len() - NAME_HEADER_LEN {
        return Err(FontParseError::Truncated);
    }
    let mut records: Vec<NameRecord> = Vec::new();
    let mut i: usize = 0;
    while i < n
        invariant
            i <= n,
            n == count as usize,
            6 + 12 * n <= data@.len(),
            records@ == records_of(data@, i as int),
        decreases n - i,
    {
        let index = NAME_RECORD_LEN * i;
        let name_id = read_u16(data, 12 + index);
        let length = read_u16(data, 14 + index);
        let offset = read_u16(data, 16 + index);
        records.push(NameRecord { name_id, length, offset });
        i = i + 1;
        assert(records@ =~= records_of(data@, i as int));
    }
    Ok(records)
}

fn get_font_data(table: &NameTable) -> (r: Result<FontData, FontParseError>)
    ensures
        super::parser::font_result(r) == table_font_names(table.data@, table.records@, table.offset as int),
{
    let data = table.data.as_slice();
    let records = table.records.as_slice();
    let offset = table.offset;
    let family_name = match get_name_id_from_record(data, records, offset, 1) {
        Ok(s) => s,
        Err(e) => return Err(e),
    };
    let sub_family_name = match get_name_id_from_record(data, records, offset, 2) {
        Ok(s) => s,
        Err(e) => return Err(e),
    };
    let identifier = match get_name_id_from_record(data, records, offset, 3) {
        Ok(s) => s,
        Err(e) => return Err(e),
    };
    let full_name = match get_name_id_from_record(data, records, offset, 4) {
        Ok(s) => s,
        Err(e) => return Err(e),
    };
    Ok(FontData { family_name, sub_family_name, identifier, full_name })
}

fn first_record(records: &[NameRecord], find_id: u16) -> (r: Option<usize>)
    ensures
        match r {
            Some(k) => k < records@.len() && first_record_from(records@, find_id, 0) == Some(k as int),
            None => first_record_from(records@, find_id, 0) is None,
        },
{
    let mut k: usize = 0;
    while k < records.len()
        invariant
            k <= records@.len(),
            first_record_from(records@, find_id, 0) == first_record_from(records@, find_id, k as int),
        decreases records@.len() - k,
    {
        if records[k].name_id == find_id {
            return Some(k);
        }
        k = k + 1;
    }
    None
}

fn get_name_id_from_record(data: &[u8], records: &[NameRecord], table_offset: usize, find_id: u16) -> (r: Result<String, FontParseError>)
    ensures
        match r {
            Ok(s) => name_string(data@, records@, table_offset as int, find_id) == Ok::<_, FontParseError>(s@),
            Err(e) => name_string(data@, records@, table_offset as int, find_id) == Err::<Seq<char>, _>(e),
        },
{
    let k = match first_record(records, find_id) {
        Some(k) => k,
        None => return Err(FontParseError::MissingNameRecord(find_id)),
    };
    let record = records[k];
    let off = record.offset as usize;
    let len = record.length as usize;
    if table_offset > data.len() || off + len > data.len() - table_offset {
        return Err(FontParseError::Truncated);
    }
    let start = table_offset + off;
    let bytes = slice_to_vec(&data[start..start + len]);
    match decode_utf8_bytes(bytes) {
        None => Err(FontParseError::InvalidUtf8(find_id)),
        Some(s) => Ok(strip_nul(s.as_str())),
    }
}

/// The string `s` without its NUL characters.
fn strip_nul(s: &str) -> (r: String)
    ensures
        r@ == without_nul(s@),
{
    let cs = chars_of(s);
    let mut out: Vec<char> = Vec::new();
    let mut i: usize = 0;
    while i < cs.len()
        invariant
            i <= cs@.len(),
            cs@ == s@,
            out@ == without_nul(cs@.take(i as int)),
        decreases cs@.len() - i,
    {
        let c = cs[i];
        proof {
            reveal(Seq::filter);
            assert(cs@.take(i as int + 1).drop_last() =~= cs@.take(i as int));
        }
        if c != '\0' {
            out.push(c);
        }
        i = i + 1;
    }
    proof {
        assert(cs@.take(cs@.len() as int) =~= cs@);
    }
    string_of(out.as_slice())
}

} // verus!
