use std::io::Write;

use flate2::write::ZlibEncoder;
use flate2::Compression;
use fonts::font_parser::parser::FontData;
use fonts::font_parser::woff_parser::{parse_woff, FontParseError};

fn name_table(records: &[(u16, &str)]) -> Vec<u8> {
    let count = records.len() as u16;
    let storage = 6 + 12 * count;
    let mut table = vec![0, 0];
    table.extend_from_slice(&count.to_be_bytes());
    table.extend_from_slice(&storage.to_be_bytes());
    let mut strings: Vec<u8> = Vec::new();
    for (id, text) in records {
        table.extend_from_slice(&[0, 3, 0, 1, 0x04, 0x09]);
        table.extend_from_slice(&id.to_be_bytes());
        table.extend_from_slice(&(text.len() as u16).to_be_bytes());
        table.extend_from_slice(&(strings.len() as u16).to_be_bytes());
        strings.extend_from_slice(text.as_bytes());
    }
    table.extend_from_slice(&strings);
    table
}

fn woff(signature: &[u8; 4], stored: &[u8], orig_length: u32) -> Vec<u8> {
    let offset: u32 = 64;
    let mut bytes = Vec::new();
    bytes.extend_from_slice(signature);
    bytes.extend_from_slice(&[0, 1, 0, 0]);
    bytes.extend_from_slice(&(offset + stored.len() as u32).to_be_bytes());
    bytes.extend_from_slice(&1u16.to_be_bytes());
    bytes.extend_from_slice(&[0; 30]);
    assert_eq!(bytes.len(), 44);
    bytes.extend_from_slice(b"name");
    bytes.extend_from_slice(&offset.to_be_bytes());
    bytes.extend_from_slice(&(stored.len() as u32).to_be_bytes());
    bytes.extend_from_slice(&orig_length.to_be_bytes());
    bytes.extend_from_slice(&[0; 4]);
    bytes.extend_from_slice(stored);
    bytes
}

fn plain_woff(records: &[(u16, &str)]) -> Vec<u8> {
    let table = name_table(records);
    woff(b"wOFF", &table, table.len() as u32)
}

const FOUR: [(u16, &str); 4] = [(1, "Test Family"), (2, "Regular"), (3, "id-1"), (4, "Test Family Regular")];

#[test]
fn woff_decode_gives_the_four_names() {
    let font = FontData::from_bytes(&plain_woff(&FOUR)).unwrap();
    assert_eq!(
        font,
        FontData {
            family_name: "Test Family".to_owned(),
            sub_family_name: "Regular".to_owned(),
            identifier: "id-1".to_owned(),
            full_name: "Test Family Regular".to_owned(),
        }
    );
}

#[test]
fn woff_missing_full_name_record() {
    let bytes = plain_woff(&FOUR[..3]);
    assert_eq!(FontData::from_bytes(&bytes), Err(FontParseError::MissingNameRecord(4)));
    assert_eq!(parse_woff(&bytes), Err(FontParseError::MissingNameRecord(4)));
}

#[test]
fn woff_compressed_name_table() {
    let table = name_table(&FOUR);
    let mut encoder = ZlibEncoder::new(Vec::new(), Compression::default());
    encoder.write_all(&table).unwrap();
    let compressed = encoder.finish().unwrap();
    assert_ne!(compressed.len(), table.len());
    let font = parse_woff(&woff(b"wOFF", &compressed, table.len() as u32)).unwrap();
    assert_eq!(font.family_name, "Test Family");
    assert_eq!(font.full_name, "Test Family Regular");
}

#[test]
fn woff_corrupt_compressed_table_is_decompression_error() {
    let table = name_table(&FOUR);
    let garbage = vec![0x12u8; 40];
    let bytes = woff(b"wOFF", &garbage, table.len() as u32);
    assert_eq!(parse_woff(&bytes), Err(FontParseError::Decompression));
}

#[test]
fn woff2_signature_is_unsupported() {
    let table = name_table(&FOUR);
    let bytes = woff(b"wOF2", &table, table.len() as u32);
    assert_eq!(FontData::from_bytes(&bytes), Err(FontParseError::UnsupportedFormat));
    assert_eq!(FontData::from_bytes(&vec![0x77, 0x4f]), Err(FontParseError::UnsupportedFormat));
}

#[test]
fn woff_without_name_table() {
    let mut bytes = plain_woff(&FOUR);
    bytes[44..48].copy_from_slice(b"head");
    assert_eq!(parse_woff(&bytes), Err(FontParseError::NameTableMissing));
}

#[test]
fn woff_truncated() {
    let bytes = plain_woff(&FOUR);
    assert_eq!(parse_woff(&bytes[..10]), Err(FontParseError::Truncated));
    assert_eq!(parse_woff(&bytes[..50]), Err(FontParseError::Truncated));
    assert_eq!(parse_woff(&bytes[..80]), Err(FontParseError::Truncated));
}

#[test]
fn woff_name_strings_lose_their_nul_bytes() {
    let bytes = plain_woff(&[(1, "\0F\0a\0m"), (2, "R"), (3, "i"), (4, "\0F\0u\0l\0l")]);
    let font = parse_woff(&bytes).unwrap();
    assert_eq!(font.family_name, "Fam");
    assert_eq!(font.full_name, "Full");
}

#[test]
fn woff_name_string_not_utf8() {
    let mut bytes = plain_woff(&[(1, "ok"), (2, "xx"), (3, "i"), (4, "f")]);
    let n = bytes.len();
    // the subfamily string "xx" sits just before "i" and "f" at the end
    bytes[n - 4] = 0xff;
    assert_eq!(parse_woff(&bytes), Err(FontParseError::InvalidUtf8(2)));
}

#[test]
fn woff_truncated_compressed_table_is_decompression_error() {
    let table = name_table(&FOUR);
    let mut encoder = ZlibEncoder::new(Vec::new(), Compression::default());
    encoder.write_all(&table).unwrap();
    let compressed = encoder.finish().unwrap();
    let cut = &compressed[..compressed.len() / 2];
    assert_eq!(parse_woff(&woff(b"wOFF", cut, table.len() as u32)), Err(FontParseError::Decompression));
}
