//! Font metadata and the dispatch on a font container's signature.

use vstd::prelude::*;

use super::woff_parser::{parse_woff, woff_font_names, FontNames, FontParseError};

verus! {

/// The human-readable names that a font's `name` table holds.
#[derive(Debug, PartialEq, Eq, Clone)]
pub struct FontData {
    pub family_name: String,
    pub sub_family_name: String,
    pub identifier: String,
    pub full_name: String,
}

impl View for FontData {
    type V = FontNames;

    open spec fn view(&self) -> FontNames {
        (self.family_name@, self.sub_family_name@, self.identifier@, self.full_name@)
    }
}

/// A decoding outcome, with the names seen through their character sequences.
pub open spec fn font_result(r: Result<FontData, FontParseError>) -> Result<FontNames, FontParseError> {
    match r {
        Ok(f) => Ok(f@),
        Err(e) => Err(e),
    }
}

/// The container formats told apart by their first four bytes.
#[derive(Debug, Clone, Copy, PartialEq, Eq, Structural)]
enum FontSignature {
    Woff,
    Woff2,
}

/// Whether `b` starts with the four bytes `s0 s1 s2 s3`.
pub open spec fn starts_with4(b: Seq<u8>, s0: u8, s1: u8, s2: u8, s3: u8) -> bool {
    b.len() >= 4 && b[0] == s0 && b[1] == s1 && b[2] == s2 && b[3] == s3
}

/// Whether `b` starts with the WOFF signature `wOFF`.
pub open spec fn has_woff_signature(b: Seq<u8>) -> bool {
    starts_with4(b, 0x77, 0x4f, 0x46, 0x46)
}

fn signature_of(content: &[u8]) -> (r: Option<FontSignature>)
    ensures
        r == Some(FontSignature::Woff) <==> has_woff_signature(content@),
        r == Some(FontSignature::Woff2) <==> starts_with4(content@, 0x77, 0x4f, 0x46, 0x32),
{
    if content.len() < 4 || content[0] != 0x77 || content[1] != 0x4f || content[2] != 0x46 {
        None
    } else if content[3] == 0x46 {
        Some(FontSignature::Woff)
    } else if content[3] == 0x32 {
        Some(FontSignature::Woff2)
    } else {
        None
    }
}

/// What decoding `b` as a font container yields: the WOFF decoding where `b`
/// carries the WOFF signature, and `UnsupportedFormat` for any other signature.
pub open spec fn font_names_of(b: Seq<u8>) -> Result<FontNames, FontParseError> {
    if has_woff_signature(b) {
        woff_font_names(b)
    } else {
        Err(FontParseError::UnsupportedFormat)
    }
}

impl FontData {
    /// Decodes the names of the font in `content`, after checking its signature.
    pub fn from_bytes(content: &Vec<u8>) -> (r: Result<FontData, FontParseError>)
        ensures
            font_result(r) == font_names_of(content@),
    {
        match signature_of(content.as_slice()) {
            Some(FontSignature::Woff) => parse_woff(content.as_slice()),
            Some(FontSignature::Woff2) => Err(FontParseError::UnsupportedFormat),
            None => Err(FontParseError::UnsupportedFormat),
        }
    }
}

} // verus!
