//! The units of work that the crawl pipeline passes between its stages, and
//! the decisions that the stages make on them.

pub mod channel_message;
pub mod sender;
pub mod verification;

use vstd::prelude::*;

use crate::font_parser::parser::{font_names_of, FontData};
use crate::font_parser::woff_parser::FontNames;

verus! {

/// Why a seed URL could not be processed.
#[derive(Debug, Clone, PartialEq, Eq)]
pub enum CustomError {
    /// The page, with this URL, holds no element that leads to fonts.
    NoElementsFound(String),
    /// The elements of the page, with this URL, lead to no font URL.
    NoFontUrlsFound(String),
    /// A request failed, with this message.
    ReqwestError(String),
    /// Another failure, with this message.
    GenericError(String),
}

/// Whether `e` asks for the page to be fetched again by rendering it.
pub open spec fn is_escalation(e: CustomError) -> bool {
    e is NoElementsFound || e is NoFontUrlsFound
}

/// A fetched page: the URL it was fetched from, and its HTML.
#[derive(Debug, Clone)]
pub struct Page {
    pub base_url: String,
    pub page_content: String,
}

impl Page {
    pub fn new(base_url: String, page_content: String) -> (r: Page)
        ensures
            r.base_url == base_url,
            r.page_content == page_content,
    {
        Page { base_url, page_content }
    }
}

/// The fonts found for one seed URL.
#[derive(Debug, Clone)]
pub struct SiteData {
    pub url: String,
    pub fonts: Vec<FontData>,
}

/// The names of the fonts among `downloads` that decode: a failed download
/// (`None`) and a blob that does not decode give nothing.
pub open spec fn decoded_fonts(downloads: Seq<Option<Seq<u8>>>) -> Seq<FontNames> {
    downloads.filter_map(
        |d: Option<Seq<u8>>|
            match d {
                Some(b) => match font_names_of(b) {
                    Ok(n) => Some(n),
                    Err(_) => None,
                },
                None => None,
            },
    )
}

/// Skipping on error: a download that failed, or whose bytes do not decode,
/// adds no font to the site data and ends nothing.
pub proof fn lemma_failed_font_is_skipped(
    downloads: Seq<Option<Seq<u8>>>,
    failed: Option<Seq<u8>>,
    more: Seq<Option<Seq<u8>>>,
)
    requires
        match failed {
            Some(b) => font_names_of(b) is Err,
            None => true,
        },
    ensures
        decoded_fonts(downloads.push(failed) + more) == decoded_fonts(downloads + more),
    decreases more.len(),
{
    if more.len() == 0 {
        assert(downloads.push(failed) + more =~= downloads.push(failed));
        assert(downloads + more =~= downloads);
        assert(downloads.push(failed).drop_last() =~= downloads);
    } else {
        lemma_failed_font_is_skipped(downloads, failed, more.drop_last());
        assert((downloads.push(failed) + more).drop_last() =~= downloads.push(failed) + more.drop_last());
        assert((downloads + more).drop_last() =~= downloads + more.drop_last());
        assert((downloads.push(failed) + more).last() == more.last());
        assert((downloads + more).last() == more.last());
    }
}

/// The bytes of a list of downloads, `None` for those that failed.
pub open spec fn downloads_view(v: Seq<Option<Vec<u8>>>) -> Seq<Option<Seq<u8>>> {
    v.map_values(
        |d: Option<Vec<u8>>|
            match d {
                Some(b) => Some(b@),
                None => None,
            },
    )
}

impl SiteData {
    /// The site data of `page` made of its font downloads, in order; each
    /// download that failed or does not decode is skipped.
    pub fn from_font_contents(page: &Page, downloads: &Vec<Option<Vec<u8>>>) -> (r: SiteData)
        ensures
            r.url@ == page.base_url@,
            r.fonts@.map_values(|f: FontData| f@) == decoded_fonts(downloads_view(downloads@)),
    {
        let ghost dv = downloads_view(downloads@);
        let mut fonts: Vec<FontData> = Vec::new();
        let mut i: usize = 0;
        while i < downloads.len()
            invariant
                i <= downloads@.len(),
                dv == downloads_view(downloads@),
                fonts@.map_values(|f: FontData| f@) == decoded_fonts(dv.take(i as int)),
            decreases downloads@.len() - i,
        {
            proof {
                assert(dv.take(i as int + 1).drop_last() =~= dv.take(i as int));
            }
            let ghost before = fonts@;
            match &downloads[i] {
                Some(bytes) => match FontData::from_bytes(bytes) {
                    Ok(f) => {
                        fonts.push(f);
                        assert(fonts@.map_values(|f: FontData| f@) =~= before.map_values(|f: FontData| f@).push(f@));
                    },
                    Err(_) => {},
                },
                None => {},
            }
            i = i + 1;
        }
        assert(dv.take(downloads@.len() as int) =~= dv);
        SiteData { url: page.base_url.clone(), fonts }
    }
}

} // verus!
