//! Where a unit of work goes after each fetch and after verification.
//!
//! A seed URL is fetched over HTTP and its page verified: a page whose
//! elements lead to font URLs goes to aggregation; a page with no such
//! element, or whose elements lead to no font URL, has its URL sent to the
//! render stage. The render stage sends what it renders straight to
//! aggregation: escalation happens at most once per seed URL.

use vstd::prelude::*;

use crate::parsers::html_parser::page_elements;
use crate::parsers::url_parser::FontUrl;
use crate::tasks::{is_escalation, CustomError, Page};

verus! {

/// Where a unit of work goes next.
#[derive(Debug)]
pub enum Dispatch {
    /// To aggregation, with the page.
    Aggregate(Page),
    /// To the render stage, with the page's URL.
    Render(String),
    /// Nowhere: the seed URL failed, for this reason.
    Failed(CustomError),
}

/// Why the search for the font URLs of `page` stops before it begins: the
/// page has no element that leads to fonts.
pub open spec fn search_start_error(page: Page) -> Option<CustomError> {
    if page_elements(page.page_content@).len() == 0 {
        Some(CustomError::NoElementsFound(page.base_url))
    } else {
        None
    }
}

/// The page that the HTTP fetch of `url` gives to verification, or why the
/// seed URL failed.
pub open spec fn http_fetched_route(url: String, fetched: Result<String, CustomError>) -> Result<Page, CustomError> {
    match fetched {
        Ok(content) => Ok(Page { base_url: url, page_content: content }),
        Err(e) => Err(e),
    }
}

/// Where a single seed URL goes after its HTTP fetch, when it is crawled on
/// its own: a fetched page goes on to verification, and a failed fetch sends
/// the URL straight to the render stage.
pub enum FirstFetch {
    Verify(Page),
    Render(String),
}

pub open spec fn first_fetch_route(url: String, fetched: Result<String, CustomError>) -> FirstFetch {
    match fetched {
        Ok(content) => FirstFetch::Verify(Page { base_url: url, page_content: content }),
        Err(_) => FirstFetch::Render(url),
    }
}

/// Where a seed URL crawled on its own goes after its HTTP fetch.
pub fn route_first_fetch(url: String, fetched: Result<String, CustomError>) -> (r: FirstFetch)
    ensures
        r == first_fetch_route(url, fetched),
{
    match fetched {
        Ok(content) => FirstFetch::Verify(Page::new(url, content)),
        Err(_) => FirstFetch::Render(url),
    }
}

/// Where verification sends `page`, given what the search for its font URLs
/// gave.
pub open spec fn verified_route(page: Page, outcome: Result<Vec<FontUrl>, CustomError>) -> Dispatch {
    match outcome {
        Ok(_) => Dispatch::Aggregate(page),
        Err(e) => if is_escalation(e) {
            Dispatch::Render(page.base_url)
        } else {
            Dispatch::Failed(e)
        },
    }
}

/// Where the render stage sends the page it rendered for `url`.
pub open spec fn rendered_route(url: String, rendered: Result<String, CustomError>) -> Dispatch {
    match rendered {
        Ok(content) => Dispatch::Aggregate(Page { base_url: url, page_content: content }),
        Err(e) => Dispatch::Failed(e),
    }
}

/// The page to verify after the HTTP fetch of `url`.
pub fn route_http_fetched(url: String, fetched: Result<String, CustomError>) -> (r: Result<Page, CustomError>)
    ensures
        r == http_fetched_route(url, fetched),
{
    match fetched {
        Ok(content) => Ok(Page::new(url, content)),
        Err(e) => Err(e),
    }
}

/// Where verification sends `page`.
pub fn route_verified(page: Page, outcome: Result<Vec<FontUrl>, CustomError>) -> (r: Dispatch)
    ensures
        r == verified_route(page, outcome),
{
    match outcome {
        Ok(_) => Dispatch::Aggregate(page),
        Err(e) => match e {
            CustomError::NoElementsFound(_) | CustomError::NoFontUrlsFound(_) => Dispatch::Render(page.base_url),
            _ => Dispatch::Failed(e),
        },
    }
}

/// Where the render stage sends what it rendered for `url`.
pub fn route_rendered(url: String, rendered: Result<String, CustomError>) -> (r: Dispatch)
    ensures
        r == rendered_route(url, rendered),
{
    match rendered {
        Ok(content) => Dispatch::Aggregate(Page::new(url, content)),
        Err(e) => Dispatch::Failed(e),
    }
}

/// A page whose fetched content has no element that leads to fonts is never
/// aggregated as fetched: the search on it fails with `NoElementsFound`,
/// verification sends its URL to the render stage, and whatever the render
/// stage renders for that URL goes to aggregation as a page of that URL.
pub proof fn lemma_empty_page_is_escalated(page: Page, rendered: String)
    requires
        page_elements(page.page_content@).len() == 0,
    ensures
        search_start_error(page) == Some(CustomError::NoElementsFound(page.base_url)),
        verified_route(page, Err(CustomError::NoElementsFound(page.base_url))) == Dispatch::Render(page.base_url),
        rendered_route(page.base_url, Ok(rendered)) == Dispatch::Aggregate(
            Page { base_url: page.base_url, page_content: rendered },
        ),
{
}

/// Escalation happens once: the render stage never sends a URL back to
/// itself, whatever the render gave.
pub proof fn lemma_render_is_final(url: String, rendered: Result<String, CustomError>)
    ensures
        !(rendered_route(url, rendered) is Render),
{
}

} // verus!
