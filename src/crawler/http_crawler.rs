//! The search for the font URLs of a page.
//!
//! The search walks the elements of the page in order. A link to a style
//! sheet needs that sheet fetched: the search stops there and hands out the
//! URL to fetch; the caller fetches it and supplies what came back, or
//! nothing where the fetch failed. Links to fonts and inline style sheets are
//! handled without a fetch.

use vstd::prelude::*;

use crate::parsers::css_parser::{css_bytes_urls, css_text_urls, parse_css_doc, parse_css_text};
use crate::parsers::html_parser::{elements_view, get_elements_from_page, page_elements, Element, ElementView};
use crate::parsers::url_parser::{
    classify, font_url_of, font_urls_of, font_urls_view, parse_to_font_urls, parse_to_url, resolved,
    AbsoluteUrl, FontUrl, FontUrlView,
};
use crate::tasks::{CustomError, Page};

verus! {

/// The style sheet, if any, that the element `e` of the page at `base`
/// needs fetched: the resolved URL of a style-sheet link.
pub open spec fn css_target(e: ElementView, base: Seq<char>) -> Option<(Seq<char>, Seq<char>)> {
    match e {
        ElementView::LinkToCss(u) => match resolved(u, base) {
            Ok(a) => Some(a),
            Err(_) => None,
        },
        _ => None,
    }
}

/// The font URLs of a list of CSS URL strings, none where extraction failed.
pub open spec fn extracted_font_urls(urls: Result<Seq<Seq<char>>, crate::parsers::css_parser::ExtractError>, base: Seq<char>) -> Seq<FontUrlView> {
    match urls {
        Ok(u) => font_urls_of(u, base),
        Err(_) => seq![],
    }
}

/// The font URLs that the element `e` of the page at `base` contributes,
/// where `css` is the style sheet fetched for it (`None` where nothing was
/// fetched or the fetch failed).
pub open spec fn element_font_urls(e: ElementView, base: Seq<char>, css: Option<Seq<u8>>) -> Seq<FontUrlView> {
    match e {
        ElementView::LinkToCss(_) => match css {
            Some(b) => extracted_font_urls(css_bytes_urls(b), base),
            None => seq![],
        },
        ElementView::LinkToFont(u) => match font_url_of(u, base) {
            Some(f) => seq![f],
            None => seq![],
        },
        ElementView::InlineCss(t) => extracted_font_urls(css_text_urls(t), base),
    }
}

/// The font URLs that the first `n` elements `es` of the page at `base`
/// contribute, with `fetched[k]` the style sheet fetched for element `k`.
pub open spec fn found_font_urls(es: Seq<ElementView>, base: Seq<char>, fetched: Seq<Option<Seq<u8>>>, n: int) -> Seq<FontUrlView>
    decreases n,
{
    if n <= 0 {
        seq![]
    } else {
        found_font_urls(es, base, fetched, n - 1) + element_font_urls(es[n - 1], base, fetched[n - 1])
    }
}

/// Skipping on error within a page: an inline style sheet whose URLs hold one
/// that does not resolve contributes the font URLs of the others, in order,
/// and still contributes them.
pub proof fn lemma_inline_css_skips_unresolvable(
    text: Seq<char>,
    base: Seq<char>,
    before: Seq<Seq<char>>,
    bad: Seq<char>,
    after: Seq<Seq<char>>,
)
    requires
        css_text_urls(text) == Ok::<_, crate::parsers::css_parser::ExtractError>(before.push(bad) + after),
        resolved(bad, base) is Err,
    ensures
        element_font_urls(ElementView::InlineCss(text), base, None) == font_urls_of(before + after, base),
{
    crate::parsers::url_parser::lemma_unresolvable_is_skipped(before, bad, after, base);
}

/// The bytes of a fetch outcome.
pub open spec fn fetched_view(css: Option<Vec<u8>>) -> Option<Seq<u8>> {
    match css {
        Some(b) => Some(b@),
        None => None,
    }
}

/// The search for the font URLs of one page.
pub struct FontUrlSearch {
    base_url: String,
    elements: Vec<Element>,
    next: usize,
    found: Vec<FontUrl>,
    fetched: Ghost<Seq<Option<Seq<u8>>>>,
    awaiting: bool,
}

proof fn lemma_found_font_urls_prefix(
    es: Seq<ElementView>,
    base: Seq<char>,
    f: Seq<Option<Seq<u8>>>,
    g: Seq<Option<Seq<u8>>>,
    n: int,
)
    requires
        n <= f.len(),
        n <= g.len(),
        forall|k: int| 0 <= k < n ==> f[k] == g[k],
    ensures
        found_font_urls(es, base, f, n) == found_font_urls(es, base, g, n),
    decreases n,
{
    if n > 0 {
        lemma_found_font_urls_prefix(es, base, f, g, n - 1);
    }
}

/// The font URLs that a style sheet's extraction outcome gives on the page at `base`.
fn font_urls_from_css(urls: Result<Vec<String>, crate::parsers::css_parser::ExtractError>, base: &str) -> (r: Vec<FontUrl>)
    ensures
        font_urls_view(r@) == extracted_font_urls(crate::parsers::css_parser::urls_result(urls), base@),
{
    match urls {
        Ok(u) => parse_to_font_urls(u, base),
        Err(_) => {
            let v: Vec<FontUrl> = Vec::new();
            assert(font_urls_view(v@) =~= Seq::<FontUrlView>::empty());
            v
        },
    }
}

impl FontUrlSearch {
    /// The URL of the page.
    pub closed spec fn base(&self) -> Seq<char> {
        self.base_url@
    }

    /// The elements of the page.
    pub closed spec fn elements(&self) -> Seq<ElementView> {
        elements_view(self.elements@)
    }

    /// How many elements have been handled.
    pub closed spec fn position(&self) -> int {
        self.next as int
    }

    /// The style sheet fetched for each handled element; `None` for those
    /// that needed no fetch and those whose fetch failed.
    pub closed spec fn outcomes(&self) -> Seq<Option<Seq<u8>>> {
        self.fetched@
    }

    /// Whether the search has handed out a style sheet to fetch and waits
    /// for what the fetch gave.
    pub closed spec fn awaiting_css(&self) -> bool {
        self.awaiting
    }

    /// The font URLs found so far.
    pub closed spec fn found(&self) -> Seq<FontUrlView> {
        font_urls_view(self.found@)
    }

    pub closed spec fn wf(&self) -> bool {
        &&& self.next <= self.elements@.len()
        &&& self.fetched@.len() == self.next
        &&& forall|k: int| 0 <= k < self.next ==> #[trigger] css_target(self.elements()[k], self.base()) is None
            ==> self.fetched@[k] is None
        &&& self.found() == found_font_urls(self.elements(), self.base(), self.fetched@, self.next as int)
        &&& self.awaiting ==> self.next < self.elements@.len() && css_target(self.elements()[self.next as int], self.base()) is Some
    }

    /// Starts the search on `page`; fails with `NoElementsFound` where the
    /// page has no element that leads to fonts.
    pub fn start(page: &Page) -> (r: Result<FontUrlSearch, CustomError>)
        ensures
            match r {
                Ok(s) => {
                    &&& s.wf()
                    &&& s.base() == page.base_url@
                    &&& s.elements() == page_elements(page.page_content@)
                    &&& s.elements().len() > 0
                    &&& s.position() == 0
                    &&& !s.awaiting_css()
                },
                Err(e) => page_elements(page.page_content@).len() == 0 && e == CustomError::NoElementsFound(
                    page.base_url,
                ) && crate::tasks::verification::search_start_error(*page) == Some(e),
            },
    {
        let elements = get_elements_from_page(&page.page_content);
        if elements.len() == 0 {
            return Err(CustomError::NoElementsFound(page.base_url.clone()));
        }
        let s = FontUrlSearch {
            base_url: page.base_url.clone(),
            elements,
            next: 0,
            found: Vec::new(),
            fetched: Ghost(Seq::empty()),
            awaiting: false,
        };
        assert(font_urls_view(s.found@) =~= Seq::<FontUrlView>::empty());
        Ok(s)
    }

    /// Whether every element has been handled.
    pub fn is_done(&self) -> (r: bool)
        requires
            self.wf(),
        ensures
            r == (self.position() == self.elements().len()),
    {
        self.next == self.elements.len()
    }

    fn advance(&mut self, outcome: Ghost<Option<Seq<u8>>>, urls: Vec<FontUrl>)
        requires
            old(self).wf(),
            old(self).next < old(self).elements@.len(),
            font_urls_view(urls@) == element_font_urls(old(self).elements()[old(self).next as int], old(self).base(), outcome@),
            css_target(old(self).elements()[old(self).next as int], old(self).base()) is None ==> outcome@ is None,
        ensures
            final(self).wf(),
            final(self).base() == old(self).base(),
            final(self).elements() == old(self).elements(),
            final(self).position() == old(self).position() + 1,
            final(self).outcomes() == old(self).outcomes().push(outcome@),
            final(self).elements == old(self).elements,
            !final(self).awaiting_css(),
    {
        self.awaiting = false;
        let n_elements = self.elements.len();
        let ghost old_fetched = self.fetched@;
        let ghost n = self.next as int;
        self.push_found(urls);
        self.fetched = Ghost(self.fetched@.push(outcome@));
        self.next = self.next + 1;
        proof {
            lemma_found_font_urls_prefix(self.elements(), self.base(), old_fetched, self.fetched@, n);
            assert(self.fetched@[n] == outcome@);
        }
    }

    /// Handles the elements that need no fetch, up to the next one that
    /// does; returns the URL of the style sheet to fetch for it, or `None`
    /// once every element has been handled.
    pub fn next_fetch(&mut self) -> (r: Option<AbsoluteUrl>)
        requires
            old(self).wf(),
        ensures
            final(self).wf(),
            final(self).base() == old(self).base(),
            final(self).elements() == old(self).elements(),
            old(self).position() <= final(self).position(),
            final(self).outcomes().take(old(self).position()) == old(self).outcomes(),
            forall|k: int| old(self).position() <= k < final(self).position() ==> final(self).outcomes()[k] is None,
            match r {
                Some(u) => final(self).position() < final(self).elements().len() && css_target(
                    final(self).elements()[final(self).position()],
                    final(self).base(),
                ) == Some(u@) && final(self).awaiting_css(),
                None => final(self).position() == final(self).elements().len() && !final(self).awaiting_css(),
            },
    {
        let ghost start_pos = self.next as int;
        let ghost start_outcomes = self.fetched@;
        while self.next < self.elements.len()
            invariant
                self.wf(),
                self.base() == old(self).base(),
                self.elements() == old(self).elements(),
                start_pos == old(self).position(),
                start_outcomes == old(self).outcomes(),
                start_pos <= self.next,
                self.fetched@.take(start_pos) == start_outcomes,
                forall|k: int| start_pos <= k < self.next ==> self.fetched@[k] is None,
            decreases self.elements@.len() - self.next,
        {
            let ghost e = self.elements()[self.next as int];
            let urls: Vec<FontUrl> = match &self.elements[self.next] {
                Element::LinkToCss(u) => match parse_to_url(u.as_str(), self.base_url.as_str()) {
                    Ok(url) => {
                        self.awaiting = true;
                        return Some(url);
                    },
                    Err(_) => Vec::new(),
                },
                Element::LinkToFont(u) => match parse_to_url(u.as_str(), self.base_url.as_str()) {
                    Ok(url) => match classify(url) {
                        Some(f) => vec![f],
                        None => Vec::new(),
                    },
                    Err(_) => Vec::new(),
                },
                Element::InlineCss(t) => font_urls_from_css(parse_css_text(t.as_str()), self.base_url.as_str()),
            };
            assert(font_urls_view(urls@) =~= element_font_urls(e, self.base(), None));
            let ghost before = self.fetched@;
            self.advance(Ghost(None), urls);
            assert(self.fetched@.take(start_pos) =~= before.take(start_pos));
        }
        None
    }

    /// Handles the element whose style sheet was asked for, with what the
    /// fetch gave: its bytes, or `None` where it failed. Where no style sheet
    /// was asked for, nothing changes.
    pub fn supply_css(&mut self, css: Option<Vec<u8>>)
        requires
            old(self).wf(),
        ensures
            final(self).wf(),
            final(self).base() == old(self).base(),
            final(self).elements() == old(self).elements(),
            !final(self).awaiting_css(),
            old(self).awaiting_css() ==> final(self).position() == old(self).position() + 1
                && final(self).outcomes() == old(self).outcomes().push(fetched_view(css)),
            !old(self).awaiting_css() ==> final(self).position() == old(self).position()
                && final(self).outcomes() == old(self).outcomes(),
    {
        if !self.awaiting {
            return;
        }
        let ghost outcome = fetched_view(css);
        let ghost e = self.elements()[self.next as int];
        let urls: Vec<FontUrl> = match css {
            Some(bytes) => font_urls_from_css(parse_css_doc(bytes), self.base_url.as_str()),
            None => Vec::new(),
        };
        assert(e is LinkToCss);
        assert(font_urls_view(urls@) =~= element_font_urls(e, self.base(), outcome));
        self.advance(Ghost(outcome), urls);
    }

    /// Ends the search: the font URLs found, or `NoFontUrlsFound` where there
    /// are none.
    pub fn finish(self) -> (r: Result<Vec<FontUrl>, CustomError>)
        requires
            self.wf(),
            self.position() == self.elements().len(),
        ensures
            match r {
                Ok(v) => {
                    &&& font_urls_view(v@) == found_font_urls(self.elements(), self.base(), self.outcomes(), self.elements().len() as int)
                    &&& v@.len() > 0
                },
                Err(e) => {
                    &&& found_font_urls(self.elements(), self.base(), self.outcomes(), self.elements().len() as int).len() == 0
                    &&& e matches CustomError::NoFontUrlsFound(u) && u@ == self.base()
                },
            },
    {
        if self.found.len() == 0 {
            Err(CustomError::NoFontUrlsFound(self.base_url))
        } else {
            Ok(self.found)
        }
    }

    fn push_found(&mut self, urls: Vec<FontUrl>)
        ensures
            final(self).base_url == old(self).base_url,
            final(self).elements == old(self).elements,
            final(self).next == old(self).next,
            final(self).fetched == old(self).fetched,
            final(self).awaiting == old(self).awaiting,
            font_urls_view(final(self).found@) == font_urls_view(old(self).found@) + font_urls_view(urls@),
    {
        let mut urls = urls;
        let ghost added = urls@;
        self.found.append(&mut urls);
        assert(font_urls_view(self.found@) =~= font_urls_view(old(self).found@) + font_urls_view(added));
    }
}

} // verus!
