//! The elements of an HTML document that lead to fonts: links to style
//! sheets, links to font files, and inline style sheets.

use scraper::{Html, Selector};
use vstd::prelude::*;

use crate::parsers::css_parser::strings_view;
use crate::text::{chars_equal, chars_of, starts_with_chars, string_of};

verus! {

/// An element of a page that leads to fonts.
#[derive(Debug, PartialEq, Eq, Clone)]
pub enum Element {
    /// A link to a style sheet, with its `href`.
    LinkToCss(String),
    /// A link to a font file, with its `href`.
    LinkToFont(String),
    /// The text of a `<style>` element.
    InlineCss(String),
}

/// An element seen through the characters it holds.
pub enum ElementView {
    LinkToCss(Seq<char>),
    LinkToFont(Seq<char>),
    InlineCss(Seq<char>),
}

impl View for Element {
    type V = ElementView;

    open spec fn view(&self) -> ElementView {
        match self {
            Element::LinkToCss(s) => ElementView::LinkToCss(s@),
            Element::LinkToFont(s) => ElementView::LinkToFont(s@),
            Element::InlineCss(s) => ElementView::InlineCss(s@),
        }
    }
}

/// The views of a list of elements.
pub open spec fn elements_view(v: Seq<Element>) -> Seq<ElementView> {
    v.map_values(|e: Element| e@)
}

/// An element node of a parsed document: its local name and its `rel`,
/// `type` and `href` attributes.
pub struct HtmlTag {
    pub name: String,
    pub rel: Option<String>,
    pub kind: Option<String>,
    pub href: Option<String>,
}

/// A tag seen through its characters.
pub type TagView = (Seq<char>, Option<Seq<char>>, Option<Seq<char>>, Option<Seq<char>>);

pub open spec fn optional_view(s: Option<String>) -> Option<Seq<char>> {
    match s {
        Some(v) => Some(v@),
        None => None,
    }
}

pub open spec fn tag_view(t: HtmlTag) -> TagView {
    (t.name@, optional_view(t.rel), optional_view(t.kind), optional_view(t.href))
}

/// The element nodes of the document that `html` parses to, in the order of
/// its node tree.
pub uninterp spec fn html_tags(html: Seq<char>) -> Seq<TagView>;

/// The inner HTML of each element of the document that `html` parses to
/// that `selector` matches, in document order; `None` where the selector
/// does not parse.
pub uninterp spec fn selected_inner_html(html: Seq<char>, selector: Seq<char>) -> Option<Seq<Seq<char>>>;

/// Relies on `scraper::Html::parse_document`: its element nodes in the order
/// of `Tree::nodes`, each read through `Element::name` and `Element::attr`.
#[verifier::external_body]
pub(crate) fn parse_tags(html: &str) -> (r: Vec<HtmlTag>)
    ensures
        r@.map_values(|t: HtmlTag| tag_view(t)) == html_tags(html@),
{
    let document = Html::parse_document(html);
    let mut tags = Vec::new();
    for node in document.tree.nodes() {
        if let Some(e) = node.value().as_element() {
            let attr = |name: &str| e.attr(name).map(str::to_owned);
            tags.push(HtmlTag { name: e.name().to_owned(), rel: attr("rel"), kind: attr("type"), href: attr("href") });
        }
    }
    tags
}

/// Relies on `scraper::Html::select` with the selector that
/// `scraper::Selector::parse` makes of `selector`, each match read through
/// `ElementRef::inner_html`. With scraper's `deterministic` feature an
/// element keeps its attributes in source order, so the serialisation
/// depends on the text alone.
#[verifier::external_body]
fn select_inner_html(html: &str, selector: &str) -> (r: Option<Vec<String>>)
    ensures
        match r {
            Some(v) => selected_inner_html(html@, selector@) == Some(strings_view(v@)),
            None => selected_inner_html(html@, selector@) is None,
        },
{
    let selector = Selector::parse(selector).ok()?;
    let document = Html::parse_document(html);
    let mut inner = Vec::new();
    for e in document.select(&selector) {
        inner.push(e.inner_html());
    }
    Some(inner)
}

pub open spec fn script_name() -> Seq<char> {
    seq!['s', 'c', 'r', 'i', 'p', 't']
}

pub open spec fn style_name() -> Seq<char> {
    seq!['s', 't', 'y', 'l', 'e']
}

pub open spec fn link_name() -> Seq<char> {
    seq!['l', 'i', 'n', 'k']
}

pub open spec fn stylesheet_word() -> Seq<char> {
    seq!['s', 't', 'y', 'l', 'e', 's', 'h', 'e', 'e', 't']
}

pub open spec fn font_word() -> Seq<char> {
    seq!['f', 'o', 'n', 't']
}

/// Whether `s` starts with `prefix`.
pub open spec fn has_prefix(s: Seq<char>, prefix: Seq<char>) -> bool {
    prefix.len() <= s.len() && s.subrange(0, prefix.len() as int) == prefix
}

/// The link element, if any, that the tag `t` gives: only `script`, `style`
/// and `link` elements with a non-empty `href` give one; `rel="stylesheet"`
/// makes it a style-sheet link, and otherwise a `type` that starts with
/// `font` makes it a font link.
pub open spec fn tag_element(t: TagView) -> Option<ElementView> {
    if !(t.0 == script_name() || t.0 == style_name() || t.0 == link_name()) {
        None
    } else {
        match t.3 {
            Some(href) => if href.len() == 0 {
                None
            } else if t.1 == Some(stylesheet_word()) {
                Some(ElementView::LinkToCss(href))
            } else if t.2 matches Some(kind) && has_prefix(kind, font_word()) {
                Some(ElementView::LinkToFont(href))
            } else {
                None
            },
            None => None,
        }
    }
}

/// The inline style sheets of the document `html`: the text of each
/// `<style>` element, in document order.
pub open spec fn inline_css_of(html: Seq<char>) -> Seq<ElementView> {
    inline_css_elements(selected_inner_html(html, style_name()))
}

/// The elements of the document `html` that lead to fonts: its links first,
/// then its inline style sheets.
pub open spec fn page_elements(html: Seq<char>) -> Seq<ElementView> {
    html_tags(html).filter_map(|t: TagView| tag_element(t)) + inline_css_of(html)
}

pub(crate) fn optional_chars(s: &Option<String>) -> (r: Option<Vec<char>>)
    ensures
        match r {
            Some(v) => optional_view(*s) == Some(v@),
            None => s is None,
        },
{
    match s {
        Some(v) => Some(chars_of(v.as_str())),
        None => None,
    }
}

fn element_of_tag(tag: &HtmlTag) -> (r: Option<Element>)
    ensures
        match r {
            Some(e) => tag_element(tag_view(*tag)) == Some(e@),
            None => tag_element(tag_view(*tag)) is None,
        },
{
    let name = chars_of(tag.name.as_str());
    let script = vec!['s', 'c', 'r', 'i', 'p', 't'];
    let style = vec!['s', 't', 'y', 'l', 'e'];
    let link = vec!['l', 'i', 'n', 'k'];
    assert(script@ =~= script_name());
    assert(style@ =~= style_name());
    assert(link@ =~= link_name());
    if !(chars_equal(name.as_slice(), script.as_slice()) || chars_equal(name.as_slice(), style.as_slice())
        || chars_equal(name.as_slice(), link.as_slice())) {
        return None;
    }
    let href = match &tag.href {
        Some(h) => h,
        None => return None,
    };
    if chars_of(href.as_str()).len() == 0 {
        return None;
    }
    let stylesheet = vec!['s', 't', 'y', 'l', 'e', 's', 'h', 'e', 'e', 't'];
    let font = vec!['f', 'o', 'n', 't'];
    assert(stylesheet@ =~= stylesheet_word());
    assert(font@ =~= font_word());
    let is_stylesheet = match optional_chars(&tag.rel) {
        Some(rel) => chars_equal(rel.as_slice(), stylesheet.as_slice()),
        None => false,
    };
    if is_stylesheet {
        return Some(Element::LinkToCss(href.clone()));
    }
    let is_font = match optional_chars(&tag.kind) {
        Some(kind) => starts_with_chars(kind.as_slice(), font.as_slice()),
        None => false,
    };
    if is_font {
        Some(Element::LinkToFont(href.clone()))
    } else {
        None
    }
}

/// The inline style sheets that the texts `inline`, if any, give.
pub open spec fn inline_css_elements(inline: Option<Seq<Seq<char>>>) -> Seq<ElementView> {
    match inline {
        Some(v) => v.map_values(|s: Seq<char>| ElementView::InlineCss(s)),
        None => seq![],
    }
}

/// The inner HTML of each `<style>` element, if the selection could be made.
pub open spec fn optional_strings_view(v: Option<Vec<String>>) -> Option<Seq<Seq<char>>> {
    match v {
        Some(v) => Some(strings_view(v@)),
        None => None,
    }
}

/// The elements that lead to fonts, given the element nodes `tags` of a
/// document and the texts `inline_css` of its `<style>` elements: the links
/// that the tags give, in order, then one inline style sheet per text.
pub fn elements_from_tags(tags: &Vec<HtmlTag>, inline_css: &Option<Vec<String>>) -> (r: Vec<Element>)
    ensures
        elements_view(r@) == tags@.map_values(|t: HtmlTag| tag_view(t)).filter_map(|t: TagView| tag_element(t))
            + inline_css_elements(optional_strings_view(*inline_css)),
{
    let ghost tv = tags@.map_values(|t: HtmlTag| tag_view(t));
    let mut elements: Vec<Element> = Vec::new();
    let mut i: usize = 0;
    while i < tags.len()
        invariant
            i <= tags@.len(),
            tv == tags@.map_values(|t: HtmlTag| tag_view(t)),
            elements_view(elements@) == tv.take(i as int).filter_map(|t: TagView| tag_element(t)),
        decreases tags@.len() - i,
    {
        proof {
            assert(tv.take(i as int + 1).drop_last() =~= tv.take(i as int));
            assert(tv.take(i as int + 1).last() == tag_view(tags@[i as int]));
        }
        let ghost before = elements@;
        match element_of_tag(&tags[i]) {
            Some(e) => {
                elements.push(e);
                assert(elements_view(elements@) =~= elements_view(before).push(e@));
            },
            None => {},
        }
        i = i + 1;
    }
    assert(tv.take(tags@.len() as int) =~= tv);
    let ghost links = elements@;
    match inline_css {
        Some(inline) => {
            let mut k: usize = 0;
            while k < inline.len()
                invariant
                    k <= inline@.len(),
                    elements_view(links) == tv.filter_map(|t: TagView| tag_element(t)),
                    elements_view(elements@) == elements_view(links) + strings_view(inline@).take(k as int).map_values(
                        |s: Seq<char>| ElementView::InlineCss(s),
                    ),
                decreases inline@.len() - k,
            {
                let ghost before = elements@;
                let css = inline[k].clone();
                assert(strings_view(inline@)[k as int] == css@);
                elements.push(Element::InlineCss(css));
                assert(elements_view(elements@) =~= elements_view(before).push(ElementView::InlineCss(css@)));
                assert(strings_view(inline@).take(k as int + 1) =~= strings_view(inline@).take(k as int).push(css@));
                assert(elements_view(elements@) =~= elements_view(links) + strings_view(inline@).take(k as int + 1).map_values(
                    |s: Seq<char>| ElementView::InlineCss(s),
                ));
                k = k + 1;
            }
            assert(strings_view(inline@).take(inline@.len() as int) =~= strings_view(inline@));
        },
        None => {
            assert(elements_view(elements@) =~= elements_view(links) + inline_css_elements(None));
        },
    }
    elements
}

/// The elements of the page `text` that lead to fonts: its style-sheet and
/// font links, in the order of its node tree, then the text of each of its
/// `<style>` elements.
pub fn get_elements_from_page(text: &String) -> (r: Vec<Element>)
    ensures
        elements_view(r@) == page_elements(text@),
{
    let tags = parse_tags(text.as_str());
    let style = vec!['s', 't', 'y', 'l', 'e'];
    let selector = string_of(style.as_slice());
    assert(selector@ =~= style_name());
    let inline_css = select_inner_html(text.as_str(), selector.as_str());
    let r = elements_from_tags(&tags, &inline_css);
    assert(inline_css_elements(optional_strings_view(inline_css)) == inline_css_of(text@));
    r
}

} // verus!
