//! A links-only form of the element scan: it reports no inline style, and takes a
//! `type` that mentions `css` for a style-sheet link too.

use vstd::prelude::*;

use crate::parsers::css_parser::{find, find_from};
use crate::parsers::html_parser::{
    font_word, has_prefix, html_tags, link_name, optional_chars, parse_tags, script_name, style_name,
    stylesheet_word, tag_view, HtmlTag, TagView,
};
use crate::text::{chars_equal, chars_of, starts_with_chars};

verus! {

/// An element of a page that leads to fonts.
#[derive(Debug, PartialEq, Eq, Clone)]
pub enum Element {
    /// A link to a style sheet, with its `href`.
    CssLink(String),
    /// A link to a font file, with its `href`.
    FontLink(String),
    /// The text of a style sheet.
    CssDoc(String),
}

/// An element seen through the characters it holds.
pub enum ElementView {
    CssLink(Seq<char>),
    FontLink(Seq<char>),
    CssDoc(Seq<char>),
}

impl View for Element {
    type V = ElementView;

    open spec fn view(&self) -> ElementView {
        match self {
            Element::CssLink(s) => ElementView::CssLink(s@),
            Element::FontLink(s) => ElementView::FontLink(s@),
            Element::CssDoc(s) => ElementView::CssDoc(s@),
        }
    }
}

pub open spec fn css_word() -> Seq<char> {
    seq!['c', 's', 's']
}

/// The link, if any, that the tag `t` gives: only `script`, `style` and
/// `link` elements with an `href` give one; `rel="stylesheet"` or a `type`
/// that mentions `css` makes it a style-sheet link, and otherwise a `type`
/// that starts with `font` makes it a font link.
pub open spec fn tag_link(t: TagView) -> Option<ElementView> {
    if !(t.0 == script_name() || t.0 == style_name() || t.0 == link_name()) {
        None
    } else {
        match t.3 {
            Some(href) => if t.1 == Some(stylesheet_word()) {
                Some(ElementView::CssLink(href))
            } else if t.2 matches Some(kind) && find_from(kind, css_word(), 0) is Some {
                Some(ElementView::CssLink(href))
            } else if t.2 matches Some(kind) && has_prefix(kind, font_word()) {
                Some(ElementView::FontLink(href))
            } else {
                None
            },
            None => None,
        }
    }
}

/// The links of the document `html`, in the order of its node tree.
pub open spec fn page_links(html: Seq<char>) -> Seq<ElementView> {
    html_tags(html).filter_map(|t: TagView| tag_link(t))
}

fn link_of_tag(tag: &HtmlTag) -> (r: Option<Element>)
    ensures
        match r {
            Some(e) => tag_link(tag_view(*tag)) == Some(e@),
            None => tag_link(tag_view(*tag)) is None,
        },
{
    let name = chars_of(tag.name.as_str());
    let script = vec!['s', 'c', 'r', 'i', 'p', 't'];
    let style = vec!['s', 't', 'y', 'l', 'e'];
    let link = vec!['l', 'i', 'n', 'k'];
    assert(script@ =~= script_name());
    assert(style@ =~= style_name());
    assert(link@ =~= link_name());
    if !(chars_equal(name.as_slice(), script.as_slice()) || chars_equal(name.as_slice(), style.as_slice())
        || chars_equal(name.as_slice(), link.as_slice())) {
        return None;
    }
    let href = match &tag.href {
        Some(h) => h,
        None => return None,
    };
    let stylesheet = vec!['s', 't', 'y', 'l', 'e', 's', 'h', 'e', 'e', 't'];
    let css = vec!['c', 's', 's'];
    let font = vec!['f', 'o', 'n', 't'];
    assert(stylesheet@ =~= stylesheet_word());
    assert(css@ =~= css_word());
    assert(font@ =~= font_word());
    let is_stylesheet = match optional_chars(&tag.rel) {
        Some(rel) => chars_equal(rel.as_slice(), stylesheet.as_slice()),
        None => false,
    };
    if is_stylesheet {
        return Some(Element::CssLink(href.clone()));
    }
    match optional_chars(&tag.kind) {
        Some(kind) => {
            if find(kind.as_slice(), css.as_slice(), 0).is_some() {
                Some(Element::CssLink(href.clone()))
            } else if starts_with_chars(kind.as_slice(), font.as_slice()) {
                Some(Element::FontLink(href.clone()))
            } else {
                None
            }
        },
        None => None,
    }
}

/// The style-sheet and font links of the page `text`, in the order of its
/// node tree.
pub fn get_elements_from_page(text: &String) -> (r: Vec<Element>)
    ensures
        r@.map_values(|e: Element| e@) == page_links(text@),
{
    let tags = parse_tags(text.as_str());
    let ghost tv = tags@.map_values(|t: HtmlTag| tag_view(t));
    let mut links: Vec<Element> = Vec::new();
    let mut i: usize = 0;
    while i < tags.len()
        invariant
            i <= tags@.len(),
            tv == tags@.map_values(|t: HtmlTag| tag_view(t)),
            tv == html_tags(text@),
            links@.map_values(|e: Element| e@) == tv.take(i as int).filter_map(|t: TagView| tag_link(t)),
        decreases tags@.len() - i,
    {
        proof {
            assert(tv.take(i as int + 1).drop_last() =~= tv.take(i as int));
            assert(tv.take(i as int + 1).last() == tag_view(tags@[i as int]));
        }
        let ghost before = links@;
        match link_of_tag(&tags[i]) {
            Some(e) => {
                links.push(e);
                assert(links@.map_values(|e: Element| e@) =~= before.map_values(|e: Element| e@).push(e@));
            },
            None => {},
        }
        i = i + 1;
    }
    assert(tv.take(tags@.len() as int) =~= tv);
    links
}

} // verus!
