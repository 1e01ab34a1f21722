use fonts::crawler::html_parser::{get_elements_from_page as links_of, Element as Link};
use fonts::parsers::html_parser::{elements_from_tags, get_elements_from_page, Element, HtmlTag};

#[test]
fn links_then_inline_styles() {
    let html = r#"<html><head>
<link rel="stylesheet" href="https://x.test/main.css">
<link rel="preload" type="font/woff2" href="/fonts/a.woff2">
<link rel="icon" href="/favicon.ico">
<link rel="stylesheet">
<style>@font-face { src: url(b.woff) }</style>
<script src="app.js"></script>
</head><body><style>.c { color: red }</style></body></html>"#;
    let elements = get_elements_from_page(&html.to_owned());
    assert_eq!(
        elements,
        vec![
            Element::LinkToCss("https://x.test/main.css".to_owned()),
            Element::LinkToFont("/fonts/a.woff2".to_owned()),
            Element::InlineCss("@font-face { src: url(b.woff) }".to_owned()),
            Element::InlineCss(".c { color: red }".to_owned()),
        ]
    );
}

#[test]
fn stylesheet_relation_wins_over_font_type() {
    let html = r#"<html><head><link type="font/woff" rel="stylesheet" href="both.css"></head></html>"#;
    assert_eq!(get_elements_from_page(&html.to_owned()), vec![Element::LinkToCss("both.css".to_owned())]);
}

#[test]
fn page_without_links_or_styles_has_no_elements() {
    let html = "<html><body><p>hello</p><a rel=\"stylesheet\" href=\"x.css\">x</a></body></html>";
    assert_eq!(get_elements_from_page(&html.to_owned()), vec![]);
}

#[test]
fn empty_href_gives_no_link() {
    let html = r#"<html><head><link rel="stylesheet" href=""></head></html>"#;
    assert_eq!(get_elements_from_page(&html.to_owned()), vec![]);
}

#[test]
fn link_only_scan() {
    let html = r#"<html><head>
<link rel="stylesheet" href="a.css">
<link type="text/css" href="b.css">
<link type="font/woff" href="c.woff">
<style>@font-face { src: url(d.woff) }</style>
</head></html>"#;
    assert_eq!(
        links_of(&html.to_owned()),
        vec![Link::CssLink("a.css".to_owned()), Link::CssLink("b.css".to_owned()), Link::FontLink("c.woff".to_owned())]
    );
}

fn tag(name: &str, rel: Option<&str>, kind: Option<&str>, href: Option<&str>) -> HtmlTag {
    HtmlTag {
        name: name.to_owned(),
        rel: rel.map(str::to_owned),
        kind: kind.map(str::to_owned),
        href: href.map(str::to_owned),
    }
}

#[test]
fn elements_from_given_tags() {
    let tags = vec![
        tag("link", Some("stylesheet"), None, Some("a.css")),
        tag("a", Some("stylesheet"), None, Some("not-a-link-element.css")),
        tag("script", None, Some("fontish"), Some("f.woff")),
        tag("link", None, Some("text/font"), Some("no.woff")),
        tag("style", Some("stylesheet"), Some("font/woff"), None),
        tag("link", Some("preload"), Some("font/woff2"), Some("")),
    ];
    let inline = Some(vec!["p{}".to_owned()]);
    assert_eq!(
        elements_from_tags(&tags, &inline),
        vec![
            Element::LinkToCss("a.css".to_owned()),
            Element::LinkToFont("f.woff".to_owned()),
            Element::InlineCss("p{}".to_owned()),
        ]
    );
    assert_eq!(elements_from_tags(&tags, &None).len(), 2);
}
