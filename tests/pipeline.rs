use fonts::crawler::http_crawler::FontUrlSearch;
use fonts::parsers::url_parser::FontUrl;
use fonts::tasks::channel_message::ChannelMessage;
use fonts::tasks::sender;
use fonts::tasks::verification::{route_http_fetched, route_rendered, route_verified, Dispatch};
use fonts::tasks::{CustomError, Page, SiteData};

fn woff_with_names(names: [&str; 4]) -> Vec<u8> {
    let count: u16 = 4;
    let mut table = vec![0, 0];
    table.extend_from_slice(&count.to_be_bytes());
    table.extend_from_slice(&(6 + 12 * count).to_be_bytes());
    let mut strings = Vec::new();
    for (i, text) in names.iter().enumerate() {
        table.extend_from_slice(&[0, 1, 0, 0, 0, 0]);
        table.extend_from_slice(&(i as u16 + 1).to_be_bytes());
        table.extend_from_slice(&(text.len() as u16).to_be_bytes());
        table.extend_from_slice(&(strings.len() as u16).to_be_bytes());
        strings.extend_from_slice(text.as_bytes());
    }
    table.extend_from_slice(&strings);
    let mut bytes = b"wOFF".to_vec();
    bytes.extend_from_slice(&[0; 8]);
    bytes.extend_from_slice(&1u16.to_be_bytes());
    bytes.extend_from_slice(&[0; 30]);
    bytes.extend_from_slice(b"name");
    bytes.extend_from_slice(&64u32.to_be_bytes());
    bytes.extend_from_slice(&(table.len() as u32).to_be_bytes());
    bytes.extend_from_slice(&(table.len() as u32).to_be_bytes());
    bytes.extend_from_slice(&[0; 4]);
    bytes.extend_from_slice(&table);
    bytes
}

fn run_search(page: &Page, sheets: &[(&str, Option<&str>)]) -> Result<Vec<FontUrl>, CustomError> {
    let mut search = FontUrlSearch::start(page)?;
    while let Some(url) = search.next_fetch() {
        let css = sheets.iter().find(|(u, _)| *u == url.as_str()).and_then(|(_, c)| c.map(|c| c.as_bytes().to_vec()));
        search.supply_css(css);
    }
    search.finish()
}

#[test]
fn empty_page_is_escalated_to_render_and_aggregated_once() {
    let page = Page::new("https://x.test/".to_owned(), "<html><body>js app</body></html>".to_owned());
    let outcome = run_search(&page, &[]);
    assert_eq!(outcome, Err(CustomError::NoElementsFound("https://x.test/".to_owned())));
    let routed = route_verified(page, outcome);
    let url = match routed {
        Dispatch::Render(url) => url,
        other => panic!("not escalated: {:?}", other),
    };
    assert_eq!(url, "https://x.test/");
    let rendered = "<html><style>@font-face{src:url(/f.woff)}</style></html>".to_owned();
    let page = match route_rendered(url, Ok(rendered.clone())) {
        Dispatch::Aggregate(page) => page,
        other => panic!("not aggregated: {:?}", other),
    };
    assert_eq!(page.page_content, rendered);
    let site = SiteData::from_font_contents(&page, &vec![Some(woff_with_names(["A", "B", "C", "D"]))]);
    assert_eq!(site.url, "https://x.test/");
    assert_eq!(site.fonts.len(), 1);
}

#[test]
fn page_whose_elements_give_no_font_url_is_escalated() {
    let page = Page::new(
        "https://x.test/".to_owned(),
        "<html><head><link rel=\"stylesheet\" href=\"/s.css\"><style>p{color:red}</style></head></html>".to_owned(),
    );
    let outcome = run_search(&page, &[("https://x.test/s.css", None)]);
    assert_eq!(outcome, Err(CustomError::NoFontUrlsFound("https://x.test/".to_owned())));
    assert!(matches!(route_verified(page, outcome), Dispatch::Render(u) if u == "https://x.test/"));
}

#[test]
fn verified_page_goes_to_aggregation_and_other_errors_fail() {
    let html = "<html><head><link rel=\"stylesheet\" href=\"css/site.css\"><link rel=\"preload\" type=\"font/woff\" href=\"ftp://x.test/no.woff\"></head></html>";
    let page = Page::new("https://x.test/a/".to_owned(), html.to_owned());
    let sheet = "@font-face{src:url(../fonts/one.woff) format('woff'),url(https://cdn.test/two.woff2)}";
    let outcome = run_search(&page, &[("https://x.test/a/css/site.css", Some(sheet))]);
    let urls = outcome.clone().unwrap();
    assert_eq!(urls.len(), 2);
    assert_eq!(urls[0].url().as_str(), "https://x.test/fonts/one.woff");
    assert!(matches!(&urls[1], FontUrl::Http(u) if u.as_str() == "https://cdn.test/two.woff2"));
    assert!(matches!(route_verified(page.clone(), outcome), Dispatch::Aggregate(p) if p.base_url == "https://x.test/a/"));
    let failed = route_verified(page, Err(CustomError::ReqwestError("timeout".to_owned())));
    assert!(matches!(failed, Dispatch::Failed(CustomError::ReqwestError(_))));
    assert!(matches!(route_rendered("u".to_owned(), Err(CustomError::GenericError("x".to_owned()))), Dispatch::Failed(_)));
}

#[test]
fn http_fetch_makes_the_page_or_fails() {
    let page = route_http_fetched("https://x.test/".to_owned(), Ok("<html></html>".to_owned())).unwrap();
    assert_eq!(page.base_url, "https://x.test/");
    assert_eq!(page.page_content, "<html></html>");
    let err = route_http_fetched("https://x.test/".to_owned(), Err(CustomError::ReqwestError("404".to_owned())));
    assert_eq!(err.unwrap_err(), CustomError::ReqwestError("404".to_owned()));
}

#[test]
fn one_resolvable_and_one_unresolvable_font_url_give_one_font() {
    let html = "<html><head><style>@font-face{src:url(https://cdn.test/ok.woff),url(http://[::1)}</style></head></html>";
    let page = Page::new("https://x.test/".to_owned(), html.to_owned());
    let urls = run_search(&page, &[]).unwrap();
    assert_eq!(urls.len(), 1);
    assert_eq!(urls[0].url().as_str(), "https://cdn.test/ok.woff");
    let downloads: Vec<Option<Vec<u8>>> = urls.iter().map(|_| Some(woff_with_names(["Fam", "Sub", "Id", "Full"]))).collect();
    let site = SiteData::from_font_contents(&page, &downloads);
    assert_eq!(site.fonts.len(), 1);
    assert_eq!(site.fonts[0].family_name, "Fam");
}

#[test]
fn failed_downloads_and_bad_fonts_are_skipped() {
    let page = Page::new("https://x.test/".to_owned(), String::new());
    let downloads = vec![
        None,
        Some(b"not a font".to_vec()),
        Some(woff_with_names(["A", "B", "C", "D"])),
        Some(woff_with_names(["E", "F", "G", "H"])),
    ];
    let site = SiteData::from_font_contents(&page, &downloads);
    assert_eq!(site.fonts.len(), 2);
    assert_eq!(site.fonts[0].family_name, "A");
    assert_eq!(site.fonts[1].full_name, "H");
}

#[test]
fn trace_context_carrier() {
    let mut message = ChannelMessage::new(tracing::Span::none(), "https://x.test/".to_owned());
    assert_eq!(message.get("traceparent"), None);
    message.set("traceparent", "00-abc-def-01".to_owned());
    message.set("tracestate", "k=v".to_owned());
    message.set("traceparent", "00-123-456-01".to_owned());
    assert_eq!(message.get("traceparent"), Some("00-123-456-01"));
    assert_eq!(message.get("tracestate"), Some("k=v"));
    let mut keys = message.keys();
    keys.sort();
    assert_eq!(keys, vec!["traceparent", "tracestate"]);
    assert_eq!(message.unwrap(), "https://x.test/");
    assert!(message.root_span().is_none());
}

#[test]
fn span_id_envelope() {
    let message = sender::ChannelMessage::new(Some(tracing::Id::from_u64(7)), 3u32);
    assert_eq!(message.span_id(), Some(tracing::Id::from_u64(7)));
    assert_eq!(*message.unwrap(), 3);
    let message = sender::ChannelMessage::new(None, ());
    assert_eq!(message.span_id(), None);
}

#[test]
fn css_supplied_without_request_changes_nothing() {
    let page = Page::new("https://x.test/".to_owned(), "<html><style>@font-face{src:url(a.woff)}</style></html>".to_owned());
    let mut search = FontUrlSearch::start(&page).unwrap();
    search.supply_css(Some(b"@font-face{src:url(ignored.woff)}".to_vec()));
    assert!(!search.is_done());
    assert!(search.next_fetch().is_none());
    assert!(search.is_done());
    let urls = search.finish().unwrap();
    assert_eq!(urls.len(), 1);
    assert_eq!(urls[0].url().as_str(), "https://x.test/a.woff");
}

#[test]
fn failed_first_fetch_goes_to_render() {
    match fonts::tasks::verification::route_first_fetch("https://x.test/".to_owned(), Err(CustomError::ReqwestError("timeout".to_owned()))) {
        fonts::tasks::verification::FirstFetch::Render(u) => assert_eq!(u, "https://x.test/"),
        fonts::tasks::verification::FirstFetch::Verify(_) => panic!("not sent to render"),
    }
    match fonts::tasks::verification::route_first_fetch("https://x.test/".to_owned(), Ok("<html></html>".to_owned())) {
        fonts::tasks::verification::FirstFetch::Verify(p) => assert_eq!(p.page_content, "<html></html>"),
        fonts::tasks::verification::FirstFetch::Render(_) => panic!("fetched page sent to render"),
    }
}
