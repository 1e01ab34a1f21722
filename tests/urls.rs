use fonts::parsers::url_parser::{classify, parse_to_font_urls, parse_to_url, FontUrl, UrlError};

#[test]
fn relative_url_is_joined_onto_the_page() {
    let u = parse_to_url("/a/b.css", "https://x.test/p").unwrap();
    assert_eq!(u.as_str(), "https://x.test/a/b.css");
    assert_eq!(u.scheme(), "https");
}

#[test]
fn absolute_url_is_kept() {
    let u = parse_to_url("https://y.test/c.css", "https://x.test/p").unwrap();
    assert_eq!(u.as_str(), "https://y.test/c.css");
}

#[test]
fn text_without_scheme_is_joined_as_a_relative_reference() {
    assert_eq!(parse_to_url("not a url", "https://x.test/p").unwrap().as_str(), "https://x.test/not%20a%20url");
}

#[test]
fn text_that_is_no_url_is_an_error() {
    assert_eq!(parse_to_url("http://[::1", "https://x.test/p"), Err(UrlError::Invalid));
    assert_eq!(parse_to_url("a.css", "no base"), Err(UrlError::RelativeWithoutBase));
}

#[test]
fn schemes_are_classified() {
    let http = parse_to_url("http://x.test/f.woff", "https://x.test").unwrap();
    assert!(matches!(classify(http), Some(FontUrl::Http(_))));
    let https = parse_to_url("https://x.test/f.woff", "https://x.test").unwrap();
    assert!(matches!(classify(https), Some(FontUrl::Http(_))));
    let data = parse_to_url("data:application/x-font-woff;base64,AAAA", "https://x.test").unwrap();
    assert!(matches!(classify(data), Some(FontUrl::Data(_))));
    let ftp = parse_to_url("ftp://x.test/f.woff", "https://x.test").unwrap();
    assert_eq!(classify(ftp), None);
}

#[test]
fn font_urls_skip_unresolvable_and_other_schemes() {
    let urls = vec![
        "fonts/a.woff".to_owned(),
        "http://[::1".to_owned(),
        "ftp://x.test/b.woff".to_owned(),
        "data:font/woff;base64,AAAA".to_owned(),
        "https://cdn.test/c.woff2".to_owned(),
    ];
    let found = parse_to_font_urls(urls, "https://x.test/page/index.html");
    assert_eq!(found.len(), 3);
    assert!(matches!(&found[0], FontUrl::Http(u) if u.as_str() == "https://x.test/page/fonts/a.woff"));
    assert!(matches!(&found[1], FontUrl::Data(u) if u.as_str() == "data:font/woff;base64,AAAA"));
    assert!(matches!(&found[2], FontUrl::Http(u) if u.as_str() == "https://cdn.test/c.woff2"));
    assert_eq!(found[2].url().as_str(), "https://cdn.test/c.woff2");
}
