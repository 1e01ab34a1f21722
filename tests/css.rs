use fonts::parsers::css_parser::{parse_css_doc, parse_css_text, ExtractError};

#[test]
fn css_parser_get_urls_from_inline_css() {
    let inline_css_strings = vec![
    "\n      .tk-franklin-gothic-urw {\n        font-family: \"franklin-gothic-urw\", sans-serif;\n      }\n    ".to_owned(),
    "\n      @font-face {\n        font-family: tk-franklin-gothic-urw-n4;\n        src: url(https://use.typekit.net/af/9cb78a/0000000000000000000118ad/27/l?primer=7cdcb44be4a7db8877ffa5c0007b8dd865b3bbc383831fe2ea177f62257a9191&amp;fvd=n4&amp;v=3)\n            format(\"woff2\"),\n          url(https://use.typekit.net/af/9cb78a/0000000000000000000118ad/27/d?primer=7cdcb44be4a7db8877ffa5c0007b8dd865b3bbc383831fe2ea177f62257a9191&amp;fvd=n4&amp;v=3)\n            format(\"woff\"),\n          url(https://use.typekit.net/af/9cb78a/0000000000000000000118ad/27/a?primer=7cdcb44be4a7db8877ffa5c0007b8dd865b3bbc383831fe2ea177f62257a9191&amp;fvd=n4&amp;v=3)\n            format(\"opentype\");\n        font-weight: 400;\n        font-style: normal;\n        font-stretch: normal;\n        font-display: auto;\n      }\n    ".to_owned(),
    "\n      body,\n      html {\n        height: 100%;\n        font-family: franklin-gothic-urw, sans-serif;\n        font-weight: 400;\n        font-size: 20px;\n        color: #333e48;\n        margin: 0;\n        box-sizing: border-box;\n      }\n      * {\n        box-sizing: inherit;\n        color: currentColor;\n      }\n      .title-wrapper p:first-of-type {\n        margin-top: 40px;\n        margin-bottom: 13px;\n      }\n      hr {\n        display: none;\n      }\n      p {\n        margin: 0 0 18px;\n      }\n    ".to_owned(),
    "\n      [_nghost-xbj-3] {\n        flex-flow: column nowrap;\n        height: 100vh;\n        padding: 0 39px;\n        width: 100vw;\n      }\n      .top[_ngcontent-xbj-3],\n      [_nghost-xbj-3] {\n        display: flex;\n      }\n      .top[_ngcontent-xbj-3] {\n        height: 10vh;\n        min-height: 100px;\n        justify-content: space-between;\n        padding-top: 29px;\n        z-index: 2;\n      }\n      .top[_ngcontent-xbj-3] a[_ngcontent-xbj-3] {\n        text-decoration: none;\n      }\n      .top[_ngcontent-xbj-3] a[_ngcontent-xbj-3]:hover {\n        text-decoration: underline;\n      }\n      .middle[_ngcontent-xbj-3] {\n        height: 69vh;\n        display: flex;\n        align-items: center;\n      }\n      .bottom[_ngcontent-xbj-3] {\n        display: flex;\n        height: 21vh;\n        justify-content: flex-end;\n      }\n      .bottom[_ngcontent-xbj-3],\n      .middle[_ngcontent-xbj-3],\n      .top[_ngcontent-xbj-3] {\n        width: 100%;\n      }\n      .middle[_ngcontent-xbj-3] {\n        position: relative;\n      }\n      .left-arrow[_ngcontent-xbj-3],\n      .right-arrow[_ngcontent-xbj-3] {\n        position: absolute;\n        top: 0;\n        bottom: 0;\n        width: 50%;\n      }\n      .left-arrow[_ngcontent-xbj-3] {\n        left: 0;\n        cursor: url(/assets/left.png), w-resize;\n      }\n      .right-arrow[_ngcontent-xbj-3] {\n        right: 0;\n        cursor: url(/assets/right.png), e-resize;\n      }\n      .image-wrapper[_ngcontent-xbj-3] {\n        align-items: center;\n        display: flex;\n        justify-content: center;\n        margin: 0 auto;\n        height: 100%;\n        width: 80vw;\n      }\n      svg[_ngcontent-xbj-3] {\n        fill: #333e48;\n      }\n      .title-wrapper[_ngcontent-xbj-3] {\n        flex: 0 1 40%;\n        height: 21vh;\n        max-width: 500px;\n        min-width: 360px;\n        text-align: right;\n      }\n      p[_ngcontent-xbj-3] {\n        margin: 0;\n      }\n      .title-wrapper[_ngcontent-xbj-3] hr[_ngcontent-xbj-3] {\n        display: none;\n      }\n      .image[_ngcontent-xbj-3] {\n        background-size: contain;\n        background-repeat: no-repeat;\n        background-position: 50%;\n        background-color: #fff;\n        height: 69vh;\n        max-width: 800px;\n        width: 80vw;\n      }\n    ".to_owned(),
    "\n      @font-face {\n        font-family: franklin-gothic-urw;\n        src: url(https://use.typekit.net/af/9cb78a/0000000000000000000118ad/27/l?primer=7cdcb44be4a7db8877ffa5c0007b8dd865b3bbc383831fe2ea177f62257a9191&amp;fvd=n4&amp;v=3)\n            format(\"woff2\"),\n          url(https://use.typekit.net/af/9cb78a/0000000000000000000118ad/27/d?primer=7cdcb44be4a7db8877ffa5c0007b8dd865b3bbc383831fe2ea177f62257a9191&amp;fvd=n4&amp;v=3)\n            format(\"woff\"),\n          url(https://use.typekit.net/af/9cb78a/0000000000000000000118ad/27/a?primer=7cdcb44be4a7db8877ffa5c0007b8dd865b3bbc383831fe2ea177f62257a9191&amp;fvd=n4&amp;v=3)\n            format(\"opentype\");\n        font-weight: 400;\n        font-style: normal;\n        font-stretch: normal;\n        font-display: auto;\n      }\n    ".to_owned(),
    "\n      a[_ngcontent-xbj-1] {\n        text-decoration: none;\n      }\n      .hover[_ngcontent-xbj-1] a[_ngcontent-xbj-1]:hover {\n        text-decoration: underline;\n      }\n    ".to_owned()
    ];
    let expected_results = vec![
    "https://use.typekit.net/af/9cb78a/0000000000000000000118ad/27/l?primer=7cdcb44be4a7db8877ffa5c0007b8dd865b3bbc383831fe2ea177f62257a9191&amp;fvd=n4&amp;v=3",
    "https://use.typekit.net/af/9cb78a/0000000000000000000118ad/27/d?primer=7cdcb44be4a7db8877ffa5c0007b8dd865b3bbc383831fe2ea177f62257a9191&amp;fvd=n4&amp;v=3",
    "https://use.typekit.net/af/9cb78a/0000000000000000000118ad/27/a?primer=7cdcb44be4a7db8877ffa5c0007b8dd865b3bbc383831fe2ea177f62257a9191&amp;fvd=n4&amp;v=3",
    "https://use.typekit.net/af/9cb78a/0000000000000000000118ad/27/l?primer=7cdcb44be4a7db8877ffa5c0007b8dd865b3bbc383831fe2ea177f62257a9191&amp;fvd=n4&amp;v=3",
    "https://use.typekit.net/af/9cb78a/0000000000000000000118ad/27/d?primer=7cdcb44be4a7db8877ffa5c0007b8dd865b3bbc383831fe2ea177f62257a9191&amp;fvd=n4&amp;v=3",
    "https://use.typekit.net/af/9cb78a/0000000000000000000118ad/27/a?primer=7cdcb44be4a7db8877ffa5c0007b8dd865b3bbc383831fe2ea177f62257a9191&amp;fvd=n4&amp;v=3",
    ];

    let urls: Vec<String> = inline_css_strings
        .iter()
        .filter_map(|inline_css| parse_css_doc(inline_css.as_bytes().to_vec()).ok())
        .flatten()
        .collect();

    assert_eq!(urls, expected_results);

    let urls: Vec<String> = inline_css_strings
        .iter()
        .filter_map(|inline_css| fonts::crawler::css_parser::parse_css_doc(&mut inline_css.to_owned()).ok())
        .flatten()
        .collect();

    assert_eq!(urls, expected_results);
}

#[test]
fn font_face_blocks_give_their_urls_in_order() {
    let css = "@font-face {\n  font-family: A;\n  src: url(a.woff) format(\"woff\");\n}\n\
               .x { color: red; }\n\
               @font-face {\n  font-family: B;\n  src: url('b.woff') format(\"woff\");\n}\n\
               @font-face {\n  font-family: C;\n  src: url(\"/c/c.woff2\") format(\"woff2\");\n}\n";
    let urls = parse_css_doc(css.as_bytes().to_vec()).unwrap();
    assert_eq!(urls, vec!["a.woff", "b.woff", "/c/c.woff2"]);
}

#[test]
fn background_url_without_font_face_is_no_font_face() {
    let css = "body { background: url(images/bg.png); }\n.logo { background: url('logo.svg') }";
    assert_eq!(parse_css_doc(css.as_bytes().to_vec()), Err(ExtractError::NoFontFace));
}

#[test]
fn three_alternatives_give_three_urls_in_order() {
    let css = "@font-face { font-family: X; src: url(x.woff2) format('woff2'), url(x.woff) format('woff'), url(x.ttf) format('truetype'); }";
    let urls = parse_css_doc(css.as_bytes().to_vec()).unwrap();
    assert_eq!(urls, vec!["x.woff2", "x.woff", "x.ttf"]);
}

#[test]
fn invalid_utf8_is_an_encoding_error() {
    let bytes = vec![0x40, 0x66, 0xff, 0xfe, 0x7b, 0x7d];
    assert_eq!(parse_css_doc(bytes), Err(ExtractError::Encoding));
}

#[test]
fn font_face_without_src_url_is_no_urls() {
    let css = "@font-face { font-family: Y; font-weight: 400; }";
    assert_eq!(parse_css_doc(css.as_bytes().to_vec()), Err(ExtractError::NoUrls));
}

#[test]
fn url_outside_src_declaration_is_ignored() {
    let css = "@font-face { font-family: Z; background: url(bg.png); src: url(z.woff); }";
    let urls = parse_css_text(css).unwrap();
    assert_eq!(urls, vec!["z.woff"]);
}

#[test]
fn whitespace_inside_url_is_removed() {
    let css = "@font-face{src:url( sp aced.woff )}";
    assert_eq!(parse_css_text(css).unwrap(), vec!["spaced.woff"]);
}

#[test]
fn unterminated_font_face_is_no_font_face() {
    let css = "@font-face { src: url(a.woff)";
    assert_eq!(parse_css_text(css), Err(ExtractError::NoFontFace));
}

#[test]
fn separators_inside_a_url_are_part_of_it() {
    let css = "@font-face { src: url(data:font/woff;base64,AAAA) format('woff'), url(b.woff?x=1&amp;y=2); font-weight: 400; }";
    assert_eq!(parse_css_text(css).unwrap(), vec!["data:font/woff;base64,AAAA", "b.woff?x=1&amp;y=2"]);
}

#[test]
fn in_place_extraction_strips_the_text_and_takes_parenthesised_urls() {
    let mut text = "@font-face {\n  src: url('a b.woff') format(\"woff\");\n}\n p { x: url(no.png) }".to_owned();
    let urls = fonts::crawler::css_parser::parse_css_doc(&mut text).unwrap();
    assert_eq!(urls, vec!["ab.woff"]);
    assert_eq!(text, "@font-face{src:url('ab.woff')format(\"woff\");}p{x:url(no.png)}");
    let mut plain = "body { color: red }".to_owned();
    assert_eq!(fonts::crawler::css_parser::parse_css_doc(&mut plain), Err(ExtractError::NoFontFace));
    let mut empty = "@font-face { font-family: A }".to_owned();
    assert_eq!(fonts::crawler::css_parser::parse_css_doc(&mut empty), Err(ExtractError::NoUrls));
}

#[test]
fn rules_with_other_declarations_and_ordinary_rules_between() {
    let css = "@font-face{font-family:A;src:url(a.woff)format(woff);font-weight:400}.x{color:red}\
               @font-face{src:url(b.woff)format(woff),url(c.woff)format(woff)}p{margin:0}";
    assert_eq!(parse_css_text(css).unwrap(), vec!["a.woff", "b.woff", "c.woff"]);
}
