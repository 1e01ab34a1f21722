//! Extraction of font references from HTML and CSS, and URL resolution.

pub mod css_parser;
pub mod font_face_rules;
pub mod html_parser;
pub mod url_parser;
