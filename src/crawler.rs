//! What a crawler decides about a fetched page.

pub mod css_parser;
pub mod html_parser;
pub mod http_crawler;
