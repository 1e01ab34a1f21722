//! Discovery of the web fonts that a site embeds: HTML scanning, `@font-face`
//! extraction, URL resolution, WOFF name-table decoding, and the routing
//! decisions of the crawl pipeline.

pub mod crawler;
pub mod font_parser;
pub mod parsers;
pub mod tasks;
pub mod text;
