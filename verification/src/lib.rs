//! Extraction of structured bibliographic records from the two HTML page
//! layouts of an academic search engine: a search-results page listing paper
//! summaries, and a citation page listing the papers that cite one target
//! paper.
//!
//! A page is parsed once into [`dom::HtmlNode`]; [`scrape::SearchDocument`]
//! and [`scrape::CitationDocument`] reduce it to [`paper::Paper`] records by
//! locating the title, footer and header regions and parsing the cluster
//! identifier and citation count out of loosely structured text.

pub mod dom;
pub mod error;
pub mod paper;
pub mod parse;
pub mod scrape;
pub mod strutil;
