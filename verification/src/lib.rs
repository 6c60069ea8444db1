//! Discovery of webfont files referenced by a stylesheet and conversion of
//! every glyph of each font into a standalone vector-image document.
//!
//! The library is organised bottom-up: character-level text helpers, decimal
//! numerals, URL name normalisation, integer glyph geometry, vector-markup
//! rendering, stylesheet scanning, and finally the crawl state machine that
//! an unverified shell drives by performing the network fetches it asks for.

pub mod text;
pub mod numerals;
pub mod names;
pub mod geometry;
pub mod svg;
pub mod stylesheet;
pub mod web;
pub mod crawler;
