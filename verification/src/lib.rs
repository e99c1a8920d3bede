//! An input-method dictionary from the pages of a wiki.
//!
//! [`mediawiki`] parses wiki markup into a tree of text and templates, and
//! [`ext`] walks, renders and detaches such trees. [`dump`] reads the pages
//! of a wiki's XML dump and finds the templates that record a term's name in
//! other languages, [`dictionary`] makes dictionary entries from them, and
//! [`romaji`] turns a romanised reading into hiragana. [`text`] holds the
//! string primitives that the others share.

pub mod dictionary;
pub mod dump;
pub mod ext;
pub mod mediawiki;
pub mod romaji;
pub mod text;
