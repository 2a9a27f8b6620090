//! Typst rendering support: the markup-escaping helpers and the theme palette
//! lookups that the page emitters and the preamble use.
pub mod doc;
