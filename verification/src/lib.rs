//! Snippet generation for full-text search results.
//!
//! Given a document's text (already tokenized), a weighted table of query
//! terms, and a maximum excerpt length, the library produces the single
//! best-scoring excerpt of the text with the matched terms marked for
//! highlighting, either as raw text with `<b>`/`</b>` markers or with
//! HTML entity escaping applied to the text around the markers.
//!
//! All offsets handled by this library are character offsets (counts of
//! `char`s), not byte offsets.

pub mod fragment;
pub mod generator;
pub mod highlight;
pub mod select;
pub mod snippet;
pub mod terms;

pub use fragment::FragmentCandidate;
pub use fragment::Token;
pub use fragment::search_fragments;
pub use generator::SnippetGenerator;
pub use generator::join_field_values;
pub use highlight::HighlightSection;
pub use select::select_best_fragment_combination;
pub use snippet::Snippet;
pub use terms::TermWeight;
pub use terms::TermWeightTable;
pub use terms::lower_of;
