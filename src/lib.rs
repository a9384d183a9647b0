//! Reading office documents (PDF, workbooks, word-processing documents and
//! presentations) as markdown, with unit selection, caching and streaming.
//!
//! - `pages`: page specifications such as `"1,3,5-7"` resolved to sorted
//!   unit lists.
//! - `pdf`: the chain of PDF engines and the dispatcher that tries them in
//!   order.
//! - `cache`: the per-type document caches with staleness detection, and
//!   slicing of cached text by unit or character range (`char_index`).
//! - `documents`: routing by file type and the assembly of results.
//! - `streaming`: bounded chunks of a document, step by step.
//! - `markdown`, `slides`, `slide_xml`, `paths`, `text`: rendering and the
//!   small parsers underneath.
//! - `laws`: properties that relate several operations.

pub mod text;
pub mod pages;
pub mod char_index;
pub mod paths;
pub mod cache;
pub mod pdf;
pub mod artifacts;
pub mod results;
pub mod markdown;
pub mod documents;
pub mod streaming;
pub mod slides;
pub mod slide_xml;
pub mod laws;
