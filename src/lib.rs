//! Parsing of a small markup language for structured documents, and the
//! cross-references built over a corpus of such documents.
pub mod markup;
pub mod grammar;
pub mod parse;
pub mod bp;
pub mod model;
pub mod template;
