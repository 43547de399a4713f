//! Normalizes the indentation structure of a plain-text outline document:
//! headers, nested bullet/task lists, wrapped text and fenced (preformatted)
//! ranges written with arbitrary source indentation are assigned canonical,
//! hierarchy-consistent nesting depths by a single parsing pass.

pub mod document;
pub mod laws;
pub mod line;
pub mod parsing;
pub mod reparse;
pub mod text;

pub use document::Block;
pub use document::Document;
pub use line::FormattedLine;
pub use line::LineType;
pub use line::RawLine;
pub use parsing::parse_document;
