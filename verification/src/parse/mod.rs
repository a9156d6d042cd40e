//! The tokenizer: from text to tokens.

pub mod parse_attribute;
pub mod parse_comment;
pub mod parse_doctype;
pub mod parse_part;
pub mod parse_tag;
pub mod scan;

pub use parse_attribute::{attribute_value, spaced_attribute};
pub use parse_comment::parse_comment_part;
pub use parse_doctype::parse_doctype_part;
pub use parse_part::{parse_all_parts, parse_html, ParseHTMLError};
pub use parse_tag::parse_tag;
pub use scan::{ByteClass, ParseErrorKind, ParseFailure, Parsed, Stop};
