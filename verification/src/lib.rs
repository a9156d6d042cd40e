//! A small toolkit for an HTML-like markup.
//!
//! [`parse_html`] turns a text into a flat sequence of tokens,
//! [`format_html`] turns tokens into indented text, and [`parse_embeds`]
//! finds the `run` directives among the tokens, which ask for a command to
//! be run and its output to take their place. Nothing here builds a tree:
//! nesting is a depth that is counted along the tokens.
//!
//! Every function states what it returns over a model of its arguments.
//! Texts are modelled by their UTF-8 bytes, tokens by the types in
//! [`types`], the grammar by the functions named `..._at` in [`parse`].

pub mod assets;
pub mod command;
pub mod depth;
pub mod embeds;
pub mod format;
pub mod list;
pub mod markdown;
pub mod parse;
pub mod roundtrip;
pub mod standard_attributes;
pub mod standard_elements;
pub mod substitute;
pub mod text;
pub mod types;

pub use assets::find_relative_paths;
pub use depth::{DepthChange, DepthIterator, WithDepthIterator};
pub use embeds::{parse_embeds, HTMLEmbed, HTMLPartOrEmbed};
pub use format::format_html;
pub use parse::{parse_all_parts, parse_html, parse_tag, ParseHTMLError};
pub use types::{HTMLPart, HTMLTag, HTMLTagKind};
