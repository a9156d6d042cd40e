//! The elements that never have content.

use crate::text::{same_text, utf8};
use vstd::prelude::*;
use vstd::string::*;

verus! {

/// Whether `name` is the name of a void element: one that has no content and
/// no closing tag of its own.
pub open spec fn is_void_name(name: Seq<u8>) -> bool {
    ||| name == utf8("area"@)
    ||| name == utf8("base"@)
    ||| name == utf8("br"@)
    ||| name == utf8("col"@)
    ||| name == utf8("embed"@)
    ||| name == utf8("hr"@)
    ||| name == utf8("img"@)
    ||| name == utf8("input"@)
    ||| name == utf8("link"@)
    ||| name == utf8("meta"@)
    ||| name == utf8("param"@)
    ||| name == utf8("source"@)
    ||| name == utf8("track"@)
    ||| name == utf8("wbr"@)
}

/// Whether `name` is the name of a void element.
pub fn is_void_element(name: &str) -> (void: bool)
    ensures
        void == is_void_name(name.spec_bytes()),
{
    same_text(name, "area") || same_text(name, "base") || same_text(name, "br") || same_text(
        name,
        "col",
    ) || same_text(name, "embed") || same_text(name, "hr") || same_text(name, "img")
        || same_text(name, "input") || same_text(name, "link") || same_text(name, "meta")
        || same_text(name, "param") || same_text(name, "source") || same_text(name, "track")
        || same_text(name, "wbr")
}

} // verus!
