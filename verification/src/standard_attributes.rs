//! The attributes whose value is an address.

use crate::text::{same_text, utf8};
use vstd::prelude::*;
use vstd::string::*;

verus! {

/// Whether `name` is the name of an attribute that holds an address: `href`
/// or `src`.
pub open spec fn is_uri_name(name: Seq<u8>) -> bool {
    name == utf8("href"@) || name == utf8("src"@)
}

/// Whether `name` is the name of an attribute that holds an address.
pub fn is_uri_attribute(name: &str) -> (uri: bool)
    ensures
        uri == is_uri_name(name.spec_bytes()),
{
    same_text(name, "href") || same_text(name, "src")
}

} // verus!
