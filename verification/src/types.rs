//! The tokens of a document, and their mathematical models.

use crate::depth::DepthChange;
use crate::text::utf8;
use std::borrow::Cow;
use vstd::prelude::*;
use vstd::string::*;

verus! {

/// What a tag does to the nesting of the document.
#[derive(Debug, Eq, PartialEq, Clone, Copy)]
pub enum HTMLTagKind {
    /// `<name ...>`: opens an element.
    Open,
    /// `</name>`: closes an element.
    Close,
    /// `<name ... />`, or a tag of an element that never has content.
    Void,
}

/// A tag. Name and attribute payloads are slices of the text it was read
/// from; attributes keep their order, and repeated names stay.
#[derive(Debug, Eq, PartialEq)]
pub struct HTMLTag<'a> {
    pub kind: HTMLTagKind,
    pub name: &'a str,
    pub attributes: Vec<(&'a str, Option<&'a str>)>,
}

/// One token of a document.
#[derive(Debug, Eq, PartialEq)]
pub enum HTMLPart<'a> {
    /// `<!--text-->`, holding the text between the delimiters.
    Comment(&'a str),
    /// A document type declaration; what it declared is not kept.
    DocType,
    /// A tag of any kind.
    Tag(HTMLTag<'a>),
    /// A run of text between tags.
    Text(Cow<'a, str>),
}

/// An attribute as bytes: its name, and its value if it has one.
pub type AttributeModel = (Seq<u8>, Option<Seq<u8>>);

/// A tag as bytes.
pub struct TagModel {
    pub kind: HTMLTagKind,
    pub name: Seq<u8>,
    pub attributes: Seq<AttributeModel>,
}

/// A token as bytes.
pub enum PartModel {
    Comment(Seq<u8>),
    DocType,
    Tag(TagModel),
    Text(Seq<u8>),
}

/// The model of an attribute value.
pub open spec fn value_model(value: Option<&str>) -> Option<Seq<u8>> {
    match value {
        Some(v) => Some(v.spec_bytes()),
        None => None,
    }
}

/// The model of one attribute.
pub open spec fn attribute_model(attribute: (&str, Option<&str>)) -> AttributeModel {
    (attribute.0.spec_bytes(), value_model(attribute.1))
}

/// The models of a list of attributes, in order.
pub open spec fn attribute_models(attributes: Seq<(&str, Option<&str>)>) -> Seq<AttributeModel> {
    attributes.map_values(|a: (&str, Option<&str>)| attribute_model(a))
}

/// The depth delta of a tag kind.
pub open spec fn kind_delta(kind: HTMLTagKind) -> int {
    match kind {
        HTMLTagKind::Open => 1,
        HTMLTagKind::Void => 0,
        HTMLTagKind::Close => -1,
    }
}

/// The depth delta of a token: that of its kind for a tag, 0 for the rest.
pub open spec fn part_delta(part: PartModel) -> int {
    match part {
        PartModel::Tag(tag) => kind_delta(tag.kind),
        _ => 0,
    }
}

impl<'a> View for HTMLTag<'a> {
    type V = TagModel;

    open spec fn view(&self) -> TagModel {
        TagModel {
            kind: self.kind,
            name: self.name.spec_bytes(),
            attributes: attribute_models(self.attributes@),
        }
    }
}

impl<'a> View for HTMLPart<'a> {
    type V = PartModel;

    open spec fn view(&self) -> PartModel {
        match self {
            HTMLPart::Comment(text) => PartModel::Comment(text.spec_bytes()),
            HTMLPart::DocType => PartModel::DocType,
            HTMLPart::Tag(tag) => PartModel::Tag(tag@),
            HTMLPart::Text(text) => PartModel::Text(utf8(text@)),
        }
    }
}

/// The models of a list of tokens, in order.
pub open spec fn part_models(parts: Seq<HTMLPart>) -> Seq<PartModel> {
    parts.map_values(|p: HTMLPart| p@)
}

impl HTMLTagKind {
    /// The depth delta of this kind: +1 for `Open`, -1 for `Close`, 0 for
    /// `Void`.
    pub fn depth_change(&self) -> (change: isize)
        ensures
            change == kind_delta(*self),
    {
        match self {
            HTMLTagKind::Open => 1,
            HTMLTagKind::Void => 0,
            HTMLTagKind::Close => -1,
        }
    }
}

impl DepthChange for HTMLTagKind {
    open spec fn depth_delta(&self) -> int {
        kind_delta(*self)
    }

    proof fn depth_delta_is_step(&self) {
    }

    fn depth_change(&self) -> (change: isize) {
        HTMLTagKind::depth_change(self)
    }
}

impl<'a> DepthChange for HTMLTag<'a> {
    open spec fn depth_delta(&self) -> int {
        kind_delta(self.kind)
    }

    proof fn depth_delta_is_step(&self) {
    }

    fn depth_change(&self) -> (change: isize) {
        self.kind.depth_change()
    }
}

impl<'a> DepthChange for HTMLPart<'a> {
    open spec fn depth_delta(&self) -> int {
        part_delta(self@)
    }

    proof fn depth_delta_is_step(&self) {
    }

    fn depth_change(&self) -> (change: isize) {
        match self {
            HTMLPart::Tag(tag) => tag.depth_change(),
            _ => 0,
        }
    }
}

} // verus!
