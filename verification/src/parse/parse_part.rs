//! Whole documents: tokens one after another, to the end of the text.

use super::parse_attribute::read_run;
use super::parse_comment::{comment_at, comment_from, part_read};
use super::parse_doctype::{doctype_at, doctype_from};
use super::parse_tag::{tag_at, tag_from};
use super::scan::{
    failure_is, rest_is, run, ByteClass, ParseErrorKind, ParseFailure, Parsed, Stop,
};
use crate::text::{at_boundary, lemma_str_bytes, slice, tail, utf8};
use crate::types::{part_models, HTMLPart, PartModel};
use std::borrow::Cow;
use vstd::prelude::*;
use vstd::string::*;

verus! {

/// Why a text is no document: the text that was left when no further token
/// could be read, and the construct that was expected there.
#[derive(Debug, PartialEq, Eq)]
pub struct ParseHTMLError {
    pub remainder: String,
    pub kind: ParseErrorKind,
}

/// The words that open the message of a parse error.
pub const MESSAGE_HEAD: &'static str = "Parsing Error: unexpected input: ";

impl ParseHTMLError {
    /// The error as a sentence: a fixed opening, and the text that was left.
    pub fn message(&self) -> (text: String)
        ensures
            text@ == MESSAGE_HEAD@ + self.remainder@,
    {
        let mut text = String::new();
        text.append(MESSAGE_HEAD);
        text.append(self.remainder.as_str());
        assert(text@ =~= MESSAGE_HEAD@ + self.remainder@);
        text
    }
}

/// A tag as a token.
pub open spec fn tag_part_at(s: Seq<u8>, i: int) -> Parsed<PartModel> {
    match tag_at(s, i) {
        Parsed::Match { end, value } => Parsed::Match { end, value: PartModel::Tag(value) },
        Parsed::Mismatch { at, kind } => Parsed::Mismatch { at, kind },
    }
}

/// Text: everything up to the next `<` or the end, at least one byte.
pub open spec fn text_part_at(s: Seq<u8>, i: int) -> Parsed<PartModel> {
    match run(s, i, ByteClass::Text) {
        Parsed::Match { end, .. } => Parsed::Match {
            end,
            value: PartModel::Text(s.subrange(i, end)),
        },
        Parsed::Mismatch { at, kind } => Parsed::Mismatch { at, kind },
    }
}

/// One token: the first that fits of comment, document type, tag and text.
/// Where none fits, the mismatch is that of text.
pub open spec fn part_at(s: Seq<u8>, i: int) -> Parsed<PartModel> {
    if comment_at(s, i) is Match {
        comment_at(s, i)
    } else if doctype_at(s, i) is Match {
        doctype_at(s, i)
    } else if tag_part_at(s, i) is Match {
        tag_part_at(s, i)
    } else {
        text_part_at(s, i)
    }
}

/// The tokens that stand at `i`, as many as there are, and where they end.
pub open spec fn parts_at(s: Seq<u8>, i: int) -> (Seq<PartModel>, int)
    decreases s.len() - i,
{
    match part_at(s, i) {
        Parsed::Match { end, value } => if i < end <= s.len() {
            (seq![value] + parts_at(s, end).0, parts_at(s, end).1)
        } else {
            (Seq::empty(), i)
        },
        Parsed::Mismatch { .. } => (Seq::empty(), i),
    }
}

/// A document: tokens from the first byte to the last. Where the tokens end
/// before the text does, the text is no document, and the mismatch lies
/// where they end.
pub open spec fn document(s: Seq<u8>) -> Parsed<Seq<PartModel>> {
    if parts_at(s, 0).1 == s.len() {
        Parsed::Match { end: s.len() as int, value: parts_at(s, 0).0 }
    } else {
        Parsed::Mismatch { at: parts_at(s, 0).1, kind: ParseErrorKind::Eof }
    }
}

/// Reads a tag as a token at byte `i` of `input`.
pub fn tag_part_from<'a>(input: &'a str, i: usize) -> (r: Result<(usize, HTMLPart<'a>), Stop>)
    requires
        at_boundary(input.spec_bytes(), i as int),
    ensures
        part_read(input.spec_bytes(), r, tag_part_at(input.spec_bytes(), i as int)),
        r is Ok ==> i < r->Ok_0.0,
{
    match tag_from(input, i) {
        Ok((end, tag)) => Ok((end, HTMLPart::Tag(tag))),
        Err(stop) => Err(stop),
    }
}

/// Reads text at byte `i` of `input`.
pub fn text_part_from<'a>(input: &'a str, i: usize) -> (r: Result<(usize, HTMLPart<'a>), Stop>)
    requires
        at_boundary(input.spec_bytes(), i as int),
    ensures
        part_read(input.spec_bytes(), r, text_part_at(input.spec_bytes(), i as int)),
        r is Ok ==> i < r->Ok_0.0,
{
    match read_run(input, i, ByteClass::Text) {
        Ok(end) => Ok((end, HTMLPart::Text(Cow::Borrowed(slice(input, i, end))))),
        Err(stop) => Err(stop),
    }
}

/// Reads one token at byte `i` of `input`.
pub fn part_from<'a>(input: &'a str, i: usize) -> (r: Result<(usize, HTMLPart<'a>), Stop>)
    requires
        at_boundary(input.spec_bytes(), i as int),
    ensures
        part_read(input.spec_bytes(), r, part_at(input.spec_bytes(), i as int)),
        r is Ok ==> i < r->Ok_0.0,
{
    let comment = comment_from(input, i);
    if comment.is_ok() {
        return comment;
    }
    let doctype = doctype_from(input, i);
    if doctype.is_ok() {
        return doctype;
    }
    let tag = tag_part_from(input, i);
    if tag.is_ok() {
        return tag;
    }
    text_part_from(input, i)
}

/// Reads the tokens that stand at byte `i` of `input`, as many as there are.
pub fn parts_from<'a>(input: &'a str, i: usize) -> (r: (usize, Vec<HTMLPart<'a>>))
    requires
        at_boundary(input.spec_bytes(), i as int),
    ensures
        parts_at(input.spec_bytes(), i as int) == (part_models(r.1@), r.0 as int),
        at_boundary(input.spec_bytes(), r.0 as int),
        i <= r.0,
{
    let ghost s = input.spec_bytes();
    let mut list: Vec<HTMLPart<'a>> = Vec::new();
    let mut at: usize = i;
    loop
        invariant
            s == input.spec_bytes(),
            at_boundary(s, at as int),
            i <= at,
            parts_at(s, i as int) == (
                part_models(list@) + parts_at(s, at as int).0,
                parts_at(s, at as int).1,
            ),
        decreases s.len() - at,
    {
        match part_from(input, at) {
            Ok((end, part)) => {
                proof {
                    assert(part_models(list@.push(part)) =~= part_models(list@) + seq![part@]);
                    assert(part_models(list@) + (seq![part@] + parts_at(s, end as int).0)
                        =~= part_models(list@) + seq![part@] + parts_at(s, end as int).0);
                }
                list.push(part);
                at = end;
            },
            Err(_) => {
                assert(part_models(list@) + Seq::<PartModel>::empty() =~= part_models(list@));
                return (at, list);
            },
        }
    }
}

/// Reads a whole document.
///
/// On success every byte of `input` belongs to a token, or to the
/// punctuation and whitespace of one, and the rest is empty. Where the
/// tokens end before the text does, the parse fails with what is left.
pub fn parse_all_parts<'a>(input: &'a str) -> (r: Result<
    (&'a str, Vec<HTMLPart<'a>>),
    ParseFailure<'a>,
>)
    ensures
        match r {
            Ok((rest, parts)) => {
                &&& document(input.spec_bytes()) matches Parsed::Match { end, value }
                &&& rest_is(input.spec_bytes(), rest, end)
                &&& rest.spec_bytes().len() == 0
                &&& part_models(parts@) == value
            },
            Err(failure) => failure_is(input.spec_bytes(), failure, document(input.spec_bytes())),
        },
{
    proof {
        lemma_str_bytes(input);
    }
    let (end, parts) = parts_from(input, 0);
    let rest = tail(input, end);
    if end == input.as_bytes().len() {
        Ok((rest, parts))
    } else {
        Err(ParseFailure { rest, kind: ParseErrorKind::Eof })
    }
}

/// Reads a whole document into its tokens.
///
/// Fails, with the text that was left and [`ParseErrorKind::Eof`], where the
/// tokens end before the text does.
pub fn parse_html<'a>(input: &'a str) -> (r: Result<Vec<HTMLPart<'a>>, ParseHTMLError>)
    ensures
        match r {
            Ok(parts) => document(input.spec_bytes()) matches Parsed::Match { value, .. }
                && part_models(parts@) == value,
            Err(error) => {
                &&& document(input.spec_bytes()) matches Parsed::Mismatch { at, kind }
                &&& utf8(error.remainder@) == input.spec_bytes().subrange(
                    at,
                    input.spec_bytes().len() as int,
                )
                &&& error.kind == kind
            },
        },
{
    match parse_all_parts(input) {
        Ok((_, parts)) => Ok(parts),
        Err(failure) => Err(ParseHTMLError { remainder: failure.rest.to_owned(), kind: failure.kind }),
    }
}

} // verus!
