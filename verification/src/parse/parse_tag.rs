//! Tags: opening, void and closing.

use super::parse_attribute::{read_run, spaced_attribute_at, spaced_attribute_from};
use super::scan::{
    byte_is, fail, failure_is, lemma_run_end, lemma_run_end_boundary, peek, rest_is, run,
    run_end, scan, stop_is, ByteClass, ParseErrorKind, ParseFailure, Parsed, Stop, GREATER_THAN,
    LESS_THAN, SLASH,
};
use crate::standard_elements::{is_void_element, is_void_name};
use crate::text::{at_boundary, lemma_boundary_around_ascii, lemma_str_bytes, slice, tail};
use crate::types::{
    attribute_model, attribute_models, AttributeModel, HTMLTag, HTMLTagKind, TagModel,
};
use vstd::prelude::*;
use vstd::string::*;
use vstd::utf8::*;

verus! {

/// The name of a tag: a run of letters and digits.
pub open spec fn tag_name_at(s: Seq<u8>, i: int) -> Parsed<()> {
    run(s, i, ByteClass::Alphanumeric)
}

/// The marker of a void tag: blanks and `/`.
pub open spec fn void_delimiter_at(s: Seq<u8>, i: int) -> Parsed<()> {
    match run(s, i, ByteClass::Blank) {
        Parsed::Mismatch { at, kind } => Parsed::Mismatch { at, kind },
        Parsed::Match { end, .. } => if byte_is(s, end, SLASH) {
            Parsed::Match { end: end + 1, value: () }
        } else {
            Parsed::Mismatch { at: end, kind: ParseErrorKind::Char }
        },
    }
}

/// The attributes that stand at `i`, as many as there are, and where they
/// end.
pub open spec fn attributes_at(s: Seq<u8>, i: int) -> (Seq<AttributeModel>, int)
    decreases s.len() - i,
{
    match spaced_attribute_at(s, i) {
        Parsed::Match { end, value } => if i < end <= s.len() {
            (seq![value] + attributes_at(s, end).0, attributes_at(s, end).1)
        } else {
            (Seq::empty(), i)
        },
        Parsed::Mismatch { .. } => (Seq::empty(), i),
    }
}

/// The kind of a tag that is not a closing tag: void if it is marked so or
/// if its name is that of a void element, else open.
pub open spec fn opening_kind(name: Seq<u8>, marked: bool) -> HTMLTagKind {
    if marked || is_void_name(name) {
        HTMLTagKind::Void
    } else {
        HTMLTagKind::Open
    }
}

/// An opening or void tag: `<`, a name, attributes, the void marker if there
/// is one, and `>`.
pub open spec fn attributes_tag_at(s: Seq<u8>, i: int) -> Parsed<TagModel> {
    if !byte_is(s, i, LESS_THAN) {
        Parsed::Mismatch { at: i, kind: ParseErrorKind::Char }
    } else {
        match tag_name_at(s, i + 1) {
            Parsed::Mismatch { at, kind } => Parsed::Mismatch { at, kind },
            Parsed::Match { end: name_end, .. } => {
                let (attributes, attributes_end) = attributes_at(s, name_end);
                let marked = void_delimiter_at(s, attributes_end) is Match;
                let last = if marked {
                    void_delimiter_at(s, attributes_end)->end
                } else {
                    attributes_end
                };
                if byte_is(s, last, GREATER_THAN) {
                    Parsed::Match {
                        end: last + 1,
                        value: TagModel {
                            kind: opening_kind(s.subrange(i + 1, name_end), marked),
                            name: s.subrange(i + 1, name_end),
                            attributes,
                        },
                    }
                } else {
                    Parsed::Mismatch { at: last, kind: ParseErrorKind::Char }
                }
            },
        }
    }
}

/// A closing tag: `</`, a name and `>`, with nothing between them.
pub open spec fn close_tag_at(s: Seq<u8>, i: int) -> Parsed<TagModel> {
    if !byte_is(s, i, LESS_THAN) {
        Parsed::Mismatch { at: i, kind: ParseErrorKind::Char }
    } else if !byte_is(s, i + 1, SLASH) {
        Parsed::Mismatch { at: i + 1, kind: ParseErrorKind::Char }
    } else {
        match tag_name_at(s, i + 2) {
            Parsed::Mismatch { at, kind } => Parsed::Mismatch { at, kind },
            Parsed::Match { end: name_end, .. } => if byte_is(s, name_end, GREATER_THAN) {
                Parsed::Match {
                    end: name_end + 1,
                    value: TagModel {
                        kind: HTMLTagKind::Close,
                        name: s.subrange(i + 2, name_end),
                        attributes: Seq::empty(),
                    },
                }
            } else {
                Parsed::Mismatch { at: name_end, kind: ParseErrorKind::Char }
            },
        }
    }
}

/// A tag, behind any whitespace: an opening or void tag if one fits, else a
/// closing tag. Where neither fits, the mismatch is that of the closing tag.
pub open spec fn tag_at(s: Seq<u8>, i: int) -> Parsed<TagModel> {
    let start = run_end(s, i, ByteClass::Whitespace);
    if attributes_tag_at(s, start) is Match {
        attributes_tag_at(s, start)
    } else {
        close_tag_at(s, start)
    }
}

/// `r` is the outcome `expected` of reading a tag from `s`.
pub open spec fn tag_read(s: Seq<u8>, r: Result<(usize, HTMLTag), Stop>, expected: Parsed<TagModel>) -> bool {
    match r {
        Ok((end, tag)) => {
            &&& expected == (Parsed::Match { end: end as int, value: tag@ })
            &&& at_boundary(s, end as int)
        },
        Err(stop) => stop_is(s, stop, expected),
    }
}

/// Reads the name of a tag at byte `i` of `input`.
pub fn tag_name(input: &str, i: usize) -> (r: Result<usize, Stop>)
    requires
        at_boundary(input.spec_bytes(), i as int),
    ensures
        match r {
            Ok(end) => {
                &&& tag_name_at(input.spec_bytes(), i as int) == (Parsed::Match {
                    end: end as int,
                    value: (),
                })
                &&& at_boundary(input.spec_bytes(), end as int)
                &&& i < end <= input.spec_bytes().len()
            },
            Err(stop) => stop_is(input.spec_bytes(), stop, tag_name_at(input.spec_bytes(), i as int)),
        },
{
    read_run(input, i, ByteClass::Alphanumeric)
}

/// Reads the marker of a void tag at byte `i` of `input`.
pub fn void_delimiter(input: &str, i: usize) -> (r: Result<usize, Stop>)
    requires
        at_boundary(input.spec_bytes(), i as int),
    ensures
        match r {
            Ok(end) => {
                &&& void_delimiter_at(input.spec_bytes(), i as int) == (Parsed::Match {
                    end: end as int,
                    value: (),
                })
                &&& at_boundary(input.spec_bytes(), end as int)
                &&& i < end <= input.spec_bytes().len()
            },
            Err(stop) => stop_is(
                input.spec_bytes(),
                stop,
                void_delimiter_at(input.spec_bytes(), i as int),
            ),
        },
{
    let slash = match read_run(input, i, ByteClass::Blank) {
        Ok(end) => end,
        Err(stop) => { return Err(stop); },
    };
    let bytes = input.as_bytes();
    let _ = bytes.len();
    if !peek(bytes, slash, SLASH) {
        return Err(Stop { at: slash, kind: ParseErrorKind::Char });
    }
    proof {
        encode_utf8_valid_utf8(input@);
        lemma_boundary_around_ascii(bytes@, slash as int);
    }
    Ok(slash + 1)
}

/// Reads the attributes that stand at byte `i` of `input`, as many as there
/// are.
pub fn attributes<'a>(input: &'a str, i: usize) -> (r: (usize, Vec<(&'a str, Option<&'a str>)>))
    requires
        at_boundary(input.spec_bytes(), i as int),
    ensures
        attributes_at(input.spec_bytes(), i as int) == (attribute_models(r.1@), r.0 as int),
        at_boundary(input.spec_bytes(), r.0 as int),
        i <= r.0,
{
    let ghost s = input.spec_bytes();
    let mut list: Vec<(&'a str, Option<&'a str>)> = Vec::new();
    let mut at: usize = i;
    loop
        invariant
            s == input.spec_bytes(),
            at_boundary(s, at as int),
            i <= at,
            attributes_at(s, i as int) == (
                attribute_models(list@) + attributes_at(s, at as int).0,
                attributes_at(s, at as int).1,
            ),
        decreases s.len() - at,
    {
        match spaced_attribute_from(input, at) {
            Ok((end, attribute)) => {
                proof {
                    assert(attribute_models(list@.push(attribute)) =~= attribute_models(list@)
                        + seq![attribute_model(attribute)]);
                    assert(attribute_models(list@) + (seq![attribute_model(attribute)]
                        + attributes_at(s, end as int).0) =~= attribute_models(list@) + seq![
                        attribute_model(attribute),
                    ] + attributes_at(s, end as int).0);
                }
                list.push(attribute);
                at = end;
            },
            Err(_) => {
                assert(attribute_models(list@) + Seq::<AttributeModel>::empty() =~= attribute_models(
                    list@,
                ));
                return (at, list);
            },
        }
    }
}

/// Reads an opening or void tag at byte `i` of `input`.
pub fn attributes_tag<'a>(input: &'a str, i: usize) -> (r: Result<(usize, HTMLTag<'a>), Stop>)
    requires
        at_boundary(input.spec_bytes(), i as int),
    ensures
        tag_read(input.spec_bytes(), r, attributes_tag_at(input.spec_bytes(), i as int)),
        r is Ok ==> i < r->Ok_0.0,
{
    let bytes = input.as_bytes();
    let _ = bytes.len();
    proof {
        encode_utf8_valid_utf8(input@);
    }
    if !peek(bytes, i, LESS_THAN) {
        return Err(Stop { at: i, kind: ParseErrorKind::Char });
    }
    proof {
        lemma_boundary_around_ascii(bytes@, i as int);
    }
    let name_end = match tag_name(input, i + 1) {
        Ok(end) => end,
        Err(stop) => { return Err(stop); },
    };
    let (attributes_end, attributes) = attributes(input, name_end);
    let (marked, last) = match void_delimiter(input, attributes_end) {
        Ok(end) => (true, end),
        Err(_) => (false, attributes_end),
    };
    if !peek(bytes, last, GREATER_THAN) {
        return Err(Stop { at: last, kind: ParseErrorKind::Char });
    }
    proof {
        lemma_boundary_around_ascii(bytes@, last as int);
    }
    let name = slice(input, i + 1, name_end);
    let kind = if marked || is_void_element(name) {
        HTMLTagKind::Void
    } else {
        HTMLTagKind::Open
    };
    Ok((last + 1, HTMLTag { kind, name, attributes }))
}

/// Reads a closing tag at byte `i` of `input`.
pub fn close_tag<'a>(input: &'a str, i: usize) -> (r: Result<(usize, HTMLTag<'a>), Stop>)
    requires
        at_boundary(input.spec_bytes(), i as int),
    ensures
        tag_read(input.spec_bytes(), r, close_tag_at(input.spec_bytes(), i as int)),
        r is Ok ==> i < r->Ok_0.0,
{
    let bytes = input.as_bytes();
    let _ = bytes.len();
    proof {
        encode_utf8_valid_utf8(input@);
    }
    if !peek(bytes, i, LESS_THAN) {
        return Err(Stop { at: i, kind: ParseErrorKind::Char });
    }
    proof {
        lemma_boundary_around_ascii(bytes@, i as int);
    }
    if !peek(bytes, i + 1, SLASH) {
        return Err(Stop { at: i + 1, kind: ParseErrorKind::Char });
    }
    proof {
        lemma_boundary_around_ascii(bytes@, i + 1);
    }
    let name_end = match tag_name(input, i + 2) {
        Ok(end) => end,
        Err(stop) => { return Err(stop); },
    };
    if !peek(bytes, name_end, GREATER_THAN) {
        return Err(Stop { at: name_end, kind: ParseErrorKind::Char });
    }
    proof {
        lemma_boundary_around_ascii(bytes@, name_end as int);
    }
    let tag = HTMLTag {
        kind: HTMLTagKind::Close,
        name: slice(input, i + 2, name_end),
        attributes: Vec::new(),
    };
    assert(tag@.attributes =~= Seq::<AttributeModel>::empty());
    Ok((name_end + 1, tag))
}

/// Reads a tag, behind any whitespace, at byte `i` of `input`.
pub fn tag_from<'a>(input: &'a str, i: usize) -> (r: Result<(usize, HTMLTag<'a>), Stop>)
    requires
        at_boundary(input.spec_bytes(), i as int),
    ensures
        tag_read(input.spec_bytes(), r, tag_at(input.spec_bytes(), i as int)),
        r is Ok ==> i < r->Ok_0.0,
{
    let bytes = input.as_bytes();
    proof {
        encode_utf8_valid_utf8(input@);
        lemma_run_end_boundary(bytes@, i as int, ByteClass::Whitespace);
    }
    let start = scan(bytes, i, ByteClass::Whitespace);
    match attributes_tag(input, start) {
        Ok(found) => Ok(found),
        Err(_) => close_tag(input, start),
    }
}

/// Reads a tag at the start of `input`, behind any whitespace.
///
/// The tag is void if it ends in ` /` or bears the name of a void element,
/// closing if it starts with `</`, else opening. A closing tag takes no
/// attributes. The rest of the input comes back with the tag.
pub fn parse_tag<'a>(input: &'a str) -> (r: Result<(&'a str, HTMLTag<'a>), ParseFailure<'a>>)
    ensures
        match r {
            Ok((rest, tag)) => {
                &&& tag_at(input.spec_bytes(), 0) matches Parsed::Match { end, value }
                &&& rest_is(input.spec_bytes(), rest, end)
                &&& tag@ == value
            },
            Err(failure) => failure_is(input.spec_bytes(), failure, tag_at(input.spec_bytes(), 0)),
        },
{
    proof {
        lemma_str_bytes(input);
    }
    match tag_from(input, 0) {
        Ok((end, tag)) => Ok((tail(input, end), tag)),
        Err(stop) => Err(fail(input, stop)),
    }
}

impl<'a> HTMLTag<'a> {
    /// Reads a tag at the start of `input`, as [`parse_tag`] does.
    pub fn parse(input: &'a str) -> (r: Result<(&'a str, HTMLTag<'a>), ParseFailure<'a>>)
        ensures
            match r {
                Ok((rest, tag)) => {
                    &&& tag_at(input.spec_bytes(), 0) matches Parsed::Match { end, value }
                    &&& rest_is(input.spec_bytes(), rest, end)
                    &&& tag@ == value
                },
                Err(failure) => failure_is(
                    input.spec_bytes(),
                    failure,
                    tag_at(input.spec_bytes(), 0),
                ),
            },
    {
        parse_tag(input)
    }
}

} // verus!

verus! {

/// Void normalization: a tag that was read and is no closing tag is void
/// exactly if it bears the void marker or the name of a void element, so a
/// void element is void with the marker and without it.
pub proof fn lemma_void_normalization(s: Seq<u8>, i: int)
    requires
        attributes_tag_at(s, i) is Match,
    ensures
        ({
            let tag = attributes_tag_at(s, i)->value;
            let name_end = tag_name_at(s, i + 1)->end;
            let marked = void_delimiter_at(s, attributes_at(s, name_end).1) is Match;
            &&& tag.kind != HTMLTagKind::Close
            &&& tag.kind == HTMLTagKind::Void <==> marked || is_void_name(tag.name)
            &&& is_void_name(tag.name) ==> tag.kind == HTMLTagKind::Void
            &&& marked ==> tag.kind == HTMLTagKind::Void
        }),
{
}

/// A closing tag takes no attributes: where `</` and a name are followed by
/// anything but `>`, no tag is read, and the mismatch lies at the first
/// byte behind the name.
pub proof fn lemma_close_tag_takes_no_attributes(s: Seq<u8>, i: int)
    requires
        byte_is(s, i, LESS_THAN),
        byte_is(s, i + 1, SLASH),
        tag_name_at(s, i + 2) is Match,
        !byte_is(s, tag_name_at(s, i + 2)->end, GREATER_THAN),
    ensures
        tag_at(s, i) == (Parsed::<TagModel>::Mismatch {
            at: tag_name_at(s, i + 2)->end,
            kind: ParseErrorKind::Char,
        }),
        i + 2 < tag_name_at(s, i + 2)->end <= s.len(),
{
    lemma_run_end(s, i + 2, ByteClass::Alphanumeric);
    assert(!ByteClass::Whitespace.contains(s[i]));
    assert(run_end(s, i, ByteClass::Whitespace) == i);
    assert(!ByteClass::Alphanumeric.contains(s[i + 1]));
    assert(run_end(s, i + 1, ByteClass::Alphanumeric) == i + 1);
}

/// A closing tag that was read has no attributes, and a tag that was read
/// has a name of at least one letter or digit.
pub proof fn lemma_tag_shape(s: Seq<u8>, i: int)
    requires
        0 <= i,
        tag_at(s, i) is Match,
    ensures
        ({
            let tag = tag_at(s, i)->value;
            &&& tag.name.len() > 0
            &&& forall|k: int|
                0 <= k < tag.name.len() ==> ByteClass::Alphanumeric.contains(#[trigger] tag.name[k])
            &&& tag.kind == HTMLTagKind::Close ==> tag.attributes.len() == 0
            &&& i < tag_at(s, i)->end <= s.len()
        }),
{
    lemma_run_end(s, i, ByteClass::Whitespace);
    let start = run_end(s, i, ByteClass::Whitespace);
    lemma_run_end(s, start + 1, ByteClass::Alphanumeric);
    lemma_run_end(s, start + 2, ByteClass::Alphanumeric);
    if attributes_tag_at(s, start) is Match {
        let name_end = run_end(s, start + 1, ByteClass::Alphanumeric);
        let name = s.subrange(start + 1, name_end);
        assert forall|k: int| 0 <= k < name.len() implies ByteClass::Alphanumeric.contains(
            #[trigger] name[k],
        ) by {
            assert(ByteClass::Alphanumeric.contains(s[start + 1 + k]));
        }
        lemma_attributes_end(s, name_end);
        lemma_run_end(s, attributes_at(s, name_end).1, ByteClass::Blank);
    } else {
        let name_end = run_end(s, start + 2, ByteClass::Alphanumeric);
        let name = s.subrange(start + 2, name_end);
        assert forall|k: int| 0 <= k < name.len() implies ByteClass::Alphanumeric.contains(
            #[trigger] name[k],
        ) by {
            assert(ByteClass::Alphanumeric.contains(s[start + 2 + k]));
        }
    }
}

/// Attributes end behind where they start, and inside the text.
pub proof fn lemma_attributes_end(s: Seq<u8>, i: int)
    requires
        0 <= i <= s.len(),
    ensures
        i <= attributes_at(s, i).1 <= s.len(),
    decreases s.len() - i,
{
    match spaced_attribute_at(s, i) {
        Parsed::Match { end, value } => {
            if i < end <= s.len() {
                lemma_attributes_end(s, end);
            }
        },
        Parsed::Mismatch { .. } => {},
    }
}

} // verus!
