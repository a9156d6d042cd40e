//! The document type declaration.

use super::parse_attribute::read_run;
use super::parse_comment::part_read;
use super::scan::{
    byte_is, fail, failure_is, peek, rest_is, run, ByteClass, ParseErrorKind,
    ParseFailure, Parsed, Stop, BANG, GREATER_THAN, LESS_THAN,
};
use crate::text::{at_boundary, lemma_boundary_around_ascii, lemma_str_bytes, tail};
use crate::types::{HTMLPart, PartModel};
use vstd::prelude::*;
use vstd::string::*;
use vstd::utf8::*;

verus! {

/// Whether the byte at `i` is the lower-case ASCII letter `lower` or its
/// upper-case form.
pub open spec fn letter_is(s: Seq<u8>, i: int, lower: u8) -> bool {
    byte_is(s, i, lower) || byte_is(s, i, (lower - 0x20) as u8)
}

/// Whether the word `doctype` stands at `i`, in any mix of cases.
pub open spec fn doctype_word(s: Seq<u8>, i: int) -> bool {
    &&& letter_is(s, i, 'd' as u8)
    &&& letter_is(s, i + 1, 'o' as u8)
    &&& letter_is(s, i + 2, 'c' as u8)
    &&& letter_is(s, i + 3, 't' as u8)
    &&& letter_is(s, i + 4, 'y' as u8)
    &&& letter_is(s, i + 5, 'p' as u8)
    &&& letter_is(s, i + 6, 'e' as u8)
}

/// A document type declaration: `<!`, the word `doctype`, whitespace,
/// something that is declared, and `>`. What is declared is not kept.
pub open spec fn doctype_at(s: Seq<u8>, i: int) -> Parsed<PartModel> {
    if !(byte_is(s, i, LESS_THAN) && byte_is(s, i + 1, BANG)) {
        Parsed::Mismatch { at: i, kind: ParseErrorKind::Tag }
    } else if !doctype_word(s, i + 2) {
        Parsed::Mismatch { at: i + 2, kind: ParseErrorKind::Tag }
    } else {
        match run(s, i + 9, ByteClass::Whitespace) {
            Parsed::Mismatch { at, kind } => Parsed::Mismatch { at, kind },
            Parsed::Match { end: declared, .. } => match run(s, declared, ByteClass::Declaration) {
                Parsed::Mismatch { at, kind } => Parsed::Mismatch { at, kind },
                Parsed::Match { end: last, .. } => if byte_is(s, last, GREATER_THAN) {
                    Parsed::Match { end: last + 1, value: PartModel::DocType }
                } else {
                    Parsed::Mismatch { at: last, kind: ParseErrorKind::Char }
                },
            },
        }
    }
}

/// Whether the byte at `i` is the letter `lower` in either case.
fn peek_letter(bytes: &[u8], i: usize, lower: u8) -> (r: bool)
    requires
        0x61 <= lower <= 0x7a,
    ensures
        r == letter_is(bytes@, i as int, lower),
{
    i < bytes.len() && (bytes[i] == lower || bytes[i] == lower - 0x20)
}

/// Reads a document type declaration at byte `i` of `input`.
pub fn doctype_from<'a>(input: &'a str, i: usize) -> (r: Result<(usize, HTMLPart<'a>), Stop>)
    requires
        at_boundary(input.spec_bytes(), i as int),
    ensures
        part_read(input.spec_bytes(), r, doctype_at(input.spec_bytes(), i as int)),
        r is Ok ==> i < r->Ok_0.0,
{
    let bytes = input.as_bytes();
    let _ = bytes.len();
    proof {
        encode_utf8_valid_utf8(input@);
    }
    if !(peek(bytes, i, LESS_THAN) && peek(bytes, i + 1, BANG)) {
        return Err(Stop { at: i, kind: ParseErrorKind::Tag });
    }
    proof {
        lemma_boundary_around_ascii(bytes@, i + 1);
    }
    if !(peek_letter(bytes, i + 2, 'd' as u8) && peek_letter(bytes, i + 3, 'o' as u8)
        && peek_letter(bytes, i + 4, 'c' as u8) && peek_letter(bytes, i + 5, 't' as u8)
        && peek_letter(bytes, i + 6, 'y' as u8) && peek_letter(bytes, i + 7, 'p' as u8)
        && peek_letter(bytes, i + 8, 'e' as u8)) {
        return Err(Stop { at: i + 2, kind: ParseErrorKind::Tag });
    }
    proof {
        lemma_boundary_around_ascii(bytes@, i + 8);
    }
    let declared = match read_run(input, i + 9, ByteClass::Whitespace) {
        Ok(end) => end,
        Err(stop) => { return Err(stop); },
    };
    let last = match read_run(input, declared, ByteClass::Declaration) {
        Ok(end) => end,
        Err(stop) => { return Err(stop); },
    };
    if !peek(bytes, last, GREATER_THAN) {
        return Err(Stop { at: last, kind: ParseErrorKind::Char });
    }
    proof {
        lemma_boundary_around_ascii(bytes@, last as int);
    }
    Ok((last + 1, HTMLPart::DocType))
}

/// Reads a document type declaration at the start of `input`.
///
/// Only that there is one is kept. The rest of the input comes back with
/// the token.
pub fn parse_doctype_part<'a>(input: &'a str) -> (r: Result<
    (&'a str, HTMLPart<'a>),
    ParseFailure<'a>,
>)
    ensures
        match r {
            Ok((rest, part)) => {
                &&& doctype_at(input.spec_bytes(), 0) matches Parsed::Match { end, value }
                &&& rest_is(input.spec_bytes(), rest, end)
                &&& part@ == value
            },
            Err(failure) => failure_is(input.spec_bytes(), failure, doctype_at(input.spec_bytes(), 0)),
        },
{
    proof {
        lemma_str_bytes(input);
    }
    match doctype_from(input, 0) {
        Ok((end, part)) => Ok((tail(input, end), part)),
        Err(stop) => Err(fail(input, stop)),
    }
}

} // verus!
