//! Comments: `<!--`, any text, and the first `-->` behind it.

use super::scan::{
    byte_is, fail, failure_is, peek, rest_is, stop_is, ParseErrorKind, ParseFailure, Parsed, Stop,
    BANG, DASH, GREATER_THAN, LESS_THAN,
};
use crate::text::{at_boundary, lemma_boundary_around_ascii, lemma_str_bytes, slice, tail};
use crate::types::{HTMLPart, PartModel};
use vstd::prelude::*;
use vstd::string::*;
use vstd::utf8::*;

verus! {

/// Whether `<!--` stands at `i`.
pub open spec fn comment_opens(s: Seq<u8>, i: int) -> bool {
    byte_is(s, i, LESS_THAN) && byte_is(s, i + 1, BANG) && byte_is(s, i + 2, DASH) && byte_is(
        s,
        i + 3,
        DASH,
    )
}

/// Whether `-->` stands at `i`.
pub open spec fn comment_closes(s: Seq<u8>, i: int) -> bool {
    byte_is(s, i, DASH) && byte_is(s, i + 1, DASH) && byte_is(s, i + 2, GREATER_THAN)
}

/// The first position from `i` on at which `-->` stands, if there is one.
pub open spec fn comment_close_from(s: Seq<u8>, i: int) -> Option<int>
    decreases s.len() - i,
{
    if i < 0 || i >= s.len() {
        None
    } else if comment_closes(s, i) {
        Some(i)
    } else {
        comment_close_from(s, i + 1)
    }
}

/// A comment: its text runs from behind `<!--` to the first `-->`, whatever
/// it holds.
pub open spec fn comment_at(s: Seq<u8>, i: int) -> Parsed<PartModel> {
    if !comment_opens(s, i) {
        Parsed::Mismatch { at: i, kind: ParseErrorKind::Tag }
    } else {
        match comment_close_from(s, i + 4) {
            None => Parsed::Mismatch { at: i + 4, kind: ParseErrorKind::TakeUntil },
            Some(close) => Parsed::Match {
                end: close + 3,
                value: PartModel::Comment(s.subrange(i + 4, close)),
            },
        }
    }
}

/// `r` is the outcome `expected` of reading a token from `s`.
pub open spec fn part_read(
    s: Seq<u8>,
    r: Result<(usize, HTMLPart), Stop>,
    expected: Parsed<PartModel>,
) -> bool {
    match r {
        Ok((end, part)) => {
            &&& expected == (Parsed::Match { end: end as int, value: part@ })
            &&& at_boundary(s, end as int)
        },
        Err(stop) => stop_is(s, stop, expected),
    }
}

/// Where no `-->` stands from `i` up to `j`, the search from `i` is the
/// search from `j`.
pub proof fn lemma_comment_close_skip(s: Seq<u8>, i: int, j: int)
    requires
        0 <= i <= j,
        forall|k: int| i <= k < j ==> !comment_closes(s, k),
    ensures
        comment_close_from(s, i) == comment_close_from(s, j),
    decreases j - i,
{
    if i < j {
        lemma_comment_close_skip(s, i + 1, j);
    }
}

/// No `-->` stands where fewer than three bytes are left.
pub proof fn lemma_comment_close_none(s: Seq<u8>, i: int)
    requires
        0 <= i,
        i + 3 > s.len(),
    ensures
        comment_close_from(s, i) is None,
    decreases s.len() - i,
{
    if i < s.len() {
        lemma_comment_close_none(s, i + 1);
    }
}

/// Finds the first `-->` from byte `i` on.
pub fn find_comment_close(bytes: &[u8], i: usize) -> (r: Option<usize>)
    requires
        i <= bytes@.len(),
    ensures
        match r {
            Some(close) => comment_close_from(bytes@, i as int) == Some(close as int) && i <= close
                && close + 3 <= bytes@.len() && comment_closes(bytes@, close as int),
            None => comment_close_from(bytes@, i as int) is None,
        },
{
    let n = bytes.len();
    let mut j: usize = i;
    while j < n && n - j >= 3
        invariant
            i <= j <= n,
            n == bytes@.len(),
            forall|k: int| i <= k < j ==> !comment_closes(bytes@, k),
        decreases n - j,
    {
        if bytes[j] == DASH && bytes[j + 1] == DASH && bytes[j + 2] == GREATER_THAN {
            proof {
                lemma_comment_close_skip(bytes@, i as int, j as int);
            }
            return Some(j);
        }
        j = j + 1;
    }
    proof {
        lemma_comment_close_skip(bytes@, i as int, j as int);
        lemma_comment_close_none(bytes@, j as int);
    }
    None
}

/// Reads a comment at byte `i` of `input`.
pub fn comment_from<'a>(input: &'a str, i: usize) -> (r: Result<(usize, HTMLPart<'a>), Stop>)
    requires
        at_boundary(input.spec_bytes(), i as int),
    ensures
        part_read(input.spec_bytes(), r, comment_at(input.spec_bytes(), i as int)),
        r is Ok ==> i < r->Ok_0.0,
{
    let bytes = input.as_bytes();
    let _ = bytes.len();
    proof {
        encode_utf8_valid_utf8(input@);
    }
    if !(peek(bytes, i, LESS_THAN) && peek(bytes, i + 1, BANG) && peek(bytes, i + 2, DASH) && peek(
        bytes,
        i + 3,
        DASH,
    )) {
        return Err(Stop { at: i, kind: ParseErrorKind::Tag });
    }
    proof {
        lemma_boundary_around_ascii(bytes@, i + 3);
    }
    match find_comment_close(bytes, i + 4) {
        None => Err(Stop { at: i + 4, kind: ParseErrorKind::TakeUntil }),
        Some(close) => {
            proof {
                lemma_boundary_around_ascii(bytes@, close as int);
                lemma_boundary_around_ascii(bytes@, close + 2);
            }
            Ok((close + 3, HTMLPart::Comment(slice(input, i + 4, close))))
        },
    }
}

/// Reads a comment at the start of `input`.
///
/// The comment ends at the first `-->`; what stands before it is its text,
/// dashes and all. The rest of the input comes back with the token.
pub fn parse_comment_part<'a>(input: &'a str) -> (r: Result<
    (&'a str, HTMLPart<'a>),
    ParseFailure<'a>,
>)
    ensures
        match r {
            Ok((rest, part)) => {
                &&& comment_at(input.spec_bytes(), 0) matches Parsed::Match { end, value }
                &&& rest_is(input.spec_bytes(), rest, end)
                &&& part@ == value
            },
            Err(failure) => failure_is(input.spec_bytes(), failure, comment_at(input.spec_bytes(), 0)),
        },
{
    proof {
        lemma_str_bytes(input);
    }
    match comment_from(input, 0) {
        Ok((end, part)) => Ok((tail(input, end), part)),
        Err(stop) => Err(fail(input, stop)),
    }
}

} // verus!
