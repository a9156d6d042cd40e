//! Attributes: a name, and a value in one of four forms.

use super::scan::{
    byte_is, ends_unquoted, fail, failure_is, lemma_run_end, lemma_run_end_boundary, peek,
    rest_is, run, run_end, scan, stop_is, ByteClass, ParseErrorKind, ParseFailure, Parsed, Stop,
    CARRIAGE_RETURN, DOUBLE_QUOTE, EQUALS, GREATER_THAN, LINE_FEED, SINGLE_QUOTE, SPACE, TAB,
};
use crate::text::{at_boundary, lemma_boundary_around_ascii, lemma_str_bytes, slice, tail};
use crate::types::{attribute_model, value_model, AttributeModel};
use vstd::prelude::*;
use vstd::string::*;
use vstd::utf8::*;

verus! {

/// The bytes that may follow an attribute without a value.
pub open spec fn follows_bare_attribute(b: u8) -> bool {
    b == SPACE || b == TAB || b == CARRIAGE_RETURN || b == LINE_FEED || b == GREATER_THAN
}

/// `=`, a quote, a non-empty run without that quote, and the quote again.
pub open spec fn quoted_value_at(s: Seq<u8>, i: int, quote: u8, class: ByteClass) -> Parsed<
    Option<Seq<u8>>,
> {
    if !byte_is(s, i, EQUALS) {
        Parsed::Mismatch { at: i, kind: ParseErrorKind::Char }
    } else if !byte_is(s, i + 1, quote) {
        Parsed::Mismatch { at: i + 1, kind: ParseErrorKind::Char }
    } else {
        match run(s, i + 2, class) {
            Parsed::Mismatch { at, kind } => Parsed::Mismatch { at, kind },
            Parsed::Match { end, .. } => if !byte_is(s, end, quote) {
                Parsed::Mismatch { at: end, kind: ParseErrorKind::Char }
            } else {
                Parsed::Match { end: end + 1, value: Some(s.subrange(i + 2, end)) }
            },
        }
    }
}

/// `="value"`: the value holds no `"` and is not empty.
pub open spec fn attribute_value_double_quoted_at(s: Seq<u8>, i: int) -> Parsed<Option<Seq<u8>>> {
    quoted_value_at(s, i, DOUBLE_QUOTE, ByteClass::DoubleQuoted)
}

/// `='value'`: the value holds no `'` and is not empty.
pub open spec fn attribute_value_single_quoted_at(s: Seq<u8>, i: int) -> Parsed<Option<Seq<u8>>> {
    quoted_value_at(s, i, SINGLE_QUOTE, ByteClass::SingleQuoted)
}

/// `=value`: the value runs up to whitespace, a quote, `=`, `<`, `>` or a
/// backtick, and is not empty.
pub open spec fn attribute_value_unquoted_at(s: Seq<u8>, i: int) -> Parsed<Option<Seq<u8>>> {
    if !byte_is(s, i, EQUALS) {
        Parsed::Mismatch { at: i, kind: ParseErrorKind::Char }
    } else {
        match run(s, i + 1, ByteClass::Unquoted) {
            Parsed::Mismatch { at, kind } => Parsed::Mismatch { at, kind },
            Parsed::Match { end, .. } => Parsed::Match {
                end,
                value: Some(s.subrange(i + 1, end)),
            },
        }
    }
}

/// No value: the name is followed by whitespace or `>`, which is left where
/// it is.
pub open spec fn attribute_value_empty_at(s: Seq<u8>, i: int) -> Parsed<Option<Seq<u8>>> {
    if 0 <= i < s.len() && follows_bare_attribute(s[i]) {
        Parsed::Match { end: i, value: None }
    } else {
        Parsed::Mismatch { at: i, kind: ParseErrorKind::OneOf }
    }
}

/// The value of an attribute: the first of the four forms that fits, tried
/// as double-quoted, single-quoted, unquoted, none. Where none fits, the
/// mismatch is that of the last form.
pub open spec fn attribute_value_at(s: Seq<u8>, i: int) -> Parsed<Option<Seq<u8>>> {
    if attribute_value_double_quoted_at(s, i) is Match {
        attribute_value_double_quoted_at(s, i)
    } else if attribute_value_single_quoted_at(s, i) is Match {
        attribute_value_single_quoted_at(s, i)
    } else if attribute_value_unquoted_at(s, i) is Match {
        attribute_value_unquoted_at(s, i)
    } else {
        attribute_value_empty_at(s, i)
    }
}

/// An attribute with the blanks before it: spaces or tabs, a name of
/// letters, and a value.
pub open spec fn spaced_attribute_at(s: Seq<u8>, i: int) -> Parsed<AttributeModel> {
    match run(s, i, ByteClass::Blank) {
        Parsed::Mismatch { at, kind } => Parsed::Mismatch { at, kind },
        Parsed::Match { end: name_start, .. } => match run(s, name_start, ByteClass::Alphabetic) {
            Parsed::Mismatch { at, kind } => Parsed::Mismatch { at, kind },
            Parsed::Match { end: name_end, .. } => match attribute_value_at(s, name_end) {
                Parsed::Mismatch { at, kind } => Parsed::Mismatch { at, kind },
                Parsed::Match { end, value } => Parsed::Match {
                    end,
                    value: (s.subrange(name_start, name_end), value),
                },
            },
        },
    }
}

/// `r` is the outcome `expected` of reading a value from `s`.
pub open spec fn value_read(
    s: Seq<u8>,
    r: Result<(usize, Option<&str>), Stop>,
    expected: Parsed<Option<Seq<u8>>>,
) -> bool {
    match r {
        Ok((end, value)) => {
            &&& expected == (Parsed::Match { end: end as int, value: value_model(value) })
            &&& at_boundary(s, end as int)
        },
        Err(stop) => stop_is(s, stop, expected),
    }
}

/// `r` is the outcome `expected` of reading an attribute from `s`.
pub open spec fn attribute_read(
    s: Seq<u8>,
    r: Result<(usize, (&str, Option<&str>)), Stop>,
    expected: Parsed<AttributeModel>,
) -> bool {
    match r {
        Ok((end, attribute)) => {
            &&& expected == (Parsed::Match { end: end as int, value: attribute_model(attribute) })
            &&& at_boundary(s, end as int)
        },
        Err(stop) => stop_is(s, stop, expected),
    }
}

/// Reads a quoted value at byte `i` of `input`.
fn quoted_value<'a>(input: &'a str, i: usize, quote: u8, class: ByteClass) -> (r: Result<
    (usize, Option<&'a str>),
    Stop,
>)
    requires
        at_boundary(input.spec_bytes(), i as int),
        quote < 0x80,
    ensures
        value_read(
            input.spec_bytes(),
            r,
            quoted_value_at(input.spec_bytes(), i as int, quote, class),
        ),
{
    let bytes = input.as_bytes();
    let _ = bytes.len();
    proof {
        encode_utf8_valid_utf8(input@);
    }
    if !peek(bytes, i, EQUALS) {
        return Err(Stop { at: i, kind: ParseErrorKind::Char });
    }
    proof {
        lemma_boundary_around_ascii(bytes@, i as int);
    }
    if !peek(bytes, i + 1, quote) {
        return Err(Stop { at: i + 1, kind: ParseErrorKind::Char });
    }
    proof {
        lemma_boundary_around_ascii(bytes@, i + 1);
        lemma_run_end_boundary(bytes@, i + 2, class);
    }
    let end = scan(bytes, i + 2, class);
    if end == i + 2 {
        return Err(Stop { at: end, kind: class.missing_kind() });
    }
    if !peek(bytes, end, quote) {
        return Err(Stop { at: end, kind: ParseErrorKind::Char });
    }
    proof {
        lemma_boundary_around_ascii(bytes@, end as int);
    }
    Ok((end + 1, Some(slice(input, i + 2, end))))
}

/// Reads `="value"` at byte `i` of `input`.
pub fn attribute_value_double_quoted<'a>(input: &'a str, i: usize) -> (r: Result<
    (usize, Option<&'a str>),
    Stop,
>)
    requires
        at_boundary(input.spec_bytes(), i as int),
    ensures
        value_read(
            input.spec_bytes(),
            r,
            attribute_value_double_quoted_at(input.spec_bytes(), i as int),
        ),
{
    quoted_value(input, i, DOUBLE_QUOTE, ByteClass::DoubleQuoted)
}

/// Reads `='value'` at byte `i` of `input`.
pub fn attribute_value_single_quoted<'a>(input: &'a str, i: usize) -> (r: Result<
    (usize, Option<&'a str>),
    Stop,
>)
    requires
        at_boundary(input.spec_bytes(), i as int),
    ensures
        value_read(
            input.spec_bytes(),
            r,
            attribute_value_single_quoted_at(input.spec_bytes(), i as int),
        ),
{
    quoted_value(input, i, SINGLE_QUOTE, ByteClass::SingleQuoted)
}

/// Reads `=value` at byte `i` of `input`.
pub fn attribute_value_unquoted<'a>(input: &'a str, i: usize) -> (r: Result<
    (usize, Option<&'a str>),
    Stop,
>)
    requires
        at_boundary(input.spec_bytes(), i as int),
    ensures
        value_read(input.spec_bytes(), r, attribute_value_unquoted_at(input.spec_bytes(), i as int)),
{
    let bytes = input.as_bytes();
    let _ = bytes.len();
    proof {
        encode_utf8_valid_utf8(input@);
    }
    if !peek(bytes, i, EQUALS) {
        return Err(Stop { at: i, kind: ParseErrorKind::Char });
    }
    proof {
        lemma_boundary_around_ascii(bytes@, i as int);
        lemma_run_end_boundary(bytes@, i + 1, ByteClass::Unquoted);
    }
    let end = scan(bytes, i + 1, ByteClass::Unquoted);
    if end == i + 1 {
        return Err(Stop { at: end, kind: ParseErrorKind::IsNot });
    }
    Ok((end, Some(slice(input, i + 1, end))))
}

/// Reads the absence of a value at byte `i` of `input`.
pub fn attribute_value_empty<'a>(input: &'a str, i: usize) -> (r: Result<
    (usize, Option<&'a str>),
    Stop,
>)
    requires
        at_boundary(input.spec_bytes(), i as int),
    ensures
        value_read(input.spec_bytes(), r, attribute_value_empty_at(input.spec_bytes(), i as int)),
{
    let bytes = input.as_bytes();
    if i < bytes.len() {
        let b = bytes[i];
        if b == SPACE || b == TAB || b == CARRIAGE_RETURN || b == LINE_FEED || b == GREATER_THAN {
            return Ok((i, None));
        }
    }
    Err(Stop { at: i, kind: ParseErrorKind::OneOf })
}

/// Reads the value of an attribute at byte `i` of `input`.
pub fn attribute_value_from<'a>(input: &'a str, i: usize) -> (r: Result<
    (usize, Option<&'a str>),
    Stop,
>)
    requires
        at_boundary(input.spec_bytes(), i as int),
    ensures
        value_read(input.spec_bytes(), r, attribute_value_at(input.spec_bytes(), i as int)),
        r is Ok ==> i <= r->Ok_0.0 <= input.spec_bytes().len(),
{
    proof {
        lemma_run_end(input.spec_bytes(), i + 2, ByteClass::DoubleQuoted);
        lemma_run_end(input.spec_bytes(), i + 2, ByteClass::SingleQuoted);
        lemma_run_end(input.spec_bytes(), i + 1, ByteClass::Unquoted);
    }
    let double_quoted = attribute_value_double_quoted(input, i);
    if double_quoted.is_ok() {
        return double_quoted;
    }
    let single_quoted = attribute_value_single_quoted(input, i);
    if single_quoted.is_ok() {
        return single_quoted;
    }
    let unquoted = attribute_value_unquoted(input, i);
    if unquoted.is_ok() {
        return unquoted;
    }
    attribute_value_empty(input, i)
}

/// Reads the name of an attribute at byte `i` of `input`: a run of letters.
pub fn attribute_name(input: &str, i: usize) -> (r: Result<usize, Stop>)
    requires
        at_boundary(input.spec_bytes(), i as int),
    ensures
        match r {
            Ok(end) => {
                &&& run(input.spec_bytes(), i as int, ByteClass::Alphabetic) == (Parsed::Match {
                    end: end as int,
                    value: (),
                })
                &&& at_boundary(input.spec_bytes(), end as int)
            },
            Err(stop) => stop_is(
                input.spec_bytes(),
                stop,
                run(input.spec_bytes(), i as int, ByteClass::Alphabetic),
            ),
        },
{
    read_run(input, i, ByteClass::Alphabetic)
}

/// Reads a run of at least one byte of `class` at byte `i` of `input`.
pub fn read_run(input: &str, i: usize, class: ByteClass) -> (r: Result<usize, Stop>)
    requires
        at_boundary(input.spec_bytes(), i as int),
    ensures
        match r {
            Ok(end) => {
                &&& run(input.spec_bytes(), i as int, class) == (Parsed::Match {
                    end: end as int,
                    value: (),
                })
                &&& at_boundary(input.spec_bytes(), end as int)
                &&& i < end <= input.spec_bytes().len()
            },
            Err(stop) => stop_is(input.spec_bytes(), stop, run(input.spec_bytes(), i as int, class)),
        },
{
    let bytes = input.as_bytes();
    proof {
        encode_utf8_valid_utf8(input@);
        lemma_run_end_boundary(bytes@, i as int, class);
    }
    let end = scan(bytes, i, class);
    if end == i {
        Err(Stop { at: i, kind: class.missing_kind() })
    } else {
        Ok(end)
    }
}

/// Reads an attribute, with the blanks before it, at byte `i` of `input`.
pub fn spaced_attribute_from<'a>(input: &'a str, i: usize) -> (r: Result<
    (usize, (&'a str, Option<&'a str>)),
    Stop,
>)
    requires
        at_boundary(input.spec_bytes(), i as int),
    ensures
        attribute_read(input.spec_bytes(), r, spaced_attribute_at(input.spec_bytes(), i as int)),
        r is Ok ==> i < r->Ok_0.0 <= input.spec_bytes().len(),
{
    let name_start = match read_run(input, i, ByteClass::Blank) {
        Ok(end) => end,
        Err(stop) => { return Err(stop); },
    };
    let name_end = match attribute_name(input, name_start) {
        Ok(end) => end,
        Err(stop) => { return Err(stop); },
    };
    proof {
        lemma_run_end(input.spec_bytes(), name_start as int, ByteClass::Alphabetic);
    }
    match attribute_value_from(input, name_end) {
        Ok((end, value)) => Ok((end, (slice(input, name_start, name_end), value))),
        Err(stop) => Err(stop),
    }
}

/// Reads the value of an attribute at the start of `input`.
///
/// The value is the first that fits of `="..."`, `='...'`, `=...` and
/// nothing at all; the rest of the input comes back with it.
pub fn attribute_value<'a>(input: &'a str) -> (r: Result<
    (&'a str, Option<&'a str>),
    ParseFailure<'a>,
>)
    ensures
        match r {
            Ok((rest, value)) => {
                &&& attribute_value_at(input.spec_bytes(), 0) matches Parsed::Match { end, value: v }
                &&& rest_is(input.spec_bytes(), rest, end)
                &&& value_model(value) == v
            },
            Err(failure) => failure_is(
                input.spec_bytes(),
                failure,
                attribute_value_at(input.spec_bytes(), 0),
            ),
        },
{
    proof {
        lemma_str_bytes(input);
    }
    match attribute_value_from(input, 0) {
        Ok((end, value)) => Ok((tail(input, end), value)),
        Err(stop) => Err(fail(input, stop)),
    }
}

/// Reads an attribute, with the blanks before it, at the start of `input`.
pub fn spaced_attribute<'a>(input: &'a str) -> (r: Result<
    (&'a str, (&'a str, Option<&'a str>)),
    ParseFailure<'a>,
>)
    ensures
        match r {
            Ok((rest, attribute)) => {
                &&& spaced_attribute_at(input.spec_bytes(), 0) matches Parsed::Match {
                    end,
                    value,
                }
                &&& rest_is(input.spec_bytes(), rest, end)
                &&& attribute_model(attribute) == value
            },
            Err(failure) => failure_is(
                input.spec_bytes(),
                failure,
                spaced_attribute_at(input.spec_bytes(), 0),
            ),
        },
{
    proof {
        lemma_str_bytes(input);
    }
    match spaced_attribute_from(input, 0) {
        Ok((end, attribute)) => Ok((tail(input, end), attribute)),
        Err(stop) => Err(fail(input, stop)),
    }
}

} // verus!

verus! {

/// Precedence of the forms: the value is that of the first form that fits,
/// in the order double-quoted, single-quoted, unquoted, none.
pub proof fn lemma_attribute_value_precedence(s: Seq<u8>, i: int)
    ensures
        attribute_value_double_quoted_at(s, i) is Match ==> attribute_value_at(s, i)
            == attribute_value_double_quoted_at(s, i),
        attribute_value_double_quoted_at(s, i) is Mismatch && attribute_value_single_quoted_at(
            s,
            i,
        ) is Match ==> attribute_value_at(s, i) == attribute_value_single_quoted_at(s, i),
        attribute_value_double_quoted_at(s, i) is Mismatch && attribute_value_single_quoted_at(
            s,
            i,
        ) is Mismatch && attribute_value_unquoted_at(s, i) is Match ==> attribute_value_at(s, i)
            == attribute_value_unquoted_at(s, i),
        attribute_value_double_quoted_at(s, i) is Mismatch && attribute_value_single_quoted_at(
            s,
            i,
        ) is Mismatch && attribute_value_unquoted_at(s, i) is Mismatch ==> attribute_value_at(s, i)
            == attribute_value_empty_at(s, i),
{
}

/// No text fits two forms: a value that starts with a quote is never read as
/// an unquoted one, and the order of the forms decides nothing but the
/// mismatch that is reported.
pub proof fn lemma_attribute_forms_exclude_each_other(s: Seq<u8>, i: int)
    ensures
        !(attribute_value_double_quoted_at(s, i) is Match && attribute_value_single_quoted_at(
            s,
            i,
        ) is Match),
        !(attribute_value_double_quoted_at(s, i) is Match && attribute_value_unquoted_at(s, i)
            is Match),
        !(attribute_value_single_quoted_at(s, i) is Match && attribute_value_unquoted_at(s, i)
            is Match),
        attribute_value_empty_at(s, i) is Match ==> attribute_value_double_quoted_at(s, i)
            is Mismatch && attribute_value_single_quoted_at(s, i) is Mismatch
            && attribute_value_unquoted_at(s, i) is Mismatch,
        byte_is(s, i, EQUALS) && (byte_is(s, i + 1, DOUBLE_QUOTE) || byte_is(
            s,
            i + 1,
            SINGLE_QUOTE,
        )) ==> attribute_value_unquoted_at(s, i) is Mismatch,
{
    lemma_run_end(s, i + 1, ByteClass::Unquoted);
    if byte_is(s, i, EQUALS) && (byte_is(s, i + 1, DOUBLE_QUOTE) || byte_is(s, i + 1, SINGLE_QUOTE)) {
        assert(!ByteClass::Unquoted.contains(s[i + 1]));
        assert(run_end(s, i + 1, ByteClass::Unquoted) == i + 1);
    }
}

/// A value that was read holds at least one byte, and none that its form
/// rules out.
pub proof fn lemma_attribute_value_content(s: Seq<u8>, i: int)
    requires
        0 <= i,
        attribute_value_at(s, i) is Match,
    ensures
        i <= attribute_value_at(s, i)->end <= s.len(),
        match attribute_value_at(s, i)->value {
            Some(value) => {
                &&& value.len() > 0
                &&& attribute_value_double_quoted_at(s, i) is Match ==> forall|k: int|
                    0 <= k < value.len() ==> #[trigger] value[k] != DOUBLE_QUOTE
                &&& attribute_value_single_quoted_at(s, i) is Match ==> forall|k: int|
                    0 <= k < value.len() ==> #[trigger] value[k] != SINGLE_QUOTE
                &&& attribute_value_unquoted_at(s, i) is Match ==> forall|k: int|
                    0 <= k < value.len() ==> !ends_unquoted(#[trigger] value[k])
            },
            None => attribute_value_at(s, i)->end == i,
        },
{
    lemma_run_end(s, i + 2, ByteClass::DoubleQuoted);
    lemma_run_end(s, i + 2, ByteClass::SingleQuoted);
    lemma_run_end(s, i + 1, ByteClass::Unquoted);
    lemma_attribute_forms_exclude_each_other(s, i);
    if attribute_value_double_quoted_at(s, i) is Match {
        let end = run_end(s, i + 2, ByteClass::DoubleQuoted);
        let value = s.subrange(i + 2, end);
        assert forall|k: int| 0 <= k < value.len() implies #[trigger] value[k] != DOUBLE_QUOTE by {
            assert(ByteClass::DoubleQuoted.contains(s[i + 2 + k]));
        }
    } else if attribute_value_single_quoted_at(s, i) is Match {
        let end = run_end(s, i + 2, ByteClass::SingleQuoted);
        let value = s.subrange(i + 2, end);
        assert forall|k: int| 0 <= k < value.len() implies #[trigger] value[k] != SINGLE_QUOTE by {
            assert(ByteClass::SingleQuoted.contains(s[i + 2 + k]));
        }
    } else if attribute_value_unquoted_at(s, i) is Match {
        let end = run_end(s, i + 1, ByteClass::Unquoted);
        let value = s.subrange(i + 1, end);
        assert forall|k: int| 0 <= k < value.len() implies !ends_unquoted(#[trigger] value[k]) by {
            assert(ByteClass::Unquoted.contains(s[i + 1 + k]));
        }
    }
}

} // verus!
