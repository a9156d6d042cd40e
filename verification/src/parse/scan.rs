//! Runs of bytes of one class, single expected bytes and fixed words: the
//! pieces every construct of the grammar is made of.

use crate::text::{at_boundary, lemma_boundary_around_ascii, tail};
use vstd::prelude::*;
use vstd::string::*;
use vstd::utf8::*;

verus! {

/// `<`
pub const LESS_THAN: u8 = 0x3c;

/// `>`
pub const GREATER_THAN: u8 = 0x3e;

/// `/`
pub const SLASH: u8 = 0x2f;

/// `=`
pub const EQUALS: u8 = 0x3d;

/// `!`
pub const BANG: u8 = 0x21;

/// `-`
pub const DASH: u8 = 0x2d;

/// `"`
pub const DOUBLE_QUOTE: u8 = 0x22;

/// `'`
pub const SINGLE_QUOTE: u8 = 0x27;

/// A backtick.
pub const BACKTICK: u8 = 0x60;

/// A space.
pub const SPACE: u8 = 0x20;

/// A horizontal tab.
pub const TAB: u8 = 0x09;

/// A line feed.
pub const LINE_FEED: u8 = 0x0a;

/// A carriage return.
pub const CARRIAGE_RETURN: u8 = 0x0d;

/// A form feed.
pub const FORM_FEED: u8 = 0x0c;

/// The construct that was being read when a parse stopped.
#[derive(Debug, Eq, PartialEq, Clone, Copy)]
pub enum ParseErrorKind {
    /// One particular character.
    Char,
    /// A run of letters.
    Alpha,
    /// A run of letters and digits.
    AlphaNumeric,
    /// A run of spaces and tabs.
    Space,
    /// A run of spaces, tabs and line breaks.
    MultiSpace,
    /// A run of characters up to a delimiter.
    IsNot,
    /// One character out of a set.
    OneOf,
    /// A fixed word.
    Tag,
    /// Text up to a fixed word.
    TakeUntil,
    /// The end of the input.
    Eof,
}

/// A class of bytes that a run is made of.
#[derive(Debug, Eq, PartialEq, Clone, Copy)]
pub enum ByteClass {
    /// ASCII letters.
    Alphabetic,
    /// ASCII letters and digits.
    Alphanumeric,
    /// Space and tab.
    Blank,
    /// Space, tab, carriage return and line feed.
    Whitespace,
    /// Everything but `<`.
    Text,
    /// Everything but `>`.
    Declaration,
    /// Everything but `"`.
    DoubleQuoted,
    /// Everything but `'`.
    SingleQuoted,
    /// Everything but whitespace, form feed, quotes, `=`, `<`, `>` and
    /// backtick.
    Unquoted,
    /// Everything but a space.
    Word,
}

/// Where a parse of the bytes `s` ended: behind the construct, with the value
/// read, or at the byte that did not fit.
pub enum Parsed<T> {
    Match { end: int, value: T },
    Mismatch { at: int, kind: ParseErrorKind },
}

/// `A` to `Z` and `a` to `z`.
pub open spec fn is_alphabetic(b: u8) -> bool {
    (0x41 <= b <= 0x5a) || (0x61 <= b <= 0x7a)
}

/// `0` to `9`.
pub open spec fn is_digit(b: u8) -> bool {
    0x30 <= b <= 0x39
}

/// Space or tab.
pub open spec fn is_blank(b: u8) -> bool {
    b == SPACE || b == TAB
}

/// Space, tab, carriage return or line feed.
pub open spec fn is_whitespace(b: u8) -> bool {
    b == SPACE || b == TAB || b == CARRIAGE_RETURN || b == LINE_FEED
}

/// The bytes that end an unquoted attribute value.
pub open spec fn ends_unquoted(b: u8) -> bool {
    is_whitespace(b) || b == FORM_FEED || b == DOUBLE_QUOTE || b == SINGLE_QUOTE || b == EQUALS
        || b == LESS_THAN || b == GREATER_THAN || b == BACKTICK
}

impl ByteClass {
    /// Whether byte `b` belongs to the class.
    pub open spec fn contains(self, b: u8) -> bool {
        match self {
            ByteClass::Alphabetic => is_alphabetic(b),
            ByteClass::Alphanumeric => is_alphabetic(b) || is_digit(b),
            ByteClass::Blank => is_blank(b),
            ByteClass::Whitespace => is_whitespace(b),
            ByteClass::Text => b != LESS_THAN,
            ByteClass::Declaration => b != GREATER_THAN,
            ByteClass::DoubleQuoted => b != DOUBLE_QUOTE,
            ByteClass::SingleQuoted => b != SINGLE_QUOTE,
            ByteClass::Unquoted => !ends_unquoted(b),
            ByteClass::Word => b != SPACE,
        }
    }

    /// What is reported when a run of the class was expected and none is
    /// there.
    pub open spec fn missing(self) -> ParseErrorKind {
        match self {
            ByteClass::Alphabetic => ParseErrorKind::Alpha,
            ByteClass::Alphanumeric => ParseErrorKind::AlphaNumeric,
            ByteClass::Blank => ParseErrorKind::Space,
            ByteClass::Whitespace => ParseErrorKind::MultiSpace,
            _ => ParseErrorKind::IsNot,
        }
    }

    /// Whether byte `b` belongs to the class.
    pub fn has(self, b: u8) -> (r: bool)
        ensures
            r == self.contains(b),
    {
        let letter = (0x41 <= b && b <= 0x5a) || (0x61 <= b && b <= 0x7a);
        let digit = 0x30 <= b && b <= 0x39;
        let whitespace = b == SPACE || b == TAB || b == CARRIAGE_RETURN || b == LINE_FEED;
        match self {
            ByteClass::Alphabetic => letter,
            ByteClass::Alphanumeric => letter || digit,
            ByteClass::Blank => b == SPACE || b == TAB,
            ByteClass::Whitespace => whitespace,
            ByteClass::Text => b != LESS_THAN,
            ByteClass::Declaration => b != GREATER_THAN,
            ByteClass::DoubleQuoted => b != DOUBLE_QUOTE,
            ByteClass::SingleQuoted => b != SINGLE_QUOTE,
            ByteClass::Unquoted => !(whitespace || b == FORM_FEED || b == DOUBLE_QUOTE || b
                == SINGLE_QUOTE || b == EQUALS || b == LESS_THAN || b == GREATER_THAN || b
                == BACKTICK),
            ByteClass::Word => b != SPACE,
        }
    }

    /// What is reported when a run of the class was expected and none is
    /// there.
    pub fn missing_kind(self) -> (kind: ParseErrorKind)
        ensures
            kind == self.missing(),
    {
        match self {
            ByteClass::Alphabetic => ParseErrorKind::Alpha,
            ByteClass::Alphanumeric => ParseErrorKind::AlphaNumeric,
            ByteClass::Blank => ParseErrorKind::Space,
            ByteClass::Whitespace => ParseErrorKind::MultiSpace,
            _ => ParseErrorKind::IsNot,
        }
    }
}

/// The end of the longest run of bytes of `class` that starts at `i`.
pub open spec fn run_end(s: Seq<u8>, i: int, class: ByteClass) -> int
    decreases s.len() - i,
{
    if 0 <= i < s.len() && class.contains(s[i]) {
        run_end(s, i + 1, class)
    } else {
        i
    }
}

/// A run of at least one byte of `class` at `i`.
pub open spec fn run(s: Seq<u8>, i: int, class: ByteClass) -> Parsed<()> {
    if run_end(s, i, class) == i {
        Parsed::Mismatch { at: i, kind: class.missing() }
    } else {
        Parsed::Match { end: run_end(s, i, class), value: () }
    }
}

/// Whether the byte at `i` is `b`.
pub open spec fn byte_is(s: Seq<u8>, i: int, b: u8) -> bool {
    0 <= i < s.len() && s[i] == b
}

/// The run that starts at `i` lies inside `s`, is made of `class`, and cannot
/// be made longer.
pub proof fn lemma_run_end(s: Seq<u8>, i: int, class: ByteClass)
    ensures
        i <= run_end(s, i, class),
        i <= s.len() ==> run_end(s, i, class) <= s.len(),
        forall|k: int| i <= k < run_end(s, i, class) ==> class.contains(#[trigger] s[k]),
        0 <= run_end(s, i, class) < s.len() ==> !class.contains(s[run_end(s, i, class)]),
    decreases s.len() - i,
{
    if 0 <= i < s.len() && class.contains(s[i]) {
        lemma_run_end(s, i + 1, class);
    }
}

/// A run that starts at `i` and stops at the first byte outside the class,
/// found at `j`, ends at `j`.
pub proof fn lemma_run_end_is(s: Seq<u8>, i: int, j: int, class: ByteClass)
    requires
        0 <= i <= j <= s.len(),
        forall|k: int| i <= k < j ==> class.contains(#[trigger] s[k]),
        j < s.len() ==> !class.contains(s[j]),
    ensures
        run_end(s, i, class) == j,
    decreases j - i,
{
    if i < j {
        lemma_run_end_is(s, i + 1, j, class);
    }
}

/// In valid UTF-8, a run that starts where a character starts ends where one
/// starts.
pub proof fn lemma_run_end_boundary(s: Seq<u8>, i: int, class: ByteClass)
    requires
        valid_utf8(s),
        at_boundary(s, i),
    ensures
        at_boundary(s, run_end(s, i, class)),
{
    lemma_run_end(s, i, class);
    let j = run_end(s, i, class);
    if i < j {
        match class {
            ByteClass::Alphabetic | ByteClass::Alphanumeric | ByteClass::Blank
            | ByteClass::Whitespace => {
                assert(class.contains(s[j - 1]));
                lemma_boundary_around_ascii(s, j - 1);
            },
            _ => {},
        }
    }
}

/// Finds the end of the run of `class` that starts at `i`.
pub fn scan(bytes: &[u8], i: usize, class: ByteClass) -> (j: usize)
    requires
        i <= bytes@.len(),
    ensures
        j == run_end(bytes@, i as int, class),
        i <= j <= bytes@.len(),
{
    let mut j: usize = i;
    while j < bytes.len() && class.has(bytes[j])
        invariant
            i <= j <= bytes@.len(),
            forall|k: int| i <= k < j ==> class.contains(#[trigger] bytes@[k]),
        decreases bytes@.len() - j,
    {
        j = j + 1;
    }
    proof {
        lemma_run_end_is(bytes@, i as int, j as int, class);
    }
    j
}

/// Where a parse stopped, as a byte offset into the text, and on what.
#[derive(Debug, Eq, PartialEq, Clone, Copy)]
pub struct Stop {
    pub at: usize,
    pub kind: ParseErrorKind,
}

/// A failed parse: the text that was left, from the character that did not
/// fit, and the construct that was being read.
#[derive(Debug, Eq, PartialEq, Clone, Copy)]
pub struct ParseFailure<'a> {
    pub rest: &'a str,
    pub kind: ParseErrorKind,
}

/// `stop` is the mismatch `expected`, and lies where a character starts.
pub open spec fn stop_is<T>(s: Seq<u8>, stop: Stop, expected: Parsed<T>) -> bool {
    &&& expected == (Parsed::<T>::Mismatch { at: stop.at as int, kind: stop.kind })
    &&& at_boundary(s, stop.at as int)
}

/// `rest` is what `s` holds from byte `from` on.
pub open spec fn rest_is(s: Seq<u8>, rest: &str, from: int) -> bool {
    rest.spec_bytes() == s.subrange(from, s.len() as int)
}

/// `failure` is the mismatch `expected`.
pub open spec fn failure_is<T>(s: Seq<u8>, failure: ParseFailure, expected: Parsed<T>) -> bool {
    match expected {
        Parsed::Mismatch { at, kind } => rest_is(s, failure.rest, at) && failure.kind == kind,
        Parsed::Match { .. } => false,
    }
}

/// Turns a stop inside `input` into the failure that holds the rest of it.
pub fn fail<'a>(input: &'a str, stop: Stop) -> (failure: ParseFailure<'a>)
    requires
        at_boundary(input.spec_bytes(), stop.at as int),
    ensures
        rest_is(input.spec_bytes(), failure.rest, stop.at as int),
        failure.kind == stop.kind,
{
    ParseFailure { rest: tail(input, stop.at), kind: stop.kind }
}

/// Whether the byte at `i` is `b`.
pub fn peek(bytes: &[u8], i: usize, b: u8) -> (r: bool)
    ensures
        r == byte_is(bytes@, i as int, b),
{
    i < bytes.len() && bytes[i] == b
}

} // verus!
