//! What is handed to a command and what is made of its output. Running the
//! command is left to the caller.

use crate::embeds::HTMLEmbed;
use crate::parse::scan::{lemma_run_end, lemma_run_end_boundary, run_end, scan, ByteClass};
use crate::text::{at_boundary, lemma_boundary_around_ascii, lemma_str_bytes, slice, utf8};
use std::borrow::Cow;
use vstd::prelude::*;
use vstd::string::*;
use vstd::utf8::*;

verus! {

/// The shell that runs the command of a directive.
pub const SHELL: &'static str = "sh";

/// The option by which the shell takes a command as its argument.
pub const SHELL_COMMAND_OPTION: &'static str = "-c";

/// A program to start, the arguments to start it with, and the text to
/// write to its input, if any.
#[derive(Debug, PartialEq, Eq)]
pub struct CommandLine<'a> {
    pub program: &'a str,
    pub arguments: Vec<&'a str>,
    pub input: Option<&'a str>,
}

/// Whether `char::is_whitespace` holds of a character.
pub uninterp spec fn is_white_space(c: char) -> bool;

/// Calls `String::from_utf8`: the text that the bytes encode, or `None`
/// where they are no valid UTF-8.
#[verifier::external_body]
fn decode(bytes: Vec<u8>) -> (text: Option<String>)
    ensures
        match text {
            Some(decoded) => valid_utf8(bytes@) && utf8(decoded@) == bytes@,
            None => !valid_utf8(bytes@),
        },
{
    String::from_utf8(bytes).ok()
}

/// Calls `str::trim`: the text without the whitespace at its start and at
/// its end, whitespace being what `char::is_whitespace` says.
#[verifier::external_body]
fn trim<'a>(text: &'a str) -> (trimmed: &'a str)
    ensures
        trimmed_by(text@, trimmed@, |c: char| is_white_space(c)),
{
    text.trim()
}

/// `trimmed` is `text` without the characters at its start and at its end
/// of which `blank` holds.
pub open spec fn trimmed_by(text: Seq<char>, trimmed: Seq<char>, blank: spec_fn(char) -> bool) -> bool {
    exists|start: int, end: int|
        {
            &&& 0 <= start <= end <= text.len()
            &&& trimmed == #[trigger] text.subrange(start, end)
            &&& forall|i: int| 0 <= i < start ==> blank(#[trigger] text[i])
            &&& forall|i: int| end <= i < text.len() ==> blank(#[trigger] text[i])
            &&& start < end ==> !blank(text[start]) && !blank(text[end - 1])
        }
}

/// `trimmed` is `text` without the whitespace at its start and at its end.
pub open spec fn trimmed_is(text: Seq<char>, trimmed: Seq<char>) -> bool {
    trimmed_by(text, trimmed, |c: char| is_white_space(c))
}

/// The pieces of `s` from `i` on that single spaces part: as many as there
/// are spaces, and one more. Two spaces in a row part an empty piece.
pub open spec fn split_at_spaces(s: Seq<u8>, i: int) -> Seq<Seq<u8>>
    decreases s.len() - i,
{
    let end = run_end(s, i, ByteClass::Word);
    if 0 <= i <= end < s.len() {
        seq![s.subrange(i, end)] + split_at_spaces(s, end + 1)
    } else {
        seq![s.subrange(i, end)]
    }
}

/// The bytes of each string.
pub open spec fn argument_models(arguments: Seq<&str>) -> Seq<Seq<u8>> {
    arguments.map_values(|a: &str| a.spec_bytes())
}

/// The text of a request's input.
pub fn input_text<'b, 'a>(embed: &'b HTMLEmbed<'a>) -> (input: Option<&'b str>)
    ensures
        match input {
            Some(text) => embed@.input == Some(text.spec_bytes()),
            None => embed@.input is None,
        },
{
    match &embed.input {
        Some(Cow::Borrowed(text)) => Some(text),
        Some(Cow::Owned(text)) => Some(text.as_str()),
        None => None,
    }
}

/// How the command of a request is run: by the shell, which gets the
/// command as it stands and splits it itself, with the input of the request
/// as its input.
pub fn shell_command_line<'b, 'a>(embed: &'b HTMLEmbed<'a>) -> (line: CommandLine<'b>)
    ensures
        line.program@ == SHELL@,
        line.arguments@.len() == 2,
        line.arguments@[0]@ == SHELL_COMMAND_OPTION@,
        line.arguments@[1].spec_bytes() == embed@.command,
        match line.input {
            Some(text) => embed@.input == Some(text.spec_bytes()),
            None => embed@.input is None,
        },
{
    let mut arguments: Vec<&'b str> = Vec::new();
    arguments.push(SHELL_COMMAND_OPTION);
    arguments.push(embed.command);
    CommandLine { program: SHELL, arguments, input: input_text(embed) }
}

/// Splits a list of arguments at each single space.
pub fn split_arguments<'a>(arguments: &'a str) -> (pieces: Vec<&'a str>)
    ensures
        argument_models(pieces@) == split_at_spaces(arguments.spec_bytes(), 0),
        pieces@.len() >= 1,
{
    let ghost s = arguments.spec_bytes();
    let bytes = arguments.as_bytes();
    let n = bytes.len();
    let mut pieces: Vec<&'a str> = Vec::new();
    let mut at: usize = 0;
    proof {
        lemma_str_bytes(arguments);
        assert(argument_models(pieces@) + split_at_spaces(s, 0) =~= split_at_spaces(s, 0));
    }
    loop
        invariant
            s == arguments.spec_bytes(),
            bytes@ == s,
            n == s.len(),
            valid_utf8(s),
            at_boundary(s, at as int),
            split_at_spaces(s, 0) == argument_models(pieces@) + split_at_spaces(s, at as int),
        decreases s.len() - at,
    {
        proof {
            lemma_run_end_boundary(s, at as int, ByteClass::Word);
            lemma_run_end(s, at as int, ByteClass::Word);
        }
        let end = scan(bytes, at, ByteClass::Word);
        let piece = slice(arguments, at, end);
        proof {
            assert(argument_models(pieces@.push(piece)) =~= argument_models(pieces@).push(
                piece.spec_bytes(),
            ));
        }
        pieces.push(piece);
        if end < n {
            proof {
                lemma_boundary_around_ascii(s, end as int);
                assert(argument_models(pieces@) + split_at_spaces(s, end + 1) =~= argument_models(
                    pieces@,
                ).drop_last() + (seq![piece.spec_bytes()] + split_at_spaces(s, end + 1)));
            }
            at = end + 1;
        } else {
            proof {
                assert(argument_models(pieces@) =~= argument_models(pieces@).drop_last() + seq![
                    piece.spec_bytes(),
                ]);
            }
            return pieces;
        }
    }
}

/// How a program is run directly: with the arguments that single spaces
/// part in `arguments`, or with one empty argument where there are none, and
/// with `input` as its input.
pub fn direct_command_line<'a>(executable: &'a str, arguments: Option<&'a str>, input: &'a str) -> (line:
    CommandLine<'a>)
    ensures
        line.program == executable,
        argument_models(line.arguments@) == split_at_spaces(
            match arguments {
                Some(list) => list.spec_bytes(),
                None => Seq::<u8>::empty(),
            },
            0,
        ),
        line.input == Some(input),
{
    let list = match arguments {
        Some(list) => list,
        None => "",
    };
    proof {
        if arguments is None {
            reveal_strlit("");
            assert(""@.len() == 0);
            assert(list.spec_bytes() =~= Seq::<u8>::empty());
        }
    }
    CommandLine { program: executable, arguments: split_arguments(list), input: Some(input) }
}

/// What is made of the bytes that a command wrote: the text they encode,
/// without the whitespace at its start and at its end. `None` where they are
/// no valid UTF-8.
pub fn embed_output(written: Vec<u8>) -> (output: Option<String>)
    ensures
        match output {
            Some(text) => valid_utf8(written@) && trimmed_is(decode_utf8(written@), text@),
            None => !valid_utf8(written@),
        },
{
    match decode(written) {
        Some(text) => {
            proof {
                encode_utf8_decode_utf8(text@);
            }
            let trimmed = trim(text.as_str());
            Some(trimmed.to_owned())
        },
        None => None,
    }
}

} // verus!
