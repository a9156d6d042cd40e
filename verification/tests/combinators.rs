// The grammar once more, written with nom's combinators, and held against
// the tokenizer on every short text over the characters that matter to it
// and on longer texts put together from fragments.

use html_parse::parse::{
    attribute_value, parse_all_parts, parse_comment_part, parse_doctype_part, parse_tag,
    spaced_attribute, ParseErrorKind, ParseFailure,
};
use html_parse::standard_elements::is_void_element;
use html_parse::{HTMLPart, HTMLTag, HTMLTagKind};
use nom::branch::alt;
use nom::bytes::complete::{is_not, tag, tag_no_case, take_until};
use nom::character::complete::{
    alpha1, alphanumeric1, char, multispace0, multispace1, one_of, space1,
};
use nom::combinator::{all_consuming, opt};
use nom::error::ErrorKind;
use nom::multi::many0;
use nom::sequence::tuple;
use nom::IResult;

fn nom_value_double_quoted(input: &str) -> IResult<&str, Option<&str>> {
    let (input, (_, _, value, _)) = tuple((char('='), char('"'), is_not("\""), char('"')))(input)?;
    Ok((input, Some(value)))
}

fn nom_value_single_quoted(input: &str) -> IResult<&str, Option<&str>> {
    let (input, (_, _, value, _)) =
        tuple((char('='), char('\''), is_not("'"), char('\'')))(input)?;
    Ok((input, Some(value)))
}

fn nom_value_unquoted(input: &str) -> IResult<&str, Option<&str>> {
    let (input, (_, value)) = tuple((char('='), is_not(" \u{0c}\t\r\n\"'=<>`")))(input)?;
    Ok((input, Some(value)))
}

fn nom_value_empty(input: &str) -> IResult<&str, Option<&str>> {
    let _ = one_of(" \t\r\n>")(input)?;
    Ok((input, None))
}

fn nom_value(input: &str) -> IResult<&str, Option<&str>> {
    alt((
        nom_value_double_quoted,
        nom_value_single_quoted,
        nom_value_unquoted,
        nom_value_empty,
    ))(input)
}

fn nom_attribute(input: &str) -> IResult<&str, (&str, Option<&str>)> {
    let (input, (_, name, value)) = tuple((space1, alpha1, nom_value))(input)?;
    Ok((input, (name, value)))
}

fn nom_void_delimiter(input: &str) -> IResult<&str, ()> {
    let (input, _) = tuple((space1, char('/')))(input)?;
    Ok((input, ()))
}

fn nom_attributes_tag(input: &str) -> IResult<&str, HTMLTag> {
    let (rest, (_, name, attributes, delimiter, _)) = tuple((
        char('<'),
        alphanumeric1,
        many0(nom_attribute),
        opt(nom_void_delimiter),
        char('>'),
    ))(input)?;
    let kind = if is_void_element(name) || delimiter.is_some() {
        HTMLTagKind::Void
    } else {
        HTMLTagKind::Open
    };
    Ok((
        rest,
        HTMLTag {
            kind,
            name,
            attributes,
        },
    ))
}

fn nom_close_tag(input: &str) -> IResult<&str, HTMLTag> {
    let (input, (_, _, name, _)) = tuple((char('<'), char('/'), alphanumeric1, char('>')))(input)?;
    Ok((
        input,
        HTMLTag {
            kind: HTMLTagKind::Close,
            name,
            attributes: Vec::new(),
        },
    ))
}

fn nom_tag(input: &str) -> IResult<&str, HTMLTag> {
    let (input, _) = multispace0(input)?;
    alt((nom_attributes_tag, nom_close_tag))(input)
}

fn nom_comment(input: &str) -> IResult<&str, HTMLPart> {
    let (input, (_, text, _)) = tuple((tag("<!--"), take_until("-->"), tag("-->")))(input)?;
    Ok((input, HTMLPart::Comment(text)))
}

fn nom_doctype(input: &str) -> IResult<&str, HTMLPart> {
    let (input, _) = tuple((
        tag("<!"),
        tag_no_case("doctype"),
        multispace1,
        is_not(">"),
        char('>'),
    ))(input)?;
    Ok((input, HTMLPart::DocType))
}

fn nom_tag_part(input: &str) -> IResult<&str, HTMLPart> {
    let (input, tag) = nom_tag(input)?;
    Ok((input, HTMLPart::Tag(tag)))
}

fn nom_text_part(input: &str) -> IResult<&str, HTMLPart> {
    let (input, text) = is_not("<")(input)?;
    Ok((input, HTMLPart::Text(text.into())))
}

fn nom_part(input: &str) -> IResult<&str, HTMLPart> {
    alt((nom_comment, nom_doctype, nom_tag_part, nom_text_part))(input)
}

fn nom_document(input: &str) -> IResult<&str, Vec<HTMLPart>> {
    all_consuming(many0(nom_part))(input)
}

fn kind_of(kind: ErrorKind) -> ParseErrorKind {
    match kind {
        ErrorKind::Char => ParseErrorKind::Char,
        ErrorKind::Alpha => ParseErrorKind::Alpha,
        ErrorKind::AlphaNumeric => ParseErrorKind::AlphaNumeric,
        ErrorKind::Space => ParseErrorKind::Space,
        ErrorKind::MultiSpace => ParseErrorKind::MultiSpace,
        ErrorKind::IsNot => ParseErrorKind::IsNot,
        ErrorKind::OneOf => ParseErrorKind::OneOf,
        ErrorKind::Tag => ParseErrorKind::Tag,
        ErrorKind::TakeUntil => ParseErrorKind::TakeUntil,
        ErrorKind::Eof => ParseErrorKind::Eof,
        other => panic!("a kind that the grammar cannot give: {:?}", other),
    }
}

fn expected<'a, T>(result: IResult<&'a str, T>) -> Result<(&'a str, T), ParseFailure<'a>> {
    match result {
        Ok(found) => Ok(found),
        Err(nom::Err::Error((rest, kind))) => Err(ParseFailure {
            rest,
            kind: kind_of(kind),
        }),
        Err(other) => panic!("an outcome that the grammar cannot give: {:?}", other.map(|e| e.1)),
    }
}

fn hold_against(text: &str) {
    assert_eq!(attribute_value(text), expected(nom_value(text)), "value of {:?}", text);
    assert_eq!(
        spaced_attribute(text),
        expected(nom_attribute(text)),
        "attribute of {:?}",
        text
    );
    assert_eq!(parse_tag(text), expected(nom_tag(text)), "tag of {:?}", text);
    assert_eq!(
        parse_comment_part(text),
        expected(nom_comment(text)),
        "comment of {:?}",
        text
    );
    assert_eq!(
        parse_doctype_part(text),
        expected(nom_doctype(text)),
        "doctype of {:?}",
        text
    );
    assert_eq!(
        parse_all_parts(text),
        expected(nom_document(text)),
        "document of {:?}",
        text
    );
}

fn every_text(alphabet: &[&str], longest: usize, check: &mut dyn FnMut(&str)) {
    let mut counters: Vec<usize> = Vec::new();
    loop {
        let mut text = String::new();
        for &c in &counters {
            text.push_str(alphabet[c]);
        }
        check(text.as_str());
        let mut at = 0;
        loop {
            if at == counters.len() {
                counters.push(0);
                break;
            }
            counters[at] += 1;
            if counters[at] < alphabet.len() {
                break;
            }
            counters[at] = 0;
            at += 1;
        }
        if counters.len() > longest {
            return;
        }
    }
}

#[test]
fn short_texts_over_the_punctuation() {
    let mut count: usize = 0;
    every_text(
        &["<", ">", "/", "=", "\"", "'", " ", "a", "-", "!"],
        5,
        &mut |text| {
            hold_against(text);
            count += 1;
        },
    );
    assert_eq!(count, 111111);
}

#[test]
fn short_texts_of_tags_and_attributes() {
    every_text(
        &["<", ">", "/", "=", "\"", " ", "\t", "\n", "b", "r", "1", "é", "`"],
        4,
        &mut |text| hold_against(text),
    );
}

#[test]
fn short_texts_of_fragments() {
    every_text(
        &[
            "<!--", "-->", "<!DOCTYPE", "<!doctype", " html", ">", "<p", "</p", " a=\"b\"",
            " c='d'", " e=f", " g", " /", "text", "\r\n", "<input", "<run command=\"x\"", "--",
            "<!", "日本",
        ],
        3,
        &mut |text| hold_against(text),
    );
}

#[test]
fn longer_texts_of_fragments() {
    let fragments = [
        "<!--", "-->", "<!DocType html>", "<!doctype x y>", "<html>", "</html>", "<p", ">",
        "</p>", " a=\"b c\"", " c='d\"e'", " e=f/g", " g", " />", "/>", "text & more", "\n  ",
        "\t", "<br>", "<br />", "<img src=\"./a.png\" alt>", "<run command=\"jq .\">",
        "</run>", "<", "=", "\"", "'", "`", "é", "<h1>", "</h1 >", "<a href=x>", "-", "!",
    ];
    let mut state: u64 = 0x2545f4914f6cdd1d;
    for _ in 0..4000 {
        let mut text = String::new();
        state ^= state << 13;
        state ^= state >> 7;
        state ^= state << 17;
        let pieces = 1 + (state % 12) as usize;
        for _ in 0..pieces {
            state ^= state << 13;
            state ^= state >> 7;
            state ^= state << 17;
            text.push_str(fragments[(state % fragments.len() as u64) as usize]);
        }
        hold_against(text.as_str());
    }
}

#[test]
fn doctype_word_takes_only_its_own_letters() {
    // Letters that fold to ASCII ones, and letters beside the word's own.
    for text in [
        "<!DOCTYPE html>",
        "<!\u{212a}OCTYPE html>",
        "<!DOCTYP\u{0045} html>",
        "<!DOCTYP\u{00c9} html>",
        "<!ԀOCTYPE html>",
        "<!DOCTYPE\u{00a0}html>",
        "<!DOCTYPE\u{0c}html>",
        "<!DOCTYPEhtml>",
        "<!DOCTYPE\nhtml\n>",
        "<!@OCTYPE html>",
        "<!dOCTYP% html>",
    ] {
        hold_against(text);
    }
}
