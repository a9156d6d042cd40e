use html_parse::parse::{parse_tag, ParseErrorKind, ParseFailure};
use html_parse::{HTMLTag, HTMLTagKind};

#[test]
fn parse_tag_open() {
    assert_eq!(
        parse_tag("<div>"),
        Ok((
            "",
            HTMLTag {
                kind: HTMLTagKind::Open,
                name: "div",
                attributes: Vec::new()
            }
        ))
    );
}

#[test]
fn open_alphanumeric() {
    assert_eq!(
        parse_tag("<h1>"),
        Ok((
            "",
            HTMLTag {
                kind: HTMLTagKind::Open,
                name: "h1",
                attributes: Vec::new()
            }
        ))
    );
}

#[test]
fn parse_tag_close() {
    assert_eq!(
        parse_tag("</div>"),
        Ok((
            "",
            HTMLTag {
                kind: HTMLTagKind::Close,
                name: "div",
                attributes: Vec::new()
            }
        ))
    );
}

#[test]
fn parse_tag_void_xhtml() {
    assert_eq!(
        parse_tag("<input />"),
        Ok((
            "",
            HTMLTag {
                kind: HTMLTagKind::Void,
                name: "input",
                attributes: Vec::new()
            }
        ))
    );
}

#[test]
fn parse_tag_void_html() {
    assert_eq!(
        parse_tag("<input>"),
        Ok((
            "",
            HTMLTag {
                kind: HTMLTagKind::Void,
                name: "input",
                attributes: Vec::new()
            }
        ))
    );
}

#[test]
fn parse_tag_open_with_attributes() {
    assert_eq!(
        parse_tag("<div id=\"main\" class=\"layout\">"),
        Ok((
            "",
            HTMLTag {
                kind: HTMLTagKind::Open,
                name: "div",
                attributes: vec![("id", Some("main")), ("class", Some("layout"))]
            }
        ))
    );
}

#[test]
fn parse_tag_void_with_attributes() {
    assert_eq!(
        parse_tag("<input type=\"radio\" class=\"custom-radio\" />"),
        Ok((
            "",
            HTMLTag {
                kind: HTMLTagKind::Void,
                name: "input",
                attributes: vec![("type", Some("radio")), ("class", Some("custom-radio"))]
            }
        ))
    );
}

#[test]
fn parse_tag_empty_error() {
    assert_eq!(
        parse_tag(""),
        Err(ParseFailure {
            rest: "",
            kind: ParseErrorKind::Char
        })
    );
}

#[test]
fn parse_tag_close_with_attributes_error() {
    assert_eq!(
        parse_tag("</div id=\"main\" class=\"layout\">"),
        Err(ParseFailure {
            rest: " id=\"main\" class=\"layout\">",
            kind: ParseErrorKind::Char
        })
    );
}

#[test]
fn parse_open() {
    assert_eq!(
        HTMLTag::parse("<div>"),
        Ok((
            "",
            HTMLTag {
                kind: HTMLTagKind::Open,
                name: "div",
                attributes: Vec::new()
            }
        ))
    );
}

#[test]
fn parse_close() {
    assert_eq!(
        HTMLTag::parse("</div>"),
        Ok((
            "",
            HTMLTag {
                kind: HTMLTagKind::Close,
                name: "div",
                attributes: Vec::new()
            }
        ))
    );
}

#[test]
fn parse_void() {
    assert_eq!(
        HTMLTag::parse("<input />"),
        Ok((
            "",
            HTMLTag {
                kind: HTMLTagKind::Void,
                name: "input",
                attributes: Vec::new()
            }
        ))
    );
}

#[test]
fn parse_open_with_attributes() {
    assert_eq!(
        HTMLTag::parse("<div id=\"main\" class=\"layout\">"),
        Ok((
            "",
            HTMLTag {
                kind: HTMLTagKind::Open,
                name: "div",
                attributes: vec![("id", Some("main")), ("class", Some("layout"))]
            }
        ))
    );
}

#[test]
fn parse_void_with_attributes() {
    assert_eq!(
        HTMLTag::parse("<input type=\"radio\" class=\"custom-radio\" />"),
        Ok((
            "",
            HTMLTag {
                kind: HTMLTagKind::Void,
                name: "input",
                attributes: vec![("type", Some("radio")), ("class", Some("custom-radio"))]
            }
        ))
    );
}

#[test]
fn parse_empty_error() {
    assert_eq!(
        HTMLTag::parse(""),
        Err(ParseFailure {
            rest: "",
            kind: ParseErrorKind::Char
        })
    );
}

#[test]
fn parse_close_with_attributes_error() {
    assert_eq!(
        HTMLTag::parse("</div id=\"main\" class=\"layout\">"),
        Err(ParseFailure {
            rest: " id=\"main\" class=\"layout\">",
            kind: ParseErrorKind::Char
        })
    );
}

#[test]
fn lib_open() {
    assert_eq!(
        HTMLTag::parse("<div>"),
        Ok((
            "",
            HTMLTag {
                kind: HTMLTagKind::Open,
                name: "div",
                attributes: Vec::new()
            }
        ))
    );
}

#[test]
fn lib_close() {
    assert_eq!(
        HTMLTag::parse("</div>"),
        Ok((
            "",
            HTMLTag {
                kind: HTMLTagKind::Close,
                name: "div",
                attributes: Vec::new()
            }
        ))
    );
}

#[test]
fn lib_void() {
    assert_eq!(
        HTMLTag::parse("<input />"),
        Ok((
            "",
            HTMLTag {
                kind: HTMLTagKind::Void,
                name: "input",
                attributes: Vec::new()
            }
        ))
    );
}

#[test]
fn lib_open_with_attributes() {
    assert_eq!(
        HTMLTag::parse("<div id=\"main\" class=\"layout\">"),
        Ok((
            "",
            HTMLTag {
                kind: HTMLTagKind::Open,
                name: "div",
                attributes: vec![("id", Some("main")), ("class", Some("layout"))]
            }
        ))
    );
}

#[test]
fn lib_void_with_attributes() {
    assert_eq!(
        HTMLTag::parse("<input type=\"radio\" class=\"custom-radio\" />"),
        Ok((
            "",
            HTMLTag {
                kind: HTMLTagKind::Void,
                name: "input",
                attributes: vec![("type", Some("radio")), ("class", Some("custom-radio"))]
            }
        ))
    );
}

#[test]
fn lib_empty_error() {
    assert_eq!(
        HTMLTag::parse(""),
        Err(ParseFailure {
            rest: "",
            kind: ParseErrorKind::Char
        })
    );
}

#[test]
fn lib_close_with_attributes_error() {
    assert_eq!(
        HTMLTag::parse("</div id=\"main\" class=\"layout\">"),
        Err(ParseFailure {
            rest: " id=\"main\" class=\"layout\">",
            kind: ParseErrorKind::Char
        })
    );
}

#[test]
fn void_wrong_xhtml() {
    // The marker on an element that is not void by its name: the tag is
    // void all the same.
    assert_eq!(
        parse_tag("<div />"),
        Ok((
            "",
            HTMLTag {
                kind: HTMLTagKind::Void,
                name: "div",
                attributes: Vec::new()
            }
        ))
    );
}

#[test]
fn void_marker_makes_any_tag_void() {
    assert_eq!(
        parse_tag("<div\t \t/>rest"),
        Ok((
            "rest",
            HTMLTag {
                kind: HTMLTagKind::Void,
                name: "div",
                attributes: Vec::new()
            }
        ))
    );
}

#[test]
fn every_void_element_is_void_without_marker() {
    for name in [
        "area", "base", "br", "col", "embed", "hr", "img", "input", "link", "meta", "param",
        "source", "track", "wbr",
    ] {
        let plain = format!("<{}>", name);
        let marked = format!("<{} />", name);
        for text in [plain.as_str(), marked.as_str()] {
            assert_eq!(
                parse_tag(text),
                Ok((
                    "",
                    HTMLTag {
                        kind: HTMLTagKind::Void,
                        name,
                        attributes: Vec::new()
                    }
                ))
            );
        }
    }
    for name in ["are", "brr", "Input", "BR", "inputs", "b", "div", "h1"] {
        let plain = format!("<{}>", name);
        assert_eq!(
            parse_tag(plain.as_str()),
            Ok((
                "",
                HTMLTag {
                    kind: HTMLTagKind::Open,
                    name,
                    attributes: Vec::new()
                }
            ))
        );
    }
}

#[test]
fn whitespace_before_a_tag_is_dropped() {
    assert_eq!(
        parse_tag(" \t\r\n<p>x"),
        Ok((
            "x",
            HTMLTag {
                kind: HTMLTagKind::Open,
                name: "p",
                attributes: Vec::new()
            }
        ))
    );
    // What was dropped does not come back with a failure.
    assert_eq!(
        parse_tag("  x"),
        Err(ParseFailure {
            rest: "x",
            kind: ParseErrorKind::Char
        })
    );
}

#[test]
fn tag_failures_are_those_of_the_closing_tag() {
    assert_eq!(
        parse_tag("<>"),
        Err(ParseFailure {
            rest: ">",
            kind: ParseErrorKind::Char
        })
    );
    assert_eq!(
        parse_tag("<div"),
        Err(ParseFailure {
            rest: "div",
            kind: ParseErrorKind::Char
        })
    );
    assert_eq!(
        parse_tag("</>"),
        Err(ParseFailure {
            rest: ">",
            kind: ParseErrorKind::AlphaNumeric
        })
    );
    assert_eq!(
        parse_tag("</div"),
        Err(ParseFailure {
            rest: "",
            kind: ParseErrorKind::Char
        })
    );
    assert_eq!(
        parse_tag("</div >"),
        Err(ParseFailure {
            rest: " >",
            kind: ParseErrorKind::Char
        })
    );
    assert_eq!(
        parse_tag("</é>"),
        Err(ParseFailure {
            rest: "é>",
            kind: ParseErrorKind::AlphaNumeric
        })
    );
}

#[test]
fn tag_with_all_attribute_forms() {
    assert_eq!(
        parse_tag("<a one=\"1 1\" two='2 \"2\"' three=3/3 four\tfive = six>"),
        Err(ParseFailure {
            rest: "a one=\"1 1\" two='2 \"2\"' three=3/3 four\tfive = six>",
            kind: ParseErrorKind::Char
        })
    );
    assert_eq!(
        parse_tag("<a one=\"1 1\" two='2 \"2\"' three=3/3 four\tfive>tail"),
        Ok((
            "tail",
            HTMLTag {
                kind: HTMLTagKind::Open,
                name: "a",
                attributes: vec![
                    ("one", Some("1 1")),
                    ("two", Some("2 \"2\"")),
                    ("three", Some("3/3")),
                    ("four", None),
                    ("five", None)
                ]
            }
        ))
    );
}

#[test]
fn attributes_keep_order_and_duplicates() {
    assert_eq!(
        parse_tag("<a b=1 a=2 b=3 b>"),
        Ok((
            "",
            HTMLTag {
                kind: HTMLTagKind::Open,
                name: "a",
                attributes: vec![("b", Some("1")), ("a", Some("2")), ("b", Some("3")), ("b", None)]
            }
        ))
    );
}

#[test]
fn tag_payloads_may_hold_any_characters() {
    assert_eq!(
        parse_tag("<a title=\"日本語 é\" alt='ü'>ß"),
        Ok((
            "ß",
            HTMLTag {
                kind: HTMLTagKind::Open,
                name: "a",
                attributes: vec![("title", Some("日本語 é")), ("alt", Some("ü"))]
            }
        ))
    );
}

#[test]
fn bare_attribute_needs_whitespace_or_the_end_of_the_tag() {
    // `disabled` is followed by `/`, so it is no attribute, and what is left
    // is no end of a tag.
    assert_eq!(
        parse_tag("<input disabled/>"),
        Err(ParseFailure {
            rest: "input disabled/>",
            kind: ParseErrorKind::Char
        })
    );
    assert_eq!(
        parse_tag("<input disabled />"),
        Ok((
            "",
            HTMLTag {
                kind: HTMLTagKind::Void,
                name: "input",
                attributes: vec![("disabled", None)]
            }
        ))
    );
}
