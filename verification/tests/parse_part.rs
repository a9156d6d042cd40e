use html_parse::parse::{
    parse_all_parts, parse_comment_part, parse_doctype_part, ParseErrorKind, ParseFailure,
};
use html_parse::{format_html, parse_html, HTMLPart, HTMLTag, HTMLTagKind, ParseHTMLError};

#[test]
fn parse_part_only_text() {
    assert_eq!(
        parse_html("No tags, just text."),
        Ok(vec![HTMLPart::Text("No tags, just text.".into())]),
    );
    assert_eq!(
        parse_all_parts("No tags, just text."),
        Ok(("", vec![HTMLPart::Text("No tags, just text.".into())]))
    );
}

#[test]
fn parse_part_tag_with_text() {
    let expected = || {
        vec![
            HTMLPart::Text("Outside ".into()),
            HTMLPart::Tag(HTMLTag {
                kind: HTMLTagKind::Open,
                name: "p",
                attributes: vec![("class", Some("test")), ("toggle", None)],
            }),
            HTMLPart::Text("Some content.".into()),
            HTMLPart::Tag(HTMLTag {
                kind: HTMLTagKind::Close,
                name: "p",
                attributes: vec![],
            }),
            HTMLPart::Text(" text".into()),
        ]
    };
    assert_eq!(
        parse_html("Outside <p class=\"test\" toggle>Some content.</p> text"),
        Ok(expected()),
    );
    assert_eq!(
        parse_all_parts("Outside <p class=\"test\" toggle>Some content.</p> text"),
        Ok(("", expected()))
    );
}

#[test]
fn parse_part_nested_tags() {
    let expected = || {
        vec![
            HTMLPart::Tag(HTMLTag {
                kind: HTMLTagKind::Open,
                name: "form",
                attributes: vec![],
            }),
            HTMLPart::Tag(HTMLTag {
                kind: HTMLTagKind::Open,
                name: "label",
                attributes: vec![],
            }),
            HTMLPart::Text("Radio".into()),
            HTMLPart::Tag(HTMLTag {
                kind: HTMLTagKind::Close,
                name: "label",
                attributes: vec![],
            }),
            HTMLPart::Tag(HTMLTag {
                kind: HTMLTagKind::Void,
                name: "input",
                attributes: vec![("type", Some("radio"))],
            }),
            HTMLPart::Tag(HTMLTag {
                kind: HTMLTagKind::Close,
                name: "form",
                attributes: vec![],
            }),
        ]
    };
    assert_eq!(
        parse_html("<form><label>Radio</label><input type=\"radio\"></form>"),
        Ok(expected())
    );
    assert_eq!(
        parse_all_parts("<form><label>Radio</label><input type=\"radio\"></form>"),
        Ok(("", expected()))
    );
}

#[test]
fn comment_empty() {
    assert_eq!(
        parse_comment_part("<!---->"),
        Ok(("", HTMLPart::Comment("")))
    );
}

#[test]
fn comment_with_text() {
    assert_eq!(
        parse_comment_part("<!-- Here's a comment\n with a newline -->"),
        Ok(("", HTMLPart::Comment(" Here's a comment\n with a newline ")))
    );
}

#[test]
fn comment_with_bad_contents() {
    assert_eq!(
        parse_comment_part("<!--><!--->"),
        Ok(("", HTMLPart::Comment("><!-")))
    );
}

#[test]
fn doctype_upper() {
    assert_eq!(
        parse_doctype_part("<!DOCTYPE html>"),
        Ok(("", HTMLPart::DocType))
    );
}

#[test]
fn doctype_lower() {
    assert_eq!(
        parse_doctype_part("<!doctype html>"),
        Ok(("", HTMLPart::DocType))
    );
}

#[test]
fn doctype_with_legacy() {
    assert_eq!(
        parse_doctype_part("<!DOCTYPE html SYSTEM \"about:legacy-compat\">"),
        Ok(("", HTMLPart::DocType))
    );
}

#[test]
fn comment_ends_at_the_first_close() {
    assert_eq!(
        parse_comment_part("<!--a--b-->c-->d"),
        Ok(("c-->d", HTMLPart::Comment("a--b")))
    );
    assert_eq!(
        parse_comment_part("<!----->"),
        Ok(("", HTMLPart::Comment("-")))
    );
    assert_eq!(
        parse_comment_part("<!--é-->"),
        Ok(("", HTMLPart::Comment("é")))
    );
}

#[test]
fn comment_failures() {
    for text in ["", "<", "<!-", "<!- -", "x<!---->", " <!---->"] {
        assert_eq!(
            parse_comment_part(text),
            Err(ParseFailure {
                rest: text,
                kind: ParseErrorKind::Tag
            })
        );
    }
    assert_eq!(
        parse_comment_part("<!--never closed --"),
        Err(ParseFailure {
            rest: "never closed --",
            kind: ParseErrorKind::TakeUntil
        })
    );
    assert_eq!(
        parse_comment_part("<!--"),
        Err(ParseFailure {
            rest: "",
            kind: ParseErrorKind::TakeUntil
        })
    );
}

#[test]
fn doctype_in_any_mix_of_cases() {
    assert_eq!(
        parse_doctype_part("<!DocType\r\n\t html>rest"),
        Ok(("rest", HTMLPart::DocType))
    );
    assert_eq!(
        parse_doctype_part("<!dOCTYPe x>"),
        Ok(("", HTMLPart::DocType))
    );
}

#[test]
fn doctype_failures() {
    assert_eq!(
        parse_doctype_part("<?DOCTYPE html>"),
        Err(ParseFailure {
            rest: "<?DOCTYPE html>",
            kind: ParseErrorKind::Tag
        })
    );
    assert_eq!(
        parse_doctype_part("<!DOCTYPA html>"),
        Err(ParseFailure {
            rest: "DOCTYPA html>",
            kind: ParseErrorKind::Tag
        })
    );
    assert_eq!(
        parse_doctype_part("<!DOC"),
        Err(ParseFailure {
            rest: "DOC",
            kind: ParseErrorKind::Tag
        })
    );
    assert_eq!(
        parse_doctype_part("<!DOCTYPEhtml>"),
        Err(ParseFailure {
            rest: "html>",
            kind: ParseErrorKind::MultiSpace
        })
    );
    assert_eq!(
        parse_doctype_part("<!DOCTYPE >"),
        Err(ParseFailure {
            rest: ">",
            kind: ParseErrorKind::IsNot
        })
    );
    assert_eq!(
        parse_doctype_part("<!DOCTYPE "),
        Err(ParseFailure {
            rest: "",
            kind: ParseErrorKind::IsNot
        })
    );
    assert_eq!(
        parse_doctype_part("<!DOCTYPE html"),
        Err(ParseFailure {
            rest: "",
            kind: ParseErrorKind::Char
        })
    );
}

#[test]
fn empty_text_is_an_empty_document() {
    assert_eq!(parse_html(""), Ok(vec![]));
    assert_eq!(parse_all_parts(""), Ok(("", vec![])));
}

#[test]
fn lone_close_tag_is_a_document() {
    let parts = parse_html("</div>").unwrap();
    assert_eq!(
        parts,
        vec![HTMLPart::Tag(HTMLTag {
            kind: HTMLTagKind::Close,
            name: "div",
            attributes: vec![],
        })]
    );
    assert_eq!(format_html(&parts), "</div>");
}

#[test]
fn full_document_scenario() {
    let parts = parse_html("<!DOCTYPE html><p class=\"a\">hi</p>").unwrap();
    assert_eq!(
        parts,
        vec![
            HTMLPart::DocType,
            HTMLPart::Tag(HTMLTag {
                kind: HTMLTagKind::Open,
                name: "p",
                attributes: vec![("class", Some("a"))],
            }),
            HTMLPart::Text("hi".into()),
            HTMLPart::Tag(HTMLTag {
                kind: HTMLTagKind::Close,
                name: "p",
                attributes: vec![],
            }),
        ]
    );
    assert_eq!(format_html(&parts), "<!DOCTYPE html>\n<p class=\"a\">hi</p>");
}

#[test]
fn document_that_ends_early_fails_with_what_is_left() {
    assert_eq!(
        parse_html("<p>ok</p><"),
        Err(ParseHTMLError {
            remainder: "<".to_string(),
            kind: ParseErrorKind::Eof
        })
    );
    assert_eq!(
        parse_all_parts("text</div id=\"main\">more"),
        Err(ParseFailure {
            rest: "</div id=\"main\">more",
            kind: ParseErrorKind::Eof
        })
    );
    assert_eq!(
        parse_html("<!-- open"),
        Err(ParseHTMLError {
            remainder: "<!-- open".to_string(),
            kind: ParseErrorKind::Eof
        })
    );
    assert_eq!(
        parse_html("a<b c=\"d>"),
        Err(ParseHTMLError {
            remainder: "<b c=\"d>".to_string(),
            kind: ParseErrorKind::Eof
        })
    );
}

#[test]
fn whitespace_before_a_tag_is_no_token() {
    assert_eq!(
        parse_html("<a>\n  <b>\n  </b>\n</a>"),
        Ok(vec![
            HTMLPart::Tag(HTMLTag {
                kind: HTMLTagKind::Open,
                name: "a",
                attributes: vec![],
            }),
            HTMLPart::Tag(HTMLTag {
                kind: HTMLTagKind::Open,
                name: "b",
                attributes: vec![],
            }),
            HTMLPart::Tag(HTMLTag {
                kind: HTMLTagKind::Close,
                name: "b",
                attributes: vec![],
            }),
            HTMLPart::Tag(HTMLTag {
                kind: HTMLTagKind::Close,
                name: "a",
                attributes: vec![],
            }),
        ])
    );
    // Before a comment it is text, and so it is at the end.
    assert_eq!(
        parse_html(" <!--c--> "),
        Ok(vec![
            HTMLPart::Text(" ".into()),
            HTMLPart::Comment("c"),
            HTMLPart::Text(" ".into()),
        ])
    );
}

#[test]
fn comment_and_doctype_come_before_tag_and_text() {
    assert_eq!(
        parse_html("<!--<p>--><!doctype html>x"),
        Ok(vec![
            HTMLPart::Comment("<p>"),
            HTMLPart::DocType,
            HTMLPart::Text("x".into()),
        ])
    );
}

#[test]
fn canonical_text_comes_back_unchanged() {
    let text = "\
<!DOCTYPE html>
<html>
  <header>
    <title>Title</title>
    <link rel=\"stylesheet\" href=\"./styles.css\" />
  </header>
  <body>
    <h1>Header</h1>
    <p>Two lines<br />of <em>text</em>.</p>
  </body>
</html>";
    let parts = parse_html(text).unwrap();
    assert_eq!(format_html(&parts), text);
}

#[test]
fn parse_error_as_a_sentence() {
    let error = parse_html("<p>ok</p><oops").unwrap_err();
    assert_eq!(error.message(), "Parsing Error: unexpected input: <oops");
    let error = ParseHTMLError {
        remainder: String::new(),
        kind: ParseErrorKind::Eof,
    };
    assert_eq!(error.message(), "Parsing Error: unexpected input: ");
}
