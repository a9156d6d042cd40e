use html_parse::markdown::{
    arguments_attribute, do_parse, event_step, parse_events, tag_of_event, EmbedParsing,
    EmbedRequest, MarkdownEvent, ParseState, Piece,
};
use html_parse::{HTMLTag, HTMLTagKind};

fn html<'a>(text: &'a str, start: usize, end: usize) -> MarkdownEvent<'a> {
    MarkdownEvent {
        html: Some(text),
        start,
        end,
    }
}

fn other<'a>(start: usize, end: usize) -> MarkdownEvent<'a> {
    MarkdownEvent {
        html: None,
        start,
        end,
    }
}

#[test]
fn arguments_are_the_first_attribute_of_that_name() {
    assert_eq!(
        arguments_attribute(&vec![("x", Some("1")), ("args", Some("-l")), ("args", Some("-c"))]),
        Some("-l")
    );
    assert_eq!(
        arguments_attribute(&vec![("args", None), ("args", Some("-c"))]),
        None
    );
    assert_eq!(arguments_attribute(&vec![("arg", Some("-c"))]), None);
    assert_eq!(arguments_attribute(&vec![]), None);
}

#[test]
fn tag_of_an_event_is_read_from_its_html() {
    assert_eq!(
        tag_of_event(&html("<wc args=\"-l\">\n", 0, 15)),
        Some(HTMLTag {
            kind: HTMLTagKind::Open,
            name: "wc",
            attributes: vec![("args", Some("-l"))],
        })
    );
    assert_eq!(tag_of_event(&html("hello\n", 0, 6)), None);
    assert_eq!(tag_of_event(&other(0, 6)), None);
}

#[test]
fn events_without_directives_are_all_pieces() {
    assert_eq!(
        parse_events(&vec![other(0, 5), other(0, 3), other(3, 5)]),
        (
            vec![Piece::Markdown(0), Piece::Markdown(1), Piece::Markdown(2)],
            vec![]
        )
    );
    assert_eq!(parse_events(&vec![]), (vec![], vec![]));
}

#[test]
fn directive_takes_the_events_up_to_its_close() {
    let events = vec![
        other(0, 6),
        html("<wc args=\"-l -c\">\n", 7, 25),
        html("one\n", 25, 29),
        html("two\n", 29, 33),
        html("</wc>\n", 33, 39),
        other(40, 45),
    ];
    assert_eq!(
        parse_events(&events),
        (
            vec![Piece::Markdown(0), Piece::EmbedPending, Piece::Markdown(5)],
            vec![EmbedRequest {
                executable: "wc",
                args: Some("-l -c"),
                input_start: 25,
                input_end: 33,
                piece_index: 1,
            }]
        )
    );
}

#[test]
fn nested_elements_are_input() {
    let events = vec![
        html("<cat>", 0, 5),
        html("<b>", 5, 8),
        other(8, 9),
        html("</b>", 9, 13),
        html("</cat>", 13, 19),
        html("</p>", 19, 23),
        other(23, 24),
        html("<p>", 24, 27),
        other(27, 28),
    ];
    assert_eq!(
        parse_events(&events),
        (
            // The stray closing tag takes the depth below 0, where text is
            // still a piece, and the opening tag brings it back to 0.
            vec![Piece::EmbedPending, Piece::Markdown(6), Piece::Markdown(8)],
            vec![EmbedRequest {
                executable: "cat",
                args: None,
                input_start: 5,
                input_end: 13,
                piece_index: 0,
            }]
        )
    );
}

#[test]
fn directive_without_input_is_not_completed_by_its_close() {
    // The closing tag comes right behind the opening one: it is the first
    // event of the input, and the directive stays open.
    assert_eq!(
        parse_events(&vec![html("<date>", 0, 6), html("</date>", 6, 13), other(13, 14)]),
        (vec![Piece::Markdown(2)], vec![])
    );
}

#[test]
fn steps_of_the_reading() {
    let state = ParseState {
        depth: 0,
        parsing: EmbedParsing::Idle,
        pieces: vec![],
        requests: vec![],
    };
    let state = event_step(state, &html("<wc>", 0, 4), 0);
    assert_eq!(state.depth, 1);
    assert_eq!(
        state.parsing,
        EmbedParsing::Start {
            executable: "wc",
            args: None
        }
    );
    let state = event_step(state, &other(4, 9), 1);
    assert_eq!(
        state.parsing,
        EmbedParsing::Partial {
            executable: "wc",
            args: None,
            start: 4,
            end: 9
        }
    );
    let state = event_step(state, &html("<br />", 9, 15), 2);
    assert_eq!(state.depth, 1);
    assert_eq!(
        state.parsing,
        EmbedParsing::Partial {
            executable: "wc",
            args: None,
            start: 4,
            end: 15
        }
    );
    assert_eq!(state.pieces, vec![]);
    let state = event_step(state, &html("</wc>", 15, 20), 3);
    assert_eq!(state.depth, 0);
    assert_eq!(state.parsing, EmbedParsing::Idle);
    assert_eq!(state.pieces, vec![Piece::EmbedPending]);
    assert_eq!(state.requests.len(), 1);
}

#[test]
fn markdown_text_without_html() {
    let (pieces, requests) = do_parse("# Title\n\nSome *text*.\n").unwrap();
    assert_eq!(requests, vec![]);
    assert_eq!(
        pieces,
        (0..pieces.len()).map(Piece::Markdown).collect::<Vec<Piece>>()
    );
    assert!(pieces.len() >= 6);
    assert_eq!(do_parse("").unwrap(), (vec![], vec![]));
}

#[test]
fn markdown_text_with_a_directive() {
    let text = "Before\n\n<wc args=\"-l\">\none\ntwo\n</wc>\n\nAfter\n";
    let (pieces, requests) = do_parse(text).unwrap();
    assert_eq!(requests.len(), 1);
    let request = requests[0];
    assert_eq!(request.executable, "wc");
    assert_eq!(request.args, Some("-l"));
    assert_eq!(&text[request.input_start..request.input_end], "one\ntwo\n");
    assert_eq!(pieces[request.piece_index], Piece::EmbedPending);
    assert_eq!(
        pieces
            .iter()
            .filter(|piece| **piece == Piece::EmbedPending)
            .count(),
        1
    );
}
